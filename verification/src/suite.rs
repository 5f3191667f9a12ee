//! What the backend reports about the suite as a whole: enabled products,
//! the product list, the first-stack setup, product health routing, the
//! health and session summaries and the event log.
use vstd::prelude::*;
use crate::config::{mode_label_of, selection_enables, ProductSelection};
use crate::env::EnvSnapshot;
use crate::gateway::{failure, GatewayFailure};
use crate::models::{
    ErrorResponse, HealthResponse, LauncherStatus, ProductHealthResponse, ProductResponse,
    SessionResponse, SetupProduct, SetupResponse, SuiteEvent,
};
use crate::registry::{
    describes, health_message, keys_of, position_in, product_target, sets_up, stage_of, status_of,
    ManifestView, ProductRegistry,
};
use crate::text::owned;

verus! {

/// The number of products of `reg` that the selection enables.
pub open spec fn enabled_count(reg: Seq<ManifestView>, sel: Option<Set<Seq<char>>>) -> nat
    decreases reg.len(),
{
    if reg.len() == 0 {
        0
    } else {
        enabled_count(reg.drop_last(), sel) + if selection_enables(sel, reg.last().key) {
            1nat
        } else {
            0nat
        }
    }
}

/// No selection enables more products than the registry holds.
pub proof fn law_enabled_count_at_most_registry(reg: Seq<ManifestView>, sel: Option<Set<Seq<char>>>)
    ensures
        enabled_count(reg, sel) <= reg.len(),
    decreases reg.len(),
{
    if reg.len() > 0 {
        law_enabled_count_at_most_registry(reg.drop_last(), sel);
    }
}

/// The enabled count is the number of registered products whose key the
/// selection enables.
pub proof fn law_enabled_count_counts_enabled_products(
    reg: Seq<ManifestView>,
    sel: Option<Set<Seq<char>>>,
)
    ensures
        enabled_count(reg, sel) == reg.filter(|m: ManifestView| selection_enables(sel, m.key)).len(),
    decreases reg.len(),
{
    reveal(Seq::filter);
    if reg.len() > 0 {
        law_enabled_count_counts_enabled_products(reg.drop_last(), sel);
    }
}

/// In suite mode every registered product is enabled.
pub proof fn law_suite_mode_enables_every_product(reg: Seq<ManifestView>)
    ensures
        enabled_count(reg, None) == reg.len(),
    decreases reg.len(),
{
    if reg.len() > 0 {
        law_suite_mode_enables_every_product(reg.drop_last());
    }
}

impl ProductRegistry {
    /// The number of products the selection enables.
    pub fn enabled_product_count(&self, selection: &ProductSelection) -> (r: usize)
        ensures
            r == enabled_count(self@, selection@),
    {
        let products = self.products();
        let mut count: usize = 0;
        let mut i: usize = 0;
        while i < products.len()
            invariant
                crate::registry::views(products@) == self@,
                i <= products@.len(),
                count == enabled_count(self@.take(i as int), selection@),
                count <= i,
            decreases products@.len() - i,
        {
            proof {
                assert(self@.take(i + 1).drop_last() =~= self@.take(i as int));
                assert(self@.take(i + 1).last() == products@[i as int]@);
            }
            if selection.enables(products[i].key.as_str()) {
                count = count + 1;
            }
            i = i + 1;
        }
        assert(self@.take(products@.len() as int) =~= self@);
        count
    }

    /// Every product, in suite order, as `GET /api/products` lists it.
    pub fn product_responses(&self, selection: &ProductSelection, env: &EnvSnapshot) -> (r: Vec<
        ProductResponse,
    >)
        ensures
            r@.len() == self@.len(),
            forall|i: int|
                0 <= i < r@.len() ==> describes(
                    #[trigger] r@[i],
                    self@[i],
                    selection_enables(selection@, self@[i].key),
                    *env,
                ),
    {
        let products = self.products();
        let mut out: Vec<ProductResponse> = Vec::new();
        let mut i: usize = 0;
        while i < products.len()
            invariant
                crate::registry::views(products@) == self@,
                i <= products@.len(),
                out@.len() == i,
                forall|j: int|
                    0 <= j < i ==> describes(
                        #[trigger] out@[j],
                        self@[j],
                        selection_enables(selection@, self@[j].key),
                        *env,
                    ),
            decreases products@.len() - i,
        {
            let enabled = selection.enables(products[i].key.as_str());
            out.push(products[i].to_response(enabled, env));
            i = i + 1;
        }
        out
    }

    /// The first-stack setup: no suite bootstrap, the launcher not
    /// configured here, every product in suite order, and `actions`.
    pub fn first_stack_status(
        &self,
        selection: &ProductSelection,
        env: &EnvSnapshot,
        actions: Vec<String>,
    ) -> (r: SetupResponse)
        ensures
            !r.suite_bootstrap_configured,
            !r.launcher.available,
            r.launcher.status@ == "not-configured"@,
            r.launcher.message@
                == "Launcher authority still lives in the existing HiveCore backend during this migration step."@,
            r.products@.len() == self@.len(),
            forall|i: int|
                0 <= i < r.products@.len() ==> sets_up(
                    #[trigger] r.products@[i],
                    self@[i],
                    selection_enables(selection@, self@[i].key),
                    *env,
                ),
            r.actions@ == actions@,
    {
        let products = self.products();
        let mut out: Vec<SetupProduct> = Vec::new();
        let mut i: usize = 0;
        while i < products.len()
            invariant
                crate::registry::views(products@) == self@,
                i <= products@.len(),
                out@.len() == i,
                forall|j: int|
                    0 <= j < i ==> sets_up(
                        #[trigger] out@[j],
                        self@[j],
                        selection_enables(selection@, self@[j].key),
                        *env,
                    ),
            decreases products@.len() - i,
        {
            let enabled = selection.enables(products[i].key.as_str());
            out.push(products[i].to_setup_product(enabled, env));
            i = i + 1;
        }
        SetupResponse {
            suite_bootstrap_configured: false,
            launcher: LauncherStatus {
                available: false,
                status: "not-configured",
                message: "Launcher authority still lives in the existing HiveCore backend during this migration step.",
            },
            products: out,
            actions,
        }
    }
}

/// How `GET /api/products/<key>/health` is answered.
#[derive(Debug)]
pub enum ProductHealthRoute {
    /// Forward it through the gateway: the product has a gateway target.
    Gateway,
    /// Answer with the product's own health report.
    Report(ProductHealthResponse),
    /// Answer 404 with this refusal: no product has the key.
    Unknown(GatewayFailure),
}

/// How the health route of the product `key` is answered.
pub fn product_health_route(
    registry: &ProductRegistry,
    selection: &ProductSelection,
    env: &EnvSnapshot,
    key: &str,
) -> (r: ProductHealthRoute)
    ensures
        ({
            let pos = position_in(keys_of(registry@), key@);
            if pos < 0 {
                r matches ProductHealthRoute::Unknown(f) && f@ == failure(
                    404,
                    "unknown-product"@,
                    "No PatchHive product is registered with key `"@ + key@ + "`."@,
                )
            } else {
                let m = registry@[pos];
                let enabled = selection_enables(selection@, m.key);
                if product_target(m, *env) is Some {
                    r is Gateway
                } else {
                    r matches ProductHealthRoute::Report(h) && h.key@ == m.key && h.name@
                        == m.name && h.enabled == enabled && h.status == status_of(enabled, false)
                        && h.migration_stage == stage_of(m) && h.message@ == health_message(
                        m.name,
                        enabled,
                    )
                }
            }
        }),
{
    match registry.find(key) {
        Some(product) => {
            if product.gateway_target_url(env).is_some() {
                ProductHealthRoute::Gateway
            } else {
                let enabled = selection.enables(product.key.as_str());
                ProductHealthRoute::Report(product.to_health_response(enabled, env))
            }
        },
        None => {
            let mut m = owned("No PatchHive product is registered with key `");
            m.append(key);
            m.append("`.");
            ProductHealthRoute::Unknown(
                GatewayFailure { status: 404, body: ErrorResponse { error: "unknown-product", message: m } },
            )
        },
    }
}

/// The backend's health summary.
pub fn health_report(
    registry: &ProductRegistry,
    selection: &ProductSelection,
    version: &'static str,
    db_ok: bool,
    product_override_count: usize,
) -> (r: HealthResponse)
    ensures
        r.service@ == "patchhive-backend"@,
        r.status@ == "ok"@,
        r.version == version,
        r.mode@ == mode_label_of(selection@),
        r.enabled_products == enabled_count(registry@, selection@),
        r.db_ok == db_ok,
        r.product_override_count == product_override_count,
{
    HealthResponse {
        service: "patchhive-backend",
        status: "ok",
        version,
        mode: selection.mode_label(),
        enabled_products: registry.enabled_product_count(selection),
        db_ok,
        product_override_count,
    }
}

/// The session summary: authenticated, no auth configured.
pub fn session_report(registry: &ProductRegistry, selection: &ProductSelection) -> (r:
    SessionResponse)
    ensures
        r.service@ == "patchhive-backend"@,
        r.authenticated,
        !r.auth_configured,
        r.mode@ == mode_label_of(selection@),
        r.enabled_products == enabled_count(registry@, selection@),
{
    SessionResponse {
        service: "patchhive-backend",
        authenticated: true,
        auth_configured: false,
        mode: selection.mode_label(),
        enabled_products: registry.enabled_product_count(selection),
    }
}

/// The event log as reported: the recorded events, or only the startup
/// event when none is recorded.
pub fn events_or_startup(events: Vec<SuiteEvent>, startup: SuiteEvent) -> (r: Vec<SuiteEvent>)
    ensures
        events@.len() == 0 ==> r@ == seq![startup],
        events@.len() > 0 ==> r@ == events@,
{
    if events.len() == 0 {
        let mut v: Vec<SuiteEvent> = Vec::new();
        v.push(startup);
        assert(v@ =~= seq![startup]);
        v
    } else {
        events
    }
}

} // verus!
