//! Gateway dispatch: the decisions the backend takes while it forwards a
//! request under `/api/products/<key>/` to the product's own backend.
//!
//! The caller performs the outside work (the health probe, reading the
//! request body, sending the request, reading the response) and hands
//! each outcome to the function that decides the next step. Every
//! refusal is a `GatewayFailure`: an HTTP status and an error body.
use vstd::prelude::*;
use crate::config::{selection_enables, ProductSelection};
use crate::env::EnvSnapshot;
use crate::models::ErrorResponse;
use crate::registry::{
    claim_position, keys_of, position_in, product_target, ManifestView, ProductManifest,
    ProductRegistry,
};
use crate::text::{
    ascii_lower, chars_of, decimal, lowered, owned, push_char, push_chars, push_decimal,
    range_equals,
};

verus! {

/// The largest request body the gateway forwards, in bytes.
pub const MAX_GATEWAY_BODY_BYTES: usize = 26214400;

/// A refused gateway request: the HTTP status and the error body.
#[derive(Debug)]
pub struct GatewayFailure {
    pub status: u16,
    pub body: ErrorResponse,
}

/// The view of a refusal.
pub struct FailureView {
    pub status: u16,
    pub error: Seq<char>,
    pub message: Seq<char>,
}

impl View for GatewayFailure {
    type V = FailureView;

    open spec fn view(&self) -> FailureView {
        FailureView { status: self.status, error: self.body.error@, message: self.body.message@ }
    }
}

/// The health probe the gateway runs before it forwards a request.
#[derive(Debug)]
pub struct HealthProbe {
    /// Where to send `GET`.
    pub url: String,
    /// How long to wait, in milliseconds (at least 1).
    pub timeout_ms: u64,
    /// The status a healthy product answers with.
    pub healthy_status: u16,
    /// The product's health route, for messages.
    pub endpoint: String,
    /// The product's name, for messages.
    pub product_name: String,
}

/// The view of a health probe.
pub struct ProbeView {
    pub url: Seq<char>,
    pub timeout_ms: u64,
    pub healthy_status: u16,
    pub endpoint: Seq<char>,
    pub product_name: Seq<char>,
}

impl View for HealthProbe {
    type V = ProbeView;

    open spec fn view(&self) -> ProbeView {
        ProbeView {
            url: self.url@,
            timeout_ms: self.timeout_ms,
            healthy_status: self.healthy_status,
            endpoint: self.endpoint@,
            product_name: self.product_name@,
        }
    }
}

/// A request that waits for its health probe before it is forwarded.
#[derive(Debug)]
pub struct PendingForward {
    pub product_name: String,
    pub route_prefix: String,
    pub target_url: String,
    pub path: String,
    pub query: Option<String>,
}

/// The view of a waiting request.
pub struct PendingView {
    pub product_name: Seq<char>,
    pub route_prefix: Seq<char>,
    pub target_url: Seq<char>,
    pub path: Seq<char>,
    pub query: Option<Seq<char>>,
}

impl View for PendingForward {
    type V = PendingView;

    open spec fn view(&self) -> PendingView {
        PendingView {
            product_name: self.product_name@,
            route_prefix: self.route_prefix@,
            target_url: self.target_url@,
            path: self.path@,
            query: match self.query {
                Some(q) => Some(q@),
                None => None,
            },
        }
    }
}

/// A request cleared for forwarding.
#[derive(Debug)]
pub struct ForwardContext {
    pub product_name: String,
    pub target_url: String,
    pub downstream_url: String,
}

/// The view of a cleared request.
pub struct ContextView {
    pub product_name: Seq<char>,
    pub target_url: Seq<char>,
    pub downstream_url: Seq<char>,
}

impl View for ForwardContext {
    type V = ContextView;

    open spec fn view(&self) -> ContextView {
        ContextView {
            product_name: self.product_name@,
            target_url: self.target_url@,
            downstream_url: self.downstream_url@,
        }
    }
}

/// What the gateway does next with a request.
#[derive(Debug)]
pub enum GatewayStep {
    /// Answer with this refusal.
    Fail(GatewayFailure),
    /// Run the probe, then hand its outcome to `after_health_check`.
    CheckHealth { probe: HealthProbe, pending: PendingForward },
    /// Read the request body and forward the request.
    Forward(ForwardContext),
}

/// The view of a step.
pub enum StepView {
    Fail(FailureView),
    CheckHealth(ProbeView, PendingView),
    Forward(ContextView),
}

impl View for GatewayStep {
    type V = StepView;

    open spec fn view(&self) -> StepView {
        match self {
            GatewayStep::Fail(f) => StepView::Fail(f@),
            GatewayStep::CheckHealth { probe, pending } => StepView::CheckHealth(probe@, pending@),
            GatewayStep::Forward(c) => StepView::Forward(c@),
        }
    }
}

/// A refusal with the given status, code and message.
pub open spec fn failure(status: u16, error: Seq<char>, message: Seq<char>) -> FailureView {
    FailureView { status, error, message }
}

/// The URL on the product's backend for `path` under `route_prefix`:
/// the target, then the rest of the path after the prefix (`/` when
/// nothing is left), then `?` and the query when there is one. None when
/// the path does not start with the prefix.
pub open spec fn downstream_url(
    route_prefix: Seq<char>,
    target_url: Seq<char>,
    path: Seq<char>,
    query: Option<Seq<char>>,
) -> Option<Seq<char>> {
    if route_prefix.len() <= path.len() && path.take(route_prefix.len() as int) == route_prefix {
        let rest = path.skip(route_prefix.len() as int);
        let tail = match query {
            Some(q) => seq!['?'] + q,
            None => Seq::<char>::empty(),
        };
        Some(target_url + (if rest.len() == 0 {
            seq!['/']
        } else {
            rest
        }) + tail)
    } else {
        None
    }
}

/// The first gateway step for a request to `product_key` with the given
/// method, path and query.
pub open spec fn planned_step(
    reg: Seq<ManifestView>,
    sel: Option<Set<Seq<char>>>,
    env: EnvSnapshot,
    key: Seq<char>,
    method: Seq<char>,
    path: Seq<char>,
    query: Option<Seq<char>>,
) -> StepView {
    let pos = position_in(keys_of(reg), key);
    if pos < 0 {
        StepView::Fail(
            failure(
                404,
                "unknown-product"@,
                "No PatchHive product is registered with key `"@ + key + "`."@,
            ),
        )
    } else {
        let m = reg[pos];
        if !selection_enables(sel, m.key) {
            StepView::Fail(
                failure(403, "product-disabled"@, m.name + " is disabled by PATCHHIVE_PRODUCTS."@),
            )
        } else {
            match product_target(m, env) {
                None => StepView::Fail(
                    failure(
                        502,
                        "gateway-unconfigured"@,
                        m.name + " does not have a gateway target configured."@,
                    ),
                ),
                Some(t) => if claim_position(m.routes, method, path) < 0 {
                    StepView::Fail(
                        failure(
                            404,
                            "route-not-claimed"@,
                            m.name + " does not claim gateway route `"@ + method + "` "@ + path
                                + "."@,
                        ),
                    )
                } else {
                    health_step(m, t, path, query)
                },
            }
        }
    }
}

/// The step after the route checks: the health probe, unless the
/// product has no health route or the request is for it.
pub open spec fn health_step(
    m: ManifestView,
    target: Seq<char>,
    path: Seq<char>,
    query: Option<Seq<char>>,
) -> StepView {
    let pending = PendingView {
        product_name: m.name,
        route_prefix: m.route_prefix,
        target_url: target,
        path,
        query,
    };
    if m.health.endpoint.len() == 0 || path == m.health.endpoint {
        forward_step(pending)
    } else {
        match downstream_url(m.route_prefix, target, m.health.endpoint, None) {
            None => StepView::Fail(
                failure(
                    502,
                    "gateway-health-prefix-mismatch"@,
                    "Health endpoint `"@ + m.health.endpoint + "` does not live under "@
                        + m.route_prefix + "."@,
                ),
            ),
            Some(u) => StepView::CheckHealth(
                ProbeView {
                    url: u,
                    timeout_ms: if m.health.timeout_ms < 1 {
                        1
                    } else {
                        m.health.timeout_ms
                    },
                    healthy_status: m.health.healthy_status,
                    endpoint: m.health.endpoint,
                    product_name: m.name,
                },
                pending,
            ),
        }
    }
}

/// Forwarding a request that passed its checks.
pub open spec fn forward_step(p: PendingView) -> StepView {
    match downstream_url(p.route_prefix, p.target_url, p.path, p.query) {
        None => StepView::Fail(
            failure(
                502,
                "gateway-prefix-mismatch"@,
                "Route `"@ + p.path + "` does not live under "@ + p.route_prefix + "."@,
            ),
        ),
        Some(u) => StepView::Forward(
            ContextView { product_name: p.product_name, target_url: p.target_url, downstream_url: u },
        ),
    }
}

/// The step after the health probe answered `outcome` (the status it got,
/// or why it got none).
pub open spec fn health_checked_step(
    probe: ProbeView,
    pending: PendingView,
    outcome: Result<u16, Seq<char>>,
) -> StepView {
    match outcome {
        Err(e) => StepView::Fail(
            failure(
                503,
                "product-unavailable"@,
                probe.product_name + " health check failed at "@ + probe.endpoint + ": "@ + e,
            ),
        ),
        Ok(s) => if s == probe.healthy_status {
            forward_step(pending)
        } else {
            StepView::Fail(
                failure(
                    503,
                    "product-unavailable"@,
                    probe.product_name + " health check returned "@ + decimal(s as nat)
                        + ", expected "@ + decimal(probe.healthy_status as nat) + "."@,
                ),
            )
        },
    }
}

fn fail(status: u16, error: &'static str, message: String) -> (r: GatewayFailure)
    ensures
        r@ == failure(status, error@, message@),
{
    GatewayFailure { status, body: ErrorResponse { error, message } }
}

/// The URL on the product's backend for `path` under `route_prefix`
/// (see `downstream_url`).
pub fn join_downstream(route_prefix: &str, target_url: &str, path: &str, query: Option<&str>) -> (r:
    Option<String>)
    ensures
        match r {
            Some(u) => downstream_url(
                route_prefix@,
                target_url@,
                path@,
                match query {
                    Some(q) => Some(q@),
                    None => None,
                },
            ) == Some(u@),
            None => downstream_url(
                route_prefix@,
                target_url@,
                path@,
                match query {
                    Some(q) => Some(q@),
                    None => None,
                },
            ) is None,
        },
{
    let p = chars_of(path);
    let n = route_prefix.unicode_len();
    if n > p.len() || !range_equals(&p, 0, n, route_prefix) {
        proof {
            if n <= p@.len() {
                assert(p@.subrange(0, n as int) =~= p@.take(n as int));
            }
        }
        return None;
    }
    assert(p@.subrange(0, n as int) =~= p@.take(n as int));
    let mut url = owned(target_url);
    if n == p.len() {
        push_char(&mut url, '/');
        assert(p@.skip(n as int) =~= Seq::<char>::empty());
    } else {
        push_chars(&mut url, &p, n, p.len());
        assert(p@.subrange(n as int, p@.len() as int) =~= p@.skip(n as int));
    }
    let ghost base = url@;
    match query {
        Some(q) => {
            push_char(&mut url, '?');
            url.append(q);
            assert(url@ =~= base + (seq!['?'] + q@));
        },
        None => {
            assert(url@ =~= base + Seq::<char>::empty());
        },
    }
    Some(url)
}

/// The URL on `product`'s backend, at `target_url`, for a request to
/// `path` with `query`; None when the path is not under the product's
/// route prefix.
pub fn downstream_url_for(
    product: &ProductManifest,
    target_url: &str,
    path: &str,
    query: Option<&str>,
) -> (r: Option<String>)
    ensures
        match r {
            Some(u) => downstream_url(
                product.route_prefix@,
                target_url@,
                path@,
                match query {
                    Some(q) => Some(q@),
                    None => None,
                },
            ) == Some(u@),
            None => downstream_url(
                product.route_prefix@,
                target_url@,
                path@,
                match query {
                    Some(q) => Some(q@),
                    None => None,
                },
            ) is None,
        },
{
    join_downstream(product.route_prefix.as_str(), target_url, path, query)
}

fn forward(pending: PendingForward) -> (r: GatewayStep)
    ensures
        r@ == forward_step(pending@),
{
    let q: Option<&str> = match &pending.query {
        Some(v) => Some(v.as_str()),
        None => None,
    };
    match join_downstream(
        pending.route_prefix.as_str(),
        pending.target_url.as_str(),
        pending.path.as_str(),
        q,
    ) {
        Some(u) => GatewayStep::Forward(
            ForwardContext {
                product_name: pending.product_name,
                target_url: pending.target_url,
                downstream_url: u,
            },
        ),
        None => {
            let mut m = owned("Route `");
            m.append(pending.path.as_str());
            m.append("` does not live under ");
            m.append(pending.route_prefix.as_str());
            m.append(".");
            GatewayStep::Fail(fail(502, "gateway-prefix-mismatch", m))
        },
    }
}

/// The first step for a request to the product `product_key`: refused
/// when no product has that key (404 `unknown-product`), when the
/// selection disables it (403 `product-disabled`), when it has no
/// gateway target (502 `gateway-unconfigured`), when none of its route
/// claims covers the method and path (404 `route-not-claimed`);
/// otherwise the health probe, or forwarding when no probe is due.
pub fn plan_gateway_request(
    registry: &ProductRegistry,
    selection: &ProductSelection,
    env: &EnvSnapshot,
    product_key: &str,
    method: &str,
    path: &str,
    query: Option<&str>,
) -> (r: GatewayStep)
    ensures
        r@ == planned_step(
            registry@,
            selection@,
            *env,
            product_key@,
            method@,
            path@,
            match query {
                Some(q) => Some(q@),
                None => None,
            },
        ),
{
    let product = match registry.find(product_key) {
        Some(p) => p,
        None => {
            let mut m = owned("No PatchHive product is registered with key `");
            m.append(product_key);
            m.append("`.");
            return GatewayStep::Fail(fail(404, "unknown-product", m));
        },
    };
    if !selection.enables(product.key.as_str()) {
        let mut m = product.name.clone();
        m.append(" is disabled by PATCHHIVE_PRODUCTS.");
        return GatewayStep::Fail(fail(403, "product-disabled", m));
    }
    let target_url = match product.gateway_target_url(env) {
        Some(t) => t,
        None => {
            let mut m = product.name.clone();
            m.append(" does not have a gateway target configured.");
            return GatewayStep::Fail(fail(502, "gateway-unconfigured", m));
        },
    };
    if product.route_claim_for(method, path).is_none() {
        let mut m = product.name.clone();
        m.append(" does not claim gateway route `");
        m.append(method);
        m.append("` ");
        m.append(path);
        m.append(".");
        return GatewayStep::Fail(fail(404, "route-not-claimed", m));
    }
    let pending = PendingForward {
        product_name: product.name.clone(),
        route_prefix: product.route_prefix.clone(),
        target_url,
        path: owned(path),
        query: match query {
            Some(q) => Some(owned(q)),
            None => None,
        },
    };
    let endpoint = product.health.endpoint.as_str();
    if endpoint.unicode_len() == 0 || crate::text::same_text(path, endpoint) {
        return forward(pending);
    }
    match join_downstream(
        product.route_prefix.as_str(),
        pending.target_url.as_str(),
        endpoint,
        None,
    ) {
        Some(u) => {
            let timeout_ms: u64 = if product.health.timeout_ms < 1 {
                1
            } else {
                product.health.timeout_ms
            };
            GatewayStep::CheckHealth {
                probe: HealthProbe {
                    url: u,
                    timeout_ms,
                    healthy_status: product.health.healthy_status,
                    endpoint: product.health.endpoint.clone(),
                    product_name: product.name.clone(),
                },
                pending,
            }
        },
        None => {
            let mut m = owned("Health endpoint `");
            m.append(endpoint);
            m.append("` does not live under ");
            m.append(product.route_prefix.as_str());
            m.append(".");
            GatewayStep::Fail(fail(502, "gateway-health-prefix-mismatch", m))
        },
    }
}

/// The step after the health probe: refused (503 `product-unavailable`)
/// when the probe failed or answered another status than the healthy
/// one; otherwise forwarding.
pub fn after_health_check(probe: &HealthProbe, pending: PendingForward, outcome: Result<
    u16,
    String,
>) -> (r: GatewayStep)
    ensures
        r@ == health_checked_step(
            probe@,
            pending@,
            match outcome {
                Ok(s) => Ok(s),
                Err(e) => Err(e@),
            },
        ),
{
    match outcome {
        Err(e) => {
            let mut m = probe.product_name.clone();
            m.append(" health check failed at ");
            m.append(probe.endpoint.as_str());
            m.append(": ");
            m.append(e.as_str());
            GatewayStep::Fail(fail(503, "product-unavailable", m))
        },
        Ok(s) => {
            if s == probe.healthy_status {
                forward(pending)
            } else {
                let mut m = probe.product_name.clone();
                m.append(" health check returned ");
                push_decimal(&mut m, s as u64);
                m.append(", expected ");
                push_decimal(&mut m, probe.healthy_status as u64);
                m.append(".");
                GatewayStep::Fail(fail(503, "product-unavailable", m))
            }
        },
    }
}

/// The outcome of reading the request body: refused (400
/// `gateway-body-read-failed`) when it could not be read.
pub fn after_body_read(outcome: Result<(), String>) -> (r: Result<(), GatewayFailure>)
    ensures
        match outcome {
            Ok(()) => r is Ok,
            Err(e) => r matches Err(f) && f@ == failure(
                400,
                "gateway-body-read-failed"@,
                "Could not read request body for gateway dispatch: "@ + e@,
            ),
        },
{
    match outcome {
        Ok(()) => Ok(()),
        Err(e) => {
            let mut m = owned("Could not read request body for gateway dispatch: ");
            m.append(e.as_str());
            Err(fail(400, "gateway-body-read-failed", m))
        },
    }
}

/// The outcome of converting the request method for the outgoing
/// request: refused (400 `gateway-method-invalid`) when it failed.
pub fn after_method_conversion(outcome: Result<(), String>) -> (r: Result<(), GatewayFailure>)
    ensures
        match outcome {
            Ok(()) => r is Ok,
            Err(e) => r matches Err(f) && f@ == failure(
                400,
                "gateway-method-invalid"@,
                "Could not convert request method for gateway dispatch: "@ + e@,
            ),
        },
{
    match outcome {
        Ok(()) => Ok(()),
        Err(e) => {
            let mut m = owned("Could not convert request method for gateway dispatch: ");
            m.append(e.as_str());
            Err(fail(400, "gateway-method-invalid", m))
        },
    }
}

/// The status the gateway answers with for a downstream status: the
/// same when it is a valid HTTP status (100 to 999), else 502.
pub open spec fn relayed_status(code: u16) -> u16 {
    if 100 <= code <= 999 {
        code
    } else {
        502
    }
}

/// The outcome of sending the request: refused (502
/// `gateway-request-failed`) when the product could not be reached,
/// else the status to relay.
pub fn after_send(context: &ForwardContext, outcome: Result<u16, String>) -> (r: Result<
    u16,
    GatewayFailure,
>)
    ensures
        match outcome {
            Ok(code) => r == Ok::<u16, GatewayFailure>(relayed_status(code)) && (100 <= code <= 999
                ==> r == Ok::<u16, GatewayFailure>(code)) && (!(100 <= code <= 999) ==> r == Ok::<
                u16,
                GatewayFailure,
            >(502)),
            Err(e) => r matches Err(f) && f@ == failure(
                502,
                "gateway-request-failed"@,
                "Could not reach "@ + context.product_name@ + " gateway at "@
                    + context.target_url@ + ": "@ + e@,
            ),
        },
{
    match outcome {
        Ok(code) => {
            if 100 <= code && code <= 999 {
                Ok(code)
            } else {
                Ok(502)
            }
        },
        Err(e) => {
            let mut m = owned("Could not reach ");
            m.append(context.product_name.as_str());
            m.append(" gateway at ");
            m.append(context.target_url.as_str());
            m.append(": ");
            m.append(e.as_str());
            Err(fail(502, "gateway-request-failed", m))
        },
    }
}

/// The outcome of reading the product's response: refused (502
/// `gateway-response-read-failed`) when it could not be read.
pub fn after_response_read(context: &ForwardContext, outcome: Result<(), String>) -> (r: Result<
    (),
    GatewayFailure,
>)
    ensures
        match outcome {
            Ok(()) => r is Ok,
            Err(e) => r matches Err(f) && f@ == failure(
                502,
                "gateway-response-read-failed"@,
                "Could not read "@ + context.product_name@ + " gateway response: "@ + e@,
            ),
        },
{
    match outcome {
        Ok(()) => Ok(()),
        Err(e) => {
            let mut m = owned("Could not read ");
            m.append(context.product_name.as_str());
            m.append(" gateway response: ");
            m.append(e.as_str());
            Err(fail(502, "gateway-response-read-failed", m))
        },
    }
}

/// The refusal when the relayed response could not be built.
pub fn response_build_failure() -> (r: GatewayFailure)
    ensures
        r@ == failure(502, "gateway-response-build-failed"@, "Could not build gateway response."@),
{
    fail(502, "gateway-response-build-failed", owned("Could not build gateway response."))
}

/// Whether a header name (in any ASCII case) is `host` or a hop-by-hop
/// header.
pub open spec fn skipped_request_header(name: Seq<char>) -> bool {
    ascii_lower(name) == "host"@ || skipped_response_header(name)
}

/// Whether a header name (in any ASCII case) is a hop-by-hop header.
pub open spec fn skipped_response_header(name: Seq<char>) -> bool {
    let n = ascii_lower(name);
    ||| n == "connection"@
    ||| n == "content-length"@
    ||| n == "transfer-encoding"@
    ||| n == "upgrade"@
    ||| n == "proxy-authenticate"@
    ||| n == "proxy-authorization"@
    ||| n == "te"@
    ||| n == "trailer"@
    ||| n == "keep-alive"@
}

/// Whether the gateway drops this request header instead of forwarding it.
pub fn should_skip_request_header(name: &str) -> (r: bool)
    ensures
        r == skipped_request_header(name@),
{
    let l = lowered(&chars_of(name));
    let n = l.len();
    let host = range_equals(&l, 0, n, "host");
    assert(l@.subrange(0, n as int) =~= l@);
    host || should_skip_response_header(name)
}

/// Whether the gateway drops this response header instead of relaying it.
pub fn should_skip_response_header(name: &str) -> (r: bool)
    ensures
        r == skipped_response_header(name@),
{
    let l = lowered(&chars_of(name));
    let n = l.len();
    assert(l@.subrange(0, n as int) =~= l@);
    range_equals(&l, 0, n, "connection") || range_equals(&l, 0, n, "content-length")
        || range_equals(&l, 0, n, "transfer-encoding") || range_equals(&l, 0, n, "upgrade")
        || range_equals(&l, 0, n, "proxy-authenticate") || range_equals(
        &l,
        0,
        n,
        "proxy-authorization",
    ) || range_equals(&l, 0, n, "te") || range_equals(&l, 0, n, "trailer") || range_equals(
        &l,
        0,
        n,
        "keep-alive",
    )
}

/// A request for a product that no manifest declares is refused with
/// 404 `unknown-product`.
pub proof fn law_unknown_product_refused(
    reg: Seq<ManifestView>,
    sel: Option<Set<Seq<char>>>,
    env: EnvSnapshot,
    key: Seq<char>,
    method: Seq<char>,
    path: Seq<char>,
    query: Option<Seq<char>>,
)
    requires
        forall|i: int| 0 <= i < reg.len() ==> (#[trigger] reg[i]).key != key,
    ensures
        planned_step(reg, sel, env, key, method, path, query) matches StepView::Fail(f) && f.status
            == 404 && f.error == "unknown-product"@,
{
    crate::registry::lemma_position_in(keys_of(reg), key, reg.len() as int);
}

/// A request for a product that the selection disables is refused with
/// 403 `product-disabled`.
pub proof fn law_disabled_product_refused(
    reg: Seq<ManifestView>,
    sel: Option<Set<Seq<char>>>,
    env: EnvSnapshot,
    key: Seq<char>,
    method: Seq<char>,
    path: Seq<char>,
    query: Option<Seq<char>>,
)
    requires
        position_in(keys_of(reg), key) >= 0,
        !selection_enables(sel, key),
    ensures
        planned_step(reg, sel, env, key, method, path, query) matches StepView::Fail(f) && f.status
            == 403 && f.error == "product-disabled"@,
{
    crate::registry::lemma_position_bounds(keys_of(reg), key);
}

/// A request for an enabled product without a gateway target is refused
/// with 502 `gateway-unconfigured`.
pub proof fn law_missing_target_refused(
    reg: Seq<ManifestView>,
    sel: Option<Set<Seq<char>>>,
    env: EnvSnapshot,
    key: Seq<char>,
    method: Seq<char>,
    path: Seq<char>,
    query: Option<Seq<char>>,
)
    requires
        position_in(keys_of(reg), key) >= 0,
        selection_enables(sel, key),
        product_target(reg[position_in(keys_of(reg), key)], env) is None,
    ensures
        planned_step(reg, sel, env, key, method, path, query) matches StepView::Fail(f) && f.status
            == 502 && f.error == "gateway-unconfigured"@,
{
    crate::registry::lemma_position_bounds(keys_of(reg), key);
}

/// A request that no route claim of an enabled, reachable product covers
/// is refused with 404 `route-not-claimed`.
pub proof fn law_unclaimed_route_refused(
    reg: Seq<ManifestView>,
    sel: Option<Set<Seq<char>>>,
    env: EnvSnapshot,
    key: Seq<char>,
    method: Seq<char>,
    path: Seq<char>,
    query: Option<Seq<char>>,
)
    requires
        position_in(keys_of(reg), key) >= 0,
        selection_enables(sel, key),
        product_target(reg[position_in(keys_of(reg), key)], env) is Some,
        claim_position(reg[position_in(keys_of(reg), key)].routes, method, path) < 0,
    ensures
        planned_step(reg, sel, env, key, method, path, query) matches StepView::Fail(f) && f.status
            == 404 && f.error == "route-not-claimed"@,
{
    crate::registry::lemma_position_bounds(keys_of(reg), key);
}

/// A forwarded request goes to the product's target: the downstream URL
/// is the target URL followed by the rest of the path (`/` when nothing
/// is left) and the query.
pub proof fn law_forwarded_url_extends_target(p: PendingView)
    ensures
        forward_step(p) matches StepView::Forward(c) ==> c.target_url == p.target_url
            && c.downstream_url.len() > p.target_url.len() && c.downstream_url.take(
            p.target_url.len() as int,
        ) == p.target_url,
{
    if let Some(u) = downstream_url(p.route_prefix, p.target_url, p.path, p.query) {
        let rest = p.path.skip(p.route_prefix.len() as int);
        let tail = match p.query {
            Some(q) => seq!['?'] + q,
            None => Seq::<char>::empty(),
        };
        let mid = if rest.len() == 0 {
            seq!['/']
        } else {
            rest
        };
        assert((p.target_url + mid + tail).take(p.target_url.len() as int) =~= p.target_url);
    }
}

/// The gateway drops every header from requests that it drops from
/// responses, and `host` besides.
pub proof fn law_request_headers_skip_more(name: Seq<char>)
    ensures
        skipped_response_header(name) ==> skipped_request_header(name),
        skipped_request_header(name) <==> (skipped_response_header(name) || ascii_lower(name)
            == "host"@),
{
}

/// Only a claimed route of an enabled product with a gateway target is
/// probed or forwarded.
pub proof fn law_dispatched_requests_are_claimed(
    reg: Seq<ManifestView>,
    sel: Option<Set<Seq<char>>>,
    env: EnvSnapshot,
    key: Seq<char>,
    method: Seq<char>,
    path: Seq<char>,
    query: Option<Seq<char>>,
)
    requires
        !(planned_step(reg, sel, env, key, method, path, query) is Fail),
    ensures
        position_in(keys_of(reg), key) >= 0,
        reg[position_in(keys_of(reg), key)].key == key,
        selection_enables(sel, key),
        product_target(reg[position_in(keys_of(reg), key)], env) is Some,
        claim_position(reg[position_in(keys_of(reg), key)].routes, method, path) >= 0,
{
    crate::registry::lemma_position_bounds(keys_of(reg), key);
}

/// A forwarded request reaches the product's backend with the product's
/// route prefix stripped from its path.
pub proof fn law_forwarding_strips_the_prefix(p: PendingView)
    ensures
        forward_step(p) matches StepView::Forward(c) ==> {
            let rest = p.path.skip(p.route_prefix.len() as int);
            &&& p.path == p.route_prefix + rest
            &&& c.downstream_url == p.target_url + (if rest.len() == 0 {
                seq!['/']
            } else {
                rest
            }) + match p.query {
                Some(q) => seq!['?'] + q,
                None => Seq::<char>::empty(),
            }
        },
{
    if let Some(u) = downstream_url(p.route_prefix, p.target_url, p.path, p.query) {
        let rest = p.path.skip(p.route_prefix.len() as int);
        assert(p.path =~= p.path.take(p.route_prefix.len() as int) + rest);
    }
}

/// Whether the request passes the product, selection, target and claim
/// checks of gateway dispatch.
pub open spec fn passes_route_checks(
    reg: Seq<ManifestView>,
    sel: Option<Set<Seq<char>>>,
    env: EnvSnapshot,
    key: Seq<char>,
    method: Seq<char>,
    path: Seq<char>,
) -> bool {
    &&& position_in(keys_of(reg), key) >= 0
    &&& selection_enables(sel, key)
    &&& product_target(reg[position_in(keys_of(reg), key)], env) is Some
    &&& claim_position(reg[position_in(keys_of(reg), key)].routes, method, path) >= 0
}

/// When the product has no health route (an empty endpoint), or the
/// request is for its health route, a request that passes the route
/// checks is never probed: it is forwarded to the target URL followed by
/// the path with the route prefix removed (`/` when nothing is left) and
/// `?` with the query, or refused with 502 `gateway-prefix-mismatch`
/// when the path is not under the prefix.
pub proof fn law_no_probe_without_health_route(
    reg: Seq<ManifestView>,
    sel: Option<Set<Seq<char>>>,
    env: EnvSnapshot,
    key: Seq<char>,
    method: Seq<char>,
    path: Seq<char>,
    query: Option<Seq<char>>,
)
    requires
        passes_route_checks(reg, sel, env, key, method, path),
        reg[position_in(keys_of(reg), key)].health.endpoint.len() == 0
            || reg[position_in(keys_of(reg), key)].health.endpoint == path,
    ensures
        ({
            let m = reg[position_in(keys_of(reg), key)];
            let t = product_target(m, env)->0;
            let pre = m.route_prefix;
            let step = planned_step(reg, sel, env, key, method, path, query);
            &&& (pre.len() <= path.len() && path.take(pre.len() as int) == pre) ==> (step matches StepView::Forward(c)
                && c.product_name == m.name && c.target_url == t && c.downstream_url == t + (if path.len()
                == pre.len() {
                seq!['/']
            } else {
                path.skip(pre.len() as int)
            }) + match query {
                Some(q) => seq!['?'] + q,
                None => Seq::<char>::empty(),
            })
            &&& !(pre.len() <= path.len() && path.take(pre.len() as int) == pre) ==> (step matches StepView::Fail(
                f,
            ) && f.status == 502 && f.error == "gateway-prefix-mismatch"@)
        }),
{
    crate::registry::lemma_position_bounds(keys_of(reg), key);
    let m = reg[position_in(keys_of(reg), key)];
    if path.len() == m.route_prefix.len() && path.take(m.route_prefix.len() as int)
        == m.route_prefix {
        assert(path.skip(m.route_prefix.len() as int) =~= Seq::<char>::empty());
    }
}

/// When the product has a health route and the request is for another
/// path, a request that passes the route checks is first probed: a `GET`
/// of the target URL followed by the health route with the route prefix
/// removed, waiting at least a millisecond, expecting the product's
/// healthy status; or it is refused with 502
/// `gateway-health-prefix-mismatch` when the health route is not under
/// the prefix.
pub proof fn law_probe_before_forwarding(
    reg: Seq<ManifestView>,
    sel: Option<Set<Seq<char>>>,
    env: EnvSnapshot,
    key: Seq<char>,
    method: Seq<char>,
    path: Seq<char>,
    query: Option<Seq<char>>,
)
    requires
        passes_route_checks(reg, sel, env, key, method, path),
        reg[position_in(keys_of(reg), key)].health.endpoint.len() > 0,
        reg[position_in(keys_of(reg), key)].health.endpoint != path,
    ensures
        ({
            let m = reg[position_in(keys_of(reg), key)];
            let t = product_target(m, env)->0;
            let pre = m.route_prefix;
            let e = m.health.endpoint;
            let step = planned_step(reg, sel, env, key, method, path, query);
            &&& (pre.len() <= e.len() && e.take(pre.len() as int) == pre) ==> (step matches StepView::CheckHealth(
                probe,
                pending,
            ) && probe.url == t + (if e.len() == pre.len() {
                seq!['/']
            } else {
                e.skip(pre.len() as int)
            }) && probe.timeout_ms >= 1 && (m.health.timeout_ms >= 1 ==> probe.timeout_ms
                == m.health.timeout_ms) && probe.healthy_status == m.health.healthy_status
                && probe.endpoint == e && probe.product_name == m.name && pending.path == path
                && pending.query == query && pending.target_url == t && pending.route_prefix == pre
                && pending.product_name == m.name)
            &&& !(pre.len() <= e.len() && e.take(pre.len() as int) == pre) ==> (step matches StepView::Fail(
                f,
            ) && f.status == 502 && f.error == "gateway-health-prefix-mismatch"@)
        }),
{
    crate::registry::lemma_position_bounds(keys_of(reg), key);
    let m = reg[position_in(keys_of(reg), key)];
    let e = m.health.endpoint;
    if e.len() == m.route_prefix.len() && e.take(m.route_prefix.len() as int) == m.route_prefix {
        assert(e.skip(m.route_prefix.len() as int) =~= Seq::<char>::empty());
    }
}

/// The probe gates forwarding: a failed probe, or one that answered any
/// status other than the healthy one, refuses the request with 503
/// `product-unavailable`; a probe that answered the healthy status lets
/// the request through to the target URL followed by the path with the
/// route prefix removed and the query (or refuses it with 502
/// `gateway-prefix-mismatch` when the path is not under the prefix).
pub proof fn law_health_gate(probe: ProbeView, pending: PendingView, outcome: Result<u16, Seq<char>>)
    ensures
        ({
            let step = health_checked_step(probe, pending, outcome);
            let pre = pending.route_prefix;
            let path = pending.path;
            let under = pre.len() <= path.len() && path.take(pre.len() as int) == pre;
            &&& outcome is Err ==> (step matches StepView::Fail(f) && f.status == 503 && f.error
                == "product-unavailable"@)
            &&& (outcome matches Ok(s) && s != probe.healthy_status) ==> (step matches StepView::Fail(
                f,
            ) && f.status == 503 && f.error == "product-unavailable"@)
            &&& (outcome matches Ok(s) && s == probe.healthy_status && under) ==> (step matches StepView::Forward(
                c,
            ) && c.target_url == pending.target_url && c.product_name == pending.product_name
                && c.downstream_url == pending.target_url + (if path.len() == pre.len() {
                seq!['/']
            } else {
                path.skip(pre.len() as int)
            }) + match pending.query {
                Some(q) => seq!['?'] + q,
                None => Seq::<char>::empty(),
            })
            &&& (outcome matches Ok(s) && s == probe.healthy_status && !under) ==> (step matches StepView::Fail(
                f,
            ) && f.status == 502 && f.error == "gateway-prefix-mismatch"@)
        }),
{
    let pre = pending.route_prefix;
    let path = pending.path;
    if path.len() == pre.len() && path.take(pre.len() as int) == pre {
        assert(path.skip(pre.len() as int) =~= Seq::<char>::empty());
    }
}

/// Every valid HTTP status (100 to 999) the product answers with is
/// relayed unchanged; anything else becomes 502.
pub proof fn law_valid_statuses_are_relayed(code: u16)
    ensures
        100 <= code <= 999 ==> relayed_status(code) == code,
        !(100 <= code <= 999) ==> relayed_status(code) == 502,
{
}

/// Header names are compared in any ASCII case: a name is dropped
/// exactly when its lower-cased form is.
pub proof fn law_header_names_ignore_case(name: Seq<char>)
    ensures
        skipped_request_header(name) == skipped_request_header(ascii_lower(name)),
        skipped_response_header(name) == skipped_response_header(ascii_lower(name)),
{
    crate::text::lemma_ascii_lower_idempotent(name);
}

} // verus!
