//! The product registry: the manifests of the suite's products, their
//! order, their gateway targets, their route claims and the reports the
//! backend derives from them.
use vstd::prelude::*;
use crate::env::EnvSnapshot;
use crate::models::{
    AuthStatusResponse, CapabilityMetadata, GatewayConfig, GatewayStatus, HealthCheck,
    MigrationStage, ProductHealthResponse, ProductResponse, ProductStatus, RouteClaim,
    RuntimeProduct, SafetyBoundary, SetupProduct,
};
use crate::text::{
    ascii_lower, chars_equal, chars_of, equal_ignoring_ascii_case, owned, same_ignoring_ascii_case,
    same_text,
    skip_trailing, split_chars, split_on, starts_with_char, string_of, trim_both, trim_ws,
    trimmed, without_trailing, TrimSet,
};

verus! {

/// The view of an optional text.
pub open spec fn opt_view(o: Option<String>) -> Option<Seq<char>> {
    match o {
        Some(s) => Some(s@),
        None => None,
    }
}

/// The view of the safety boundaries.
pub struct SafetyView {
    pub read_only: bool,
    pub external_writes: bool,
    pub repo_mutation: bool,
    pub approval_required: bool,
    pub credential_scopes: Seq<String>,
    pub evidence_required: Seq<String>,
}

impl View for SafetyBoundary {
    type V = SafetyView;

    open spec fn view(&self) -> SafetyView {
        SafetyView {
            read_only: self.read_only,
            external_writes: self.external_writes,
            repo_mutation: self.repo_mutation,
            approval_required: self.approval_required,
            credential_scopes: self.credential_scopes@,
            evidence_required: self.evidence_required@,
        }
    }
}

/// The view of a gateway configuration.
pub struct GatewayView {
    pub default_url: Option<Seq<char>>,
    pub env_var: Option<Seq<char>>,
}

impl View for GatewayConfig {
    type V = GatewayView;

    open spec fn view(&self) -> GatewayView {
        GatewayView { default_url: opt_view(self.default_url), env_var: opt_view(self.env_var) }
    }
}

/// The view of a health check.
pub struct HealthView {
    pub endpoint: Seq<char>,
    pub timeout_ms: u64,
    pub healthy_status: u16,
}

impl View for HealthCheck {
    type V = HealthView;

    open spec fn view(&self) -> HealthView {
        HealthView {
            endpoint: self.endpoint@,
            timeout_ms: self.timeout_ms,
            healthy_status: self.healthy_status,
        }
    }
}

/// A product manifest, as `registry/products/*.toml` declares it.
#[derive(Debug)]
pub struct ProductManifest {
    pub key: String,
    pub code: String,
    pub name: String,
    pub role: String,
    /// The Rust module that will hold the product's engine.
    pub rust_module: String,
    pub route_prefix: String,
    pub migration_stage: Option<MigrationStage>,
    pub capabilities: Vec<CapabilityMetadata>,
    pub safety: SafetyBoundary,
    pub gateway: Option<GatewayConfig>,
    pub routes: Vec<RouteClaim>,
    pub health: HealthCheck,
}

/// The view of a product manifest.
pub struct ManifestView {
    pub key: Seq<char>,
    pub code: Seq<char>,
    pub name: Seq<char>,
    pub role: Seq<char>,
    pub rust_module: Seq<char>,
    pub route_prefix: Seq<char>,
    pub migration_stage: Option<MigrationStage>,
    pub capabilities: Seq<CapabilityMetadata>,
    pub safety: SafetyView,
    pub gateway: Option<GatewayView>,
    pub routes: Seq<RouteClaim>,
    pub health: HealthView,
}

impl View for ProductManifest {
    type V = ManifestView;

    open spec fn view(&self) -> ManifestView {
        ManifestView {
            key: self.key@,
            code: self.code@,
            name: self.name@,
            role: self.role@,
            rust_module: self.rust_module@,
            route_prefix: self.route_prefix@,
            migration_stage: self.migration_stage,
            capabilities: self.capabilities@,
            safety: self.safety@,
            gateway: match self.gateway {
                Some(g) => Some(g@),
                None => None,
            },
            routes: self.routes@,
            health: self.health@,
        }
    }
}

/// The views of a sequence of manifests.
pub open spec fn views(s: Seq<ProductManifest>) -> Seq<ManifestView> {
    s.map_values(|m: ProductManifest| m@)
}

fn copy_text(s: &String) -> (r: String)
    ensures
        r == *s,
{
    s.clone()
}

fn copy_opt_text(s: &Option<String>) -> (r: Option<String>)
    ensures
        r == *s,
{
    match s {
        Some(v) => Some(v.clone()),
        None => None,
    }
}

fn copy_texts(v: &Vec<String>) -> (r: Vec<String>)
    ensures
        r@ == v@,
{
    let mut r: Vec<String> = Vec::new();
    let mut i: usize = 0;
    while i < v.len()
        invariant
            i <= v@.len(),
            r@ == v@.take(i as int),
        decreases v@.len() - i,
    {
        r.push(v[i].clone());
        i = i + 1;
        assert(r@ =~= v@.take(i as int));
    }
    assert(v@.take(v@.len() as int) =~= v@);
    r
}

fn copy_capabilities(v: &Vec<CapabilityMetadata>) -> (r: Vec<CapabilityMetadata>)
    ensures
        r@ == v@,
{
    let mut r: Vec<CapabilityMetadata> = Vec::new();
    let mut i: usize = 0;
    while i < v.len()
        invariant
            i <= v@.len(),
            r@ == v@.take(i as int),
        decreases v@.len() - i,
    {
        r.push(v[i].clone());
        i = i + 1;
        assert(r@ =~= v@.take(i as int));
    }
    assert(v@.take(v@.len() as int) =~= v@);
    r
}

fn copy_routes(v: &Vec<RouteClaim>) -> (r: Vec<RouteClaim>)
    ensures
        r@ == v@,
{
    let mut r: Vec<RouteClaim> = Vec::new();
    let mut i: usize = 0;
    while i < v.len()
        invariant
            i <= v@.len(),
            r@ == v@.take(i as int),
        decreases v@.len() - i,
    {
        r.push(v[i].clone());
        i = i + 1;
        assert(r@ =~= v@.take(i as int));
    }
    assert(v@.take(v@.len() as int) =~= v@);
    r
}

fn copy_safety(s: &SafetyBoundary) -> (r: SafetyBoundary)
    ensures
        r@ == s@,
{
    SafetyBoundary {
        read_only: s.read_only,
        external_writes: s.external_writes,
        repo_mutation: s.repo_mutation,
        approval_required: s.approval_required,
        credential_scopes: copy_texts(&s.credential_scopes),
        evidence_required: copy_texts(&s.evidence_required),
    }
}

impl ProductManifest {
    /// A copy of the manifest.
    pub fn duplicate(&self) -> (r: ProductManifest)
        ensures
            r@ == self@,
    {
        ProductManifest {
            key: copy_text(&self.key),
            code: copy_text(&self.code),
            name: copy_text(&self.name),
            role: copy_text(&self.role),
            rust_module: copy_text(&self.rust_module),
            route_prefix: copy_text(&self.route_prefix),
            migration_stage: self.migration_stage,
            capabilities: copy_capabilities(&self.capabilities),
            safety: copy_safety(&self.safety),
            gateway: match &self.gateway {
                Some(g) => Some(
                    GatewayConfig {
                        default_url: copy_opt_text(&g.default_url),
                        env_var: copy_opt_text(&g.env_var),
                    },
                ),
                None => None,
            },
            routes: copy_routes(&self.routes),
            health: HealthCheck {
                endpoint: copy_text(&self.health.endpoint),
                timeout_ms: self.health.timeout_ms,
                healthy_status: self.health.healthy_status,
            },
        }
    }
}

/// The order in which the suite lists its products.
pub open spec fn product_order() -> Seq<Seq<char>> {
    seq![
        "hive-core"@,
        "signal-hive"@,
        "review-bee"@,
        "trust-gate"@,
        "repo-memory"@,
        "merge-keeper"@,
        "flake-sting"@,
        "dep-triage"@,
        "vuln-triage"@,
        "refactor-scout"@,
        "release-sentry"@,
        "repo-reaper"@,
    ]
}

/// The index of the first occurrence of `key` in `s`, or -1.
pub open spec fn position_in(s: Seq<Seq<char>>, key: Seq<char>) -> int
    decreases s.len(),
{
    if s.len() == 0 {
        -1
    } else if s[0] == key {
        0
    } else {
        let p = position_in(s.drop_first(), key);
        if p < 0 {
            -1
        } else {
            p + 1
        }
    }
}

pub proof fn lemma_position_in(s: Seq<Seq<char>>, key: Seq<char>, i: int)
    requires
        0 <= i <= s.len(),
        forall|j: int| 0 <= j < i ==> #[trigger] s[j] != key,
    ensures
        i < s.len() && s[i] == key ==> position_in(s, key) == i,
        i == s.len() ==> position_in(s, key) == -1,
    decreases i,
{
    if i > 0 {
        let t = s.drop_first();
        assert forall|j: int| 0 <= j < i - 1 implies #[trigger] t[j] != key by {
            assert(t[j] == s[j + 1]);
        }
        lemma_position_in(t, key, i - 1);
        assert(s[0] != key);
        if i < s.len() {
            assert(t[i - 1] == s[i]);
        }
    } else if s.len() == 0 {
    }
}

pub proof fn lemma_position_bounds(s: Seq<Seq<char>>, key: Seq<char>)
    ensures
        -1 <= position_in(s, key) < s.len(),
        position_in(s, key) >= 0 ==> s[position_in(s, key)] == key,
        position_in(s, key) >= 0 ==> forall|j: int|
            0 <= j < position_in(s, key) ==> #[trigger] s[j] != key,
        position_in(s, key) < 0 ==> forall|j: int| 0 <= j < s.len() ==> #[trigger] s[j] != key,
    decreases s.len(),
{
    if s.len() > 0 && s[0] != key {
        let t = s.drop_first();
        lemma_position_bounds(t, key);
        assert forall|j: int| 1 <= j < s.len() implies #[trigger] s[j] == t[j - 1] by {}
    }
}

/// The place of a product in the suite order: its index in
/// `product_order()`, or 12 for a product the order does not list.
pub open spec fn product_rank(key: Seq<char>) -> nat {
    let p = position_in(product_order(), key);
    if p < 0 {
        12
    } else {
        p as nat
    }
}

/// The product order as literals.
fn product_order_list() -> (v: Vec<&'static str>)
    ensures
        v@.map_values(|s: &str| s@) == product_order(),
{
    let v = vec![
        "hive-core",
        "signal-hive",
        "review-bee",
        "trust-gate",
        "repo-memory",
        "merge-keeper",
        "flake-sting",
        "dep-triage",
        "vuln-triage",
        "refactor-scout",
        "release-sentry",
        "repo-reaper",
    ];
    assert(v@.map_values(|s: &str| s@) =~= product_order());
    v
}

/// The index of the first text of `list` equal to `key`.
fn first_position(list: &Vec<&str>, key: &str) -> (r: Option<usize>)
    ensures
        match r {
            Some(i) => position_in(list@.map_values(|s: &str| s@), key@) == i,
            None => position_in(list@.map_values(|s: &str| s@), key@) == -1,
        },
{
    let ghost m = list@.map_values(|s: &str| s@);
    let mut i: usize = 0;
    while i < list.len()
        invariant
            i <= list@.len(),
            m == list@.map_values(|s: &str| s@),
            forall|j: int| 0 <= j < i ==> #[trigger] m[j] != key@,
        decreases list@.len() - i,
    {
        if same_text(list[i], key) {
            proof {
                lemma_position_in(m, key@, i as int);
            }
            return Some(i);
        }
        i = i + 1;
    }
    proof {
        lemma_position_in(m, key@, i as int);
    }
    None
}

impl ProductManifest {
    /// The manifest with the default route prefix `/api/products/<key>`
    /// when it declares none.
    pub open spec fn with_default_prefix(m: ManifestView) -> ManifestView {
        if m.route_prefix.len() == 0 {
            ManifestView { route_prefix: "/api/products/"@ + m.key, ..m }
        } else {
            m
        }
    }

    /// Fills in the default route prefix `/api/products/<key>` when the
    /// manifest declares none.
    pub fn fill_route_prefix(&mut self)
        ensures
            final(self)@ == Self::with_default_prefix(old(self)@),
    {
        if self.route_prefix.as_str().unicode_len() == 0 {
            let mut prefix = owned("/api/products/");
            prefix.append(self.key.as_str());
            self.route_prefix = prefix;
        }
    }

    /// The manifest's place in the suite order (`usize::MAX` when the
    /// order does not list it).
    pub fn sort_index(&self) -> (r: usize)
        ensures
            r == (if position_in(product_order(), self.key@) < 0 {
                usize::MAX as int
            } else {
                position_in(product_order(), self.key@)
            }),
    {
        let order = product_order_list();
        match first_position(&order, self.key.as_str()) {
            Some(i) => i,
            None => usize::MAX,
        }
    }
}

/// The manifests of `s` whose rank is `r`, in their order in `s`.
pub open spec fn rank_group(s: Seq<ManifestView>, r: nat) -> Seq<ManifestView>
    decreases s.len(),
{
    if s.len() == 0 {
        Seq::empty()
    } else {
        let g = rank_group(s.drop_last(), r);
        if product_rank(s.last().key) == r {
            g.push(s.last())
        } else {
            g
        }
    }
}

/// The groups of ranks below `r`, one after the other.
pub open spec fn groups_below(s: Seq<ManifestView>, r: nat) -> Seq<ManifestView>
    decreases r,
{
    if r == 0 {
        Seq::empty()
    } else {
        groups_below(s, (r - 1) as nat) + rank_group(s, (r - 1) as nat)
    }
}

/// `s` stably sorted by rank: every rank group, in rank order, each in
/// its order in `s`.
pub open spec fn ordered_by_rank(s: Seq<ManifestView>) -> Seq<ManifestView> {
    groups_below(s, 13)
}

/// Sorts manifests stably by their place in the suite order.
pub fn order_by_rank(items: &Vec<ProductManifest>) -> (r: Vec<ProductManifest>)
    ensures
        views(r@) == ordered_by_rank(views(items@)),
{
    let ghost sv = views(items@);
    let n = items.len();
    let mut ranks: Vec<usize> = Vec::new();
    let mut i: usize = 0;
    while i < n
        invariant
            n == items@.len(),
            i <= n,
            ranks@.len() == i,
            forall|j: int| 0 <= j < i ==> #[trigger] ranks@[j] == product_rank(items@[j]@.key),
        decreases n - i,
    {
        let idx = items[i].sort_index();
        let rank: usize = if idx == usize::MAX { 12 } else { idx };
        proof {
            lemma_position_bounds(product_order(), items@[i as int]@.key);
        }
        ranks.push(rank);
        i = i + 1;
    }
    let mut out: Vec<ProductManifest> = Vec::new();
    let mut r: usize = 0;
    while r < 13
        invariant
            n == items@.len(),
            sv == views(items@),
            ranks@.len() == n,
            forall|j: int| 0 <= j < n ==> #[trigger] ranks@[j] == product_rank(items@[j]@.key),
            r <= 13,
            views(out@) == groups_below(sv, r as nat),
        decreases 13 - r,
    {
        let mut k: usize = 0;
        while k < n
            invariant
                n == items@.len(),
                sv == views(items@),
                ranks@.len() == n,
                forall|j: int| 0 <= j < n ==> #[trigger] ranks@[j] == product_rank(items@[j]@.key),
                r < 13,
                k <= n,
                views(out@) == groups_below(sv, r as nat) + rank_group(sv.take(k as int), r as nat),
            decreases n - k,
        {
            let ghost before = views(out@);
            proof {
                assert(sv.take(k + 1).drop_last() =~= sv.take(k as int));
                assert(sv.take(k + 1).last() == items@[k as int]@);
            }
            if ranks[k] == r {
                let copy = items[k].duplicate();
                out.push(copy);
                assert(views(out@) =~= before.push(items@[k as int]@));
            } else {
                assert(views(out@) =~= before);
            }
            k = k + 1;
        }
        assert(sv.take(n as int) =~= sv);
        r = r + 1;
    }
    out
}

/// The product registry: the manifests in suite order.
#[derive(Debug)]
pub struct ProductRegistry {
    products: Vec<ProductManifest>,
}

impl ProductRegistry {
    #[verifier::type_invariant]
    closed spec fn ordered(self) -> bool {
        registry_well_formed(views(self.products@))
    }
}

impl View for ProductRegistry {
    type V = Seq<ManifestView>;

    closed spec fn view(&self) -> Seq<ManifestView> {
        views(self.products@)
    }
}

/// What every registry satisfies: its products are in suite order and
/// each has a route prefix.
pub open spec fn registry_well_formed(s: Seq<ManifestView>) -> bool {
    &&& forall|i: int, j: int|
        0 <= i <= j < s.len() ==> product_rank(#[trigger] s[i].key) <= product_rank(
            #[trigger] s[j].key,
        )
    &&& forall|i: int| 0 <= i < s.len() ==> (#[trigger] s[i]).route_prefix.len() > 0
}

/// The keys of a sequence of manifests.
pub open spec fn keys_of(s: Seq<ManifestView>) -> Seq<Seq<char>> {
    s.map_values(|m: ManifestView| m.key)
}

impl ProductRegistry {
    /// A registry of the given manifests: each gets its default route
    /// prefix where it declares none, and they are sorted stably by
    /// their place in the suite order.
    pub fn from_manifests(manifests: Vec<ProductManifest>) -> (r: ProductRegistry)
        ensures
            r@ == ordered_by_rank(
                views(manifests@).map_values(|m: ManifestView| ProductManifest::with_default_prefix(m)),
            ),
            registry_well_formed(r@),
    {
        let mut filled: Vec<ProductManifest> = Vec::new();
        let items = manifests;
        let ghost src = views(items@);
        let ghost target = src.map_values(|m: ManifestView| ProductManifest::with_default_prefix(m));
        let n = items.len();
        let mut i: usize = 0;
        while i < n
            invariant
                n == src.len(),
                src == views(items@),
                target == src.map_values(|m: ManifestView| ProductManifest::with_default_prefix(m)),
                i <= n,
                views(filled@) == target.take(i as int),
            decreases n - i,
        {
            let ghost before = views(filled@);
            let mut m = items[i].duplicate();
            m.fill_route_prefix();
            filled.push(m);
            assert(views(filled@) =~= before.push(target[i as int]));
            i = i + 1;
        }
        let ordered = order_by_rank(&filled);
        assert(target.take(n as int) =~= target);
        proof {
            let vs = views(items@);
            assert(target == vs.map_values(
                |m: ManifestView| ProductManifest::with_default_prefix(m),
            ));
            law_registry_order_is_sorted(target);
            assert forall|i: int| 0 <= i < ordered_by_rank(target).len() implies (#[trigger] ordered_by_rank(
                target,
            )[i]).route_prefix.len() > 0 by {
                law_registry_prefixes_are_set(vs, i);
            }
        }
        ProductRegistry { products: ordered }
    }
}

proof fn lemma_rank_below_13(key: Seq<char>)
    ensures
        product_rank(key) < 13,
{
    lemma_position_bounds(product_order(), key);
}

proof fn lemma_rank_group_ranks(s: Seq<ManifestView>, r: nat)
    ensures
        forall|k: int|
            0 <= k < rank_group(s, r).len() ==> product_rank(#[trigger] rank_group(s, r)[k].key)
                == r,
    decreases s.len(),
{
    if s.len() > 0 {
        lemma_rank_group_ranks(s.drop_last(), r);
    }
}

proof fn lemma_groups_below_ranks(s: Seq<ManifestView>, q: nat)
    ensures
        forall|k: int|
            0 <= k < groups_below(s, q).len() ==> product_rank(
                #[trigger] groups_below(s, q)[k].key,
            ) < q,
    decreases q,
{
    if q > 0 {
        let a = groups_below(s, (q - 1) as nat);
        let b = rank_group(s, (q - 1) as nat);
        lemma_groups_below_ranks(s, (q - 1) as nat);
        lemma_rank_group_ranks(s, (q - 1) as nat);
        assert forall|k: int| 0 <= k < (a + b).len() implies product_rank(#[trigger] (a + b)[k].key)
            < q by {
            if k < a.len() {
                assert((a + b)[k] == a[k]);
            } else {
                assert((a + b)[k] == b[k - a.len()]);
            }
        }
    }
}

proof fn lemma_groups_below_sorted(s: Seq<ManifestView>, q: nat)
    ensures
        forall|i: int, j: int|
            0 <= i <= j < groups_below(s, q).len() ==> product_rank(
                #[trigger] groups_below(s, q)[i].key,
            ) <= product_rank(#[trigger] groups_below(s, q)[j].key),
    decreases q,
{
    if q > 0 {
        let a = groups_below(s, (q - 1) as nat);
        let b = rank_group(s, (q - 1) as nat);
        lemma_groups_below_sorted(s, (q - 1) as nat);
        lemma_groups_below_ranks(s, (q - 1) as nat);
        lemma_rank_group_ranks(s, (q - 1) as nat);
        assert forall|i: int, j: int| 0 <= i <= j < (a + b).len() implies product_rank(
            #[trigger] (a + b)[i].key,
        ) <= product_rank(#[trigger] (a + b)[j].key) by {
            if j < a.len() {
                assert((a + b)[i] == a[i]);
                assert((a + b)[j] == a[j]);
            } else if i >= a.len() {
                assert((a + b)[i] == b[i - a.len()]);
                assert((a + b)[j] == b[j - a.len()]);
            } else {
                assert((a + b)[i] == a[i]);
                assert((a + b)[j] == b[j - a.len()]);
            }
        }
    }
}

/// The registry lists its products in suite order: the rank of each
/// product is at most the rank of every product after it.
pub proof fn law_registry_order_is_sorted(s: Seq<ManifestView>)
    ensures
        forall|i: int, j: int|
            0 <= i <= j < ordered_by_rank(s).len() ==> product_rank(
                #[trigger] ordered_by_rank(s)[i].key,
            ) <= product_rank(#[trigger] ordered_by_rank(s)[j].key),
{
    lemma_groups_below_sorted(s, 13);
}

proof fn lemma_rank_group_count(s: Seq<ManifestView>, r: nat, y: ManifestView)
    ensures
        rank_group(s, r).to_multiset().count(y) == (if product_rank(y.key) == r {
            s.to_multiset().count(y)
        } else {
            0
        }),
    decreases s.len(),
{
    broadcast use vstd::seq_lib::group_to_multiset_ensures;
    broadcast use vstd::multiset::group_multiset_axioms;

    if s.len() == 0 {
    } else {
        let t = s.drop_last();
        lemma_rank_group_count(t, r, y);
        assert(t.push(s.last()) =~= s);
    }
}

proof fn lemma_groups_below_count(s: Seq<ManifestView>, q: nat, y: ManifestView)
    ensures
        groups_below(s, q).to_multiset().count(y) == (if product_rank(y.key) < q {
            s.to_multiset().count(y)
        } else {
            0
        }),
    decreases q,
{
    broadcast use vstd::multiset::group_multiset_axioms;

    if q == 0 {
        broadcast use vstd::seq_lib::group_to_multiset_ensures;

    } else {
        let a = groups_below(s, (q - 1) as nat);
        let b = rank_group(s, (q - 1) as nat);
        lemma_groups_below_count(s, (q - 1) as nat, y);
        lemma_rank_group_count(s, (q - 1) as nat, y);
        vstd::seq_lib::lemma_multiset_commutative(a, b);
    }
}

/// Ordering the registry neither drops, adds nor repeats a manifest.
pub proof fn law_registry_order_keeps_every_manifest(s: Seq<ManifestView>)
    ensures
        ordered_by_rank(s).to_multiset() == s.to_multiset(),
{
    assert forall|y: ManifestView| #[trigger]
        ordered_by_rank(s).to_multiset().count(y) == s.to_multiset().count(y) by {
        lemma_groups_below_count(s, 13, y);
        lemma_rank_below_13(y.key);
    }
    assert(ordered_by_rank(s).to_multiset() =~= s.to_multiset());
}

proof fn lemma_rank_group_concat(a: Seq<ManifestView>, b: Seq<ManifestView>, r: nat)
    ensures
        rank_group(a + b, r) == rank_group(a, r) + rank_group(b, r),
    decreases b.len(),
{
    if b.len() == 0 {
        assert(a + b =~= a);
        assert(rank_group(a, r) + rank_group(b, r) =~= rank_group(a, r));
    } else {
        lemma_rank_group_concat(a, b.drop_last(), r);
        assert((a + b).drop_last() =~= a + b.drop_last());
        assert((a + b).last() == b.last());
        if product_rank(b.last().key) == r {
            assert(rank_group(a, r) + rank_group(b, r) =~= (rank_group(a, r) + rank_group(
                b.drop_last(),
                r,
            )).push(b.last()));
        }
    }
}

proof fn lemma_rank_group_twice(s: Seq<ManifestView>, r1: nat, r2: nat)
    ensures
        rank_group(rank_group(s, r1), r2) == (if r1 == r2 {
            rank_group(s, r1)
        } else {
            Seq::<ManifestView>::empty()
        }),
    decreases s.len(),
{
    if s.len() > 0 {
        lemma_rank_group_twice(s.drop_last(), r1, r2);
        let g = rank_group(s.drop_last(), r1);
        if product_rank(s.last().key) == r1 {
            assert(g.push(s.last()).drop_last() =~= g);
        }
    }
}

proof fn lemma_rank_group_of_groups_below(s: Seq<ManifestView>, q: nat, r: nat)
    ensures
        rank_group(groups_below(s, q), r) == (if r < q {
            rank_group(s, r)
        } else {
            Seq::<ManifestView>::empty()
        }),
    decreases q,
{
    if q > 0 {
        let a = groups_below(s, (q - 1) as nat);
        let b = rank_group(s, (q - 1) as nat);
        lemma_rank_group_of_groups_below(s, (q - 1) as nat, r);
        lemma_rank_group_concat(a, b, r);
        lemma_rank_group_twice(s, (q - 1) as nat, r);
        if r < q - 1 {
            assert(rank_group(a, r) + rank_group(b, r) =~= rank_group(s, r));
        } else if r == q - 1 {
            assert(rank_group(a, r) + rank_group(b, r) =~= rank_group(s, r));
        } else {
            assert(rank_group(a, r) + rank_group(b, r) =~= Seq::<ManifestView>::empty());
        }
    }
}

/// Ordering is stable: the products of one rank keep the order in which
/// they were given.
pub proof fn law_registry_order_is_stable(s: Seq<ManifestView>, r: nat)
    requires
        r < 13,
    ensures
        rank_group(ordered_by_rank(s), r) == rank_group(s, r),
{
    lemma_rank_group_of_groups_below(s, 13, r);
}

impl ProductRegistry {
    /// The manifests, in suite order.
    pub fn products(&self) -> (r: &[ProductManifest])
        ensures
            views(r@) == self@,
            registry_well_formed(self@),
    {
        proof {
            use_type_invariant(self);
        }
        self.products.as_slice()
    }

    /// The number of products.
    pub fn len(&self) -> (r: usize)
        ensures
            r == self@.len(),
    {
        self.products.len()
    }

    /// The index of the first product whose key is `key`.
    pub fn position(&self, key: &str) -> (r: Option<usize>)
        ensures
            match r {
                Some(i) => position_in(keys_of(self@), key@) == i,
                None => position_in(keys_of(self@), key@) == -1,
            },
    {
        let ghost ks = keys_of(self@);
        let mut i: usize = 0;
        while i < self.products.len()
            invariant
                i <= self@.len(),
                ks == keys_of(self@),
                self@ == views(self.products@),
                forall|j: int| 0 <= j < i ==> #[trigger] ks[j] != key@,
            decreases self@.len() - i,
        {
            if same_text(self.products[i].key.as_str(), key) {
                proof {
                    assert(ks[i as int] == key@);
                    lemma_position_in(ks, key@, i as int);
                }
                return Some(i);
            }
            assert(ks[i as int] == self.products@[i as int].key@);
            i = i + 1;
        }
        proof {
            lemma_position_in(ks, key@, i as int);
        }
        None
    }

    /// The first product whose key is `key`.
    pub fn find(&self, key: &str) -> (r: Option<&ProductManifest>)
        ensures
            match r {
                Some(p) => position_in(keys_of(self@), key@) >= 0 && p@ == self@[position_in(
                    keys_of(self@),
                    key@,
                )],
                None => position_in(keys_of(self@), key@) == -1,
            },
    {
        proof {
            lemma_position_bounds(keys_of(self@), key@);
        }
        match self.position(key) {
            Some(i) => Some(&self.products[i]),
            None => None,
        }
    }
}

/// The gateway target that a configuration resolves to: the value of
/// its environment variable when that is set and not blank, else its
/// default URL; trimmed, without trailing slashes, and only if what is
/// left is not empty.
pub open spec fn resolved_target(g: GatewayView, env: EnvSnapshot) -> Option<Seq<char>> {
    let from_env = match g.env_var {
        Some(name) => env.lookup(name),
        None => None,
    };
    let chosen = match from_env {
        Some(v) => if trim_ws(v).len() > 0 {
            Some(v)
        } else {
            g.default_url
        },
        None => g.default_url,
    };
    match chosen {
        Some(v) => if skip_trailing(trim_ws(v), TrimSet::Slash).len() > 0 {
            Some(skip_trailing(trim_ws(v), TrimSet::Slash))
        } else {
            None
        },
        None => None,
    }
}

/// The gateway target of a product, if it has one.
pub open spec fn product_target(m: ManifestView, env: EnvSnapshot) -> Option<Seq<char>> {
    match m.gateway {
        Some(g) => resolved_target(g, env),
        None => None,
    }
}

fn is_blank(v: &Vec<char>) -> (r: bool)
    ensures
        r == (trim_ws(v@).len() == 0),
{
    let (s, e) = crate::text::trim_bounds(v, TrimSet::Whitespace);
    s == e
}

impl GatewayConfig {
    /// The gateway target this configuration resolves to in `env`.
    pub fn target_url(&self, env: &EnvSnapshot) -> (r: Option<String>)
        ensures
            opt_view(r) == resolved_target(self@, *env),
    {
        let from_env: Option<String> = match &self.env_var {
            Some(name) => env.get(name.as_str()),
            None => None,
        };
        let chosen: Option<Vec<char>> = match from_env {
            Some(v) => {
                let cs = chars_of(v.as_str());
                if !is_blank(&cs) {
                    Some(cs)
                } else {
                    match &self.default_url {
                        Some(d) => Some(chars_of(d.as_str())),
                        None => None,
                    }
                }
            },
            None => match &self.default_url {
                Some(d) => Some(chars_of(d.as_str())),
                None => None,
            },
        };
        match chosen {
            Some(cs) => {
                let t = without_trailing(&trimmed(&cs, TrimSet::Whitespace), TrimSet::Slash);
                if t.len() > 0 {
                    Some(string_of(&t))
                } else {
                    None
                }
            },
            None => None,
        }
    }
}

impl ProductManifest {
    /// The product's gateway target in `env`, if it has one.
    pub fn gateway_target_url(&self, env: &EnvSnapshot) -> (r: Option<String>)
        ensures
            opt_view(r) == product_target(self@, *env),
    {
        match &self.gateway {
            Some(g) => g.target_url(env),
            None => None,
        }
    }
}

/// The segments of a route path: the path without its leading and
/// trailing slashes, split at every `/`.
pub open spec fn path_segments(s: Seq<char>) -> Seq<Seq<char>> {
    split_on(trim_both(s, TrimSet::Slash), '/')
}

/// Whether the route pattern segments accept the path segments: a
/// segment starting with `*` accepts the rest of the path, one starting
/// with `:` accepts any one segment, any other must be equal.
pub open spec fn segments_match(pattern: Seq<Seq<char>>, path: Seq<Seq<char>>) -> bool
    decreases pattern.len(),
{
    if pattern.len() == 0 {
        path.len() == 0
    } else if starts_with_char(pattern[0], '*') {
        true
    } else if path.len() == 0 {
        false
    } else if starts_with_char(pattern[0], ':') || pattern[0] == path[0] {
        segments_match(pattern.drop_first(), path.drop_first())
    } else {
        false
    }
}

/// Whether the route pattern accepts the path.
pub open spec fn route_matches(pattern: Seq<char>, path: Seq<char>) -> bool {
    segments_match(path_segments(pattern), path_segments(path))
}

fn segments(s: &str) -> (r: Vec<Vec<char>>)
    ensures
        r@.map_values(|p: Vec<char>| p@) == path_segments(s@),
{
    let cs = chars_of(s);
    let t = trimmed(&cs, TrimSet::Slash);
    split_chars(&t, '/')
}

fn first_is(v: &Vec<char>, c: char) -> (r: bool)
    ensures
        r == starts_with_char(v@, c),
{
    v.len() > 0 && v[0] == c
}

/// Whether the route pattern accepts the path.
pub fn route_path_matches(pattern: &str, path: &str) -> (r: bool)
    ensures
        r == route_matches(pattern@, path@),
{
    let pp = segments(pattern);
    let xs = segments(path);
    let ghost ps = pp@.map_values(|p: Vec<char>| p@);
    let ghost ys = xs@.map_values(|p: Vec<char>| p@);
    let mut idx: usize = 0;
    assert(ps.skip(0) =~= ps);
    assert(ys.skip(0) =~= ys);
    while idx < pp.len()
        invariant
            ps == pp@.map_values(|p: Vec<char>| p@),
            ys == xs@.map_values(|p: Vec<char>| p@),
            ps == path_segments(pattern@),
            ys == path_segments(path@),
            idx <= pp@.len(),
            idx <= xs@.len(),
            segments_match(ps, ys) == segments_match(ps.skip(idx as int), ys.skip(idx as int)),
        decreases pp@.len() - idx,
    {
        let ghost rest_p = ps.skip(idx as int);
        let ghost rest_y = ys.skip(idx as int);
        assert(rest_p[0] == pp@[idx as int]@);
        if first_is(&pp[idx], '*') {
            return true;
        }
        if idx >= xs.len() {
            return false;
        }
        assert(rest_y[0] == xs@[idx as int]@);
        if !first_is(&pp[idx], ':') && !chars_equal(&pp[idx], &xs[idx]) {
            return false;
        }
        assert(rest_p.drop_first() =~= ps.skip(idx + 1));
        assert(rest_y.drop_first() =~= ys.skip(idx + 1));
        idx = idx + 1;
    }
    pp.len() == xs.len()
}

/// Whether a route claim covers the request method (in any ASCII case)
/// and path.
pub open spec fn claim_covers(c: RouteClaim, method: Seq<char>, path: Seq<char>) -> bool {
    same_ignoring_ascii_case(c.method@, method) && route_matches(c.path@, path)
}

/// The index of the first claim that covers the request, or -1.
pub open spec fn claim_position(routes: Seq<RouteClaim>, method: Seq<char>, path: Seq<char>) -> int
    decreases routes.len(),
{
    if routes.len() == 0 {
        -1
    } else if claim_covers(routes[0], method, path) {
        0
    } else {
        let p = claim_position(routes.drop_first(), method, path);
        if p < 0 {
            -1
        } else {
            p + 1
        }
    }
}

proof fn lemma_claim_position(routes: Seq<RouteClaim>, method: Seq<char>, path: Seq<char>, i: int)
    requires
        0 <= i <= routes.len(),
        forall|j: int| 0 <= j < i ==> !claim_covers(#[trigger] routes[j], method, path),
    ensures
        i < routes.len() && claim_covers(routes[i], method, path) ==> claim_position(
            routes,
            method,
            path,
        ) == i,
        i == routes.len() ==> claim_position(routes, method, path) == -1,
    decreases i,
{
    if i > 0 {
        let t = routes.drop_first();
        assert forall|j: int| 0 <= j < i - 1 implies !claim_covers(#[trigger] t[j], method, path) by {
            assert(t[j] == routes[j + 1]);
        }
        lemma_claim_position(t, method, path, i - 1);
        assert(!claim_covers(routes[0], method, path));
        if i < routes.len() {
            assert(t[i - 1] == routes[i]);
        }
    }
}

impl ProductManifest {
    /// The first route claim that covers the request method and path.
    pub fn route_claim_for(&self, method: &str, path: &str) -> (r: Option<&RouteClaim>)
        ensures
            match r {
                Some(c) => claim_position(self.routes@, method@, path@) >= 0 && *c
                    == self.routes@[claim_position(self.routes@, method@, path@)],
                None => claim_position(self.routes@, method@, path@) == -1,
            },
    {
        let mut i: usize = 0;
        while i < self.routes.len()
            invariant
                i <= self.routes@.len(),
                forall|j: int|
                    0 <= j < i ==> !claim_covers(#[trigger] self.routes@[j], method@, path@),
            decreases self.routes@.len() - i,
        {
            let c = &self.routes[i];
            if equal_ignoring_ascii_case(c.method.as_str(), method) && route_path_matches(
                c.path.as_str(),
                path,
            ) {
                proof {
                    lemma_claim_position(self.routes@, method@, path@, i as int);
                }
                return Some(c);
            }
            i = i + 1;
        }
        proof {
            lemma_claim_position(self.routes@, method@, path@, i as int);
        }
        None
    }
}

/// What the backend can do for a product.
pub open spec fn status_of(enabled: bool, gateway_configured: bool) -> ProductStatus {
    if !enabled {
        ProductStatus::Disabled
    } else if gateway_configured {
        ProductStatus::GatewayPending
    } else {
        ProductStatus::EnginePending
    }
}

/// A disabled product is `Disabled`; an enabled one is
/// `GatewayPending` when it has a gateway target, else `EnginePending`.
pub fn product_status(enabled: bool, gateway_configured: bool) -> (r: ProductStatus)
    ensures
        r == status_of(enabled, gateway_configured),
{
    if !enabled {
        ProductStatus::Disabled
    } else if gateway_configured {
        ProductStatus::GatewayPending
    } else {
        ProductStatus::EnginePending
    }
}

/// The runtime status the first-stack setup reports for a product.
pub open spec fn runtime_label(key: Seq<char>, enabled: bool, gateway_configured: bool) -> Seq<
    char,
> {
    if !enabled {
        "disabled"@
    } else if key == "hive-core"@ {
        "online"@
    } else if gateway_configured {
        "gateway-pending"@
    } else {
        "degraded"@
    }
}

/// `disabled`, `online` for HiveCore (which this backend serves),
/// `gateway-pending` for a product behind the gateway, else `degraded`.
pub fn runtime_status(key: &str, enabled: bool, gateway_configured: bool) -> (r: &'static str)
    ensures
        r@ == runtime_label(key@, enabled, gateway_configured),
{
    if !enabled {
        "disabled"
    } else if same_text(key, "hive-core") {
        "online"
    } else if gateway_configured {
        "gateway-pending"
    } else {
        "degraded"
    }
}

/// The number of contract drifts the first-stack setup reports.
pub open spec fn drift_count(key: Seq<char>, enabled: bool, gateway_configured: bool) -> nat {
    if enabled && key != "hive-core"@ && !gateway_configured {
        1
    } else {
        0
    }
}

/// One drift for an enabled product other than HiveCore that has no
/// gateway target, none otherwise.
pub fn contract_drift_count(key: &str, enabled: bool, gateway_configured: bool) -> (r: usize)
    ensures
        r == drift_count(key@, enabled, gateway_configured),
{
    if enabled && !same_text(key, "hive-core") && !gateway_configured {
        1
    } else {
        0
    }
}

/// A product drifts from its contract exactly when the setup reports
/// it `degraded`.
pub proof fn law_drift_iff_degraded(key: Seq<char>, enabled: bool, gateway_configured: bool)
    ensures
        (drift_count(key, enabled, gateway_configured) == 1) <==> (runtime_label(
            key,
            enabled,
            gateway_configured,
        ) == "degraded"@),
{
    reveal_strlit("disabled");
    reveal_strlit("online");
    reveal_strlit("gateway-pending");
    reveal_strlit("degraded");
    assert("disabled"@[1] != "degraded"@[1]);
    assert("online"@[0] != "degraded"@[0]);
    assert("gateway-pending"@[0] != "degraded"@[0]);
}

/// The setup reports a product `disabled` exactly when its product
/// status is `Disabled`.
pub proof fn law_disabled_agrees(key: Seq<char>, enabled: bool, gateway_configured: bool)
    ensures
        (status_of(enabled, gateway_configured) == ProductStatus::Disabled) <==> (runtime_label(
            key,
            enabled,
            gateway_configured,
        ) == "disabled"@),
{
    reveal_strlit("disabled");
    reveal_strlit("online");
    reveal_strlit("gateway-pending");
    reveal_strlit("degraded");
    assert("online"@[0] != "disabled"@[0]);
    assert("gateway-pending"@[0] != "disabled"@[0]);
    assert("degraded"@.len() != "disabled"@.len() || "degraded"@[1] != "disabled"@[1]);
}

/// A manifest's migration stage, `NotStarted` when it declares none.
pub open spec fn stage_of(m: ManifestView) -> MigrationStage {
    match m.migration_stage {
        Some(s) => s,
        None => MigrationStage::NotStarted,
    }
}

/// The environment variable a manifest's gateway names.
pub open spec fn gateway_env_var(m: ManifestView) -> Option<Seq<char>> {
    match m.gateway {
        Some(g) => g.env_var,
        None => None,
    }
}

/// The message of a product's own health report.
pub open spec fn health_message(name: Seq<char>, enabled: bool) -> Seq<char> {
    if enabled {
        name + " is enabled in patchhive-backend, but its engine has not been migrated yet."@
    } else {
        "Product is disabled by PATCHHIVE_PRODUCTS."@
    }
}

/// Whether `r` lists the product `m`, enabled or not, with its gateway
/// target in `env`.
pub open spec fn describes(r: ProductResponse, m: ManifestView, enabled: bool, env: EnvSnapshot) -> bool {
    &&& r.key@ == m.key && r.slug@ == m.key
    &&& r.name@ == m.name && r.title@ == m.name
    &&& r.code@ == m.code && r.role@ == m.role
    &&& r.rust_module@ == m.rust_module
    &&& r.enabled == enabled
    &&& r.status == status_of(enabled, product_target(m, env) is Some)
    &&& r.migration_stage == stage_of(m)
    &&& r.route_prefix@ == m.route_prefix
    &&& r.capabilities@.map_values(|s: String| s@) == m.capabilities.map_values(
        |c: CapabilityMetadata| c.id@,
    )
    &&& r.capability_metadata@ == m.capabilities
    &&& r.safety@ == m.safety
    &&& r.gateway.configured == product_target(m, env) is Some
    &&& opt_view(r.gateway.target_url) == product_target(m, env)
    &&& opt_view(r.gateway.env_var) == gateway_env_var(m)
    &&& r.routes@ == m.routes
}

/// Whether `r` lists the product `m` in the first-stack setup, enabled or
/// not, with its gateway target in `env`.
pub open spec fn sets_up(r: SetupProduct, m: ManifestView, enabled: bool, env: EnvSnapshot) -> bool {
    &&& r.runtime.slug@ == m.key
    &&& r.runtime.icon@ == m.code
    &&& r.runtime.title@ == m.name
    &&& r.runtime.role@ == m.role
    &&& r.runtime.status@ == runtime_label(m.key, enabled, product_target(m, env) is Some)
    &&& r.runtime.api_url@ == m.route_prefix
    &&& r.runtime.enabled == enabled
    &&& !r.runtime.service_token_configured
    &&& !r.runtime.legacy_api_key_configured
    &&& r.runtime.contract_drift_count == drift_count(m.key, enabled, product_target(m, env) is Some)
    &&& !r.pairing_ready
    &&& r.auth_status == (AuthStatusResponse {
        auth_enabled: false,
        bootstrap_required: false,
        service_auth_enabled: false,
        suite_bootstrap_enabled: false,
    })
    &&& r.auth_status_error is None
}

fn capability_ids(caps: &Vec<CapabilityMetadata>) -> (r: Vec<String>)
    ensures
        r@.map_values(|s: String| s@) == caps@.map_values(|c: CapabilityMetadata| c.id@),
{
    let mut r: Vec<String> = Vec::new();
    let mut i: usize = 0;
    while i < caps.len()
        invariant
            i <= caps@.len(),
            r@.map_values(|s: String| s@) == caps@.take(i as int).map_values(
                |c: CapabilityMetadata| c.id@,
            ),
        decreases caps@.len() - i,
    {
        let ghost before = r@;
        let id = caps[i].id.clone();
        r.push(id);
        proof {
            assert(r@ == before.push(id));
            assert(caps@.take(i + 1) =~= caps@.take(i as int).push(caps@[i as int]));
            assert(r@.map_values(|s: String| s@) =~= before.map_values(|s: String| s@).push(
                id@,
            ));
        }
        i = i + 1;
    }
    assert(caps@.take(caps@.len() as int) =~= caps@);
    r
}

impl ProductManifest {
    /// The manifest's migration stage, `NotStarted` when it declares none.
    pub fn migration_stage(&self) -> (r: MigrationStage)
        ensures
            r == stage_of(self@),
    {
        match self.migration_stage {
            Some(s) => s,
            None => MigrationStage::NotStarted,
        }
    }

    /// Whether the product has a gateway target in `env`, which, and the
    /// environment variable that can set it.
    pub fn gateway_status(&self, env: &EnvSnapshot) -> (r: GatewayStatus)
        ensures
            r.configured == product_target(self@, *env) is Some,
            opt_view(r.target_url) == product_target(self@, *env),
            opt_view(r.env_var) == gateway_env_var(self@),
    {
        let target_url = self.gateway_target_url(env);
        GatewayStatus {
            configured: target_url.is_some(),
            target_url,
            env_var: match &self.gateway {
                Some(g) => copy_opt_text(&g.env_var),
                None => None,
            },
        }
    }

    /// The product as `GET /api/products` lists it.
    pub fn to_response(&self, enabled: bool, env: &EnvSnapshot) -> (r: ProductResponse)
        ensures
            describes(r, self@, enabled, *env),
    {
        let gateway = self.gateway_status(env);
        ProductResponse {
            key: copy_text(&self.key),
            slug: copy_text(&self.key),
            name: copy_text(&self.name),
            title: copy_text(&self.name),
            code: copy_text(&self.code),
            role: copy_text(&self.role),
            rust_module: copy_text(&self.rust_module),
            enabled,
            status: product_status(enabled, gateway.configured),
            migration_stage: self.migration_stage(),
            route_prefix: copy_text(&self.route_prefix),
            capabilities: capability_ids(&self.capabilities),
            capability_metadata: copy_capabilities(&self.capabilities),
            safety: copy_safety(&self.safety),
            gateway,
            routes: copy_routes(&self.routes),
        }
    }

    /// The product as the first-stack setup lists it.
    pub fn to_setup_product(&self, enabled: bool, env: &EnvSnapshot) -> (r: SetupProduct)
        ensures
            sets_up(r, self@, enabled, *env),
    {
        let configured = self.gateway_target_url(env).is_some();
        SetupProduct {
            runtime: RuntimeProduct {
                slug: copy_text(&self.key),
                icon: copy_text(&self.code),
                title: copy_text(&self.name),
                role: copy_text(&self.role),
                status: runtime_status(self.key.as_str(), enabled, configured),
                api_url: copy_text(&self.route_prefix),
                enabled,
                service_token_configured: false,
                legacy_api_key_configured: false,
                contract_drift_count: contract_drift_count(self.key.as_str(), enabled, configured),
            },
            pairing_ready: false,
            auth_status: AuthStatusResponse {
                auth_enabled: false,
                bootstrap_required: false,
                service_auth_enabled: false,
                suite_bootstrap_enabled: false,
            },
            auth_status_error: None,
        }
    }

    /// The product's own health report, while its engine has not moved in.
    pub fn to_health_response(&self, enabled: bool, env: &EnvSnapshot) -> (r:
        ProductHealthResponse)
        ensures
            r.key@ == self.key@,
            r.name@ == self.name@,
            r.enabled == enabled,
            r.status == status_of(enabled, product_target(self@, *env) is Some),
            r.migration_stage == stage_of(self@),
            r.message@ == health_message(self.name@, enabled),
    {
        let configured = self.gateway_target_url(env).is_some();
        let message = if enabled {
            let mut m = copy_text(&self.name);
            m.append(" is enabled in patchhive-backend, but its engine has not been migrated yet.");
            m
        } else {
            owned("Product is disabled by PATCHHIVE_PRODUCTS.")
        };
        ProductHealthResponse {
            key: copy_text(&self.key),
            name: copy_text(&self.name),
            enabled,
            status: product_status(enabled, configured),
            migration_stage: self.migration_stage(),
            message,
        }
    }
}

/// The route prefix a registry gives a product that declares none.
pub fn default_route_prefix() -> (r: String)
    ensures
        r@ == Seq::<char>::empty(),
{
    String::new()
}

proof fn lemma_segments_match_self(p: Seq<Seq<char>>)
    ensures
        segments_match(p, p),
    decreases p.len(),
{
    if p.len() > 0 {
        lemma_segments_match_self(p.drop_first());
    }
}

/// Every route pattern accepts its own path.
pub proof fn law_route_pattern_accepts_itself(pattern: Seq<char>)
    ensures
        route_matches(pattern, pattern),
{
    lemma_segments_match_self(path_segments(pattern));
}

/// A route pattern made of plain segments (none starting with `:` or
/// `*`) accepts exactly the paths with the same segments.
pub proof fn law_plain_pattern_matches_equal_segments(pattern: Seq<Seq<char>>, path: Seq<Seq<char>>)
    requires
        forall|i: int|
            0 <= i < pattern.len() ==> !starts_with_char(#[trigger] pattern[i], ':')
                && !starts_with_char(pattern[i], '*'),
    ensures
        segments_match(pattern, path) <==> pattern == path,
    decreases pattern.len(),
{
    if pattern.len() == 0 {
        if path.len() != 0 {
            assert(pattern != path);
        } else {
            assert(pattern =~= path);
        }
    } else {
        let tp = pattern.drop_first();
        assert forall|i: int| 0 <= i < tp.len() implies !starts_with_char(#[trigger] tp[i], ':')
            && !starts_with_char(tp[i], '*') by {
            assert(tp[i] == pattern[i + 1]);
        }
        assert(!starts_with_char(pattern[0], '*'));
        assert(!starts_with_char(pattern[0], ':'));
        if path.len() > 0 {
            let tq = path.drop_first();
            law_plain_pattern_matches_equal_segments(tp, tq);
            if pattern == path {
                assert(tp =~= tq);
            }
            if tp == tq && pattern[0] == path[0] {
                assert forall|k: int| 0 <= k < pattern.len() implies pattern[k] == path[k] by {
                    if k > 0 {
                        assert(pattern[k] == tp[k - 1]);
                        assert(path[k] == tq[k - 1]);
                    }
                }
                assert(pattern =~= path);
            }
            if pattern[0] != path[0] {
                assert(pattern != path);
            }
        } else {
            assert(pattern != path);
        }
    }
}

/// A resolved gateway target is never empty and never ends with `/`.
pub proof fn law_gateway_target_shape(g: GatewayView, env: EnvSnapshot)
    ensures
        resolved_target(g, env) matches Some(t) ==> t.len() > 0 && t.last() != '/',
{
    let from_env = match g.env_var {
        Some(name) => env.lookup(name),
        None => None,
    };
    let chosen = match from_env {
        Some(v) => if trim_ws(v).len() > 0 {
            Some(v)
        } else {
            g.default_url
        },
        None => g.default_url,
    };
    if let Some(v) = chosen {
        crate::text::lemma_skip_trailing_is_clean(trim_ws(v), TrimSet::Slash);
    }
}

proof fn lemma_default_prefix_non_empty(m: ManifestView)
    ensures
        ProductManifest::with_default_prefix(m).route_prefix.len() > 0,
{
    reveal_strlit("/api/products/");
}

/// Every product of a registry has a route prefix.
pub proof fn law_registry_prefixes_are_set(manifests: Seq<ManifestView>, i: int)
    requires
        0 <= i < ordered_by_rank(
            manifests.map_values(|m: ManifestView| ProductManifest::with_default_prefix(m)),
        ).len(),
    ensures
        ordered_by_rank(
            manifests.map_values(|m: ManifestView| ProductManifest::with_default_prefix(m)),
        )[i].route_prefix.len() > 0,
{
    broadcast use vstd::seq_lib::group_to_multiset_ensures;

    let filled = manifests.map_values(|m: ManifestView| ProductManifest::with_default_prefix(m));
    let o = ordered_by_rank(filled);
    law_registry_order_keeps_every_manifest(filled);
    assert(o.contains(o[i]));
    assert(o.to_multiset().count(o[i]) > 0);
    assert(filled.contains(o[i]));
    let j = choose|j: int| 0 <= j < filled.len() && filled[j] == o[i];
    lemma_default_prefix_non_empty(manifests[j]);
}

/// How route patterns match, segment by segment. Let `k` be the index of
/// the pattern's first segment that starts with `*` (or the number of
/// segments when none does). The pattern accepts the path exactly when
/// every one of its first `k` segments either starts with `:` (and then
/// stands for one path segment, whatever it is) or equals the path
/// segment at the same place, and the path has exactly as many segments
/// as the pattern when there is no `*` segment, or at least `k` segments
/// when there is one.
pub proof fn law_segments_match_characterized(p: Seq<Seq<char>>, q: Seq<Seq<char>>, k: int)
    requires
        0 <= k <= p.len(),
        forall|i: int| 0 <= i < k ==> !starts_with_char(#[trigger] p[i], '*'),
        k == p.len() || starts_with_char(p[k], '*'),
    ensures
        segments_match(p, q) <==> ((if k < p.len() {
            q.len() >= k
        } else {
            q.len() == p.len()
        }) && forall|i: int|
            0 <= i < k ==> starts_with_char(#[trigger] p[i], ':') || p[i] == q[i]),
    decreases k,
{
    if k == 0 {
        if p.len() > 0 {
            assert(starts_with_char(p[0], '*'));
        }
    } else {
        let tp = p.drop_first();
        assert(!starts_with_char(p[0], '*'));
        assert forall|i: int| 0 <= i < k - 1 implies !starts_with_char(#[trigger] tp[i], '*') by {
            assert(tp[i] == p[i + 1]);
        }
        if k - 1 < tp.len() {
            assert(tp[k - 1] == p[k]);
        }
        if q.len() == 0 {
            assert(!segments_match(p, q));
        } else {
            let tq = q.drop_first();
            law_segments_match_characterized(tp, tq, k - 1);
            let per_segment = forall|i: int|
                0 <= i < k ==> starts_with_char(#[trigger] p[i], ':') || p[i] == q[i];
            let per_rest = forall|i: int|
                0 <= i < k - 1 ==> starts_with_char(#[trigger] tp[i], ':') || tp[i] == tq[i];
            if per_segment && q.len() >= k {
                assert forall|i: int| 0 <= i < k - 1 implies starts_with_char(#[trigger] tp[i], ':')
                    || tp[i] == tq[i] by {
                    assert(tp[i] == p[i + 1]);
                    assert(tq[i] == q[i + 1]);
                }
            }
            if per_rest && q.len() >= k && (starts_with_char(p[0], ':') || p[0] == q[0]) {
                assert forall|i: int| 0 <= i < k implies starts_with_char(#[trigger] p[i], ':')
                    || p[i] == q[i] by {
                    if i > 0 {
                        assert(tp[i - 1] == p[i]);
                        assert(tq[i - 1] == q[i]);
                    }
                }
            }
        }
    }
}

/// A route pattern without `*` segments accepts only paths with exactly
/// as many segments, each `:` segment standing for exactly one of them.
pub proof fn law_param_segment_takes_one_segment(pattern: Seq<char>, path: Seq<char>)
    requires
        forall|i: int|
            0 <= i < path_segments(pattern).len() ==> !starts_with_char(
                #[trigger] path_segments(pattern)[i],
                '*',
            ),
    ensures
        route_matches(pattern, path) <==> (path_segments(path).len() == path_segments(pattern).len()
            && forall|i: int|
            0 <= i < path_segments(pattern).len() ==> starts_with_char(
                #[trigger] path_segments(pattern)[i],
                ':',
            ) || path_segments(pattern)[i] == path_segments(path)[i]),
{
    law_segments_match_characterized(
        path_segments(pattern),
        path_segments(path),
        path_segments(pattern).len() as int,
    );
}

/// A `:` segment stands for exactly one path segment: it is skipped
/// together with the path's next segment.
pub proof fn law_param_segment_skips_one(p: Seq<Seq<char>>, q: Seq<Seq<char>>)
    requires
        p.len() > 0,
        q.len() > 0,
        starts_with_char(p[0], ':'),
    ensures
        segments_match(p, q) == segments_match(p.drop_first(), q.drop_first()),
{
}

/// What the backend can do for a product: `Disabled` exactly when it is
/// not enabled; an enabled product is `GatewayPending` with a gateway
/// target and `EnginePending` without one.
pub proof fn law_product_status_meaning(enabled: bool, gateway_configured: bool)
    ensures
        (status_of(enabled, gateway_configured) == ProductStatus::Disabled) <==> !enabled,
        enabled && gateway_configured ==> status_of(enabled, gateway_configured)
            == ProductStatus::GatewayPending,
        enabled && !gateway_configured ==> status_of(enabled, gateway_configured)
            == ProductStatus::EnginePending,
{
}

/// A listed product is reported `Disabled` exactly when it is listed as
/// not enabled; an enabled one is `GatewayPending` when it has a gateway
/// target (and the gateway is reported configured) and `EnginePending`
/// when it has none.
pub proof fn law_listed_status_meaning(
    r: ProductResponse,
    m: ManifestView,
    enabled: bool,
    env: EnvSnapshot,
)
    requires
        describes(r, m, enabled, env),
    ensures
        r.enabled == enabled,
        (r.status == ProductStatus::Disabled) <==> !r.enabled,
        r.gateway.configured == product_target(m, env) is Some,
        r.enabled && product_target(m, env) is Some ==> r.status == ProductStatus::GatewayPending,
        r.enabled && product_target(m, env) is None ==> r.status == ProductStatus::EnginePending,
{
}

/// A gateway target comes from the environment variable when that is
/// set to a non-blank value, otherwise from the default URL; either way
/// trimmed and without trailing slashes, and only when that leaves
/// something.
pub proof fn law_gateway_target_source(g: GatewayView, env: EnvSnapshot)
    ensures
        (g.env_var matches Some(n) && env.lookup(n) matches Some(v) && trim_ws(v).len() > 0) ==> ({
            let cleaned = skip_trailing(trim_ws(env.lookup(g.env_var->0)->0), TrimSet::Slash);
            resolved_target(g, env) == if cleaned.len() > 0 {
                Some(cleaned)
            } else {
                None::<Seq<char>>
            }
        }),
        !(g.env_var matches Some(n) && env.lookup(n) matches Some(v) && trim_ws(v).len() > 0) ==> (
        resolved_target(g, env) == match g.default_url {
            Some(d) => if skip_trailing(trim_ws(d), TrimSet::Slash).len() > 0 {
                Some(skip_trailing(trim_ws(d), TrimSet::Slash))
            } else {
                None::<Seq<char>>
            },
            None => None::<Seq<char>>,
        }),
{
}

/// The claim a request gets is the first route claim whose method equals
/// the request's in any ASCII case and whose pattern accepts the path;
/// a request gets none exactly when no claim does.
pub proof fn law_claim_is_first_covering(routes: Seq<RouteClaim>, method: Seq<char>, path: Seq<char>)
    ensures
        -1 <= claim_position(routes, method, path) < routes.len(),
        claim_position(routes, method, path) >= 0 ==> ({
            let c = routes[claim_position(routes, method, path)];
            ascii_lower(c.method@) == ascii_lower(method) && route_matches(c.path@, path)
        }),
        forall|j: int|
            0 <= j < routes.len() && (j < claim_position(routes, method, path) || claim_position(
                routes,
                method,
                path,
            ) < 0) ==> !(ascii_lower((#[trigger] routes[j]).method@) == ascii_lower(method)
                && route_matches(routes[j].path@, path)),
    decreases routes.len(),
{
    if routes.len() > 0 && !claim_covers(routes[0], method, path) {
        let t = routes.drop_first();
        law_claim_is_first_covering(t, method, path);
        assert forall|j: int| 1 <= j < routes.len() implies #[trigger] routes[j] == t[j - 1] by {}
    }
}

/// The runtime status of the first-stack setup: `disabled` for a disabled
/// product, `online` for HiveCore, `gateway-pending` with a gateway target
/// and `degraded` otherwise; a drift is counted for `degraded` only.
pub proof fn law_runtime_labels(key: Seq<char>, enabled: bool, gateway_configured: bool)
    ensures
        !enabled ==> runtime_label(key, enabled, gateway_configured) == "disabled"@,
        enabled && key == "hive-core"@ ==> runtime_label(key, enabled, gateway_configured)
            == "online"@,
        enabled && key != "hive-core"@ && gateway_configured ==> runtime_label(
            key,
            enabled,
            gateway_configured,
        ) == "gateway-pending"@,
        enabled && key != "hive-core"@ && !gateway_configured ==> runtime_label(
            key,
            enabled,
            gateway_configured,
        ) == "degraded"@,
        drift_count(key, enabled, gateway_configured) == (if enabled && key != "hive-core"@
            && !gateway_configured {
            1nat
        } else {
            0nat
        }),
{
}

} // verus!
