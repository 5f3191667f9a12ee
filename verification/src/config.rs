//! Which products a backend process serves, and where it listens.
use vstd::prelude::*;
use crate::env::EnvSnapshot;
use crate::text::{
    ascii_lower, chars_of, lemma_normalized_text, lowered, owned, range_equals, same_text,
    split_chars, split_on, string_of, trim_ws, trimmed, TrimSet,
};

verus! {

/// The products that a backend process enables.
#[derive(Debug)]
pub enum ProductSelection {
    /// Every product: suite mode.
    All,
    /// The listed product keys (the order and repeats carry no meaning).
    Only(Vec<String>),
}

/// The meaning of a selection: `None` for every product, otherwise the
/// set of enabled keys.
pub open spec fn keys_view(keys: Seq<String>) -> Set<Seq<char>> {
    keys.map_values(|k: String| k@).to_set()
}

impl View for ProductSelection {
    type V = Option<Set<Seq<char>>>;

    open spec fn view(&self) -> Option<Set<Seq<char>>> {
        match self {
            ProductSelection::All => None,
            ProductSelection::Only(keys) => Some(keys_view(keys@)),
        }
    }
}

/// A product key as `PATCHHIVE_PRODUCTS` lists it, normalised:
/// surrounding whitespace removed, ASCII letters lower-cased.
pub open spec fn normalized_key(part: Seq<char>) -> Seq<char> {
    ascii_lower(trim_ws(part))
}

/// Whether the comma-separated list `raw` names at least one key.
pub open spec fn names_some_key(raw: Seq<char>) -> bool {
    exists|i: int|
        0 <= i < split_on(raw, ',').len() && #[trigger] normalized_key(split_on(raw, ',')[i]).len()
            > 0
}

/// The keys that the comma-separated list `raw` names.
pub open spec fn listed_keys(raw: Seq<char>) -> Set<Seq<char>> {
    Set::new(
        |k: Seq<char>|
            k.len() > 0 && exists|i: int|
                0 <= i < split_on(raw, ',').len() && #[trigger] normalized_key(
                    split_on(raw, ',')[i],
                ) == k,
    )
}

/// Whether the trimmed value asks for the whole suite: empty, `all` in
/// any ASCII case, or `*`.
pub open spec fn asks_for_all(raw: Seq<char>) -> bool {
    raw.len() == 0 || ascii_lower(raw) == seq!['a', 'l', 'l'] || raw == seq!['*']
}

/// The selection that the value of `PATCHHIVE_PRODUCTS` denotes.
pub open spec fn selection_from(value: Seq<char>) -> Option<Set<Seq<char>>> {
    let raw = trim_ws(value);
    if asks_for_all(raw) || !names_some_key(raw) {
        None
    } else {
        Some(listed_keys(raw))
    }
}

/// The label of a selection's mode.
pub open spec fn mode_label_of(sel: Option<Set<Seq<char>>>) -> Seq<char> {
    match sel {
        None => "suite"@,
        Some(keys) => if keys.len() == 1 {
            "product"@
        } else {
            "partial-suite"@
        },
    }
}

/// Whether a selection enables `key`.
pub open spec fn selection_enables(sel: Option<Set<Seq<char>>>, key: Seq<char>) -> bool {
    match sel {
        None => true,
        Some(keys) => keys.contains(key),
    }
}

proof fn lemma_single_key_set(s: Seq<Seq<char>>)
    ensures
        s.to_set().len() == 1 <==> (s.len() > 0 && forall|i: int| 0 <= i < s.len() ==> #[trigger] s[i] == s[0]),
{
    broadcast use vstd::seq_lib::seq_to_set_is_finite;

    Set::lemma_is_singleton(s.to_set());
    if s.len() > 0 && forall|i: int| 0 <= i < s.len() ==> #[trigger] s[i] == s[0] {
        assert(s.to_set().contains(s[0]));
        assert(s.to_set().len() > 0) by {
            assert(s.to_set().remove(s[0]).len() + 1 == s.to_set().len());
        }
    } else if s.len() == 0 {
        assert(s.to_set() =~= Set::<Seq<char>>::empty());
    } else {
        let i = choose|i: int| 0 <= i < s.len() && #[trigger] s[i] != s[0];
        assert(s.to_set().contains(s[0]));
        assert(s.to_set().contains(s[i]));
    }
}

proof fn lemma_keys_view_contains(keys: Seq<String>, k: Seq<char>)
    ensures
        keys_view(keys).contains(k) <==> exists|i: int| 0 <= i < keys.len() && #[trigger] keys[i]@ == k,
{
    let m = keys.map_values(|x: String| x@);
    if keys_view(keys).contains(k) {
        let i = choose|i: int| 0 <= i < m.len() && m[i] == k;
        assert(keys[i]@ == k);
    }
    if exists|i: int| 0 <= i < keys.len() && #[trigger] keys[i]@ == k {
        let i = choose|i: int| 0 <= i < keys.len() && #[trigger] keys[i]@ == k;
        assert(m[i] == k);
    }
}

impl ProductSelection {
    /// Reads the value of `PATCHHIVE_PRODUCTS`: the empty value, `all` in
    /// any ASCII case and `*` select every product; otherwise the
    /// comma-separated keys, trimmed and lower-cased, with empty ones
    /// dropped. A list that names no key selects every product.
    pub fn from_env_value(value: &str) -> (r: ProductSelection)
        ensures
            r@ == selection_from(value@),
    {
        let v = chars_of(value);
        let raw = trimmed(&v, TrimSet::Whitespace);
        let lowered_raw = lowered(&raw);
        let is_all = range_equals(&lowered_raw, 0, lowered_raw.len(), "all");
        let is_star = range_equals(&raw, 0, raw.len(), "*");
        proof {
            reveal_strlit("all");
            reveal_strlit("*");
            assert(lowered_raw@.subrange(0, lowered_raw@.len() as int) =~= lowered_raw@);
            assert(raw@.subrange(0, raw@.len() as int) =~= raw@);
            assert("all"@ =~= seq!['a', 'l', 'l']);
            assert("*"@ =~= seq!['*']);
        }
        if raw.len() == 0 || is_all || is_star {
            return ProductSelection::All;
        }
        let parts = split_chars(&raw, ',');
        let ghost pieces = split_on(raw@, ',');
        let mut keys: Vec<String> = Vec::new();
        let mut i: usize = 0;
        while i < parts.len()
            invariant
                parts@.map_values(|p: Vec<char>| p@) == pieces,
                i <= parts@.len(),
                forall|k: Seq<char>|
                    #![trigger keys_view(keys@).contains(k)]
                    keys_view(keys@).contains(k) <==> (k.len() > 0 && exists|j: int|
                        0 <= j < i && #[trigger] normalized_key(pieces[j]) == k),
                keys@.len() > 0 <==> exists|j: int|
                    0 <= j < i && #[trigger] normalized_key(pieces[j]).len() > 0,
            decreases parts@.len() - i,
        {
            let piece = trimmed(&parts[i], TrimSet::Whitespace);
            let key = lowered(&piece);
            proof {
                assert(parts@[i as int]@ == pieces[i as int]);
                assert(key@ == normalized_key(pieces[i as int]));
            }
            let ghost old_keys = keys@;
            if key.len() > 0 {
                let s = string_of(&key);
                keys.push(s);
                proof {
                    assert forall|k: Seq<char>| keys_view(keys@).contains(k) <==> (k.len() > 0
                        && exists|j: int| 0 <= j < i + 1 && #[trigger] normalized_key(pieces[j])
                        == k) by {
                        lemma_keys_view_contains(keys@, k);
                        lemma_keys_view_contains(old_keys, k);
                        if exists|j: int| 0 <= j < keys@.len() && #[trigger] keys@[j]@ == k {
                            let j = choose|j: int| 0 <= j < keys@.len() && #[trigger] keys@[j]@
                                == k;
                            if j < old_keys.len() {
                                assert(old_keys[j]@ == k);
                            }
                        }
                        if k.len() > 0 && exists|j: int|
                            0 <= j < i + 1 && #[trigger] normalized_key(pieces[j]) == k {
                            let j = choose|j: int|
                                0 <= j < i + 1 && #[trigger] normalized_key(pieces[j]) == k;
                            if j == i {
                                assert(keys@[old_keys.len() as int]@ == k);
                            } else {
                                assert(keys_view(old_keys).contains(k));
                                let jj = choose|jj: int|
                                    0 <= jj < old_keys.len() && #[trigger] old_keys[jj]@ == k;
                                assert(keys@[jj]@ == k);
                            }
                        }
                    }
                }
            } else {
                proof {
                    assert forall|k: Seq<char>| keys_view(keys@).contains(k) <==> (k.len() > 0
                        && exists|j: int| 0 <= j < i + 1 && #[trigger] normalized_key(pieces[j])
                        == k) by {
                        if k.len() > 0 && exists|j: int|
                            0 <= j < i + 1 && #[trigger] normalized_key(pieces[j]) == k {
                            let j = choose|j: int|
                                0 <= j < i + 1 && #[trigger] normalized_key(pieces[j]) == k;
                            assert(j != i);
                        }
                    }
                }
            }
            i = i + 1;
        }
        if keys.len() == 0 {
            ProductSelection::All
        } else {
            let r = ProductSelection::Only(keys);
            assert(keys_view(keys@) =~= listed_keys(raw@));
            r
        }
    }

    /// Whether the selection enables the product `key`.
    pub fn enables(&self, key: &str) -> (r: bool)
        ensures
            r == selection_enables(self@, key@),
    {
        match self {
            ProductSelection::All => true,
            ProductSelection::Only(keys) => contains_key(keys, key),
        }
    }

    /// `suite` for every product, `product` for exactly one product,
    /// `partial-suite` otherwise.
    #[verifier::loop_isolation(false)]
    pub fn mode_label(&self) -> (r: &'static str)
        ensures
            r@ == mode_label_of(self@),
    {
        match self {
            ProductSelection::All => "suite",
            ProductSelection::Only(keys) => {
                let ghost m = keys@.map_values(|k: String| k@);
                proof {
                    lemma_single_key_set(m);
                }
                if keys.len() == 0 {
                    return "partial-suite";
                }
                let mut i: usize = 1;
                while i < keys.len()
                    invariant
                        1 <= i <= keys@.len(),
                        m == keys@.map_values(|k: String| k@),
                        forall|j: int| 0 <= j < i ==> #[trigger] m[j] == m[0],
                    decreases keys@.len() - i,
                {
                    if !(keys[i] == keys[0]) {
                        assert(m[i as int] != m[0]);
                        proof {
                            lemma_single_key_set(m);
                        }
                        return "partial-suite";
                    }
                    i = i + 1;
                }
                "product"
            },
        }
    }
}

impl PartialEq for ProductSelection {
    fn eq(&self, other: &Self) -> (r: bool) {
        match (self, other) {
            (ProductSelection::All, ProductSelection::All) => true,
            (ProductSelection::Only(a), ProductSelection::Only(b)) => {
                let r = covers(a, b) && covers(b, a);
                proof {
                    if r {
                        assert(keys_view(a@) =~= keys_view(b@));
                    }
                }
                r
            },
            _ => false,
        }
    }
}

impl vstd::std_specs::cmp::PartialEqSpecImpl for ProductSelection {
    open spec fn obeys_eq_spec() -> bool {
        true
    }

    open spec fn eq_spec(&self, other: &ProductSelection) -> bool {
        self@ == other@
    }
}

/// Whether `key` is among `keys`.
fn contains_key(keys: &Vec<String>, key: &str) -> (r: bool)
    ensures
        r == keys_view(keys@).contains(key@),
{
    let mut i: usize = 0;
    while i < keys.len()
        invariant
            i <= keys@.len(),
            forall|j: int| 0 <= j < i ==> (#[trigger] keys@[j])@ != key@,
        decreases keys@.len() - i,
    {
        if same_text(keys[i].as_str(), key) {
            proof {
                lemma_keys_view_contains(keys@, key@);
            }
            return true;
        }
        i = i + 1;
    }
    proof {
        lemma_keys_view_contains(keys@, key@);
    }
    false
}

/// Whether every key of `b` is among the keys of `a`.
fn covers(a: &Vec<String>, b: &Vec<String>) -> (r: bool)
    ensures
        r == keys_view(b@).subset_of(keys_view(a@)),
{
    let mut i: usize = 0;
    while i < b.len()
        invariant
            i <= b@.len(),
            forall|j: int| 0 <= j < i ==> keys_view(a@).contains((#[trigger] b@[j])@),
        decreases b@.len() - i,
    {
        let found = contains_key(a, b[i].as_str());
        if !found {
            proof {
                lemma_keys_view_contains(b@, b@[i as int]@);
            }
            return false;
        }
        i = i + 1;
    }
    assert forall|k: Seq<char>| keys_view(b@).contains(k) implies keys_view(a@).contains(k) by {
        lemma_keys_view_contains(b@, k);
    }
    true
}

/// The address the backend listens on: `PATCHHIVE_BIND_ADDR` when it is
/// set, otherwise `127.0.0.1:` followed by `PATCHHIVE_PORT` (default
/// `8100`). The caller parses it as a socket address.
pub fn bind_address_text(env: &EnvSnapshot) -> (r: String)
    ensures
        r@ == match env.lookup("PATCHHIVE_BIND_ADDR"@) {
            Some(v) => v,
            None => "127.0.0.1:"@ + match env.lookup("PATCHHIVE_PORT"@) {
                Some(p) => p,
                None => "8100"@,
            },
        },
{
    match env.get("PATCHHIVE_BIND_ADDR") {
        Some(v) => v,
        None => {
            let mut r = owned("127.0.0.1:");
            match env.get("PATCHHIVE_PORT") {
                Some(p) => r.append(p.as_str()),
                None => r.append("8100"),
            }
            r
        },
    }
}

/// The path of the shared database: `PATCHHIVE_DB_PATH` when it is set,
/// otherwise `patchhive-backend.db`.
pub fn db_path_text(env: &EnvSnapshot) -> (r: String)
    ensures
        r@ == match env.lookup("PATCHHIVE_DB_PATH"@) {
            Some(v) => v,
            None => "patchhive-backend.db"@,
        },
{
    match env.get("PATCHHIVE_DB_PATH") {
        Some(v) => v,
        None => owned("patchhive-backend.db"),
    }
}

/// The product selection that `PATCHHIVE_PRODUCTS` asks for (every
/// product when it is not set).
pub fn product_selection_from_env(env: &EnvSnapshot) -> (r: ProductSelection)
    ensures
        r@ == selection_from(
            match env.lookup("PATCHHIVE_PRODUCTS"@) {
                Some(v) => v,
                None => "all"@,
            },
        ),
{
    match env.get("PATCHHIVE_PRODUCTS") {
        Some(v) => ProductSelection::from_env_value(v.as_str()),
        None => ProductSelection::from_env_value("all"),
    }
}

/// Every key a `PATCHHIVE_PRODUCTS` value selects is normalised: not
/// empty, lower-case in ASCII, and without surrounding whitespace.
pub proof fn law_selected_keys_are_normalized(value: Seq<char>, k: Seq<char>)
    requires
        selection_from(value) matches Some(keys) && keys.contains(k),
    ensures
        k.len() > 0,
        ascii_lower(k) == k,
        trim_ws(k) == k,
{
    let raw = trim_ws(value);
    let pieces = split_on(raw, ',');
    let i = choose|i: int| 0 <= i < pieces.len() && #[trigger] normalized_key(pieces[i]) == k;
    lemma_normalized_text(pieces[i]);
}

/// A key is selected when its normalised form is listed: the value's
/// keys match in any ASCII case and with any surrounding whitespace.
pub proof fn law_listed_key_is_selected(value: Seq<char>, i: int)
    requires
        !asks_for_all(trim_ws(value)),
        0 <= i < split_on(trim_ws(value), ',').len(),
        normalized_key(split_on(trim_ws(value), ',')[i]).len() > 0,
    ensures
        selection_enables(
            selection_from(value),
            normalized_key(split_on(trim_ws(value), ',')[i]),
        ),
{
}

/// The backend is in suite mode exactly when every product is selected.
pub proof fn law_suite_mode_iff_all(sel: Option<Set<Seq<char>>>)
    ensures
        (mode_label_of(sel) == "suite"@) <==> sel is None,
{
    reveal_strlit("suite");
    reveal_strlit("product");
    reveal_strlit("partial-suite");
    assert("product"@[0] != "suite"@[0]);
    assert("partial-suite"@[0] != "suite"@[0]);
}

/// Selecting every product enables every key.
pub proof fn law_all_enables_every_key(key: Seq<char>)
    ensures
        selection_enables(None, key),
{
}

/// After trimming, an empty value, `all` in any ASCII case, or `*`
/// selects every product; so does a list that names no key.
pub proof fn law_all_words_select_everything(value: Seq<char>)
    ensures
        trim_ws(value).len() == 0 ==> selection_from(value) is None,
        ascii_lower(trim_ws(value)) == seq!['a', 'l', 'l'] ==> selection_from(value) is None,
        trim_ws(value) == seq!['*'] ==> selection_from(value) is None,
        (forall|i: int|
            0 <= i < split_on(trim_ws(value), ',').len() ==> ascii_lower(
                trim_ws(#[trigger] split_on(trim_ws(value), ',')[i]),
            ).len() == 0) ==> selection_from(value) is None,
{
}

/// A selection from a list enables exactly the normalised keys the list
/// names: every enabled key is the trimmed, lower-cased form of one of
/// the comma-separated parts, and every such non-empty form is enabled.
pub proof fn law_selection_is_the_listed_keys(value: Seq<char>, k: Seq<char>)
    requires
        selection_from(value) is Some,
    ensures
        selection_enables(selection_from(value), k) <==> (k.len() > 0 && exists|i: int|
            0 <= i < split_on(trim_ws(value), ',').len() && ascii_lower(
                trim_ws(#[trigger] split_on(trim_ws(value), ',')[i]),
            ) == k),
{
    let pieces = split_on(trim_ws(value), ',');
    if selection_enables(selection_from(value), k) {
        let i = choose|i: int| 0 <= i < pieces.len() && #[trigger] normalized_key(pieces[i]) == k;
        assert(ascii_lower(trim_ws(pieces[i])) == k);
    }
    if k.len() > 0 && exists|i: int|
        0 <= i < pieces.len() && ascii_lower(trim_ws(#[trigger] pieces[i])) == k {
        let i = choose|i: int| 0 <= i < pieces.len() && ascii_lower(trim_ws(#[trigger] pieces[i])) == k;
        assert(normalized_key(pieces[i]) == k);
        assert(listed_keys(trim_ws(value)).contains(k));
    }
}

/// The mode label: `suite` for every product, `product` for exactly one
/// selected key, `partial-suite` for none or several.
pub proof fn law_mode_labels(sel: Option<Set<Seq<char>>>)
    ensures
        sel is None ==> mode_label_of(sel) == "suite"@,
        sel matches Some(keys) && keys.len() == 1 ==> mode_label_of(sel) == "product"@,
        sel matches Some(keys) && keys.len() != 1 ==> mode_label_of(sel) == "partial-suite"@,
{
}

} // verus!
