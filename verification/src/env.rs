//! A snapshot of the process environment, taken by the caller.
//!
//! The backend's configuration and its gateway targets are read from
//! environment variables. The library never touches the process
//! environment itself; it is handed the variables as plain values.
use vstd::prelude::*;
use crate::text::same_text;

verus! {

/// Environment variables, in the order they were recorded.
/// A later record of a name overrides an earlier one.
pub struct EnvSnapshot {
    vars: Vec<(String, String)>,
}

/// The variables that a sequence of records defines.
pub open spec fn records_to_map(records: Seq<(Seq<char>, Seq<char>)>) -> Map<Seq<char>, Seq<char>>
    decreases records.len(),
{
    if records.len() == 0 {
        Map::empty()
    } else {
        records_to_map(records.drop_last()).insert(records.last().0, records.last().1)
    }
}

impl EnvSnapshot {
    pub closed spec fn records(&self) -> Seq<(Seq<char>, Seq<char>)> {
        self.vars@.map_values(|p: (String, String)| (p.0@, p.1@))
    }

    /// The value of each defined variable.
    pub closed spec fn vars_map(&self) -> Map<Seq<char>, Seq<char>> {
        records_to_map(self.records())
    }

    /// The value of `name`, if it is defined.
    pub open spec fn lookup(&self, name: Seq<char>) -> Option<Seq<char>> {
        if self.vars_map().contains_key(name) {
            Some(self.vars_map()[name])
        } else {
            None
        }
    }

    /// An environment that defines no variable.
    pub fn new() -> (r: EnvSnapshot)
        ensures
            r.vars_map() == Map::<Seq<char>, Seq<char>>::empty(),
    {
        EnvSnapshot { vars: Vec::new() }
    }

    /// Defines `name` as `value`, replacing an earlier definition.
    pub fn set(&mut self, name: String, value: String)
        ensures
            final(self).vars_map() == old(self).vars_map().insert(name@, value@),
    {
        let ghost before = self.records();
        self.vars.push((name, value));
        assert(self.records().drop_last() =~= before);
    }

    /// The value of `name`, if it is defined (`std::env::var`).
    pub fn get(&self, name: &str) -> (r: Option<String>)
        ensures
            r matches Some(v) ==> self.lookup(name@) == Some(v@),
            r is None ==> self.lookup(name@) is None,
    {
        let mut j: usize = self.vars.len();
        assert(self.records().take(j as int) =~= self.records());
        while j > 0
            invariant
                j <= self.vars@.len(),
                records_to_map(self.records()).contains_key(name@)
                    == records_to_map(self.records().take(j as int)).contains_key(name@),
                records_to_map(self.records()).contains_key(name@) ==>
                    records_to_map(self.records())[name@]
                        == records_to_map(self.records().take(j as int))[name@],
            decreases j,
        {
            let ghost prefix = self.records().take(j as int);
            assert(prefix.drop_last() =~= self.records().take(j - 1));
            assert(prefix.last() == (self.vars@[j - 1].0@, self.vars@[j - 1].1@));
            if same_text(self.vars[j - 1].0.as_str(), name) {
                return Some(self.vars[j - 1].1.clone());
            }
            j = j - 1;
        }
        assert(self.records().take(0) =~= Seq::<(Seq<char>, Seq<char>)>::empty());
        None
    }
}

/// Reading a variable gives back what the last `set` of it wrote, and
/// setting one variable leaves the others as they were.
pub proof fn law_env_read_after_write(
    before: EnvSnapshot,
    after: EnvSnapshot,
    name: Seq<char>,
    value: Seq<char>,
    other: Seq<char>,
)
    requires
        after.vars_map() == before.vars_map().insert(name, value),
        other != name,
    ensures
        after.lookup(name) == Some(value),
        after.lookup(other) == before.lookup(other),
{
}

} // verus!
