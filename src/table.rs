use vstd::prelude::*;

use crate::text::text_eq;

verus! {

/// The mapping that a list of pairs stands for; a later pair for a name
/// overrides an earlier one.
pub open spec fn pairs_map<V>(s: Seq<(String, V)>) -> Map<Seq<char>, V>
    decreases s.len(),
{
    if s.len() == 0 {
        Map::empty()
    } else {
        pairs_map(s.drop_last()).insert(s.last().0@, s.last().1)
    }
}

/// A mapping from names to values, where the last value stored for a name
/// wins.
pub struct NameTable<V> {
    pub entries: Vec<(String, V)>,
}

impl<V> View for NameTable<V> {
    type V = Map<Seq<char>, V>;

    open spec fn view(&self) -> Map<Seq<char>, V> {
        pairs_map(self.entries@)
    }
}

impl<V> NameTable<V> {
    pub fn new() -> (r: NameTable<V>)
        ensures
            r@ == Map::<Seq<char>, V>::empty(),
    {
        NameTable { entries: Vec::new() }
    }

    /// Stores `value` for `name`, replacing any earlier value.
    pub fn insert(&mut self, name: String, value: V)
        ensures
            final(self)@ == old(self)@.insert(name@, value),
    {
        let ghost before = self.entries@;
        let ghost e = (name, value);
        self.entries.push((name, value));
        proof {
            assert(self.entries@.drop_last() =~= before);
        }
    }

    /// The value stored for `name`, if any.
    pub fn get(&self, name: &str) -> (r: Option<&V>)
        ensures
            r is Some <==> self@.contains_key(name@),
            r is Some ==> *r->0 == self@[name@],
    {
        let ghost s = self.entries@;
        let mut hit: Option<usize> = None;
        let mut i: usize = 0;
        while i < self.entries.len()
            invariant
                s == self.entries@,
                i <= s.len(),
                hit is Some ==> hit->0 < i && pairs_map(s.take(i as int)).contains_key(name@)
                    && pairs_map(s.take(i as int))[name@] == s[hit->0 as int].1,
                hit is None ==> !pairs_map(s.take(i as int)).contains_key(name@),
            decreases s.len() - i,
        {
            proof {
                assert(s.take(i + 1).drop_last() =~= s.take(i as int));
            }
            if text_eq(self.entries[i].0.as_str(), name) {
                hit = Some(i);
            }
            i = i + 1;
        }
        proof {
            assert(s.take(i as int) =~= s);
        }
        match hit {
            None => None,
            Some(j) => Some(&self.entries[j].1),
        }
    }

    /// Whether a value is stored for `name`.
    pub fn contains(&self, name: &str) -> (r: bool)
        ensures
            r == self@.contains_key(name@),
    {
        self.get(name).is_some()
    }
}

/// A value stored for a name is what later lookups of that name find, until
/// the name is stored again; storing it leaves every other name as it was.
pub proof fn lemma_stored_value_kept<V>(m: Map<Seq<char>, V>, name: Seq<char>, other: Seq<char>, value: V)
    ensures
        m.insert(name, value).contains_key(name),
        m.insert(name, value)[name] == value,
        other != name ==> m.insert(name, value).contains_key(other) == m.contains_key(other),
        other != name && m.contains_key(other) ==> m.insert(name, value)[other] == m[other],
{
}

} // verus!
