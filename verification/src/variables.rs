//! The variables that an include block hands to the page it includes.

use vstd::prelude::*;
use vstd::string::*;

verus! {

/// A mapping from variable names to values.
///
/// The entries are kept in the order in which they came; no name occurs twice.
#[derive(Debug, Clone, PartialEq, Eq)]
pub struct VariableMap {
    entries: Vec<(String, String)>,
}

/// The mapping that a list of entries stands for: of two entries with one
/// name, the earlier one counts.
pub open spec fn entries_map(entries: Seq<(Seq<char>, Seq<char>)>) -> Map<Seq<char>, Seq<char>>
    decreases entries.len(),
{
    if entries.len() == 0 {
        Map::empty()
    } else {
        let before = entries_map(entries.drop_last());
        if before.contains_key(entries.last().0) {
            before
        } else {
            before.insert(entries.last().0, entries.last().1)
        }
    }
}

/// A name is mapped if and only if an entry has it, and then to the value of
/// the first such entry.
pub proof fn lemma_entries_map(entries: Seq<(Seq<char>, Seq<char>)>, name: Seq<char>)
    ensures
        entries_map(entries).contains_key(name) <==> exists|i: int|
            0 <= i < entries.len() && (#[trigger] entries[i]).0 == name,
        forall|i: int|
            0 <= i < entries.len() && (#[trigger] entries[i]).0 == name && (forall|j: int|
                0 <= j < i ==> (#[trigger] entries[j]).0 != name) ==> entries_map(entries)[name]
                == entries[i].1,
    decreases entries.len(),
{
    if entries.len() > 0 {
        let rest = entries.drop_last();
        lemma_entries_map(rest, name);
        let n = entries.len() - 1;
        assert(forall|i: int| 0 <= i < n ==> rest[i] == entries[i]);
        if entries_map(rest).contains_key(name) {
            let w = choose|i: int| 0 <= i < rest.len() && (#[trigger] rest[i]).0 == name;
            assert(entries[w].0 == name);
        } else {
            if entries_map(entries).contains_key(name) {
                assert(entries[n].0 == name);
            }
        }
        assert forall|i: int|
            0 <= i < entries.len() && (#[trigger] entries[i]).0 == name && (forall|j: int|
                0 <= j < i ==> (#[trigger] entries[j]).0 != name) implies entries_map(
            entries,
        )[name] == entries[i].1 by {
            if i < n {
                assert(rest[i].0 == name);
                assert forall|j: int| 0 <= j < i implies (#[trigger] rest[j]).0 != name by {
                    assert(entries[j].0 != name);
                }
            } else {
                if entries_map(rest).contains_key(name) {
                    let w = choose|k: int| 0 <= k < rest.len() && (#[trigger] rest[k]).0 == name;
                    assert(entries[w].0 == name);
                    assert(false);
                }
            }
        }
    }
}

impl VariableMap {
    /// The entries as pairs of texts.
    pub closed spec fn pairs(&self) -> Seq<(Seq<char>, Seq<char>)> {
        Seq::new(self.entries@.len(), |i: int| (self.entries@[i].0@, self.entries@[i].1@))
    }

    /// No name occurs twice. Every mapping that `new` and `insert` make is
    /// of this kind.
    pub closed spec fn wf(&self) -> bool {
        forall|i: int, j: int|
            0 <= i < j < self.entries@.len() ==> (#[trigger] self.entries@[i]).0@ != (
            #[trigger] self.entries@[j]).0@
    }

    /// A mapping without entries.
    pub fn new() -> (r: VariableMap)
        ensures
            r.wf(),
            r@ == Map::<Seq<char>, Seq<char>>::empty(),
    {
        let r = VariableMap { entries: Vec::new() };
        assert(r.pairs() =~= Seq::empty());
        r
    }

    /// The number of names that are mapped.
    pub fn len(&self) -> (n: usize)
        requires
            self.wf(),
        ensures
            n == self@.dom().len(),
            self@.dom().finite(),
    {
        proof {
            self.lemma_count();
        }
        self.entries.len()
    }

    /// Whether no name is mapped.
    pub fn is_empty(&self) -> (r: bool)
        ensures
            r == (self@ == Map::<Seq<char>, Seq<char>>::empty()),
    {
        proof {
            if self.entries@.len() == 0 {
                assert(self@ =~= Map::<Seq<char>, Seq<char>>::empty());
            } else {
                lemma_entries_map(self.pairs(), self.pairs()[0].0);
            }
        }
        self.entries.len() == 0
    }

    proof fn lemma_count(&self)
        requires
            self.wf(),
        ensures
            self@.dom().finite(),
            self@.dom().len() == self.entries@.len(),
    {
        lemma_count_pairs(self.pairs());
    }

    fn position(&self, name: &String) -> (at: Option<usize>)
        ensures
            match at {
                Some(i) => i < self.entries@.len() && self.entries@[i as int].0@ == name@
                    && forall|j: int| 0 <= j < i ==> (#[trigger] self.pairs()[j]).0 != name@,
                None => forall|j: int|
                    0 <= j < self.entries@.len() ==> (#[trigger] self.pairs()[j]).0 != name@,
            },
    {
        let mut i: usize = 0;
        while i < self.entries.len()
            invariant
                i <= self.entries@.len(),
                forall|j: int| 0 <= j < i ==> (#[trigger] self.pairs()[j]).0 != name@,
            decreases self.entries@.len() - i,
        {
            if self.entries[i].0 == *name {
                return Some(i);
            }
            assert(self.pairs()[i as int].0 == self.entries@[i as int].0@);
            i = i + 1;
        }
        None
    }

    /// The value of `name`, if it has one.
    pub fn get(&self, name: &str) -> (r: Option<&String>)
        ensures
            match r {
                Some(value) => self@.contains_key(name@) && self@[name@] == value@,
                None => !self@.contains_key(name@),
            },
    {
        let key = String::from_str(name);
        proof {
            lemma_entries_map(self.pairs(), name@);
        }
        match self.position(&key) {
            Some(i) => {
                assert(self.pairs()[i as int].0 == name@);
                Some(&self.entries[i].1)
            },
            None => None,
        }
    }

    /// Maps `name` to `value` unless `name` has a value already.
    pub fn insert(&mut self, name: String, value: String)
        ensures
            old(self).wf() ==> final(self).wf(),
            final(self)@ == if old(self)@.contains_key(name@) {
                old(self)@
            } else {
                old(self)@.insert(name@, value@)
            },
    {
        proof {
            lemma_entries_map(self.pairs(), name@);
        }
        let ghost before = self.pairs();
        match self.position(&name) {
            Some(i) => {
                assert(self.pairs()[i as int].0 == name@);
            },
            None => {
                self.entries.push((name, value));
                proof {
                    assert(self.pairs().drop_last() =~= before);
                    assert(self.pairs().last() == (name@, value@));
                    assert forall|i: int, j: int|
                        old(self).wf() && 0 <= i < j < self.entries@.len() implies (
                    #[trigger] self.entries@[i]).0@ != (#[trigger] self.entries@[j]).0@ by {
                        if j == self.entries@.len() - 1 {
                            assert(before[i].0 != name@);
                        }
                    }
                }
            },
        }
    }
}

impl View for VariableMap {
    type V = Map<Seq<char>, Seq<char>>;

    closed spec fn view(&self) -> Map<Seq<char>, Seq<char>> {
        entries_map(self.pairs())
    }
}

proof fn lemma_count_pairs(pairs: Seq<(Seq<char>, Seq<char>)>)
    requires
        forall|i: int, j: int|
            0 <= i < j < pairs.len() ==> (#[trigger] pairs[i]).0 != (#[trigger] pairs[j]).0,
    ensures
        entries_map(pairs).dom().finite(),
        entries_map(pairs).dom().len() == pairs.len(),
    decreases pairs.len(),
{
    if pairs.len() > 0 {
        let rest = pairs.drop_last();
        assert(forall|i: int| 0 <= i < rest.len() ==> rest[i] == pairs[i]);
        lemma_count_pairs(rest);
        lemma_entries_map(rest, pairs.last().0);
        if entries_map(rest).contains_key(pairs.last().0) {
            let w = choose|i: int| 0 <= i < rest.len() && (#[trigger] rest[i]).0 == pairs.last().0;
            assert(pairs[w].0 == pairs[pairs.len() - 1].0);
        }
    }
}

} // verus!
