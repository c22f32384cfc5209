//! A mapping from a text value to a sequence of row positions.
use vstd::hash_map::StringHashMap;
use vstd::prelude::*;

verus! {

/// Whether two sequences of positions are equal.
fn same_positions(a: &Vec<usize>, b: &Vec<usize>) -> (r: bool)
    ensures
        r == (a@ == b@),
{
    if a.len() != b.len() {
        return false;
    }
    let mut k: usize = 0;
    while k < a.len()
        invariant
            a@.len() == b@.len(),
            k <= a@.len(),
            forall|i: int| 0 <= i < k ==> a@[i] == b@[i],
        decreases a@.len() - k,
    {
        if a[k] != b[k] {
            return false;
        }
        k = k + 1;
    }
    assert(a@ =~= b@);
    true
}

/// A mapping from text values to sequences of row positions.
///
/// The (value, positions) pairs are kept in the order in which their values
/// were first added, one pair per value; `slots` finds the pair of a value.
pub struct PositionMap {
    entries: Vec<(String, Vec<usize>)>,
    slots: StringHashMap<usize>,
}

impl View for PositionMap {
    type V = Map<Seq<char>, Seq<usize>>;

    closed spec fn view(&self) -> Map<Seq<char>, Seq<usize>> {
        Map::new(
            |k: Seq<char>| self.slots@.contains_key(k),
            |k: Seq<char>| self.entries@[self.slots@[k] as int].1@,
        )
    }
}

impl PositionMap {
    /// Each value in `slots` leads to the pair that holds it, and each pair is
    /// the one that its value leads to.
    #[verifier::type_invariant]
    spec fn inv(&self) -> bool {
        &&& forall|k: Seq<char>| #[trigger]
            self.slots@.contains_key(k) ==> self.slots@[k] < self.entries@.len()
                && self.entries@[self.slots@[k] as int].0@ == k
        &&& forall|i: int|
            0 <= i < self.entries@.len() ==> self.slots@.contains_key(
                #[trigger] self.entries@[i].0@,
            ) && self.slots@[self.entries@[i].0@] == i
    }

    /// An empty mapping.
    pub fn new() -> (r: Self)
        ensures
            r@ == Map::<Seq<char>, Seq<usize>>::empty(),
    {
        let r = PositionMap { entries: Vec::new(), slots: StringHashMap::new() };
        assert(r@ =~= Map::<Seq<char>, Seq<usize>>::empty());
        r
    }

    /// The (value, positions) pairs: one for each value of the mapping, in
    /// the order in which the values were first added.
    pub fn entries(&self) -> (r: &Vec<(String, Vec<usize>)>)
        ensures
            forall|i: int, j: int| 0 <= i < j < r@.len() ==> r@[i].0@ != r@[j].0@,
            forall|i: int|
                0 <= i < r@.len() ==> self@.contains_key(#[trigger] r@[i].0@) && self@[r@[i].0@]
                    == r@[i].1@,
            forall|k: Seq<char>| #[trigger]
                self@.contains_key(k) ==> exists|i: int| 0 <= i < r@.len() && r@[i].0@ == k,
    {
        proof {
            use_type_invariant(self);
            assert forall|k: Seq<char>| #[trigger] self@.contains_key(k) implies exists|i: int|
                0 <= i < self.entries@.len() && self.entries@[i].0@ == k by {
                let i = self.slots@[k] as int;
                assert(self.entries@[i].0@ == k);
            }
        }
        &self.entries
    }

    /// Whether `key` has positions stored under it.
    pub fn contains_key(&self, key: &str) -> (r: bool)
        ensures
            r == self@.contains_key(key@),
    {
        self.slots.contains_key(key)
    }

    /// The positions stored under `key`, if there are any.
    pub fn get(&self, key: &str) -> (r: Option<&Vec<usize>>)
        ensures
            match r {
                Some(ps) => self@.contains_key(key@) && ps@ == self@[key@],
                None => !self@.contains_key(key@),
            },
    {
        proof {
            use_type_invariant(self);
        }
        match self.slots.get(key) {
            Some(j) => Some(&self.entries[*j].1),
            None => None,
        }
    }

    /// Appends `pos` to the positions stored under `key`, which start out
    /// empty where `key` had none.
    pub fn append(&mut self, key: &str, pos: usize)
        ensures
            final(self)@ == old(self)@.insert(
                key@,
                if old(self)@.contains_key(key@) {
                    old(self)@[key@].push(pos)
                } else {
                    seq![pos]
                },
            ),
    {
        let mut me = PositionMap::new();
        std::mem::swap(self, &mut me);
        proof {
            use_type_invariant(&me);
        }
        let ghost before = me@;
        let PositionMap { mut entries, mut slots } = me;
        let ghost e0 = entries@;
        match slots.get(key) {
            Some(j) => {
                let j = *j;
                entries[j].1.push(pos);
                proof {
                    assert(entries@ =~= e0.update(j as int, entries@[j as int]));
                }
            },
            None => {
                let n = entries.len();
                let mut ps: Vec<usize> = Vec::new();
                ps.push(pos);
                proof {
                    assert(ps@ =~= seq![pos]);
                }
                entries.push((key.to_string(), ps));
                slots.insert(key.to_string(), n);
                proof {
                    assert forall|i: int| 0 <= i < n implies entries@[i].0@ != key@ by {
                        assert(entries@[i] == e0[i]);
                    }
                }
            },
        }
        let after = PositionMap { entries, slots };
        proof {
            assert(after@ =~= before.insert(
                key@,
                if before.contains_key(key@) {
                    before[key@].push(pos)
                } else {
                    seq![pos]
                },
            ));
        }
        *self = after;
    }

    /// Whether every value of `self` has, in `other`, the same positions.
    fn included_in(&self, other: &PositionMap) -> (r: bool)
        ensures
            r == forall|k: Seq<char>| #[trigger]
                self@.contains_key(k) ==> other@.contains_key(k) && other@[k] == self@[k],
    {
        let entries = self.entries();
        let mut j: usize = 0;
        while j < entries.len()
            invariant
                j <= entries@.len(),
                forall|i: int|
                    0 <= i < entries@.len() ==> self@.contains_key(#[trigger] entries@[i].0@)
                        && self@[entries@[i].0@] == entries@[i].1@,
                forall|k: Seq<char>| #[trigger]
                    self@.contains_key(k) ==> exists|i: int|
                        0 <= i < entries@.len() && entries@[i].0@ == k,
                forall|i: int|
                    0 <= i < j ==> other@.contains_key(#[trigger] entries@[i].0@)
                        && other@[entries@[i].0@] == self@[entries@[i].0@],
            decreases entries@.len() - j,
        {
            match other.get(entries[j].0.as_str()) {
                Some(theirs) => {
                    if !same_positions(&entries[j].1, theirs) {
                        return false;
                    }
                },
                None => {
                    return false;
                },
            }
            j = j + 1;
        }
        true
    }

    /// Whether `self` and `other` map the same values to the same positions.
    pub fn same_as(&self, other: &PositionMap) -> (r: bool)
        ensures
            r == (self@ == other@),
    {
        let r = self.included_in(other) && other.included_in(self);
        proof {
            if r {
                assert(self@ =~= other@);
            }
        }
        r
    }
}

} // verus!
