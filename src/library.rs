//! Keyed sets of definition blocks: each component name maps to the verbatim
//! text of its block, and a later block replaces an earlier one of the same name.
use vstd::prelude::*;

verus! {

/// One component's verbatim block, under the component's name.
pub struct Definition {
    pub name: String,
    pub text: String,
}

/// The mapping that a list of (name, block) pairs denotes when the pairs are
/// applied in order, each one replacing any earlier block of the same name.
pub open spec fn map_of(s: Seq<(Seq<char>, Seq<char>)>) -> Map<Seq<char>, Seq<char>>
    decreases s.len(),
{
    if s.len() == 0 {
        Map::empty()
    } else {
        map_of(s.drop_last()).insert(s.last().0, s.last().1)
    }
}

/// No name occurs twice in the list.
pub open spec fn names_unique(s: Seq<(Seq<char>, Seq<char>)>) -> bool {
    forall|i: int, j: int| 0 <= i < j < s.len() ==> s[i].0 != s[j].0
}

/// The names of `map_of(s)` are those of the list, and with unique names each
/// name maps to its own block.
pub proof fn lemma_map_of_entries(s: Seq<(Seq<char>, Seq<char>)>)
    ensures
        forall|k: Seq<char>| #[trigger]
            map_of(s).contains_key(k) <==> exists|i: int| 0 <= i < s.len() && s[i].0 == k,
        names_unique(s) ==> forall|i: int| 0 <= i < s.len() ==> #[trigger] map_of(s)[s[i].0] == s[i].1,
    decreases s.len(),
{
    if s.len() > 0 {
        let d = s.drop_last();
        lemma_map_of_entries(d);
        assert(map_of(s) == map_of(d).insert(s.last().0, s.last().1));
        assert forall|k: Seq<char>| #[trigger]
            map_of(s).contains_key(k) <==> exists|i: int| 0 <= i < s.len() && s[i].0 == k by {
            assert(map_of(d).contains_key(k) <==> exists|i: int| 0 <= i < d.len() && d[i].0 == k);
            if k == s.last().0 {
                assert(s[s.len() - 1].0 == k);
            }
            if map_of(s).contains_key(k) && k != s.last().0 {
                let i = choose|i: int| 0 <= i < d.len() && d[i].0 == k;
                assert(s[i].0 == k);
            }
            if exists|i: int| 0 <= i < s.len() && s[i].0 == k {
                let i = choose|i: int| 0 <= i < s.len() && s[i].0 == k;
                if i < d.len() {
                    assert(d[i].0 == k);
                }
            }
        }
        if names_unique(s) {
            assert forall|i: int| 0 <= i < s.len() implies #[trigger] map_of(s)[s[i].0] == s[i].1 by {
                if i < d.len() {
                    assert(d[i] == s[i]);
                }
            }
        }
    }
}

/// Each value of `map_of(s)` is the block of some pair of that name.
pub proof fn lemma_map_of_values(s: Seq<(Seq<char>, Seq<char>)>)
    ensures
        forall|k: Seq<char>| #[trigger] map_of(s).contains_key(k) ==> exists|i: int|
            0 <= i < s.len() && s[i].0 == k && s[i].1 == map_of(s)[k],
    decreases s.len(),
{
    if s.len() > 0 {
        let d = s.drop_last();
        lemma_map_of_values(d);
        assert forall|k: Seq<char>| #[trigger] map_of(s).contains_key(k) implies exists|i: int|
            0 <= i < s.len() && s[i].0 == k && s[i].1 == map_of(s)[k] by {
            if k == s.last().0 {
                assert(s[s.len() - 1].0 == k);
            } else {
                assert(map_of(d).contains_key(k));
                let i = choose|i: int| 0 <= i < d.len() && d[i].0 == k && d[i].1 == map_of(d)[k];
                assert(s[i] == d[i]);
            }
        }
    }
}

/// Replacing the block of a name that occurs once in the list is the same as
/// inserting the new block into the mapping.
pub proof fn lemma_map_of_update(s: Seq<(Seq<char>, Seq<char>)>, i: int, v: Seq<char>)
    requires
        names_unique(s),
        0 <= i < s.len(),
    ensures
        map_of(s.update(i, (s[i].0, v))) == map_of(s).insert(s[i].0, v),
    decreases s.len(),
{
    let k = s[i].0;
    let u = s.update(i, (k, v));
    let d = s.drop_last();
    if i == s.len() - 1 {
        assert(u.drop_last() == d);
        assert(map_of(u) =~= map_of(s).insert(k, v));
    } else {
        assert(u.drop_last() == d.update(i, (k, v)));
        lemma_map_of_update(d, i, v);
        assert(s.last().0 != k);
        assert(map_of(u) =~= map_of(s).insert(k, v));
    }
}

/// A set of definition blocks keyed by component name, kept in the order in
/// which names were first added.
pub struct DefinitionSet {
    entries: Vec<Definition>,
}

impl View for DefinitionSet {
    type V = Map<Seq<char>, Seq<char>>;

    open spec fn view(&self) -> Map<Seq<char>, Seq<char>> {
        map_of(self.pairs())
    }
}

impl DefinitionSet {
    /// The (name, block) pairs, in order.
    pub closed spec fn pairs(&self) -> Seq<(Seq<char>, Seq<char>)> {
        self.entries@.map_values(|d: Definition| (d.name@, d.text@))
    }

    /// Every name occurs once.
    pub open spec fn wf(&self) -> bool {
        names_unique(self.pairs())
    }

    /// An empty set.
    pub fn new() -> (r: DefinitionSet)
        ensures
            r.wf(),
            r.pairs() == Seq::<(Seq<char>, Seq<char>)>::empty(),
            r@ == Map::<Seq<char>, Seq<char>>::empty(),
    {
        let r = DefinitionSet { entries: Vec::new() };
        assert(r.pairs() =~= Seq::<(Seq<char>, Seq<char>)>::empty());
        r
    }

    /// Number of components in the set.
    pub fn len(&self) -> (r: usize)
        requires
            self.wf(),
        ensures
            r == self@.len(),
            r == self.pairs().len(),
    {
        proof {
            self.lemma_len();
        }
        self.entries.len()
    }

    proof fn lemma_len(&self)
        requires
            self.wf(),
        ensures
            self@.len() == self.pairs().len(),
        decreases self.pairs().len(),
    {
        lemma_map_of_len(self.pairs());
    }

    /// The position of `name` among the entries, if it is there.
    fn position(&self, name: &String) -> (r: Option<usize>)
        ensures
            match r {
                Some(i) => i < self.pairs().len() && self.pairs()[i as int].0 == name@,
                None => forall|i: int| 0 <= i < self.pairs().len() ==> self.pairs()[i].0 != name@,
            },
    {
        let mut i: usize = 0;
        while i < self.entries.len()
            invariant
                i <= self.entries@.len(),
                forall|j: int| 0 <= j < i ==> self.pairs()[j].0 != name@,
            decreases self.entries@.len() - i,
        {
            if self.entries[i].name == *name {
                return Some(i);
            }
            i = i + 1;
        }
        None
    }

    /// The block stored under `name`, if any.
    pub fn get(&self, name: &String) -> (r: Option<&String>)
        requires
            self.wf(),
        ensures
            match r {
                Some(t) => self@.contains_key(name@) && t@ == self@[name@],
                None => !self@.contains_key(name@),
            },
    {
        proof {
            lemma_map_of_entries(self.pairs());
        }
        match self.position(name) {
            Some(i) => Some(&self.entries[i].text),
            None => None,
        }
    }

    /// Stores `text` under `name`, replacing any block already stored there.
    pub fn insert(&mut self, name: String, text: String)
        requires
            old(self).wf(),
        ensures
            final(self).wf(),
            final(self)@ == old(self)@.insert(name@, text@),
    {
        proof {
            lemma_map_of_entries(self.pairs());
        }
        match self.position(&name) {
            Some(i) => {
                let ghost before = self.pairs();
                let d = Definition { name, text };
                self.entries.set(i, d);
                proof {
                    assert(self.pairs() =~= before.update(i as int, (before[i as int].0, d.text@)));
                    lemma_map_of_update(before, i as int, d.text@);
                }
            },
            None => {
                let ghost before = self.pairs();
                let d = Definition { name, text };
                self.entries.push(d);
                proof {
                    assert(self.pairs() =~= before.push((d.name@, d.text@)));
                    assert(self.pairs().drop_last() =~= before);
                }
            },
        }
    }

    /// The names and blocks in order, as owned pairs.
    pub fn to_pairs(&self) -> (r: Vec<(String, String)>)
        ensures
            r@.len() == self.pairs().len(),
            forall|i: int| 0 <= i < r@.len() ==> (#[trigger] r@[i]).0@ == self.pairs()[i].0 && r@[i].1@ == self.pairs()[i].1,
    {
        let mut r: Vec<(String, String)> = Vec::new();
        let mut i: usize = 0;
        while i < self.entries.len()
            invariant
                i <= self.entries@.len(),
                r@.len() == i,
                forall|j: int| 0 <= j < i ==> (#[trigger] r@[j]).0@ == self.pairs()[j].0 && r@[j].1@ == self.pairs()[j].1,
            decreases self.entries@.len() - i,
        {
            r.push((self.entries[i].name.clone(), self.entries[i].text.clone()));
            i = i + 1;
        }
        r
    }
}

/// With unique names, the mapping has one key per pair.
pub proof fn lemma_map_of_len(s: Seq<(Seq<char>, Seq<char>)>)
    requires
        names_unique(s),
    ensures
        map_of(s).len() == s.len(),
    decreases s.len(),
{
    if s.len() > 0 {
        let d = s.drop_last();
        lemma_map_of_len(d);
        lemma_map_of_entries(d);
        lemma_map_of_finite(d);
        assert(!map_of(d).contains_key(s.last().0));
    }
}

proof fn lemma_map_of_finite(s: Seq<(Seq<char>, Seq<char>)>)
    ensures
        map_of(s).dom().finite(),
    decreases s.len(),
{
    if s.len() > 0 {
        lemma_map_of_finite(s.drop_last());
    }
}

} // verus!
