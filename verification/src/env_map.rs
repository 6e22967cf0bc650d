use vstd::prelude::*;

verus! {

/// True when no two entries share a key.
pub open spec fn entries_unique(es: Seq<(String, String)>) -> bool {
    forall|i: int, j: int| 0 <= i < j < es.len() ==> es[i].0@ != es[j].0@
}

/// The mathematical map described by an association list, later entries
/// winning (irrelevant once keys are unique).
pub open spec fn map_of(es: Seq<(String, String)>) -> Map<Seq<char>, Seq<char>>
    decreases es.len(),
{
    if es.len() == 0 {
        Map::empty()
    } else {
        map_of(es.drop_last()).insert(es.last().0@, es.last().1@)
    }
}

proof fn lemma_map_of_contains(es: Seq<(String, String)>, k: Seq<char>)
    ensures
        map_of(es).contains_key(k) <==> (exists|i: int|
            0 <= i < es.len() && #[trigger] es[i].0@ == k),
    decreases es.len(),
{
    if es.len() == 0 {
    } else {
        lemma_map_of_contains(es.drop_last(), k);
        if es.last().0@ == k {
            assert(es[es.len() - 1].0@ == k);
        } else if map_of(es).contains_key(k) {
            let i = choose|i: int| 0 <= i < es.drop_last().len() && #[trigger] es.drop_last()[i].0@
                == k;
            assert(es[i].0@ == k);
        } else {
            assert forall|i: int| 0 <= i < es.len() implies #[trigger] es[i].0@ != k by {
                if i < es.len() - 1 {
                    assert(es.drop_last()[i].0@ == es[i].0@);
                }
            }
        }
    }
}

proof fn lemma_map_of_get(es: Seq<(String, String)>, i: int)
    requires
        entries_unique(es),
        0 <= i < es.len(),
    ensures
        map_of(es).contains_key(es[i].0@),
        map_of(es)[es[i].0@] == es[i].1@,
    decreases es.len(),
{
    if i == es.len() - 1 {
    } else {
        lemma_map_of_get(es.drop_last(), i);
        assert(es.drop_last()[i] == es[i]);
    }
}

proof fn lemma_map_of_remove(es: Seq<(String, String)>, i: int)
    requires
        entries_unique(es),
        0 <= i < es.len(),
    ensures
        entries_unique(es.remove(i)),
        map_of(es.remove(i)) =~= map_of(es).remove(es[i].0@),
    decreases es.len(),
{
    lemma_map_of_contains(es.remove(i), es[i].0@);
    assert forall|a: int, b: int| 0 <= a < b < es.remove(i).len() implies #[trigger] es.remove(
        i,
    )[a].0@ != #[trigger] es.remove(i)[b].0@ by {
        let a0: int = if a < i {
            a
        } else {
            a + 1
        };
        let b0: int = if b < i {
            b
        } else {
            b + 1
        };
        assert(es.remove(i)[a] == es[a0]);
        assert(es.remove(i)[b] == es[b0]);
    }
    if i == es.len() - 1 {
        assert(es.remove(i) =~= es.drop_last());
        lemma_map_of_contains(es.drop_last(), es[i].0@);
        assert forall|j: int| 0 <= j < es.drop_last().len() implies #[trigger] es.drop_last()[j].0@
            != es[i].0@ by {
            assert(es.drop_last()[j] == es[j]);
        }
        assert(map_of(es.drop_last()).remove(es[i].0@) =~= map_of(es.drop_last()));
    } else {
        lemma_map_of_remove(es.drop_last(), i);
        assert(es.remove(i).drop_last() =~= es.drop_last().remove(i));
        assert(es.remove(i).last() == es.last());
        assert(es.drop_last()[i] == es[i]);
    }
}

/// An in-memory environment: a mutable store of key/value strings, the
/// library's stand-in for the process-wide variable namespace.
#[derive(Debug, Clone, PartialEq, Eq)]
pub struct EnvMap {
    entries: Vec<(String, String)>,
}

impl View for EnvMap {
    type V = Map<Seq<char>, Seq<char>>;

    closed spec fn view(&self) -> Map<Seq<char>, Seq<char>> {
        map_of(self.entries@)
    }
}

impl EnvMap {
    /// Keys are stored at most once.
    pub closed spec fn wf(&self) -> bool {
        entries_unique(self.entries@)
    }

    /// An empty environment.
    pub fn new() -> (m: EnvMap)
        ensures
            m.wf(),
            m@ == Map::<Seq<char>, Seq<char>>::empty(),
    {
        EnvMap { entries: Vec::new() }
    }

    fn find(&self, k: &String) -> (r: Option<usize>)
        ensures
            match r {
                Some(i) => i < self.entries@.len() && self.entries@[i as int].0@ == k@,
                None => forall|j: int|
                    0 <= j < self.entries@.len() ==> #[trigger] self.entries@[j].0@ != k@,
            },
    {
        let n: usize = self.entries.len();
        let mut i: usize = 0;
        while i < n
            invariant
                n == self.entries@.len(),
                i <= n,
                forall|j: int| 0 <= j < i ==> #[trigger] self.entries@[j].0@ != k@,
            decreases n - i,
        {
            if self.entries[i].0 == *k {
                return Some(i);
            }
            i = i + 1;
        }
        None
    }

    /// Whether some value is stored under `k`.
    pub fn contains_key(&self, k: &String) -> (r: bool)
        ensures
            r == self@.contains_key(k@),
    {
        proof {
            lemma_map_of_contains(self.entries@, k@);
        }
        self.find(k).is_some()
    }

    /// The value stored under `k`, if any.
    pub fn get(&self, k: &String) -> (r: Option<&String>)
        requires
            self.wf(),
        ensures
            match r {
                Some(v) => self@.contains_key(k@) && v@ == self@[k@],
                None => !self@.contains_key(k@),
            },
    {
        proof {
            lemma_map_of_contains(self.entries@, k@);
        }
        match self.find(k) {
            Some(i) => {
                proof {
                    lemma_map_of_get(self.entries@, i as int);
                }
                Some(&self.entries[i].1)
            },
            None => None,
        }
    }

    /// Stores `v` under `k`, replacing any previous value.
    pub fn set(&mut self, k: &String, v: &String)
        requires
            old(self).wf(),
        ensures
            final(self).wf(),
            final(self)@ == old(self)@.insert(k@, v@),
    {
        let ghost es0 = self.entries@;
        match self.find(k) {
            Some(i) => {
                proof {
                    lemma_map_of_remove(es0, i as int);
                }
                self.entries.remove(i);
            },
            None => {
            },
        }
        let ghost es1 = self.entries@;
        self.entries.push((k.clone(), v.clone()));
        proof {
            assert(self.entries@.drop_last() =~= es1);
            lemma_map_of_contains(es1, k@);
            assert(final(self)@ =~= old(self)@.insert(k@, v@));
        }
    }

    /// Removes whatever is stored under `k`.
    pub fn remove(&mut self, k: &String)
        requires
            old(self).wf(),
        ensures
            final(self).wf(),
            final(self)@ == old(self)@.remove(k@),
    {
        let ghost es0 = self.entries@;
        match self.find(k) {
            Some(i) => {
                proof {
                    lemma_map_of_remove(es0, i as int);
                }
                self.entries.remove(i);
            },
            None => {
                proof {
                    lemma_map_of_contains(es0, k@);
                    assert(old(self)@.remove(k@) =~= old(self)@);
                }
            },
        }
    }

    /// All stored pairs, copied out in storage order.
    pub fn to_pairs(&self) -> (r: Vec<(String, String)>)
        requires
            self.wf(),
        ensures
            entries_unique(r@),
            map_of(r@) == self@,
    {
        let n: usize = self.entries.len();
        let mut r: Vec<(String, String)> = Vec::new();
        let mut i: usize = 0;
        while i < n
            invariant
                n == self.entries@.len(),
                i <= n,
                r@ =~= self.entries@.take(i as int),
            decreases n - i,
        {
            let p: (String, String) = (self.entries[i].0.clone(), self.entries[i].1.clone());
            proof {
                assert(p == self.entries@[i as int]);
            }
            r.push(p);
            proof {
                assert(r@ =~= self.entries@.take(i as int + 1));
            }
            i = i + 1;
        }
        proof {
            assert(r@ =~= self.entries@);
        }
        r
    }

    /// How many variables are stored.
    pub fn len(&self) -> (n: usize)
        requires
            self.wf(),
        ensures
            n == self@.dom().len(),
    {
        proof {
            lemma_map_of_len(self.entries@);
        }
        self.entries.len()
    }
}

proof fn lemma_map_of_len(es: Seq<(String, String)>)
    requires
        entries_unique(es),
    ensures
        map_of(es).dom().finite(),
        map_of(es).dom().len() == es.len(),
    decreases es.len(),
{
    if es.len() == 0 {
        assert(map_of(es).dom() =~= Set::<Seq<char>>::empty());
    } else {
        lemma_map_of_len(es.drop_last());
        lemma_map_of_contains(es.drop_last(), es.last().0@);
        assert forall|j: int| 0 <= j < es.drop_last().len() implies #[trigger] es.drop_last()[j].0@
            != es.last().0@ by {
            assert(es.drop_last()[j] == es[j]);
        }
        assert(!map_of(es.drop_last()).contains_key(es.last().0@));
        assert(map_of(es).dom() =~= map_of(es.drop_last()).dom().insert(es.last().0@));
    }
}

} // verus!
