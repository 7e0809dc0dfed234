//! The conditioning kept for each voice, so that it is run once per model rather than once per
//! request.
use crate::text;
use vstd::prelude::*;
use vstd::string::*;

verus! {

/// How many primed prefixes to keep. A process that clones voices under fresh names would
/// otherwise grow the map without bound. Past the cap it is cleared; generation still works, it
/// just re-primes.
pub const MAX_PRIMED: usize = 16;

/// A voice's conditioning, run through the transformer once: the branch that hears the voice,
/// and with guidance on the null branch as well.
pub struct Primed<S> {
    pub state: S,
    pub null_state: Option<S>,
}

/// What is kept for a voice, with guidance on or off.
struct Kept<S> {
    name: String,
    guided: bool,
    primed: Primed<S>,
}

impl<S> Kept<S> {
    spec fn key(self) -> (Seq<char>, bool) {
        (self.name@, self.guided)
    }
}

/// Each voice's primed KV prefix, keyed by name and by whether guidance is on: the null branch's
/// prefix differs, the coefficient does not enter the state.
pub struct PrimedCache<S> {
    entries: Vec<Kept<S>>,
}

impl<S> View for PrimedCache<S> {
    type V = Map<(Seq<char>, bool), Primed<S>>;

    closed spec fn view(&self) -> Map<(Seq<char>, bool), Primed<S>> {
        let s = self.entries@;
        Map::new(
            |k: (Seq<char>, bool)| exists|i: int| 0 <= i < s.len() && #[trigger] s[i].key() == k,
            |k: (Seq<char>, bool)| s[self.place(k)].primed,
        )
    }
}

impl<S> PrimedCache<S> {
    /// Where a key stands.
    closed spec fn place(self, k: (Seq<char>, bool)) -> int {
        choose|i: int| 0 <= i < self.entries@.len() && #[trigger] self.entries@[i].key() == k
    }

    /// No key is there twice, and there are no more than [`MAX_PRIMED`].
    pub closed spec fn wf(self) -> bool {
        &&& forall|i: int, j: int|
            0 <= i < j < self.entries@.len() ==> #[trigger] self.entries@[i].key()
                != #[trigger] self.entries@[j].key()
        &&& self.entries@.len() <= MAX_PRIMED
    }

    /// What stands at a position is what the map gives for its key.
    proof fn at(self, i: int)
        requires
            self.wf(),
            0 <= i < self.entries@.len(),
        ensures
            self@.dom().contains(self.entries@[i].key()),
            self@[self.entries@[i].key()] == self.entries@[i].primed,
    {
        let k = self.entries@[i].key();
        let j = self.place(k);
        assert(0 <= j < self.entries@.len() && self.entries@[j].key() == k);
    }

    /// What the map has stands somewhere.
    proof fn found(self, k: (Seq<char>, bool)) -> (i: int)
        requires
            self.wf(),
            self@.dom().contains(k),
        ensures
            0 <= i < self.entries@.len(),
            self.entries@[i].key() == k,
            self@[k] == self.entries@[i].primed,
    {
        let i = self.place(k);
        self.at(i);
        i
    }

    /// There are as many keys as entries.
    proof fn counted(self)
        requires
            self.wf(),
        ensures
            self@.dom().finite(),
            self@.dom().len() == self.entries@.len(),
    {
        let keys = Seq::new(self.entries@.len(), |i: int| self.entries@[i].key());
        assert(keys.no_duplicates()) by {
            assert forall|i: int, j: int| 0 <= i < keys.len() && 0 <= j < keys.len() && i
                != j implies keys[i] != keys[j] by {
                if i < j {
                    assert(self.entries@[i].key() != self.entries@[j].key());
                } else {
                    assert(self.entries@[j].key() != self.entries@[i].key());
                }
            }
        }
        keys.unique_seq_to_set();
        assert forall|k: (Seq<char>, bool)| #[trigger]
            self@.dom().contains(k) <==> keys.to_set().contains(k) by {
            if self@.dom().contains(k) {
                let i = self.found(k);
                assert(keys[i] == k);
            }
            if keys.to_set().contains(k) {
                let i = keys.index_of(k);
                assert(keys[i] == k);
                self.at(i);
            }
        }
        assert(self@.dom() =~= keys.to_set());
    }

    /// No more than [`MAX_PRIMED`] prefixes are kept.
    pub proof fn is_bounded(self)
        requires
            self.wf(),
        ensures
            self@.dom().finite(),
            self@.dom().len() <= MAX_PRIMED,
    {
        self.counted();
    }

    pub fn new() -> (r: Self)
        ensures
            r.wf(),
            r@ == Map::<(Seq<char>, bool), Primed<S>>::empty(),
    {
        let r = PrimedCache { entries: Vec::new() };
        assert(r@ =~= Map::<(Seq<char>, bool), Primed<S>>::empty());
        r
    }

    /// How many prefixes are kept.
    pub fn len(&self) -> (r: usize)
        requires
            self.wf(),
        ensures
            self@.dom().finite(),
            r == self@.dom().len(),
            r <= MAX_PRIMED,
    {
        proof {
            self.counted();
        }
        self.entries.len()
    }

    /// The position of a key.
    fn position(&self, name: &str, guided: bool) -> (r: Option<usize>)
        requires
            self.wf(),
        ensures
            match r {
                Some(i) => i < self.entries@.len() && self.entries@[i as int].key() == (
                    name@,
                    guided,
                ),
                None => !self@.dom().contains((name@, guided)),
            },
    {
        for i in 0..self.entries.len()
            invariant
                forall|j: int| 0 <= j < i ==> #[trigger] self.entries@[j].key() != (name@, guided),
        {
            if self.entries[i].guided == guided && text::same(self.entries[i].name.as_str(), name) {
                return Some(i);
            }
        }
        proof {
            if self@.dom().contains((name@, guided)) {
                let i = self.found((name@, guided));
            }
        }
        None
    }

    /// What is kept for a voice, with guidance on or off.
    pub fn get(&self, name: &str, guided: bool) -> (r: Option<&Primed<S>>)
        requires
            self.wf(),
        ensures
            match r {
                Some(p) => self@.dom().contains((name@, guided)) && *p == self@[(name@, guided)],
                None => !self@.dom().contains((name@, guided)),
            },
    {
        match self.position(name, guided) {
            Some(i) => {
                proof {
                    self.at(i as int);
                }
                Some(&self.entries[i].primed)
            },
            None => None,
        }
    }

    /// Keep what was just primed. At the cap, everything kept before is let go first.
    pub fn keep(&mut self, name: &str, guided: bool, primed: Primed<S>)
        requires
            old(self).wf(),
        ensures
            final(self).wf(),
            final(self)@ == (if old(self)@.dom().len() >= MAX_PRIMED {
                Map::empty()
            } else {
                old(self)@
            }).insert((name@, guided), primed),
    {
        proof {
            self.counted();
        }
        if self.entries.len() >= MAX_PRIMED {
            self.entries = Vec::new();
            assert(self@ =~= Map::<(Seq<char>, bool), Primed<S>>::empty());
        }
        let ghost before = *self;
        let ghost k = (name@, guided);
        let slot = self.position(name, guided);
        let entry = Kept { name: name.to_owned(), guided, primed };
        let ghost at = match slot {
            Some(i) => i as int,
            None => self.entries@.len() as int,
        };
        match slot {
            Some(i) => {
                self.entries.set(i, entry);
            },
            None => {
                self.entries.push(entry);
            },
        }
        proof {
            let s = before.entries@;
            let t = self.entries@;
            assert(t[at].key() == k);
            assert forall|j: int| 0 <= j < s.len() && j != at implies #[trigger] s[j].key() != k by {
                if slot is None && s[j].key() == k {
                    before.at(j);
                }
            }
            assert forall|i: int, j: int| 0 <= i < j < t.len() implies #[trigger] t[i].key()
                != #[trigger] t[j].key() by {
                if i != at && j != at {
                    assert(s[i].key() != s[j].key());
                } else if i != at {
                    assert(s[i].key() != k);
                } else {
                    assert(s[j].key() != k);
                }
            }
            let want = before@.insert(k, primed);
            self.at(at);
            assert forall|q: (Seq<char>, bool)| #[trigger]
                want.dom().contains(q) <==> self@.dom().contains(q) by {
                if q != k {
                    if want.dom().contains(q) {
                        let j = before.found(q);
                        assert(t[j].key() == q);
                    }
                    if self@.dom().contains(q) {
                        let j = self.found(q);
                        assert(s[j].key() == q);
                    }
                }
            }
            assert forall|q: (Seq<char>, bool)| want.dom().contains(q) implies #[trigger] want[q]
                == self@[q] by {
                if q != k {
                    let j = before.found(q);
                    assert(t[j].key() == q);
                    self.at(j);
                }
            }
            assert(self@ =~= want);
        }
    }

    /// Let go of everything kept for a voice, so that a replaced embedding is never generated
    /// from the old conditioning.
    pub fn forget(&mut self, name: &str)
        requires
            old(self).wf(),
        ensures
            final(self).wf(),
            forall|k: (Seq<char>, bool)| #[trigger]
                final(self)@.dom().contains(k) <==> old(self)@.dom().contains(k) && k.0 != name@,
            forall|k: (Seq<char>, bool)|
                final(self)@.dom().contains(k) ==> #[trigger] final(self)@[k] == old(self)@[k],
    {
        let mut i: usize = 0;
        while i < self.entries.len()
            invariant
                i <= self.entries@.len(),
                self.wf(),
                old(self).wf(),
                forall|j: int| 0 <= j < i ==> (#[trigger] self.entries@[j]).name@ != name@,
                forall|k: (Seq<char>, bool)|
                    k.0 != name@ ==> (#[trigger] self@.dom().contains(k) <==> old(
                        self,
                    )@.dom().contains(k)),
                forall|k: (Seq<char>, bool)|
                    #[trigger] self@.dom().contains(k) ==> old(self)@.dom().contains(k)
                        && self@[k] == old(self)@[k],
            decreases self.entries@.len() - i,
        {
            if text::same(self.entries[i].name.as_str(), name) {
                let ghost before = *self;
                let ghost s = self.entries@;
                self.entries.remove(i);
                proof {
                    let t = self.entries@;
                    assert forall|a: int, b: int| 0 <= a < b < t.len() implies #[trigger] t[a].key()
                        != #[trigger] t[b].key() by {
                        let x = if a < i {
                            a
                        } else {
                            a + 1
                        };
                        let y = if b < i {
                            b
                        } else {
                            b + 1
                        };
                        assert(s[x].key() != s[y].key());
                    }
                    assert forall|k: (Seq<char>, bool)| #[trigger] self@.dom().contains(k) implies {
                        &&& before@.dom().contains(k)
                        &&& self@[k] == before@[k]
                    } by {
                        let a = self.found(k);
                        let x = if a < i {
                            a
                        } else {
                            a + 1
                        };
                        assert(s[x].key() == k);
                        before.at(x);
                    }
                    assert forall|k: (Seq<char>, bool)| k.0 != name@ implies (
                    #[trigger] self@.dom().contains(k) <==> before@.dom().contains(k)) by {
                        if before@.dom().contains(k) {
                            let x = before.found(k);
                            let a = if x < i {
                                x
                            } else {
                                x - 1
                            };
                            assert(t[a].key() == k);
                            self.at(a);
                        }
                    }
                }
            } else {
                i += 1;
            }
        }
        proof {
            assert forall|k: (Seq<char>, bool)| #[trigger]
                self@.dom().contains(k) <==> old(self)@.dom().contains(k) && k.0 != name@ by {
                if self@.dom().contains(k) {
                    let a = self.found(k);
                    assert(self.entries@[a].name@ != name@);
                }
            }
        }
    }
}

} // verus!
