//! Registered voices, sorted by name.
use crate::text;
use vstd::prelude::*;
use vstd::string::*;

verus! {

/// `a` sorts before `b`: at the first difference its character is smaller, or it ends there.
pub open spec fn sorts_before(a: Seq<char>, b: Seq<char>) -> bool
    decreases a.len(),
{
    if b.len() == 0 {
        false
    } else if a.len() == 0 {
        true
    } else if a[0] == b[0] {
        sorts_before(a.skip(1), b.skip(1))
    } else {
        a[0] < b[0]
    }
}

/// Names in ascending order, none of them twice.
pub open spec fn ascending(names: Seq<Seq<char>>) -> bool {
    forall|i: int, j: int| 0 <= i < j < names.len() ==> sorts_before(names[i], names[j])
}

/// The names of a set, in ascending order.
pub open spec fn sorted_names(names: Set<Seq<char>>) -> Seq<Seq<char>> {
    choose|s: Seq<Seq<char>>| lists(s, names)
}

/// `s` lists the names of a set in ascending order.
pub open spec fn lists(s: Seq<Seq<char>>, names: Set<Seq<char>>) -> bool {
    ascending(s) && forall|k: Seq<char>| #[trigger] s.contains(k) <==> names.contains(k)
}

/// No name sorts before itself.
proof fn not_before_itself(a: Seq<char>)
    ensures
        !sorts_before(a, a),
    decreases a.len(),
{
    if a.len() > 0 {
        not_before_itself(a.skip(1));
    }
}

/// Of two different names, one sorts before the other.
proof fn one_is_first(a: Seq<char>, b: Seq<char>)
    ensures
        a != b ==> sorts_before(a, b) || sorts_before(b, a),
    decreases a.len(),
{
    if a.len() > 0 && b.len() > 0 && a[0] == b[0] {
        one_is_first(a.skip(1), b.skip(1));
        assert(a =~= seq![a[0]] + a.skip(1));
        assert(b =~= seq![b[0]] + b.skip(1));
    } else if a.len() == 0 && b.len() == 0 {
        assert(a =~= b);
    }
}

/// The order carries through.
proof fn before_is_transitive(a: Seq<char>, b: Seq<char>, c: Seq<char>)
    requires
        sorts_before(a, b),
        sorts_before(b, c),
    ensures
        sorts_before(a, c),
    decreases a.len(),
{
    if a.len() > 0 && a[0] == b[0] && b[0] == c[0] {
        before_is_transitive(a.skip(1), b.skip(1), c.skip(1));
    }
}

/// Whether `a` sorts before `b`.
fn is_before(a: &str, b: &str) -> (r: bool)
    ensures
        r == sorts_before(a@, b@),
{
    let x = text::chars_of(a);
    let y = text::chars_of(b);
    let mut i: usize = 0;
    assert(x@.skip(0) =~= x@ && y@.skip(0) =~= y@);
    while i < x.len() && i < y.len() && x[i] == y[i]
        invariant
            i <= x@.len(),
            i <= y@.len(),
            sorts_before(x@, y@) == sorts_before(x@.skip(i as int), y@.skip(i as int)),
        decreases x@.len() - i,
    {
        assert(x@.skip(i as int).skip(1) =~= x@.skip(i + 1));
        assert(y@.skip(i as int).skip(1) =~= y@.skip(i + 1));
        i += 1;
    }
    if i >= y.len() {
        false
    } else if i >= x.len() {
        true
    } else {
        x[i] < y[i]
    }
}

/// What was registered under a name.
pub struct Registered<V> {
    name: String,
    voice: V,
}

/// Voices by name.
pub struct Voices<V> {
    entries: Vec<Registered<V>>,
}

impl<V> View for Voices<V> {
    type V = Map<Seq<char>, V>;

    closed spec fn view(&self) -> Map<Seq<char>, V> {
        let s = self.entries@;
        Map::new(
            |k: Seq<char>| exists|i: int| 0 <= i < s.len() && #[trigger] s[i].name@ == k,
            |k: Seq<char>| s[self.place(k)].voice,
        )
    }
}

impl<V> Voices<V> {
    /// The names, in the order they are kept in.
    closed spec fn keys(self) -> Seq<Seq<char>> {
        Seq::new(self.entries@.len(), |i: int| self.entries@[i].name@)
    }

    /// Where a name stands.
    closed spec fn place(self, k: Seq<char>) -> int {
        choose|i: int| 0 <= i < self.entries@.len() && #[trigger] self.entries@[i].name@ == k
    }

    /// Names are kept in order, so none is there twice.
    pub closed spec fn wf(self) -> bool {
        ascending(self.keys())
    }

    /// What stands at a position is what the map gives for its name.
    proof fn at(self, i: int)
        requires
            self.wf(),
            0 <= i < self.entries@.len(),
        ensures
            self@.dom().contains(self.entries@[i].name@),
            self@[self.entries@[i].name@] == self.entries@[i].voice,
    {
        let s = self.entries@;
        let k = s[i].name@;
        let j = self.place(k);
        assert(0 <= j < s.len() && s[j].name@ == k);
        not_before_itself(k);
        assert(self.keys()[i] == k && self.keys()[j] == k);
        if i < j {
            assert(sorts_before(self.keys()[i], self.keys()[j]));
        } else if j < i {
            assert(sorts_before(self.keys()[j], self.keys()[i]));
        }
    }

    pub fn new() -> (r: Self)
        ensures
            r.wf(),
            r@ == Map::<Seq<char>, V>::empty(),
    {
        let r = Voices { entries: Vec::new() };
        assert(r@ =~= Map::<Seq<char>, V>::empty());
        r
    }

    pub fn is_empty(&self) -> (r: bool)
        requires
            self.wf(),
        ensures
            r == (self@.dom() == Set::<Seq<char>>::empty()),
    {
        proof {
            if self.entries@.len() > 0 {
                self.at(0);
            } else {
                assert(self@.dom() =~= Set::<Seq<char>>::empty());
            }
        }
        self.entries.len() == 0
    }

    /// The position of `name`, or the one it belongs at.
    fn position(&self, name: &str) -> (r: (bool, usize))
        requires
            self.wf(),
        ensures
            r.1 <= self.entries@.len(),
            r.0 == self@.dom().contains(name@),
            r.0 ==> r.1 < self.entries@.len() && self.entries@[r.1 as int].name@ == name@,
            !r.0 ==> forall|i: int| 0 <= i < r.1 ==> sorts_before(self.keys()[i], name@),
            !r.0 ==> forall|i: int|
                r.1 <= i < self.entries@.len() ==> sorts_before(name@, self.keys()[i]),
    {
        let mut i: usize = 0;
        while i < self.entries.len() && is_before(self.entries[i].name.as_str(), name)
            invariant
                self.wf(),
                i <= self.entries@.len(),
                forall|j: int| 0 <= j < i ==> sorts_before(self.keys()[j], name@),
            decreases self.entries@.len() - i,
        {
            i += 1;
        }
        if i < self.entries.len() && text::same(self.entries[i].name.as_str(), name) {
            proof {
                self.at(i as int);
            }
            return (true, i);
        }
        proof {
            if i < self.entries@.len() {
                one_is_first(self.keys()[i as int], name@);
            }
            assert forall|j: int| i <= j < self.entries@.len() implies sorts_before(
                name@,
                self.keys()[j],
            ) by {
                if j > i {
                    before_is_transitive(name@, self.keys()[i as int], self.keys()[j]);
                }
            }
            if self@.dom().contains(name@) {
                let j = choose|j: int|
                    0 <= j < self.entries@.len() && #[trigger] self.entries@[j].name@ == name@;
                assert(self.keys()[j] == name@);
                not_before_itself(name@);
            }
        }
        (false, i)
    }

    /// The voice registered as `name`.
    pub fn get(&self, name: &str) -> (r: Option<&V>)
        requires
            self.wf(),
        ensures
            match r {
                Some(v) => self@.dom().contains(name@) && *v == self@[name@],
                None => !self@.dom().contains(name@),
            },
    {
        let (found, i) = self.position(name);
        if found {
            proof {
                self.at(i as int);
            }
            Some(&self.entries[i].voice)
        } else {
            None
        }
    }

    /// Register `voice` as `name`, replacing any voice of the same name.
    pub fn insert(&mut self, name: &str, voice: V)
        requires
            old(self).wf(),
        ensures
            final(self).wf(),
            final(self)@ == old(self)@.insert(name@, voice),
    {
        let ghost before = *self;
        let ghost s = self.entries@;
        let (found, i) = self.position(name);
        let entry = Registered { name: name.to_owned(), voice };
        if found {
            self.entries.set(i, entry);
            assert(self.keys() =~= before.keys());
        } else {
            self.entries.insert(i, entry);
            assert(self.keys() =~= before.keys().insert(i as int, name@));
            assert forall|a: int, b: int| 0 <= a < b < self.keys().len() implies sorts_before(
                self.keys()[a],
                self.keys()[b],
            ) by {
                let x = if a < i {
                    a
                } else {
                    a - 1
                };
                let y = if b < i {
                    b
                } else {
                    b - 1
                };
                if a != i && b != i {
                    assert(sorts_before(before.keys()[x], before.keys()[y]));
                }
            }
        }
        proof {
            let after = *self;
            let t = self.entries@;
            let want = before@.insert(name@, voice);
            assert(t[i as int].name@ == name@);
            after.at(i as int);
            assert forall|k: Seq<char>| #[trigger]
                want.dom().contains(k) <==> after@.dom().contains(k) by {
                if want.dom().contains(k) && k != name@ {
                    let j = choose|j: int| 0 <= j < s.len() && #[trigger] s[j].name@ == k;
                    let m = if found || j < i {
                        j
                    } else {
                        j + 1
                    };
                    assert(t[m].name@ == k);
                }
                if after@.dom().contains(k) && k != name@ {
                    let m = choose|m: int| 0 <= m < t.len() && #[trigger] t[m].name@ == k;
                    let j = if found || m < i {
                        m
                    } else {
                        m - 1
                    };
                    assert(s[j].name@ == k);
                }
            }
            assert forall|k: Seq<char>| want.dom().contains(k) implies #[trigger] want[k]
                == after@[k] by {
                if k != name@ {
                    let j = choose|j: int| 0 <= j < s.len() && #[trigger] s[j].name@ == k;
                    let m = if found || j < i {
                        j
                    } else {
                        j + 1
                    };
                    assert(t[m].name@ == k);
                    before.at(j);
                    after.at(m);
                }
            }
            assert(after@ =~= want);
        }
    }

    /// The registered names, sorted.
    pub fn names(&self) -> (r: Vec<String>)
        requires
            self.wf(),
        ensures
            lists(text::texts(r@), self@.dom()),
            text::texts(r@) == sorted_names(self@.dom()),
    {
        let mut r: Vec<String> = Vec::new();
        for i in 0..self.entries.len()
            invariant
                text::texts(r@) == self.keys().take(i as int),
        {
            let ghost before = r@;
            let name = self.entries[i].name.clone();
            r.push(name);
            assert(text::texts(r@) =~= text::texts(before).push(name@));
            assert(self.keys().take(i + 1) =~= self.keys().take(i as int).push(self.keys()[i as int]));
        }
        proof {
            assert(self.keys().take(self.entries@.len() as int) =~= self.keys());
            assert forall|k: Seq<char>|
                #[trigger] text::texts(r@).contains(k) <==> self@.dom().contains(k) by {
                if self.keys().contains(k) {
                    let i = self.keys().index_of(k);
                    assert(self.keys()[i] == k);
                    self.at(i);
                }
                if self@.dom().contains(k) {
                    let j = choose|j: int|
                        0 <= j < self.entries@.len() && #[trigger] self.entries@[j].name@ == k;
                    assert(self.keys()[j] == k);
                }
            }
            assert(lists(text::texts(r@), self@.dom()));
            sorted_names_are_unique(text::texts(r@), sorted_names(self@.dom()));
        }
        r
    }
}

/// Two sorted lists of the same names are the same list.
pub proof fn sorted_names_are_unique(a: Seq<Seq<char>>, b: Seq<Seq<char>>)
    requires
        ascending(a),
        ascending(b),
        forall|k: Seq<char>| #[trigger] a.contains(k) <==> b.contains(k),
    ensures
        a == b,
    decreases a.len(),
{
    if a.len() == 0 {
        if b.len() > 0 {
            assert(b.contains(b[0]));
            assert(!a.contains(b[0]));
        }
        assert(a =~= b);
    } else {
        assert(a.contains(a[0]));
        assert(b.contains(a[0]));
        let i = b.index_of(a[0]);
        assert(b.contains(b[0]));
        assert(a.contains(b[0]));
        let j = a.index_of(b[0]);
        not_before_itself(a[0]);
        if i > 0 && j > 0 {
            assert(sorts_before(b[0], b[i]));
            assert(sorts_before(a[0], a[j]));
            before_is_transitive(a[0], b[0], a[0]);
        }
        assert(a[0] == b[0]);
        let ta = a.skip(1);
        let tb = b.skip(1);
        assert forall|k: Seq<char>| #[trigger] ta.contains(k) <==> tb.contains(k) by {
            if ta.contains(k) {
                let m = ta.index_of(k);
                assert(a[m + 1] == k);
                assert(a.contains(k));
                let n = b.index_of(k);
                assert(sorts_before(a[0], a[m + 1]));
                assert(n != 0);
                assert(tb[n - 1] == k);
            }
            if tb.contains(k) {
                let m = tb.index_of(k);
                assert(b[m + 1] == k);
                assert(b.contains(k));
                assert(a.contains(k));
                let n = a.index_of(k);
                assert(sorts_before(b[0], b[m + 1]));
                assert(n != 0);
                assert(ta[n - 1] == k);
            }
        }
        sorted_names_are_unique(ta, tb);
        assert(a =~= seq![a[0]] + ta);
        assert(b =~= seq![b[0]] + tb);
    }
}

/// Names sort as texts do: one that is the start of another comes before it, and otherwise the
/// first character that differs decides.
pub proof fn names_sort_like_texts(a: Seq<char>, b: Seq<char>, k: int)
    requires
        0 <= k <= a.len(),
        k < b.len(),
        a.take(k) == b.take(k),
        k == a.len() || a[k] < b[k],
    ensures
        sorts_before(a, b),
        !sorts_before(b, a),
    decreases k,
{
    if k > 0 {
        assert(a[0] == a.take(k)[0] && b[0] == b.take(k)[0]);
        let x = a.skip(1);
        let y = b.skip(1);
        assert(x.take(k - 1) =~= a.take(k).skip(1));
        assert(y.take(k - 1) =~= b.take(k).skip(1));
        names_sort_like_texts(x, y, k - 1);
    }
}

} // verus!
