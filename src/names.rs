//! The table from names to polynomials.
use crate::poly::{canonical, Poly};
use vstd::prelude::*;

verus! {

/// Bindings in the order they were made; a later binding of a name
/// replaces every earlier one (the table itself keeps one entry per name).
pub open spec fn table_of(s: Seq<(String, Poly)>) -> Map<Seq<char>, Seq<u64>>
    decreases s.len(),
{
    if s.len() == 0 {
        Map::empty()
    } else {
        table_of(s.drop_last()).insert(s.last().0@, s.last().1@)
    }
}

/// The binding of `k` is at `i - 1` when no later entry names `k`.
proof fn lemma_last_binding(s: Seq<(String, Poly)>, k: Seq<char>, i: int)
    requires
        0 < i <= s.len(),
        s[i - 1].0@ == k,
        forall|j: int| i <= j < s.len() ==> #[trigger] s[j].0@ != k,
    ensures
        table_of(s).contains_key(k),
        table_of(s)[k] == s[i - 1].1@,
    decreases s.len(),
{
    if i < s.len() {
        let t = s.drop_last();
        assert forall|j: int| i <= j < t.len() implies #[trigger] t[j].0@ != k by {
            assert(t[j] == s[j]);
        }
        lemma_last_binding(t, k, i);
        assert(s.last() == s[s.len() - 1]);
    }
}

/// Overwriting the last entry that names a key rebinds that key.
proof fn lemma_rebind(s: Seq<(String, Poly)>, j: int, x: (String, Poly))
    requires
        0 <= j < s.len(),
        s[j].0@ == x.0@,
        forall|i: int| j < i < s.len() ==> #[trigger] s[i].0@ != x.0@,
    ensures
        table_of(s.update(j, x)) == table_of(s).insert(x.0@, x.1@),
    decreases s.len(),
{
    let u = s.update(j, x);
    if j == s.len() - 1 {
        assert(u.drop_last() =~= s.drop_last());
        assert(u.last() == x);
        assert(s.last() == s[j]);
        assert(table_of(u) =~= table_of(s).insert(x.0@, x.1@));
    } else {
        let t = s.drop_last();
        assert forall|i: int| j < i < t.len() implies #[trigger] t[i].0@ != x.0@ by {
            assert(t[i] == s[i]);
        }
        lemma_rebind(t, j, x);
        assert(u.drop_last() =~= t.update(j, x));
        assert(u.last() == s.last());
        assert(s.last() == s[s.len() - 1]);
        assert(table_of(u) =~= table_of(s).insert(x.0@, x.1@));
    }
}

/// A name that no entry holds is unbound.
proof fn lemma_unbound(s: Seq<(String, Poly)>, k: Seq<char>)
    requires
        forall|j: int| 0 <= j < s.len() ==> #[trigger] s[j].0@ != k,
    ensures
        !table_of(s).contains_key(k),
    decreases s.len(),
{
    if s.len() > 0 {
        let t = s.drop_last();
        assert forall|j: int| 0 <= j < t.len() implies #[trigger] t[j].0@ != k by {
            assert(t[j] == s[j]);
        }
        lemma_unbound(t, k);
        assert(s.last() == s[s.len() - 1]);
    }
}

/// Every bound polynomial in a table of canonical entries is canonical.
proof fn lemma_table_canonical(s: Seq<(String, Poly)>)
    requires
        forall|j: int| 0 <= j < s.len() ==> #[trigger] s[j].1.wf(),
    ensures
        forall|k: Seq<char>| #[trigger] table_of(s).contains_key(k) ==> canonical(table_of(s)[k]),
    decreases s.len(),
{
    if s.len() > 0 {
        let t = s.drop_last();
        assert forall|j: int| 0 <= j < t.len() implies #[trigger] t[j].1.wf() by {
            assert(t[j] == s[j]);
        }
        lemma_table_canonical(t);
        assert(s.last() == s[s.len() - 1]);
        assert(s[s.len() - 1].1.wf());
        assert forall|k: Seq<char>| #[trigger] table_of(s).contains_key(k) implies canonical(
            table_of(s)[k],
        ) by {
            if k != s.last().0@ {
                assert(table_of(t).contains_key(k));
            }
        }
    }
}

/// A mutable mapping from names to polynomials, one entry per name.
///
/// The entries are kept as pairs in a vector, searched from the newest:
/// with names as `String` keys nothing about a hash map's lookups could be
/// proved, while over this vector `get` and `insert` are proved exact
/// against the map view.
pub struct NameTable {
    entries: Vec<(String, Poly)>,
}

impl View for NameTable {
    type V = Map<Seq<char>, Seq<u64>>;

    open spec fn view(&self) -> Map<Seq<char>, Seq<u64>> {
        table_of(self.entries())
    }
}

impl NameTable {
    pub closed spec fn entries(&self) -> Seq<(String, Poly)> {
        self.entries@
    }

    /// Every bound polynomial is canonical.
    pub open spec fn wf(&self) -> bool {
        forall|k: Seq<char>| #[trigger] self@.contains_key(k) ==> canonical(self@[k])
    }

    closed spec fn entries_wf(&self) -> bool {
        forall|j: int| 0 <= j < self.entries@.len() ==> #[trigger] self.entries@[j].1.wf()
    }

    /// Both forms of well-formedness.
    pub closed spec fn inv(&self) -> bool {
        self.entries_wf() && self.wf()
    }

    pub fn new() -> (r: NameTable)
        ensures
            r@ == Map::<Seq<char>, Seq<u64>>::empty(),
            r.inv(),
    {
        NameTable { entries: Vec::new() }
    }

    /// The polynomial bound to `name`, if any.
    pub fn get(&self, name: &String) -> (r: Option<Poly>)
        requires
            self.inv(),
        ensures
            match r {
                Some(p) => self@.contains_key(name@) && p@ == self@[name@] && p.wf(),
                None => !self@.contains_key(name@),
            },
    {
        let mut i = self.entries.len();
        while i > 0
            invariant
                self.inv(),
                i <= self.entries@.len(),
                forall|j: int| i <= j < self.entries@.len() ==> #[trigger] self.entries@[j].0@
                    != name@,
            decreases i,
        {
            if self.entries[i - 1].0 == *name {
                proof {
                    lemma_last_binding(self.entries@, name@, i as int);
                    assert(self.entries_wf());
                    assert(self.entries@[(i - 1) as int].1.wf());
                }
                return Some(self.entries[i - 1].1.copy());
            }
            i = i - 1;
        }
        proof {
            lemma_unbound(self.entries@, name@);
        }
        None
    }

    /// Binds `name` to `p`, replacing any earlier binding.
    pub fn insert(&mut self, name: String, p: Poly)
        requires
            old(self).inv(),
            p.wf(),
        ensures
            final(self)@ == old(self)@.insert(name@, p@),
            final(self).inv(),
    {
        let ghost e0 = self.entries@;
        let ghost x = (name, p);
        let mut i = self.entries.len();
        while i > 0
            invariant
                self.entries@ == e0,
                old(self)@ == table_of(e0),
                self.inv(),
                p.wf(),
                x == (name, p),
                i <= e0.len(),
                forall|j: int| i <= j < e0.len() ==> #[trigger] e0[j].0@ != name@,
            decreases i,
        {
            if self.entries[i - 1].0 == name {
                proof {
                    lemma_rebind(e0, i - 1, x);
                }
                self.entries.set(i - 1, (name, p));
                proof {
                    assert(self.entries@ == e0.update(i - 1, x));
                    assert forall|j: int| 0 <= j < self.entries@.len() implies #[trigger] self.entries@[j].1.wf() by {
                        if j != i - 1 {
                            assert(self.entries@[j] == e0[j]);
                        }
                    }
                    lemma_table_canonical(self.entries@);
                    assert(self.entries() == e0.update(i - 1, x));
                    assert(self@ == table_of(e0).insert(x.0@, x.1@));
                }
                return;
            }
            i = i - 1;
        }
        self.entries.push((name, p));
        proof {
            assert(self.entries@.drop_last() =~= e0);
            assert forall|j: int| 0 <= j < self.entries@.len() implies #[trigger] self.entries@[j].1.wf() by {
                if j < e0.len() {
                    assert(self.entries@[j] == e0[j]);
                }
            }
            lemma_table_canonical(self.entries@);
        }
    }
}

} // verus!
