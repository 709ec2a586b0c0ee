//! Device tree paths kept in the byte order in which an ordered map of
//! strings keeps its keys.
use vstd::prelude::*;

use crate::fdt::bytes::{bytes_eq, copy_bytes};

verus! {

/// Whether `a` comes before `b` in byte-wise lexicographic order, a proper
/// prefix coming first.
pub open spec fn lex_lt(a: Seq<u8>, b: Seq<u8>) -> bool
    decreases a.len(),
{
    if a.len() == 0 {
        b.len() > 0
    } else if b.len() == 0 {
        false
    } else if a[0] < b[0] {
        true
    } else if a[0] > b[0] {
        false
    } else {
        lex_lt(a.drop_first(), b.drop_first())
    }
}

/// The order is transitive.
pub proof fn lemma_lex_lt_transitive(a: Seq<u8>, b: Seq<u8>, c: Seq<u8>)
    requires
        lex_lt(a, b),
        lex_lt(b, c),
    ensures
        lex_lt(a, c),
    decreases a.len(),
{
    if a.len() > 0 && b.len() > 0 && c.len() > 0 && a[0] == b[0] && b[0] == c[0] {
        lemma_lex_lt_transitive(a.drop_first(), b.drop_first(), c.drop_first());
    }
}

/// Of two different byte strings, one comes before the other.
pub proof fn lemma_lex_lt_total(a: Seq<u8>, b: Seq<u8>)
    requires
        a != b,
    ensures
        lex_lt(a, b) || lex_lt(b, a),
    decreases a.len(),
{
    if a.len() == 0 && b.len() == 0 {
        assert(a =~= b);
    }
    if a.len() > 0 && b.len() > 0 && a[0] == b[0] {
        if a.drop_first() == b.drop_first() {
            assert(a =~= seq![a[0]] + a.drop_first());
            assert(b =~= seq![b[0]] + b.drop_first());
            assert(a =~= b);
        }
        lemma_lex_lt_total(a.drop_first(), b.drop_first());
    }
}

/// No byte string comes before itself.
pub proof fn lemma_lex_lt_irreflexive(a: Seq<u8>)
    ensures
        !lex_lt(a, a),
    decreases a.len(),
{
    if a.len() > 0 {
        lemma_lex_lt_irreflexive(a.drop_first());
    }
}

/// Whether `a` comes before `b`.
pub fn lex_less(a: &[u8], b: &[u8]) -> (r: bool)
    ensures
        r == lex_lt(a@, b@),
{
    let mut i: usize = 0;
    assert(a@.skip(0) =~= a@);
    assert(b@.skip(0) =~= b@);
    while i < a.len() && i < b.len()
        invariant
            i <= a@.len(),
            i <= b@.len(),
            a@.subrange(0, i as int) == b@.subrange(0, i as int),
            lex_lt(a@, b@) == lex_lt(a@.skip(i as int), b@.skip(i as int)),
        decreases a@.len() - i,
    {
        proof {
            assert(a@.skip(i as int).drop_first() =~= a@.skip(i + 1));
            assert(b@.skip(i as int).drop_first() =~= b@.skip(i + 1));
        }
        if a[i] < b[i] {
            return true;
        }
        if a[i] > b[i] {
            return false;
        }
        assert(a@.subrange(0, i + 1) =~= a@.subrange(0, i as int).push(a@[i as int]));
        assert(b@.subrange(0, i + 1) =~= b@.subrange(0, i as int).push(b@[i as int]));
        i = i + 1;
    }
    i < b.len()
}

/// Whether the byte strings strictly increase.
pub open spec fn sorted_paths(s: Seq<Seq<u8>>) -> bool {
    forall|i: int, j: int| 0 <= i < j < s.len() ==> lex_lt(#[trigger] s[i], #[trigger] s[j])
}

/// The contents of a list of byte strings.
pub open spec fn path_seq(v: Seq<Vec<u8>>) -> Seq<Seq<u8>> {
    v.map_values(|x: Vec<u8>| x@)
}

/// Where `key` stands in the sorted list `keys`: its position if listed,
/// else the position at which it would be inserted.
pub fn sorted_position(keys: &[Vec<u8>], key: &[u8]) -> (r: (usize, bool))
    requires
        sorted_paths(path_seq(keys@)),
    ensures
        r.0 <= keys@.len(),
        r.1 ==> r.0 < keys@.len() && keys@[r.0 as int]@ == key@,
        forall|i: int| 0 <= i < r.0 ==> lex_lt(#[trigger] keys@[i]@, key@),
        !r.1 ==> forall|i: int| r.0 <= i < keys@.len() ==> lex_lt(key@, #[trigger] keys@[i]@),
{
    let mut i: usize = 0;
    while i < keys.len()
        invariant
            i <= keys@.len(),
            sorted_paths(path_seq(keys@)),
            forall|j: int| 0 <= j < i ==> lex_lt(#[trigger] keys@[j]@, key@),
        decreases keys@.len() - i,
    {
        if bytes_eq(&keys[i], key) {
            return (i, true);
        }
        if !lex_less(&keys[i], key) {
            proof {
                lemma_lex_lt_total(keys@[i as int]@, key@);
                assert forall|j: int| i <= j < keys@.len() implies lex_lt(key@, #[trigger] keys@[j]@) by {
                    if j > i {
                        assert(path_seq(keys@)[i as int] == keys@[i as int]@);
                        assert(path_seq(keys@)[j] == keys@[j]@);
                        lemma_lex_lt_transitive(key@, keys@[i as int]@, keys@[j]@);
                    }
                }
            }
            return (i, false);
        }
        i = i + 1;
    }
    (i, false)
}

/// After inserting at `p` a key that fits there, the keys still increase.
pub proof fn lemma_insert_sorted(s: Seq<Seq<u8>>, p: int, k: Seq<u8>)
    requires
        sorted_paths(s),
        0 <= p <= s.len(),
        forall|i: int| 0 <= i < p ==> lex_lt(#[trigger] s[i], k),
        forall|i: int| p <= i < s.len() ==> lex_lt(k, #[trigger] s[i]),
    ensures
        sorted_paths(s.insert(p, k)),
{
    let t = s.insert(p, k);
    assert forall|i: int, j: int| 0 <= i < j < t.len() implies lex_lt(#[trigger] t[i], #[trigger] t[j]) by {
        if j < p {
        } else if j == p {
        } else if i < p {
            assert(t[j] == s[j - 1]);
        } else if i == p {
            assert(t[j] == s[j - 1]);
        } else {
            assert(t[i] == s[i - 1]);
            assert(t[j] == s[j - 1]);
        }
    }
}

/// Two positions of an increasing list hold different keys.
pub proof fn lemma_sorted_distinct(s: Seq<Seq<u8>>, a: int, b: int)
    requires
        sorted_paths(s),
        0 <= a < s.len(),
        0 <= b < s.len(),
        a != b,
    ensures
        s[a] != s[b],
{
    lemma_lex_lt_irreflexive(s[a]);
}

/// A set of paths, kept in increasing order.
#[derive(Clone, Debug)]
pub struct PathSet {
    items: Vec<Vec<u8>>,
}

impl PathSet {
    /// The paths, in increasing order.
    pub closed spec fn items(&self) -> Seq<Seq<u8>> {
        path_seq(self.items@)
    }

    /// Whether the paths strictly increase.
    pub closed spec fn wf(&self) -> bool {
        sorted_paths(self.items())
    }

    /// The set of paths.
    pub open spec fn contents(&self) -> Set<Seq<u8>> {
        self.items().to_set()
    }

    /// An empty set.
    pub fn new() -> (r: Self)
        ensures
            r.wf(),
            r.items() == Seq::<Seq<u8>>::empty(),
    {
        let r = PathSet { items: Vec::new() };
        assert(r.items() =~= Seq::<Seq<u8>>::empty());
        r
    }

    /// Whether `path` is in the set.
    pub fn contains(&self, path: &[u8]) -> (r: bool)
        requires
            self.wf(),
        ensures
            r == self.contents().contains(path@),
    {
        let (pos, found) = sorted_position(&self.items, path);
        proof {
            if found {
                assert(self.items()[pos as int] == path@);
            } else if self.contents().contains(path@) {
                let k = choose|k: int| 0 <= k < self.items().len() && self.items()[k] == path@;
                assert(self.items@[k]@ == path@);
                lemma_lex_lt_irreflexive(path@);
            }
        }
        found
    }

    /// Adds `path`; returns whether it was not already in the set.
    pub fn insert(&mut self, path: &[u8]) -> (r: bool)
        requires
            old(self).wf(),
        ensures
            final(self).wf(),
            r == !old(self).contents().contains(path@),
            final(self).contents() == old(self).contents().insert(path@),
            r ==> exists|p: int|
                0 <= p <= old(self).items().len() && final(self).items() == old(
                    self,
                ).items().insert(p, path@),
            !r ==> final(self).items() == old(self).items(),
    {
        let (pos, found) = sorted_position(&self.items, path);
        if found {
            proof {
                assert(self.items()[pos as int] == path@);
                assert(self.contents() =~= self.contents().insert(path@));
            }
            return false;
        }
        let ghost before = self.items();
        proof {
            if before.to_set().contains(path@) {
                let k = choose|k: int| 0 <= k < before.len() && before[k] == path@;
                assert(self.items@[k]@ == path@);
                lemma_lex_lt_irreflexive(path@);
            }
            assert forall|i: int| 0 <= i < pos implies lex_lt(#[trigger] before[i], path@) by {
                assert(before[i] == self.items@[i]@);
            }
            assert forall|i: int| pos <= i < before.len() implies lex_lt(path@, #[trigger] before[i]) by {
                assert(before[i] == self.items@[i]@);
            }
            lemma_insert_sorted(before, pos as int, path@);
        }
        self.items.insert(pos, copy_bytes(path));
        proof {
            assert(self.items() =~= before.insert(pos as int, path@));
            assert(self.contents() =~= before.to_set().insert(path@)) by {
                assert forall|x: Seq<u8>| self.contents().contains(x) <==> before.to_set().insert(
                    path@,
                ).contains(x) by {
                    let t = before.insert(pos as int, path@);
                    if t.contains(x) {
                        let k = choose|k: int| 0 <= k < t.len() && t[k] == x;
                        if k < pos {
                            assert(before[k] == x);
                        } else if k > pos {
                            assert(before[k - 1] == x);
                        }
                    }
                    if before.contains(x) {
                        let k = choose|k: int| 0 <= k < before.len() && before[k] == x;
                        if k < pos {
                            assert(t[k] == x);
                        } else {
                            assert(t[k + 1] == x);
                        }
                    }
                    if x == path@ {
                        assert(t[pos as int] == x);
                    }
                }
            }
        }
        true
    }

    /// The paths in increasing order.
    pub fn to_vec(&self) -> (r: Vec<Vec<u8>>)
        ensures
            path_seq(r@) == self.items(),
    {
        let mut out: Vec<Vec<u8>> = Vec::new();
        let mut i: usize = 0;
        while i < self.items.len()
            invariant
                i <= self.items@.len(),
                path_seq(out@) == path_seq(self.items@).subrange(0, i as int),
            decreases self.items@.len() - i,
        {
            let ghost before = path_seq(out@);
            out.push(copy_bytes(&self.items[i]));
            assert(path_seq(out@) =~= before.push(self.items@[i as int]@));
            i = i + 1;
            assert(path_seq(out@) =~= path_seq(self.items@).subrange(0, i as int));
        }
        assert(path_seq(self.items@).subrange(0, i as int) =~= path_seq(self.items@));
        out
    }
}

} // verus!
