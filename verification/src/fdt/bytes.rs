//! Byte-string operations on device tree names and paths.
use vstd::prelude::*;

verus! {

/// The bytes of an ASCII text.
pub open spec fn ascii_bytes(s: Seq<char>) -> Seq<u8> {
    s.map_values(|c: char| c as u8)
}

/// Whether `p` is a prefix of `s`.
pub open spec fn is_prefix(p: Seq<u8>, s: Seq<u8>) -> bool {
    p.len() <= s.len() && s.subrange(0, p.len() as int) == p
}

/// Whether `p` is a suffix of `s`.
pub open spec fn is_suffix(p: Seq<u8>, s: Seq<u8>) -> bool {
    p.len() <= s.len() && s.subrange(s.len() - p.len(), s.len() as int) == p
}

/// Whether `p` occurs in `s` at some position.
pub open spec fn occurs_in(p: Seq<u8>, s: Seq<u8>) -> bool {
    exists|i: int| 0 <= i && i + p.len() <= s.len() && #[trigger] s.subrange(i, i + p.len()) == p
}

/// The number of occurrences of the byte `b` in `s`.
pub open spec fn count_byte(s: Seq<u8>, b: u8) -> nat
    decreases s.len(),
{
    if s.len() == 0 {
        0
    } else {
        count_byte(s.drop_last(), b) + if s.last() == b { 1nat } else { 0nat }
    }
}

/// The byte `/`.
pub open spec fn slash() -> u8 {
    47u8
}

/// The path of the root node: `/`.
pub open spec fn root_path() -> Seq<u8> {
    seq![47u8]
}

/// Whether `bytes` are the ASCII bytes of `lit`.
pub fn bytes_eq_str(bytes: &[u8], lit: &str) -> (r: bool)
    ensures
        r == (bytes@ == ascii_bytes(lit@)),
{
    let n = lit.unicode_len();
    if bytes.len() != n {
        return false;
    }
    let mut i: usize = 0;
    while i < n
        invariant
            i <= n,
            n == lit@.len(),
            bytes@.len() == n,
            forall|j: int| 0 <= j < i ==> bytes@[j] == (lit@[j] as u8),
        decreases n - i,
    {
        let c = lit.get_char(i);
        if bytes[i] != c as u8 {
            assert(ascii_bytes(lit@)[i as int] == c as u8);
            return false;
        }
        i = i + 1;
    }
    assert(bytes@ =~= ascii_bytes(lit@));
    true
}

/// The ASCII bytes of `lit`.
pub fn str_to_bytes(lit: &str) -> (r: Vec<u8>)
    ensures
        r@ == ascii_bytes(lit@),
{
    let n = lit.unicode_len();
    let mut out: Vec<u8> = Vec::new();
    let mut i: usize = 0;
    while i < n
        invariant
            i <= n,
            n == lit@.len(),
            out@.len() == i,
            forall|j: int| 0 <= j < i ==> out@[j] == (lit@[j] as u8),
        decreases n - i,
    {
        let c = lit.get_char(i);
        out.push(c as u8);
        i = i + 1;
    }
    assert(out@ =~= ascii_bytes(lit@));
    out
}

/// Whether the two byte strings are equal.
pub fn bytes_eq(a: &[u8], b: &[u8]) -> (r: bool)
    ensures
        r == (a@ == b@),
{
    if a.len() != b.len() {
        return false;
    }
    let mut i: usize = 0;
    while i < a.len()
        invariant
            i <= a@.len(),
            a@.len() == b@.len(),
            forall|j: int| 0 <= j < i ==> a@[j] == b@[j],
        decreases a@.len() - i,
    {
        if a[i] != b[i] {
            return false;
        }
        i = i + 1;
    }
    assert(a@ =~= b@);
    true
}

/// Whether `s` starts with `p`.
pub fn starts_with(s: &[u8], p: &[u8]) -> (r: bool)
    ensures
        r == is_prefix(p@, s@),
{
    if p.len() > s.len() {
        return false;
    }
    let mut i: usize = 0;
    while i < p.len()
        invariant
            i <= p@.len(),
            p@.len() <= s@.len(),
            forall|j: int| 0 <= j < i ==> s@[j] == p@[j],
        decreases p@.len() - i,
    {
        if s[i] != p[i] {
            assert(s@.subrange(0, p@.len() as int)[i as int] != p@[i as int]);
            return false;
        }
        i = i + 1;
    }
    assert(s@.subrange(0, p@.len() as int) =~= p@);
    true
}

/// Whether `s` ends with `p`.
pub fn ends_with(s: &[u8], p: &[u8]) -> (r: bool)
    ensures
        r == is_suffix(p@, s@),
{
    if p.len() > s.len() {
        return false;
    }
    let off = s.len() - p.len();
    let mut i: usize = 0;
    while i < p.len()
        invariant
            i <= p@.len(),
            p@.len() <= s@.len(),
            off == s@.len() - p@.len(),
            off + p@.len() == s@.len(),
            s@.len() <= usize::MAX,
            forall|j: int| 0 <= j < i ==> s@[off + j] == p@[j],
        decreases p@.len() - i,
    {
        if s[off + i] != p[i] {
            assert(s@.subrange(off as int, s@.len() as int)[i as int] != p@[i as int]);
            return false;
        }
        i = i + 1;
    }
    assert(s@.subrange(off as int, s@.len() as int) =~= p@);
    true
}

/// Whether `s` starts with the ASCII text `lit`.
pub fn starts_with_str(s: &[u8], lit: &str) -> (r: bool)
    ensures
        r == is_prefix(ascii_bytes(lit@), s@),
{
    let p = str_to_bytes(lit);
    starts_with(s, &p)
}

/// Whether `s` ends with the ASCII text `lit`.
pub fn ends_with_str(s: &[u8], lit: &str) -> (r: bool)
    ensures
        r == is_suffix(ascii_bytes(lit@), s@),
{
    let p = str_to_bytes(lit);
    ends_with(s, &p)
}

/// Whether the ASCII text `lit` occurs in `s`.
pub fn contains_str(s: &[u8], lit: &str) -> (r: bool)
    ensures
        r == occurs_in(ascii_bytes(lit@), s@),
{
    let p = str_to_bytes(lit);
    if p.len() > s.len() {
        proof {
            assert forall|i: int| 0 <= i && i + p@.len() <= s@.len() implies #[trigger] s@.subrange(
                i,
                i + p@.len(),
            ) != p@ by {}
        }
        return false;
    }
    if p.len() == 0 {
        assert(s@.subrange(0int, 0int + p@.len()) =~= p@);
        assert(occurs_in(p@, s@));
        return true;
    }
    let last = s.len() - p.len();
    let mut i: usize = 0;
    while i <= last
        invariant
            p@ == ascii_bytes(lit@),
            p@.len() <= s@.len(),
            last == s@.len() - p@.len(),
            p@.len() > 0,
            s@.len() <= usize::MAX,
            i <= last + 1,
            forall|k: int| 0 <= k < i ==> #[trigger] s@.subrange(k, k + p@.len()) != p@,
        decreases last + 1 - i,
    {
        let mut j: usize = 0;
        let mut same = true;
        while j < p.len()
            invariant
                j <= p@.len(),
                i <= last,
                last == s@.len() - p@.len(),
                s@.len() <= usize::MAX,
                same == (forall|m: int| 0 <= m < j ==> s@[i + m] == p@[m]),
            decreases p@.len() - j,
        {
            if s[i + j] != p[j] {
                same = false;
            }
            j = j + 1;
        }
        if same {
            assert(s@.subrange(i as int, i + p@.len()) =~= p@);
            return true;
        } else {
            proof {
                let m = choose|m: int| 0 <= m < p@.len() && s@[i + m] != p@[m];
                assert(s@.subrange(i as int, i + p@.len())[m] != p@[m]);
            }
        }
        i = i + 1;
    }
    false
}

/// The number of `/` bytes in `s`.
pub fn count_slashes(s: &[u8]) -> (r: usize)
    ensures
        r == count_byte(s@, slash()),
{
    let mut n: usize = 0;
    let mut i: usize = 0;
    while i < s.len()
        invariant
            i <= s@.len(),
            n == count_byte(s@.subrange(0, i as int), slash()),
            n <= i,
        decreases s@.len() - i,
    {
        proof {
            assert(s@.subrange(0, i + 1).drop_last() =~= s@.subrange(0, i as int));
        }
        if s[i] == 47u8 {
            n = n + 1;
        }
        i = i + 1;
    }
    assert(s@.subrange(0, i as int) =~= s@);
    n
}

/// Whether `s` is the path of the root node, `/`.
pub fn is_root_path(s: &[u8]) -> (r: bool)
    ensures
        r == (s@ == root_path()),
{
    if s.len() == 1 && s[0] == 47u8 {
        assert(s@ =~= root_path());
        true
    } else {
        false
    }
}

/// The path of the root node, `/`.
pub fn root_path_vec() -> (r: Vec<u8>)
    ensures
        r@ == root_path(),
{
    let mut v: Vec<u8> = Vec::new();
    v.push(47u8);
    assert(v@ =~= root_path());
    v
}

/// A copy of `s`.
pub fn copy_bytes(s: &[u8]) -> (r: Vec<u8>)
    ensures
        r@ == s@,
{
    let mut out: Vec<u8> = Vec::new();
    let mut i: usize = 0;
    while i < s.len()
        invariant
            i <= s@.len(),
            out@ == s@.subrange(0, i as int),
        decreases s@.len() - i,
    {
        out.push(s[i]);
        i = i + 1;
        assert(out@ =~= s@.subrange(0, i as int));
    }
    assert(s@.subrange(0, i as int) =~= s@);
    out
}

} // verus!
