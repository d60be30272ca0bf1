//! Byte-level views of strings, and the searches and slices that the
//! parsers are built from.
use vstd::prelude::*;
use vstd::string::StringSliceAdditionalSpecFns;
use vstd::utf8::*;

verus! {

broadcast use vstd::utf8::group_utf8_lib;

/// The UTF-8 bytes of a string slice.
pub open spec fn sbytes(s: &str) -> Seq<u8> {
    s.spec_bytes()
}

/// The UTF-8 bytes of an owned string.
pub open spec fn string_bytes(s: String) -> Seq<u8> {
    encode_utf8(s@)
}

/// `i` is where a character starts (or the end) in the UTF-8 sequence `b`.
pub open spec fn at_boundary(b: Seq<u8>, i: int) -> bool {
    i == 0 || i == b.len() || (0 < i < b.len() && !is_continuation_byte(b[i]))
}

/// ASCII bytes are never continuation bytes.
pub open spec fn is_ascii_byte(c: u8) -> bool {
    c < 128
}

pub proof fn lemma_str_valid(s: &str)
    ensures
        valid_utf8(s.spec_bytes()),
{
}

pub proof fn lemma_at_boundary(b: Seq<u8>, i: int)
    requires
        valid_utf8(b),
        at_boundary(b, i),
    ensures
        is_char_boundary(b, i),
{
    if i == 0 {
    } else if i == b.len() {
        is_char_boundary_start_end_of_seq(b);
    } else {
        is_char_boundary_iff_not_is_continuation_byte(b, i);
    }
}

/// The part of `s` between byte offsets `a` and `b`.
pub fn substr<'a>(s: &'a str, a: usize, b: usize) -> (r: &'a str)
    requires
        a <= b <= sbytes(s).len(),
        at_boundary(sbytes(s), a as int),
        at_boundary(sbytes(s), b as int),
    ensures
        sbytes(r) == sbytes(s).subrange(a as int, b as int),
{
    let ghost bs = sbytes(s);
    proof {
        lemma_at_boundary(bs, a as int);
    }
    let (_, tail) = s.split_at(a);
    let ghost ts = sbytes(tail);
    assert(ts == bs.subrange(a as int, bs.len() as int));
    proof {
        valid_utf8_split(bs, a as int);
        assert(at_boundary(ts, (b - a) as int)) by {
            if (b - a) as int != 0 && (b - a) as int != ts.len() {
                assert(ts[(b - a) as int] == bs[b as int]);
            }
        }
        lemma_at_boundary(ts, (b - a) as int);
    }
    let (mid, _) = tail.split_at(b - a);
    assert(sbytes(mid) =~= bs.subrange(a as int, b as int));
    mid
}

/// The part of `s` from byte offset `a` to its end.
pub fn suffix<'a>(s: &'a str, a: usize) -> (r: &'a str)
    requires
        a <= sbytes(s).len(),
        at_boundary(sbytes(s), a as int),
    ensures
        sbytes(r) == sbytes(s).skip(a as int),
{
    proof {
        lemma_at_boundary(sbytes(s), a as int);
    }
    let (_, tail) = s.split_at(a);
    assert(sbytes(tail) =~= sbytes(s).skip(a as int));
    tail
}

/// The part of `s` before byte offset `a`.
pub fn prefix<'a>(s: &'a str, a: usize) -> (r: &'a str)
    requires
        a <= sbytes(s).len(),
        at_boundary(sbytes(s), a as int),
    ensures
        sbytes(r) == sbytes(s).take(a as int),
{
    proof {
        lemma_at_boundary(sbytes(s), a as int);
    }
    let (head, _) = s.split_at(a);
    assert(sbytes(head) =~= sbytes(s).take(a as int));
    head
}

/// Position of the first `c` in `s` at or after `i`.
pub open spec fn find_from(s: Seq<u8>, c: u8, i: int) -> Option<int>
    decreases s.len() - i,
{
    if i < 0 || i >= s.len() {
        None
    } else if s[i] == c {
        Some(i)
    } else {
        find_from(s, c, i + 1)
    }
}

/// What a search from `i` finds: the first match at or after `i`.
pub proof fn lemma_find_from(s: Seq<u8>, c: u8, i: int)
    requires
        0 <= i,
    ensures
        find_from(s, c, i) matches Some(k) ==> i <= k < s.len() && s[k] == c && forall|j: int|
            i <= j < k ==> s[j] != c,
        find_from(s, c, i) is None ==> forall|j: int| i <= j < s.len() ==> s[j] != c,
    decreases s.len() - i,
{
    if i < s.len() && s[i] != c {
        lemma_find_from(s, c, i + 1);
    }
}

/// A search from `i` that passes over `i` gives the search from `i + 1`.
pub proof fn lemma_find_unique(s: Seq<u8>, c: u8, i: int, k: int)
    requires
        0 <= i <= k < s.len(),
        s[k] == c,
        forall|j: int| i <= j < k ==> s[j] != c,
    ensures
        find_from(s, c, i) == Some(k),
    decreases k - i,
{
    if i < k {
        lemma_find_unique(s, c, i + 1, k);
    }
}

pub proof fn lemma_find_none(s: Seq<u8>, c: u8, i: int)
    requires
        0 <= i,
        forall|j: int| i <= j < s.len() ==> s[j] != c,
    ensures
        find_from(s, c, i) is None,
    decreases s.len() - i,
{
    if i < s.len() {
        lemma_find_none(s, c, i + 1);
    }
}

/// Searches `s` for byte `c` from offset `i`.
pub fn find_byte_from(s: &[u8], c: u8, i: usize) -> (r: Option<usize>)
    ensures
        r matches Some(k) ==> find_from(s@, c, i as int) == Some(k as int),
        r is None ==> find_from(s@, c, i as int) is None,
{
    let mut k = i;
    while k < s.len()
        invariant
            i <= k,
            forall|j: int| i <= j < k ==> s@[j] != c,
        decreases s.len() - k,
    {
        if s[k] == c {
            proof {
                lemma_find_unique(s@, c, i as int, k as int);
            }
            return Some(k);
        }
        k = k + 1;
    }
    proof {
        lemma_find_none(s@, c, i as int);
    }
    None
}

/// Position of the first byte of `s` at or after `i` that is `c1` or `c2`.
pub open spec fn find2_from(s: Seq<u8>, c1: u8, c2: u8, i: int) -> Option<int>
    decreases s.len() - i,
{
    if i < 0 || i >= s.len() {
        None
    } else if s[i] == c1 || s[i] == c2 {
        Some(i)
    } else {
        find2_from(s, c1, c2, i + 1)
    }
}

pub proof fn lemma_find2_from(s: Seq<u8>, c1: u8, c2: u8, i: int)
    requires
        0 <= i,
    ensures
        find2_from(s, c1, c2, i) matches Some(k) ==> i <= k < s.len() && (s[k] == c1 || s[k]
            == c2) && forall|j: int| i <= j < k ==> s[j] != c1 && s[j] != c2,
        find2_from(s, c1, c2, i) is None ==> forall|j: int|
            i <= j < s.len() ==> s[j] != c1 && s[j] != c2,
    decreases s.len() - i,
{
    if i < s.len() && s[i] != c1 && s[i] != c2 {
        lemma_find2_from(s, c1, c2, i + 1);
    }
}

/// Searches `s` for the first byte that is `c1` or `c2`, from offset `i`.
pub fn find_byte2_from(s: &[u8], c1: u8, c2: u8, i: usize) -> (r: Option<usize>)
    ensures
        r matches Some(k) ==> find2_from(s@, c1, c2, i as int) == Some(k as int),
        r is None ==> find2_from(s@, c1, c2, i as int) is None,
{
    let mut k = i;
    while k < s.len()
        invariant
            i <= k,
            find2_from(s@, c1, c2, i as int) == find2_from(s@, c1, c2, k as int),
        decreases s.len() - k,
    {
        if s[k] == c1 || s[k] == c2 {
            return Some(k);
        }
        k = k + 1;
    }
    None
}

/// Whether offset `i` of `s` is where a character starts, or its end.
pub fn is_boundary(s: &str, i: usize) -> (r: bool)
    requires
        i <= sbytes(s).len(),
    ensures
        r == at_boundary(sbytes(s), i as int),
{
    let b = s.as_bytes();
    i == 0 || i == b.len() || b[i] < 128 || b[i] >= 192
}

/// A byte found by a search is at a character boundary when it is ASCII.
pub proof fn lemma_ascii_boundary(b: Seq<u8>, i: int)
    requires
        0 <= i < b.len(),
        is_ascii_byte(b[i]),
    ensures
        at_boundary(b, i),
{
}

/// After a leading ASCII byte, the next character begins.
pub proof fn lemma_ascii_first(b: Seq<u8>)
    requires
        valid_utf8(b),
        b.len() > 0,
        is_ascii_byte(b[0]),
    ensures
        at_boundary(b, 1),
{
    if b.len() > 1 {
        reveal_with_fuel(is_char_boundary, 2);
        assert(length_of_first_scalar(b) == 1);
        is_char_boundary_start_end_of_seq(pop_first_scalar(b));
        assert(is_char_boundary(b, 1));
        is_char_boundary_iff_not_is_continuation_byte(b, 1);
    }
}

/// The byte after an ASCII byte begins a character.
pub proof fn lemma_after_ascii(b: Seq<u8>, i: int)
    requires
        valid_utf8(b),
        0 < i <= b.len(),
        is_ascii_byte(b[i - 1]),
    ensures
        at_boundary(b, i),
{
    if i < b.len() {
        is_char_boundary_iff_not_is_continuation_byte(b, i - 1);
        valid_utf8_split(b, i - 1);
        let c = b.subrange(i - 1, b.len() as int);
        lemma_ascii_first(c);
        assert(c[1] == b[i]);
    }
}

/// Whether two strings are equal, compared byte by byte.
pub fn str_eq(a: &str, b: &str) -> (r: bool)
    ensures
        r == (a@ == b@),
{
    let x = a.as_bytes();
    let y = b.as_bytes();
    proof {
        decode_utf8_encode_utf8(sbytes(a));
        encode_utf8_decode_utf8(a@);
        encode_utf8_decode_utf8(b@);
    }
    if x.len() != y.len() {
        return false;
    }
    let mut i: usize = 0;
    while i < x.len()
        invariant
            i <= x@.len(),
            x@ == sbytes(a),
            y@ == sbytes(b),
            x@.len() == y@.len(),
            forall|k: int| 0 <= k < i ==> x@[k] == y@[k],
        decreases x.len() - i,
    {
        if x[i] != y[i] {
            assert(x@ != y@);
            return false;
        }
        i = i + 1;
    }
    assert(x@ =~= y@);
    true
}

} // verus!
