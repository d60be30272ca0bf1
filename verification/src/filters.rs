//! Filters on characters: a fixed, sorted set of characters searched by
//! bisection.
use vstd::prelude::*;

use crate::error::{decimal_text, ErrorKind, ParseError};

verus! {

broadcast use vstd::utf8::group_utf8_lib;

/// A test on values of type `T`.
pub trait IFilter<T> {
    /// A name for the filter.
    fn name(&self) -> &str;

    /// Whether `input` passes the filter.
    fn filter(&self, input: T) -> bool;
}

/// Each character of `t` is below the next, by code point.
pub open spec fn ascending(t: Seq<char>) -> bool {
    forall|i: int, j: int| 0 <= i < j < t.len() ==> (t[i] as u32) < (t[j] as u32)
}

/// Neighbours in order make the whole sequence ascending.
pub proof fn lemma_ascending_steps(t: Seq<char>)
    requires
        forall|i: int| 0 <= i < t.len() - 1 ==> (#[trigger] t[i] as u32) < (t[i + 1] as u32),
    ensures
        ascending(t),
    decreases t.len(),
{
    if t.len() > 1 {
        let u = t.drop_last();
        assert forall|i: int| 0 <= i < u.len() - 1 implies (#[trigger] u[i] as u32) < (u[i
            + 1] as u32) by {
            assert(u[i] == t[i] && u[i + 1] == t[i + 1]);
        }
        lemma_ascending_steps(u);
        assert forall|i: int, j: int| 0 <= i < j < t.len() implies (t[i] as u32) < (
        t[j] as u32) by {
            if j < t.len() - 1 {
                assert(u[i] == t[i] && u[j] == t[j]);
            } else if i < j - 1 {
                assert(u[i] == t[i] && u[j - 1] == t[j - 1]);
                assert((t[j - 1] as u32) < (t[j] as u32));
            }
        }
    }
}

/// A fixed list of characters, meant to be sorted by code point and free of
/// repeats; `contains` searches it by bisection.
pub struct CharSetFilter<const N: usize> {
    table: [char; N],
}

impl<const N: usize> CharSetFilter<N> {
    /// The characters of the set, in the order given.
    pub closed spec fn table(&self) -> Seq<char> {
        self.table@
    }

    /// A set with the characters of `table`, which the caller keeps sorted.
    pub fn new(table: [char; N]) -> (r: Self)
        ensures
            r.table() == table@,
    {
        CharSetFilter { table }
    }

    /// Whether `target` is in the set. It is only ever found where it is;
    /// when the table is sorted, it is found wherever it is.
    pub fn contains(&self, target: char) -> (r: bool)
        ensures
            r ==> self.table().contains(target),
            ascending(self.table()) ==> (r <==> self.table().contains(target)),
    {
        let t = target as u32;
        let mut lo: usize = 0;
        let mut hi: usize = N;
        assert(self.table@.len() == N);
        while lo < hi
            invariant
                lo <= hi <= N,
                t == target as u32,
                self.table@.len() == N,
                ascending(self.table@) ==> forall|i: int|
                    0 <= i < self.table@.len() && !(lo <= i < hi) ==> self.table@[i] != target,
            decreases hi - lo,
        {
            let mid = lo + (hi - lo) / 2;
            let mid_val = self.table[mid];
            if target == mid_val {
                return true;
            }
            if t < mid_val as u32 {
                proof {
                    if ascending(self.table@) {
                        assert forall|i: int| mid <= i < hi implies self.table@[i] != target by {
                            if i > mid {
                                assert((self.table@[mid as int] as u32) < (self.table@[i] as u32));
                            }
                        }
                    }
                }
                hi = mid;
            } else {
                proof {
                    if ascending(self.table@) {
                        assert forall|i: int| lo <= i <= mid implies self.table@[i] != target by {
                            if i < mid {
                                assert((self.table@[i] as u32) < (self.table@[mid as int] as u32));
                            }
                        }
                    }
                }
                lo = mid + 1;
            }
        }
        proof {
            if ascending(self.table@) && self.table@.contains(target) {
                let k = choose|k: int| 0 <= k < self.table@.len() && self.table@[k] == target;
                assert(self.table@[k] != target);
            }
        }
        false
    }

    /// A set of the characters of `s`, which must have exactly `N` of them.
    pub fn from_chars(s: &str) -> (r: Result<Self, ParseError>)
        ensures
            r is Ok <==> s@.len() == N,
            r matches Ok(f) ==> f.table() == s@,
            s@.len() > N ==> (r matches Err(e) && e.kind == (ErrorKind::CharSetLength {
                expected: N,
                got: N,
            }) && e.message@ == "String too long for CharSet, expected "@ + decimal_text(N as nat)
                + " but got "@ + decimal_text(N as nat)),
            s@.len() < N ==> (r matches Err(e) && e.kind == (ErrorKind::CharSetLength {
                expected: N,
                got: s@.len() as usize,
            }) && e.message@ == "String length does not match CharSet size, expected "@
                + decimal_text(N as nat) + " but got "@ + decimal_text(s@.len())),
    {
        let n = s.unicode_len();
        if n > N {
            return Err(ParseError::char_set_length(true, N, N));
        }
        if n < N {
            return Err(ParseError::char_set_length(false, N, n));
        }
        let mut chars: [char; N] = ['\0'; N];
        let mut i: usize = 0;
        while i < N
            invariant
                i <= N,
                n == N,
                s@.len() == N,
                chars@.len() == N,
                forall|k: int| 0 <= k < i ==> chars@[k] == s@[k],
            decreases N - i,
        {
            chars.set(i, s.get_char(i));
            i = i + 1;
        }
        assert(chars@ =~= s@);
        Ok(Self::new(chars))
    }
}

impl<'a, const N: usize> IFilter<&'a char> for CharSetFilter<N> {
    fn name(&self) -> (r: &str)
        ensures
            r@ == "Char Set (array)"@,
    {
        "Char Set (array)"
    }

    fn filter(&self, input: &'a char) -> (r: bool)
        ensures
            r ==> self.table().contains(*input),
            ascending(self.table()) ==> (r <==> self.table().contains(*input)),
    {
        self.contains(*input)
    }
}

impl<const N: usize> core::str::FromStr for CharSetFilter<N> {
    type Err = ParseError;

    fn from_str(s: &str) -> (r: Result<Self, ParseError>)
        ensures
            r is Ok <==> s@.len() == N,
            r matches Ok(f) ==> f.table() == s@,
            s@.len() > N ==> (r matches Err(e) && e.kind == (ErrorKind::CharSetLength {
                expected: N,
                got: N,
            }) && e.message@ == "String too long for CharSet, expected "@ + decimal_text(N as nat)
                + " but got "@ + decimal_text(N as nat)),
            s@.len() < N ==> (r matches Err(e) && e.kind == (ErrorKind::CharSetLength {
                expected: N,
                got: s@.len() as usize,
            }) && e.message@ == "String length does not match CharSet size, expected "@
                + decimal_text(N as nat) + " but got "@ + decimal_text(s@.len())),
    {
        Self::from_chars(s)
    }
}

/// The ten decimal digits.
pub fn digits() -> (r: CharSetFilter<10>)
    ensures
        r.table() == seq!['0', '1', '2', '3', '4', '5', '6', '7', '8', '9'],
        ascending(r.table()),
{
    let r = CharSetFilter::new(['0', '1', '2', '3', '4', '5', '6', '7', '8', '9']);
    assert(r.table() =~= seq!['0', '1', '2', '3', '4', '5', '6', '7', '8', '9']);
    proof {
        lemma_ascending_steps(r.table());
    }
    r
}

/// The ASCII letters, upper case then lower case.
pub fn ascii_letters() -> (r: CharSetFilter<52>)
    ensures
        r.table() == seq![
        'A', 'B', 'C', 'D', 'E', 'F', 'G', 'H', 'I', 'J', 'K', 'L', 'M', 'N', 'O', 'P', 'Q', 'R',
        'S', 'T', 'U', 'V', 'W', 'X', 'Y', 'Z', 'a', 'b', 'c', 'd', 'e', 'f', 'g', 'h', 'i', 'j',
        'k', 'l', 'm', 'n', 'o', 'p', 'q', 'r', 's', 't', 'u', 'v', 'w', 'x', 'y', 'z'
        ],
        ascending(r.table()),
{
    let r = CharSetFilter::new(
        [
        'A', 'B', 'C', 'D', 'E', 'F', 'G', 'H', 'I', 'J', 'K', 'L', 'M', 'N', 'O', 'P', 'Q', 'R',
        'S', 'T', 'U', 'V', 'W', 'X', 'Y', 'Z', 'a', 'b', 'c', 'd', 'e', 'f', 'g', 'h', 'i', 'j',
        'k', 'l', 'm', 'n', 'o', 'p', 'q', 'r', 's', 't', 'u', 'v', 'w', 'x', 'y', 'z'
        ],
    );
    assert(r.table() =~= seq![
        'A', 'B', 'C', 'D', 'E', 'F', 'G', 'H', 'I', 'J', 'K', 'L', 'M', 'N', 'O', 'P', 'Q', 'R',
        'S', 'T', 'U', 'V', 'W', 'X', 'Y', 'Z', 'a', 'b', 'c', 'd', 'e', 'f', 'g', 'h', 'i', 'j',
        'k', 'l', 'm', 'n', 'o', 'p', 'q', 'r', 's', 't', 'u', 'v', 'w', 'x', 'y', 'z'
    ]);
    proof {
        lemma_ascending_steps(r.table());
    }
    r
}

/// The decimal digits and the ASCII letters, upper case then lower case.
pub fn ascii_letters_digits() -> (r: CharSetFilter<62>)
    ensures
        r.table() == seq![
        '0', '1', '2', '3', '4', '5', '6', '7', '8', '9', 'A', 'B', 'C', 'D', 'E', 'F', 'G', 'H',
        'I', 'J', 'K', 'L', 'M', 'N', 'O', 'P', 'Q', 'R', 'S', 'T', 'U', 'V', 'W', 'X', 'Y', 'Z',
        'a', 'b', 'c', 'd', 'e', 'f', 'g', 'h', 'i', 'j', 'k', 'l', 'm', 'n', 'o', 'p', 'q', 'r',
        's', 't', 'u', 'v', 'w', 'x', 'y', 'z'
        ],
        ascending(r.table()),
{
    let r = CharSetFilter::new(
        [
        '0', '1', '2', '3', '4', '5', '6', '7', '8', '9', 'A', 'B', 'C', 'D', 'E', 'F', 'G', 'H',
        'I', 'J', 'K', 'L', 'M', 'N', 'O', 'P', 'Q', 'R', 'S', 'T', 'U', 'V', 'W', 'X', 'Y', 'Z',
        'a', 'b', 'c', 'd', 'e', 'f', 'g', 'h', 'i', 'j', 'k', 'l', 'm', 'n', 'o', 'p', 'q', 'r',
        's', 't', 'u', 'v', 'w', 'x', 'y', 'z'
        ],
    );
    assert(r.table() =~= seq![
        '0', '1', '2', '3', '4', '5', '6', '7', '8', '9', 'A', 'B', 'C', 'D', 'E', 'F', 'G', 'H',
        'I', 'J', 'K', 'L', 'M', 'N', 'O', 'P', 'Q', 'R', 'S', 'T', 'U', 'V', 'W', 'X', 'Y', 'Z',
        'a', 'b', 'c', 'd', 'e', 'f', 'g', 'h', 'i', 'j', 'k', 'l', 'm', 'n', 'o', 'p', 'q', 'r',
        's', 't', 'u', 'v', 'w', 'x', 'y', 'z'
    ]);
    proof {
        lemma_ascending_steps(r.table());
    }
    r
}

} // verus!
