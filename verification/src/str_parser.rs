//! A cursor over a string, moved forward by rules that each read a piece
//! of what is left.
use vstd::prelude::*;
use vstd::string::StringSliceAdditionalSpecFns;

use crate::error::{ErrorKind, ParseError};
use crate::number::FromField;
use crate::text::{
    at_boundary, find2_from, find_byte2_from, find_byte_from, find_from, is_ascii_byte,
    lemma_find2_from, lemma_find_from, lemma_str_valid, sbytes, string_bytes, substr, suffix,
};

verus! {

/// A rule that reads a piece from the front of a string and says where the
/// rest begins.
pub trait StrFlowRule<'a> {
    type Output;

    /// The rule's parameters are ones it is defined for.
    spec fn spec_wf(&self) -> bool;

    /// Whether the rule yields a value on `input`.
    spec fn spec_matches(&self, input: Seq<u8>) -> bool;

    /// How many bytes of `input` the rule consumes.
    spec fn spec_consumed(&self, input: Seq<u8>) -> int;

    /// `out` is the value the rule yields on `input`.
    spec fn spec_output(&self, input: Seq<u8>, out: Self::Output) -> bool;

    /// Applies the rule: its value, if any, and the rest of `input`.
    fn apply(&self, input: &'a str) -> (r: (Option<Self::Output>, &'a str))
        requires
            self.spec_wf(),
        ensures
            0 <= self.spec_consumed(sbytes(input)) <= sbytes(input).len(),
            at_boundary(sbytes(input), self.spec_consumed(sbytes(input))),
            sbytes(r.1) == sbytes(input).skip(self.spec_consumed(sbytes(input))),
            r.0 is Some <==> self.spec_matches(sbytes(input)),
            r.0 matches Some(o) ==> self.spec_output(sbytes(input), o),
    ;
}

/// A rule that reads a whole string.
pub trait StrGlobalRule<'a> {
    type Output;

    /// `out` is what the rule gives on `input`.
    spec fn spec_output(&self, input: Seq<u8>, out: Self::Output) -> bool;

    fn apply(&self, input: &'a str) -> (r: Self::Output)
        ensures
            self.spec_output(sbytes(input), r),
    ;
}

/// A string and how far into it parsing has got.
pub struct StrParserContext {
    full: String,
    pos: usize,
}

impl StrParserContext {
    /// The bytes of the whole string.
    pub closed spec fn full_bytes(&self) -> Seq<u8> {
        string_bytes(self.full)
    }

    /// Where the part not yet read begins.
    pub closed spec fn pos(&self) -> int {
        self.pos as int
    }

    /// The part not yet read.
    pub open spec fn rest(&self) -> Seq<u8> {
        self.full_bytes().skip(self.pos())
    }

    /// A step of parsing from `a` to `b`: the string stays the same, and the
    /// cursor moves forward or stays, never past the string's end.
    pub open spec fn parse_step(a: Self, b: Self) -> bool {
        &&& b.full_bytes() == a.full_bytes()
        &&& 0 <= a.pos() <= b.pos() <= a.full_bytes().len()
    }

    /// Steps of parsing compose: over any run of them the string stays the
    /// same and the cursor never moves back nor past the string's end.
    pub proof fn law_parse_steps(a: Self, b: Self, c: Self)
        requires
            Self::parse_step(a, b),
            Self::parse_step(b, c),
        ensures
            Self::parse_step(a, c),
    {
    }

    /// Over any run of parsing steps, the string stays the one the run began
    /// with, and the cursor never moves back nor past the string's end.
    pub proof fn law_parse_run(run: Seq<Self>)
        requires
            forall|i: int| 0 <= i < run.len() - 1 ==> Self::parse_step(#[trigger] run[i], run[i + 1]),
        ensures
            forall|i: int, j: int|
                0 <= i < j < run.len() ==> Self::parse_step(#[trigger] run[i], #[trigger] run[j]),
        decreases run.len(),
    {
        if run.len() > 1 {
            let front = run.drop_last();
            assert forall|i: int| 0 <= i < front.len() - 1 implies Self::parse_step(
                #[trigger] front[i],
                front[i + 1],
            ) by {
                assert(front[i] == run[i] && front[i + 1] == run[i + 1]);
            }
            Self::law_parse_run(front);
            let n = run.len() - 1;
            assert forall|i: int, j: int| 0 <= i < j < run.len() implies Self::parse_step(
                #[trigger] run[i],
                #[trigger] run[j],
            ) by {
                if j < n {
                    assert(front[i] == run[i] && front[j] == run[j]);
                } else if i < n - 1 {
                    assert(front[i] == run[i] && front[n - 1] == run[n - 1]);
                    assert(Self::parse_step(run[i], run[n - 1]));
                    assert(Self::parse_step(run[n - 1], run[n]));
                }
            }
        }
    }

    #[verifier::type_invariant]
    closed spec fn inv(&self) -> bool {
        &&& string_bytes(self.full).len() <= usize::MAX
        &&& self.pos <= string_bytes(self.full).len()
        &&& at_boundary(string_bytes(self.full), self.pos as int)
    }

    /// An empty context.
    pub fn new() -> (r: Self)
        ensures
            r.full_bytes() == Seq::<u8>::empty(),
            r.pos() == 0,
    {
        StrParserContext { full: String::new(), pos: 0 }
    }

    /// Starts parsing `input` from its beginning.
    pub fn init(&mut self, input: String) -> (r: &mut Self)
        ensures
            r.full_bytes() == string_bytes(input),
            r.pos() == 0,
            *final(self) == *final(r),
    {
        let n = input.as_str().as_bytes().len();
        assert(n == string_bytes(input).len());
        *self = StrParserContext { full: input, pos: 0 };
        self
    }

    /// The whole string.
    pub fn full_str(&self) -> (r: &str)
        ensures
            sbytes(r) == self.full_bytes(),
    {
        self.full.as_str()
    }

    /// The part not yet read.
    pub fn rest_str(&self) -> (r: &str)
        ensures
            sbytes(r) == self.rest(),
    {
        proof {
            use_type_invariant(self);
        }
        suffix(self.full.as_str(), self.pos)
    }

    /// Applies `rule` to the part not yet read and moves past what it consumed.
    pub fn take<'s, R: StrFlowRule<'s>>(&'s mut self, rule: &R) -> (o: Option<R::Output>)
        requires
            rule.spec_wf(),
        ensures
            0 <= old(self).pos() <= old(self).full_bytes().len(),
            0 <= rule.spec_consumed(old(self).rest()) <= old(self).rest().len(),
            final(self).full_bytes() == old(self).full_bytes(),
            final(self).pos() == old(self).pos() + rule.spec_consumed(old(self).rest()),
            Self::parse_step(*old(self), *final(self)),
            o is Some <==> rule.spec_matches(old(self).rest()),
            o matches Some(v) ==> rule.spec_output(old(self).rest(), v),
    {
        proof {
            use_type_invariant(&*self);
        }
        let rest: &'s str = suffix(self.full.as_str(), self.pos);
        let (o, r) = rule.apply(rest);
        proof {
            let c = rule.spec_consumed(sbytes(rest));
            assert(0 <= c <= sbytes(rest).len());
            assert(sbytes(r).len() == sbytes(rest).len() - c);
            assert(self.pos + sbytes(rest).len() == string_bytes(self.full).len());
            let fb = string_bytes(self.full);
            if c != 0 && c != sbytes(rest).len() {
                assert(sbytes(rest)[c] == fb[self.pos + c]);
            }
        }
        let rl = rest.as_bytes().len();
        let ql = r.as_bytes().len();
        self.pos = self.pos + (rl - ql);
        o
    }

    /// Like [`Self::take`], but fails when the rule yields nothing.
    pub fn take_strict<'s, R: StrFlowRule<'s>>(&'s mut self, rule: &R) -> (o: Result<
        R::Output,
        ParseError,
    >)
        requires
            rule.spec_wf(),
        ensures
            0 <= rule.spec_consumed(old(self).rest()) <= old(self).rest().len(),
            final(self).full_bytes() == old(self).full_bytes(),
            final(self).pos() == old(self).pos() + rule.spec_consumed(old(self).rest()),
            Self::parse_step(*old(self), *final(self)),
            o is Ok <==> rule.spec_matches(old(self).rest()),
            o matches Ok(v) ==> rule.spec_output(old(self).rest(), v),
            o matches Err(e) ==> e.kind == ErrorKind::TakeFailed && e.message@ == "take fail"@,
    {
        match self.take(rule) {
            Some(s) => Ok(s),
            None => Err(ParseError::take_failed()),
        }
    }

    /// Applies `rule` and moves past what it consumed, dropping its value.
    pub fn skip<R>(&mut self, rule: &R) -> (r: &mut Self) where R: for <'x>StrFlowRule<'x>
        requires
            rule.spec_wf(),
        ensures
            0 <= rule.spec_consumed(old(self).rest()) <= old(self).rest().len(),
            r.full_bytes() == old(self).full_bytes(),
            r.pos() == old(self).pos() + rule.spec_consumed(old(self).rest()),
            Self::parse_step(*old(self), *r),
            *final(self) == *final(r),
    {
        self.advance(rule);
        self
    }

    fn advance<R>(&mut self, rule: &R) -> (matched: bool) where R: for <'x>StrFlowRule<'x>
        requires
            rule.spec_wf(),
        ensures
            0 <= old(self).pos() <= old(self).full_bytes().len(),
            0 <= rule.spec_consumed(old(self).rest()) <= old(self).rest().len(),
            final(self).full_bytes() == old(self).full_bytes(),
            final(self).pos() == old(self).pos() + rule.spec_consumed(old(self).rest()),
            matched == rule.spec_matches(old(self).rest()),
    {
        proof {
            use_type_invariant(&*self);
        }
        let consumed: usize;
        let matched: bool;
        {
            let rest: &str = suffix(self.full.as_str(), self.pos);
            let (o, r) = rule.apply(rest);
            proof {
                let c = rule.spec_consumed(sbytes(rest));
                assert(self.pos + sbytes(rest).len() == string_bytes(self.full).len());
                let fb = string_bytes(self.full);
                if c != 0 && c != sbytes(rest).len() {
                    assert(sbytes(rest)[c] == fb[self.pos + c]);
                }
            }
            consumed = rest.as_bytes().len() - r.as_bytes().len();
            matched = o.is_some();
        }
        self.pos = self.pos + consumed;
        matched
    }

    /// Like [`Self::skip`], but fails when the rule yields nothing; the
    /// cursor moves past what the rule consumed either way.
    pub fn skip_strict<R>(&mut self, rule: &R) -> (r: Result<&mut Self, ParseError>) where
        R: for <'x>StrFlowRule<'x>,

        requires
            rule.spec_wf(),
        ensures
            0 <= old(self).pos() <= old(self).full_bytes().len(),
            0 <= rule.spec_consumed(old(self).rest()) <= old(self).rest().len(),
            r is Ok <==> rule.spec_matches(old(self).rest()),
            r matches Ok(c) ==> c.full_bytes() == old(self).full_bytes() && c.pos() == old(
                self,
            ).pos() + rule.spec_consumed(old(self).rest()) && Self::parse_step(*old(self), *c)
                && *final(self) == *final(c),
            r is Err ==> final(self).full_bytes() == old(self).full_bytes() && final(self).pos()
                == old(self).pos() + rule.spec_consumed(old(self).rest()) && Self::parse_step(
                *old(self),
                *final(self),
            ),
            r matches Err(e) ==> e.kind == ErrorKind::TakeFailed && e.message@ == "take fail"@,
    {
        if self.advance(rule) {
            Ok(self)
        } else {
            Err(ParseError::take_failed())
        }
    }

    /// Applies a rule to the whole string.
    pub fn global<'s, R: StrGlobalRule<'s>>(&'s self, rule: &R) -> (o: R::Output)
        ensures
            rule.spec_output(self.full_bytes(), o),
    {
        rule.apply(self.full.as_str())
    }
}

impl Default for StrParserContext {
    fn default() -> (r: Self)
        ensures
            r.full_bytes() == Seq::<u8>::empty(),
            r.pos() == 0,
    {
        Self::new()
    }
}

/// Reads everything up to the first occurrence of a byte, which stays in the
/// rest. Yields nothing, and consumes nothing, when the byte does not occur.
pub struct Until(pub u8);

impl<'a> StrFlowRule<'a> for Until {
    type Output = &'a str;

    open spec fn spec_wf(&self) -> bool {
        is_ascii_byte(self.0)
    }

    open spec fn spec_matches(&self, input: Seq<u8>) -> bool {
        find_from(input, self.0, 0) is Some
    }

    open spec fn spec_consumed(&self, input: Seq<u8>) -> int {
        match find_from(input, self.0, 0) {
            Some(i) => i,
            None => 0,
        }
    }

    open spec fn spec_output(&self, input: Seq<u8>, out: &'a str) -> bool {
        sbytes(out) == input.take(self.spec_consumed(input))
    }

    fn apply(&self, input: &'a str) -> (r: (Option<&'a str>, &'a str)) {
        let b = input.as_bytes();
        proof {
            lemma_find_from(sbytes(input), self.0, 0);
        }
        match find_byte_from(b, self.0, 0) {
            Some(i) => (Some(substr(input, 0, i)), suffix(input, i)),
            None => {
                assert(sbytes(input).skip(0) =~= sbytes(input));
                (None, input)
            },
        }
    }
}

/// What `Until(d)` reads, followed by what it leaves, is its input. When it
/// reads, what it read holds no `d` and what it leaves starts with `d`; when
/// it does not, the input holds no `d` and nothing is consumed.
pub proof fn law_until_splits(d: u8, input: Seq<u8>)
    ensures
        0 <= Until(d).spec_consumed(input) <= input.len(),
        input.take(Until(d).spec_consumed(input)) + input.skip(Until(d).spec_consumed(input))
            == input,
        Until(d).spec_matches(input) ==> Until(d).spec_consumed(input) < input.len() && input[Until(
            d,
        ).spec_consumed(input)] == d && !input.take(Until(d).spec_consumed(input)).contains(d),
        !Until(d).spec_matches(input) ==> Until(d).spec_consumed(input) == 0 && !input.contains(d),
{
    lemma_find_from(input, d, 0);
    let c = Until(d).spec_consumed(input);
    assert(input.take(c) + input.skip(c) =~= input);
    if Until(d).spec_matches(input) {
        assert forall|j: int| 0 <= j < c implies input.take(c)[j] != d by {
            assert(input.take(c)[j] == input[j]);
        }
    }
}

/// Reads everything up to the first occurrence of either of two bytes, which
/// stays in the rest. Yields nothing, and consumes nothing, when neither occurs.
pub struct UntilEither(pub u8, pub u8);

impl<'a> StrFlowRule<'a> for UntilEither {
    type Output = &'a str;

    open spec fn spec_wf(&self) -> bool {
        is_ascii_byte(self.0) && is_ascii_byte(self.1)
    }

    open spec fn spec_matches(&self, input: Seq<u8>) -> bool {
        find2_from(input, self.0, self.1, 0) is Some
    }

    open spec fn spec_consumed(&self, input: Seq<u8>) -> int {
        match find2_from(input, self.0, self.1, 0) {
            Some(i) => i,
            None => 0,
        }
    }

    open spec fn spec_output(&self, input: Seq<u8>, out: &'a str) -> bool {
        sbytes(out) == input.take(self.spec_consumed(input))
    }

    fn apply(&self, input: &'a str) -> (r: (Option<&'a str>, &'a str)) {
        let b = input.as_bytes();
        proof {
            lemma_find2_from(sbytes(input), self.0, self.1, 0);
        }
        match find_byte2_from(b, self.0, self.1, 0) {
            Some(i) => (Some(substr(input, 0, i)), suffix(input, i)),
            None => {
                assert(sbytes(input).skip(0) =~= sbytes(input));
                (None, input)
            },
        }
    }
}

/// Reads one given ASCII character at the front of the input.
pub struct Char(pub char);

impl<'a> StrFlowRule<'a> for Char {
    type Output = char;

    open spec fn spec_wf(&self) -> bool {
        (self.0 as u32) < 128
    }

    open spec fn spec_matches(&self, input: Seq<u8>) -> bool {
        input.len() > 0 && input[0] == self.0 as u8
    }

    open spec fn spec_consumed(&self, input: Seq<u8>) -> int {
        if self.spec_matches(input) {
            1
        } else {
            0
        }
    }

    open spec fn spec_output(&self, input: Seq<u8>, out: char) -> bool {
        out == self.0
    }

    fn apply(&self, input: &'a str) -> (r: (Option<char>, &'a str)) {
        let b = input.as_bytes();
        let c = self.0 as u8;
        if b.len() > 0 && b[0] == c {
            proof {
                lemma_str_valid(input);
                crate::text::lemma_ascii_first(sbytes(input));
            }
            (Some(self.0), suffix(input, 1))
        } else {
            assert(sbytes(input).skip(0) =~= sbytes(input));
            (None, input)
        }
    }
}

/// Reads a fixed number of bytes, when the input has that many and they end
/// at a character boundary; otherwise yields nothing and consumes nothing.
pub struct ByteCount(pub usize);

impl<'a> StrFlowRule<'a> for ByteCount {
    type Output = &'a str;

    open spec fn spec_wf(&self) -> bool {
        true
    }

    open spec fn spec_matches(&self, input: Seq<u8>) -> bool {
        self.0 <= input.len() && at_boundary(input, self.0 as int)
    }

    open spec fn spec_consumed(&self, input: Seq<u8>) -> int {
        if self.spec_matches(input) {
            self.0 as int
        } else {
            0
        }
    }

    open spec fn spec_output(&self, input: Seq<u8>, out: &'a str) -> bool {
        sbytes(out) == input.take(self.0 as int)
    }

    fn apply(&self, input: &'a str) -> (r: (Option<&'a str>, &'a str)) {
        let b = input.as_bytes();
        let n = self.0;
        if n <= b.len() && (n == 0 || n == b.len() || b[n] < 128 || b[n] >= 192) {
            (Some(substr(input, 0, n)), suffix(input, n))
        } else {
            assert(sbytes(input).skip(0) =~= sbytes(input));
            (None, input)
        }
    }
}

/// Reads an optional field's text into a value, as `str::parse` would.
pub trait ParseOptExt {
    spec fn spec_text(&self) -> Option<Seq<u8>>;

    fn parse_opt<T: FromField>(self) -> (r: Option<T>)
        ensures
            match self.spec_text() {
                Some(s) => T::field_rel(s, r),
                None => r is None,
            },
    ;
}

impl<'a> ParseOptExt for Option<&'a str> {
    open spec fn spec_text(&self) -> Option<Seq<u8>> {
        match self {
            Some(s) => Some(sbytes(s)),
            None => None,
        }
    }

    fn parse_opt<T: FromField>(self) -> (r: Option<T>) {
        match self {
            Some(s) => T::from_field(s),
            None => None,
        }
    }
}

/// Where the cursor stands after applying `rule` at `p` in `b`.
pub open spec fn end_of<'a, R: StrFlowRule<'a>>(rule: R, b: Seq<u8>, p: int) -> int {
    p + rule.spec_consumed(b.skip(p))
}

/// `o` is what applying `rule` at `p` in `b` yields.
pub open spec fn took<'a, R: StrFlowRule<'a>>(rule: R, b: Seq<u8>, p: int, o: Option<R::Output>) -> bool {
    &&& (o is Some <==> rule.spec_matches(b.skip(p)))
    &&& (o matches Some(v) ==> rule.spec_output(b.skip(p), v))
}

/// The text that `Until(d)` yields at `p` in `b`, if any.
pub open spec fn field_text(d: u8, b: Seq<u8>, p: int) -> Option<Seq<u8>> {
    let rest = b.skip(p);
    if Until(d).spec_matches(rest) {
        Some(rest.take(Until(d).spec_consumed(rest)))
    } else {
        None
    }
}

/// `o` is what reading the text that `Until(d)` yields at `p` gives.
pub open spec fn took_parsed<T: FromField>(d: u8, b: Seq<u8>, p: int, o: Option<T>) -> bool {
    match field_text(d, b, p) {
        Some(t) => T::field_rel(t, o),
        None => o is None,
    }
}

/// The text that `UntilEither(d1, d2)` yields at `p` in `b`, if any.
pub open spec fn field_text2(d1: u8, d2: u8, b: Seq<u8>, p: int) -> Option<Seq<u8>> {
    let rest = b.skip(p);
    if UntilEither(d1, d2).spec_matches(rest) {
        Some(rest.take(UntilEither(d1, d2).spec_consumed(rest)))
    } else {
        None
    }
}

/// `o` is what reading the text that `UntilEither(d1, d2)` yields at `p` gives.
pub open spec fn took_parsed2<T: FromField>(d1: u8, d2: u8, b: Seq<u8>, p: int, o: Option<T>) -> bool {
    match field_text2(d1, d2, b, p) {
        Some(t) => T::field_rel(t, o),
        None => o is None,
    }
}

/// Where a strict `Char(c)` at `p` leaves the cursor, when the byte there is `c`.
pub open spec fn char_at(c: char, b: Seq<u8>, p: int) -> Option<int> {
    if Char(c).spec_matches(b.skip(p)) {
        Some(p + 1)
    } else {
        None
    }
}

/// Where a strict `Until(d)` at `p` leaves the cursor: at the next `d`.
pub open spec fn until_at(d: u8, b: Seq<u8>, p: int) -> Option<int> {
    if Until(d).spec_matches(b.skip(p)) {
        Some(end_of(Until(d), b, p))
    } else {
        None
    }
}

/// Where a strict `Until(d)` leaves a cursor that is at `o`; `None` once a step has failed.
pub open spec fn after_until(d: u8, b: Seq<u8>, o: Option<int>) -> Option<int> {
    match o {
        Some(p) => until_at(d, b, p),
        None => None,
    }
}

/// Where a strict `Char(c)` leaves a cursor that is at `o`; `None` once a step has failed.
pub open spec fn after_char(c: char, b: Seq<u8>, o: Option<int>) -> Option<int> {
    match o {
        Some(p) => char_at(c, b, p),
        None => None,
    }
}

/// Where a lenient step of `rule` leaves a cursor that is at `o`; `None` once a step has failed.
pub open spec fn after_rule<'a, R: StrFlowRule<'a>>(rule: R, b: Seq<u8>, o: Option<int>) -> Option<int> {
    match o {
        Some(p) => Some(end_of(rule, b, p)),
        None => None,
    }
}

/// `r` is an error of kind `k`.
pub open spec fn fails_with<T>(r: Result<T, ParseError>, k: ErrorKind) -> bool {
    r matches Err(e) && e.kind == k && e.message@ == crate::error::message_for(k)
}

} // verus!
