//! GSV: the satellites in view, four to a line.
use vstd::prelude::*;

use crate::data::Talker;
use crate::error::{ErrorKind, ParseError};
use crate::number::int_from_str;
use crate::text::lemma_find_from;
use crate::rules::{lines_check, validate_lines, COMMA, STAR};
use crate::str_parser::{
    after_char, after_rule, after_until, end_of, fails_with, field_text, Char, ParseOptExt,
    StrParserContext, Until,
};

verus! {

/// One satellite in view.
#[derive(Debug, Clone, Copy)]
pub struct Satellite {
    /// Satellite ID, typically a number from 1 to 32.
    pub id: Option<u16>,
    /// Elevation in degrees.
    pub elevation_degrees: Option<u8>,
    /// Azimuth in degrees.
    pub azimuth_degree: Option<u16>,
    /// Signal-to-noise ratio.
    pub snr: Option<u8>,
}

/// GSV: the satellites in view.
#[derive(Debug, Clone)]
pub struct Gsv {
    pub talker: Talker,
    /// Satellite data
    pub satellites: Vec<Satellite>,
}

/// The number from 0 to `max` that the field ending at `d` at `p` holds.
pub open spec fn number_field(d: u8, b: Seq<u8>, p: int, max: int) -> Option<int> {
    match field_text(d, b, p) {
        Some(t) => int_from_str(t, false, 0, max),
        None => None,
    }
}

/// The `u8` that the field ending at `d` at `p` holds.
pub open spec fn u8_field(d: u8, b: Seq<u8>, p: int) -> Option<u8> {
    match number_field(d, b, p, 255) {
        Some(v) => Some(v as u8),
        None => None,
    }
}

/// The `u16` that the field ending at `d` at `p` holds.
pub open spec fn u16_field(d: u8, b: Seq<u8>, p: int) -> Option<u16> {
    match number_field(d, b, p, 65535) {
        Some(v) => Some(v as u16),
        None => None,
    }
}

/// A run of values read from `acc` on: the run `r` with `acc` put before
/// its values.
pub open spec fn after<T>(acc: Seq<T>, r: Option<(int, Seq<T>)>) -> Option<(int, Seq<T>)> {
    match r {
        None => None,
        Some(x) => Some((x.0, acc + x.1)),
    }
}

impl Gsv {
    /// Reading one satellite from `p`: four fields, each after a `,`; the
    /// last ends at `*` when `last` holds, else at `,`. Gives where the cursor
    /// ends and the satellite, or `None` when a `,` is missing.
    pub open spec fn satellite_at(b: Seq<u8>, p: int, last: bool) -> Option<(int, Satellite)> {
        let q1 = after_char(',', b, Some(p));
        let q2 = after_char(',', b, after_rule(Until(COMMA), b, q1));
        let q3 = after_char(',', b, after_rule(Until(COMMA), b, q2));
        let q4 = after_char(',', b, after_rule(Until(COMMA), b, q3));
        let d = if last {
            STAR
        } else {
            COMMA
        };
        match q4 {
            None => None,
            Some(p4) => Some(
                (
                    end_of(Until(d), b, p4),
                    Satellite {
                        id: u16_field(COMMA, b, q1.unwrap()),
                        elevation_degrees: u8_field(COMMA, b, q2.unwrap()),
                        azimuth_degree: u16_field(COMMA, b, q3.unwrap()),
                        snr: u8_field(d, b, p4),
                    },
                ),
            ),
        }
    }

    /// Reading `k` satellites from `p`, none of them the last of its line.
    pub open spec fn satellites_at(b: Seq<u8>, p: int, k: nat) -> Option<(int, Seq<Satellite>)>
        decreases k,
    {
        if k == 0 {
            Some((p, Seq::empty()))
        } else {
            match Self::satellite_at(b, p, false) {
                None => None,
                Some(first) => after(
                    seq![first.1],
                    Self::satellites_at(b, first.0, (k - 1) as nat),
                ),
            }
        }
    }

    /// Reading a line's last `k` satellites from `p`: the last one ends at `*`.
    pub open spec fn line_end_at(b: Seq<u8>, p: int, k: nat) -> Option<(int, Seq<Satellite>)> {
        if k == 0 {
            Some((p, Seq::empty()))
        } else {
            match Self::satellites_at(b, p, (k - 1) as nat) {
                None => None,
                Some(run) => match Self::satellite_at(b, run.0, true) {
                    None => None,
                    Some(lastsat) => Some((lastsat.0, run.1.push(lastsat.1))),
                },
            }
        }
    }

    /// Reading a full line's four satellites from `p`, then passing over the
    /// next line's first three fields.
    pub open spec fn full_line_at(b: Seq<u8>, p: int) -> Option<(int, Seq<Satellite>)> {
        match Self::line_end_at(b, p, 4) {
            None => None,
            Some(line) => {
                let q1 = end_of(Char(','), b, end_of(Until(COMMA), b, line.0));
                let q2 = end_of(Char(','), b, end_of(Until(COMMA), b, q1));
                let q3 = end_of(Char(','), b, end_of(Until(COMMA), b, q2));
                Some((end_of(Until(COMMA), b, q3), line.1))
            },
        }
    }

    /// Reading `m` full lines from `p`.
    pub open spec fn full_lines_at(b: Seq<u8>, p: int, m: nat) -> Option<(int, Seq<Satellite>)>
        decreases m,
    {
        if m == 0 {
            Some((p, Seq::empty()))
        } else {
            match Self::full_line_at(b, p) {
                None => None,
                Some(line) => after(line.1, Self::full_lines_at(b, line.0, (m - 1) as nat)),
            }
        }
    }

    /// Where the field with the number of satellites begins, when the
    /// separators before it are there.
    pub open spec fn count_field_at(b: Seq<u8>, p: int) -> Option<int> {
        let q1 = after_until(COMMA, b, Some(p));
        let q2 = after_char(',', b, q1);
        let q3 = after_until(COMMA, b, q2);
        let q4 = after_char(',', b, q3);
        let q5 = after_until(COMMA, b, q4);
        after_char(',', b, q5)
    }

    /// The text `b` can be read from `p`: when its lines are sentences and
    /// the field with the number of satellites is reached, that field holds
    /// a number.
    pub open spec fn readable(b: Seq<u8>, p: int) -> bool {
        lines_check(b, 0) is Ok ==> (Self::count_field_at(b, p) matches Some(q) ==> number_field(
            COMMA,
            b,
            q,
            usize::MAX as int,
        ) is Some)
    }

    /// How many satellites the last line holds, by the number of satellites:
    /// what is left over after fours, or four when nothing is.
    pub open spec fn last_line_count(count: int) -> int {
        if count % 4 == 0 && count != 0 {
            4
        } else {
            count % 4
        }
    }

    /// What parsing the text `b` from `p` gives: each line is checked as a
    /// sentence; the number of satellites is read from the first line; then
    /// four satellites are read from each line but the last, and from the last
    /// line as many as the number of satellites leaves over after fours (all
    /// four when the number is a nonzero multiple of four).
    pub open spec fn spec_new(b: Seq<u8>, p: int, talker: Talker, r: Result<Gsv, ParseError>) -> bool {
        match lines_check(b, 0) {
            Err(k) => fails_with(r, k),
            Ok(n) => match Self::count_field_at(b, p) {
                None => fails_with(r, ErrorKind::TakeFailed),
                Some(q) => {
                    let count = number_field(COMMA, b, q, usize::MAX as int).unwrap();
                    let q1 = end_of(Until(COMMA), b, q);
                    match Self::full_lines_at(b, q1, (n - 1) as nat) {
                        None => fails_with(r, ErrorKind::TakeFailed),
                        Some(lines) => match Self::line_end_at(
                            b,
                            lines.0,
                            Self::last_line_count(count) as nat,
                        ) {
                            None => fails_with(r, ErrorKind::TakeFailed),
                            Some(last) => r matches Ok(d) && d.talker == talker && d.satellites@
                                == lines.1 + last.1,
                        },
                    }
                },
            },
        }
    }

    /// A run of `k` satellites holds `k` satellites.
    pub proof fn lemma_satellites_len(b: Seq<u8>, p: int, k: nat)
        ensures
            Self::satellites_at(b, p, k) matches Some(x) ==> x.1.len() == k,
        decreases k,
    {
        if k > 0 {
            if let Some(first) = Self::satellite_at(b, p, false) {
                Self::lemma_satellites_len(b, first.0, (k - 1) as nat);
            }
        }
    }

    /// `m` full lines hold four satellites each.
    pub proof fn lemma_full_lines_len(b: Seq<u8>, p: int, m: nat)
        ensures
            Self::full_lines_at(b, p, m) matches Some(x) ==> x.1.len() == 4 * m,
        decreases m,
    {
        if m > 0 {
            Self::lemma_satellites_len(b, p, 3);
            if let Some(line) = Self::full_line_at(b, p) {
                Self::lemma_full_lines_len(b, line.0, (m - 1) as nat);
            }
        }
    }

    /// A GSV text that parses gives four satellites for each line but the
    /// last, and for the last line the number of satellites left over after
    /// fours (four when the number is a nonzero multiple of four). So when the
    /// number of satellites fits the number of lines, every satellite of every
    /// line is read.
    pub proof fn law_satellite_count(b: Seq<u8>, p: int, talker: Talker, d: Gsv)
        requires
            0 <= p <= b.len(),
            Self::spec_new(b, p, talker, Ok(d)),
        ensures
            lines_check(b, 0) is Ok,
            Self::count_field_at(b, p) is Some,
            ({
                let n = lines_check(b, 0)->Ok_0;
                let q = Self::count_field_at(b, p)->Some_0;
                let count = number_field(COMMA, b, q, usize::MAX as int).unwrap();
                &&& d.satellites@.len() == 4 * (n - 1) + Self::last_line_count(count)
                &&& 4 * (n - 1) < count <= 4 * n ==> d.satellites@.len() == count
            }),
    {
        let n = lines_check(b, 0)->Ok_0;
        let q = Self::count_field_at(b, p)->Some_0;
        let count = number_field(COMMA, b, q, usize::MAX as int).unwrap();
        let q1 = end_of(Until(COMMA), b, q);
        Self::lemma_full_lines_len(b, q1, (n - 1) as nat);
        let lines = Self::full_lines_at(b, q1, (n - 1) as nat)->Some_0;
        let k = Self::last_line_count(count);
        assert(0 <= k <= 4);
        Self::lemma_satellites_len(b, lines.0, (k - 1) as nat);
        assert(n >= 1) by {
            lemma_find_from(b.skip(p), COMMA, 0);
        }
    }

    /// Reads one satellite; the last of a line when `last` holds.
    fn parse_satellite(ctx: &mut StrParserContext, last: bool) -> (r: Result<Satellite, ParseError>)
        ensures
            final(ctx).full_bytes() == old(ctx).full_bytes(),
            match Self::satellite_at(old(ctx).full_bytes(), old(ctx).pos(), last) {
                None => fails_with(r, ErrorKind::TakeFailed),
                Some(res) => r == Ok::<Satellite, ParseError>(res.1) && final(ctx).pos() == res.0,
            },
    {
        ctx.skip_strict(&Char(','))?;
        let id = ctx.take(&Until(COMMA)).parse_opt();
        ctx.skip_strict(&Char(','))?;
        let elevation_degrees = ctx.take(&Until(COMMA)).parse_opt();
        ctx.skip_strict(&Char(','))?;
        let azimuth_degree = ctx.take(&Until(COMMA)).parse_opt();
        ctx.skip_strict(&Char(','))?;
        let snr = if last {
            ctx.take(&Until(STAR)).parse_opt()
        } else {
            ctx.take(&Until(COMMA)).parse_opt()
        };
        Ok(Satellite { id, elevation_degrees, azimuth_degree, snr })
    }

    /// Reads `k` satellites, none of them the last of its line, onto `out`.
    fn parse_satellites(ctx: &mut StrParserContext, k: usize, out: &mut Vec<Satellite>) -> (r:
        Result<(), ParseError>)
        ensures
            final(ctx).full_bytes() == old(ctx).full_bytes(),
            match Self::satellites_at(old(ctx).full_bytes(), old(ctx).pos(), k as nat) {
                None => fails_with(r, ErrorKind::TakeFailed),
                Some(res) => r is Ok && final(out)@ == old(out)@ + res.1 && final(ctx).pos()
                    == res.0,
            },
    {
        let ghost b = ctx.full_bytes();
        let ghost p0 = ctx.pos();
        let ghost o0 = out@;
        let mut i: usize = 0;
        while i < k
            invariant
                i <= k,
                ctx.full_bytes() == b,
                b == old(ctx).full_bytes(),
                p0 == old(ctx).pos(),
                o0 == old(out)@,
                out@.len() >= o0.len(),
                after(o0, Self::satellites_at(b, p0, k as nat)) == after(
                    out@,
                    Self::satellites_at(b, ctx.pos(), (k - i) as nat),
                ),
            decreases k - i,
        {
            let ghost before = out@;
            let s = Self::parse_satellite(ctx, false)?;
            out.push(s);
            proof {
                match Self::satellites_at(b, ctx.pos(), (k - i - 1) as nat) {
                    None => {},
                    Some(rest) => {
                        assert(before + (seq![s] + rest.1) =~= out@ + rest.1);
                    },
                }
            }
            i = i + 1;
        }
        proof {
            match Self::satellites_at(b, p0, k as nat) {
                None => {},
                Some(res) => {
                    assert(out@ + Seq::<Satellite>::empty() =~= out@);
                },
            }
        }
        Ok(())
    }

    /// Reads a line's last `k` satellites onto `out`.
    fn parse_line_end(ctx: &mut StrParserContext, k: usize, out: &mut Vec<Satellite>) -> (r: Result<
        (),
        ParseError,
    >)
        ensures
            final(ctx).full_bytes() == old(ctx).full_bytes(),
            match Self::line_end_at(old(ctx).full_bytes(), old(ctx).pos(), k as nat) {
                None => fails_with(r, ErrorKind::TakeFailed),
                Some(res) => r is Ok && final(out)@ == old(out)@ + res.1 && final(ctx).pos()
                    == res.0,
            },
    {
        if k == 0 {
            assert(out@ + Seq::<Satellite>::empty() =~= out@);
            return Ok(());
        }
        let ghost o0 = out@;
        Self::parse_satellites(ctx, k - 1, out)?;
        let ghost mid = out@;
        let s = Self::parse_satellite(ctx, true)?;
        out.push(s);
        proof {
            let run = Self::satellites_at(old(ctx).full_bytes(), old(ctx).pos(), (k - 1) as nat);
            assert(o0 + run.unwrap().1.push(s) =~= out@);
        }
        Ok(())
    }

    /// Reads `m` full lines onto `out`.
    fn parse_full_lines(ctx: &mut StrParserContext, m: usize, out: &mut Vec<Satellite>) -> (r:
        Result<(), ParseError>)
        ensures
            final(ctx).full_bytes() == old(ctx).full_bytes(),
            match Self::full_lines_at(old(ctx).full_bytes(), old(ctx).pos(), m as nat) {
                None => fails_with(r, ErrorKind::TakeFailed),
                Some(res) => r is Ok && final(out)@ == old(out)@ + res.1 && final(ctx).pos()
                    == res.0,
            },
    {
        let ghost b = ctx.full_bytes();
        let ghost p0 = ctx.pos();
        let ghost o0 = out@;
        let mut i: usize = 0;
        while i < m
            invariant
                i <= m,
                ctx.full_bytes() == b,
                b == old(ctx).full_bytes(),
                p0 == old(ctx).pos(),
                o0 == old(out)@,
                after(o0, Self::full_lines_at(b, p0, m as nat)) == after(
                    out@,
                    Self::full_lines_at(b, ctx.pos(), (m - i) as nat),
                ),
            decreases m - i,
        {
            let ghost before = out@;
            Self::parse_line_end(ctx, 4, out)?;
            let ghost line = out@.skip(before.len() as int);
            assert(out@ =~= before + line);
            ctx.skip(&Until(COMMA));
            ctx.skip(&Char(','));
            ctx.skip(&Until(COMMA));
            ctx.skip(&Char(','));
            ctx.skip(&Until(COMMA));
            ctx.skip(&Char(','));
            ctx.skip(&Until(COMMA));
            proof {
                match Self::full_lines_at(b, ctx.pos(), (m - i - 1) as nat) {
                    None => {},
                    Some(rest) => {
                        assert(before + (line + rest.1) =~= out@ + rest.1);
                    },
                }
            }
            i = i + 1;
        }
        proof {
            match Self::full_lines_at(b, p0, m as nat) {
                None => {},
                Some(res) => {
                    assert(out@ + Seq::<Satellite>::empty() =~= out@);
                },
            }
        }
        Ok(())
    }

    /// Parses a GSV sentence, which may span several lines.
    pub fn new(ctx: &mut StrParserContext, talker: Talker) -> (r: Result<Self, ParseError>)
        requires
            Self::readable(old(ctx).full_bytes(), old(ctx).pos()),
        ensures
            Self::spec_new(old(ctx).full_bytes(), old(ctx).pos(), talker, r),
            final(ctx).full_bytes() == old(ctx).full_bytes(),
            lines_check(old(ctx).full_bytes(), 0) is Err ==> final(ctx).pos() == old(ctx).pos(),
    {
        let line_count = validate_lines(ctx.full_str())?;
        let ghost r0 = ctx.rest();
        ctx.skip_strict(&Until(COMMA))?;
        proof {
            lemma_find_from(r0, COMMA, 0);
        }
        assert(ctx.full_bytes().len() > 0);
        ctx.skip_strict(&Char(','))?;
        ctx.skip_strict(&Until(COMMA))?;
        ctx.skip_strict(&Char(','))?;
        ctx.skip_strict(&Until(COMMA))?;
        ctx.skip_strict(&Char(','))?;
        let count: usize = match ctx.take(&Until(COMMA)).parse_opt() {
            Some(c) => c,
            None => {
                return Err(ParseError::take_failed());
            },
        };
        let rem = count % 4;
        let last_line_satellite_count = if rem == 0 && count != 0 {
            4
        } else {
            rem
        };
        assert(line_count >= 1);
        let mut satellites: Vec<Satellite> = Vec::new();
        Self::parse_full_lines(ctx, line_count - 1, &mut satellites)?;
        Self::parse_line_end(ctx, last_line_satellite_count, &mut satellites)?;
        Ok(Gsv { talker, satellites })
    }
}

} // verus!
