//! TXT: text messages, one per line.
use vstd::prelude::*;

use crate::data::{Talker, TxtType};
use crate::error::{ErrorKind, ParseError};
use crate::number::int_from_str;
use crate::rules::{lines_check, validate_lines, COMMA, NEW_LINE, STAR};
use crate::str_parser::{
    after_char, after_rule, after_until, fails_with, field_text, Char, ParseOptExt,
    StrParserContext, Until,
};
use crate::text::string_bytes;

verus! {

/// TXT: text messages, one per line.
#[derive(Debug, Clone)]
pub struct Txt {
    pub talker: Talker,
    /// The kind and the text of each line's message
    pub infos: Vec<(Option<TxtType>, Option<String>)>,
}

/// A message as bytes: its kind, and the bytes of its text.
pub open spec fn info_view(x: (Option<TxtType>, Option<String>)) -> (Option<TxtType>, Option<Seq<u8>>) {
    (
        x.0,
        match x.1 {
            Some(s) => Some(string_bytes(s)),
            None => None,
        },
    )
}

/// The messages of a list, as bytes.
pub open spec fn infos_view(v: Seq<(Option<TxtType>, Option<String>)>) -> Seq<(Option<TxtType>, Option<Seq<u8>>)> {
    v.map_values(|x: (Option<TxtType>, Option<String>)| info_view(x))
}

impl Txt {
    /// The kind that the text `t` of a message-type field names, if it is a
    /// number from 0 to 255 that names one.
    pub open spec fn kind_of(t: Option<Seq<u8>>) -> Option<TxtType> {
        match t {
            Some(s) => match int_from_str(s, false, 0, 255) {
                Some(v) => TxtType::spec_from(v as u8),
                None => None,
            },
            None => None,
        }
    }

    /// Reading one line's message from `p`: three fields are passed over,
    /// then the kind and the text (up to `*`) are read, and the cursor moves
    /// past the end of the line. Gives where the cursor ends and the message,
    /// or `None` when a separator that must be there is missing.
    pub open spec fn line_info(b: Seq<u8>, p: int) -> Option<(int, (Option<TxtType>, Option<Seq<u8>>))> {
        let q1 = after_until(COMMA, b, Some(p));
        let q2 = after_char(',', b, q1);
        let q3 = after_until(COMMA, b, q2);
        let q4 = after_char(',', b, q3);
        let q5 = after_until(COMMA, b, q4);
        let q6 = after_char(',', b, q5);
        let q7 = after_rule(Until(COMMA), b, q6);
        let q8 = after_char(',', b, q7);
        let q9 = after_rule(Until(STAR), b, q8);
        let q10 = after_rule(Until(NEW_LINE), b, q9);
        let q11 = after_rule(Char('\n'), b, q10);
        match q11 {
            None => None,
            Some(end) => Some(
                (
                    end,
                    (Self::kind_of(field_text(COMMA, b, q6.unwrap())), field_text(STAR, b, q8.unwrap())),
                ),
            ),
        }
    }

    /// Reading `k` lines' messages from `p`: where the cursor ends and the
    /// messages in order, or `None` when one line lacks a separator.
    pub open spec fn line_infos(b: Seq<u8>, p: int, k: nat) -> Option<(int, Seq<(Option<TxtType>, Option<Seq<u8>>)>)>
        decreases k,
    {
        if k == 0 {
            Some((p, Seq::empty()))
        } else {
            match Self::line_info(b, p) {
                None => None,
                Some(first) => match Self::line_infos(b, first.0, (k - 1) as nat) {
                    None => None,
                    Some(rest) => Some((rest.0, seq![first.1] + rest.1)),
                },
            }
        }
    }

    /// Reading `k` lines' messages gives `k` messages.
    pub proof fn lemma_line_infos_len(b: Seq<u8>, p: int, k: nat)
        ensures
            Self::line_infos(b, p, k) matches Some(x) ==> x.1.len() == k,
        decreases k,
    {
        if k > 0 {
            if let Some(first) = Self::line_info(b, p) {
                Self::lemma_line_infos_len(b, first.0, (k - 1) as nat);
            }
        }
    }

    /// A TXT text that parses gives one message for each of its lines.
    pub proof fn law_one_message_per_line(b: Seq<u8>, p: int, talker: Talker, d: Txt)
        requires
            Self::spec_new(b, p, talker, Ok(d)),
        ensures
            lines_check(b, 0) matches Ok(n) && d.infos@.len() == n,
    {
        let n = lines_check(b, 0)->Ok_0;
        Self::lemma_line_infos_len(b, p, n);
    }

    /// Reads one line's message.
    fn read_info(ctx: &mut StrParserContext) -> (r: Result<(Option<TxtType>, Option<String>), ParseError>)
        ensures
            final(ctx).full_bytes() == old(ctx).full_bytes(),
            match Self::line_info(old(ctx).full_bytes(), old(ctx).pos()) {
                None => fails_with(r, ErrorKind::TakeFailed),
                Some(res) => r matches Ok(x) && info_view(x) == res.1 && final(ctx).pos() == res.0,
            },
    {
        ctx.skip_strict(&Until(COMMA))?;
        ctx.skip_strict(&Char(','))?;
        ctx.skip_strict(&Until(COMMA))?;
        ctx.skip_strict(&Char(','))?;
        ctx.skip_strict(&Until(COMMA))?;
        ctx.skip_strict(&Char(','))?;
        let n: Option<u8> = ctx.take(&Until(COMMA)).parse_opt();
        let txt_type = match n {
            Some(v) => match TxtType::try_from(v) {
                Ok(t) => Some(t),
                Err(_) => None,
            },
            None => None,
        };
        ctx.skip_strict(&Char(','))?;
        let info = match ctx.take(&Until(STAR)) {
            Some(f) => Some(f.to_string()),
            None => None,
        };
        ctx.skip(&Until(NEW_LINE));
        ctx.skip(&Char('\n'));
        Ok((txt_type, info))
    }

    /// Reads `k` lines' messages.
    fn read_infos(ctx: &mut StrParserContext, k: usize) -> (r: Result<
        Vec<(Option<TxtType>, Option<String>)>,
        ParseError,
    >)
        ensures
            final(ctx).full_bytes() == old(ctx).full_bytes(),
            match Self::line_infos(old(ctx).full_bytes(), old(ctx).pos(), k as nat) {
                None => fails_with(r, ErrorKind::TakeFailed),
                Some(res) => r matches Ok(v) && infos_view(v@) == res.1,
            },
    {
        let ghost b = ctx.full_bytes();
        let ghost p0 = ctx.pos();
        let mut infos: Vec<(Option<TxtType>, Option<String>)> = Vec::new();
        let mut i: usize = 0;
        while i < k
            invariant
                i <= k,
                ctx.full_bytes() == b,
                b == old(ctx).full_bytes(),
                p0 == old(ctx).pos(),
                Self::line_infos(b, p0, k as nat) == match Self::line_infos(
                    b,
                    ctx.pos(),
                    (k - i) as nat,
                ) {
                    None => None,
                    Some(rest) => Some((rest.0, infos_view(infos@) + rest.1)),
                },
            decreases k - i,
        {
            let ghost before = infos@;
            let x = Self::read_info(ctx)?;
            infos.push(x);
            proof {
                assert(infos_view(infos@) =~= infos_view(before) + seq![info_view(x)]);
                match Self::line_infos(b, ctx.pos(), (k - i - 1) as nat) {
                    None => {},
                    Some(rest) => {
                        assert(infos_view(before) + (seq![info_view(x)] + rest.1) =~= infos_view(
                            infos@,
                        ) + rest.1);
                    },
                }
            }
            i = i + 1;
        }
        assert(infos_view(infos@) + Seq::<(Option<TxtType>, Option<Seq<u8>>)>::empty()
            =~= infos_view(infos@));
        Ok(infos)
    }

    /// What parsing the text `b` from `p` gives: each line is checked as a
    /// sentence, then one message is read for each line.
    pub open spec fn spec_new(b: Seq<u8>, p: int, talker: Talker, r: Result<Txt, ParseError>) -> bool {
        match lines_check(b, 0) {
            Err(k) => fails_with(r, k),
            Ok(n) => match Self::line_infos(b, p, n) {
                None => fails_with(r, ErrorKind::TakeFailed),
                Some(res) => r matches Ok(d) && d.talker == talker && infos_view(d.infos@) == res.1,
            },
        }
    }

    /// Parses a TXT sentence, which may span several lines.
    pub fn new(ctx: &mut StrParserContext, talker: Talker) -> (r: Result<Self, ParseError>)
        ensures
            Self::spec_new(old(ctx).full_bytes(), old(ctx).pos(), talker, r),
            final(ctx).full_bytes() == old(ctx).full_bytes(),
            lines_check(old(ctx).full_bytes(), 0) is Err ==> final(ctx).pos() == old(ctx).pos(),
    {
        let n = validate_lines(ctx.full_str())?;
        let infos = Self::read_infos(ctx, n)?;
        Ok(Txt { talker, infos })
    }
}

} // verus!
