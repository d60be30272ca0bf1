//! Sentences built from their fields: where each field lies, and what the
//! parsers' steps find there.
use vstd::prelude::*;

use crate::generic::joined;
use crate::rules::{first_comma, two_commas, NmeaCoord, NmeaDegree, NmeaUtc, COMMA, STAR};
use crate::str_parser::{
    char_at, end_of, field_text, field_text2, until_at, Char, StrFlowRule, Until, UntilEither,
};
use crate::text::{find2_from, find_from, lemma_find_unique};

verus! {

/// The sentence made of the fields `g` separated by commas, then `*` and the
/// text `cs` (the checksum and whatever follows it).
pub open spec fn built(g: Seq<Seq<u8>>, cs: Seq<u8>) -> Seq<u8> {
    joined(g, COMMA) + seq![STAR] + cs
}

/// No field holds a comma or a `*`, and `cs` holds no comma.
pub open spec fn plain(g: Seq<Seq<u8>>, cs: Seq<u8>) -> bool {
    &&& g.len() >= 1
    &&& forall|i: int| 0 <= i < g.len() ==> !(#[trigger] g[i]).contains(COMMA) && !g[i].contains(STAR)
    &&& !cs.contains(COMMA)
}

/// Where field `i` begins in the fields `g` joined by commas.
pub open spec fn field_start(g: Seq<Seq<u8>>, i: int) -> int
    decreases i,
{
    if i <= 0 {
        0
    } else {
        field_start(g, i - 1) + g[i - 1].len() + 1
    }
}

/// Dropping the first field moves every later field's start back by it and
/// its comma.
proof fn lemma_start_skip(g: Seq<Seq<u8>>, i: int)
    requires
        1 <= i <= g.len(),
    ensures
        field_start(g, i) == g[0].len() + 1 + field_start(g.skip(1), i - 1),
    decreases i,
{
    assert(field_start(g, 0) == 0);
    assert(field_start(g.skip(1), 0) == 0);
    if i > 1 {
        lemma_start_skip(g, i - 1);
        assert(g.skip(1)[i - 2] == g[i - 1]);
        assert(field_start(g.skip(1), i - 1) == field_start(g.skip(1), i - 2) + g.skip(1)[i
            - 2].len() + 1);
    }
}

/// Field `i` lies at its start in the joined text, followed by a comma, or
/// by the text's end when it is the last.
proof fn lemma_joined_field(g: Seq<Seq<u8>>, i: int)
    requires
        0 <= i < g.len(),
    ensures
        0 <= field_start(g, i),
        field_start(g, i) + g[i].len() <= joined(g, COMMA).len(),
        joined(g, COMMA).subrange(field_start(g, i), field_start(g, i) + g[i].len()) == g[i],
        i < g.len() - 1 ==> field_start(g, i) + g[i].len() < joined(g, COMMA).len(),
        i < g.len() - 1 ==> joined(g, COMMA)[field_start(g, i) + g[i].len()] == COMMA,
        i == g.len() - 1 ==> field_start(g, i) + g[i].len() == joined(g, COMMA).len(),
    decreases g.len(),
{
    let j = joined(g, COMMA);
    if g.len() == 1 {
        assert(j.subrange(0, g[0].len() as int) =~= g[0]);
    } else {
        let h = g.skip(1);
        assert(j == g[0] + seq![COMMA] + joined(h, COMMA));
        if i == 0 {
            assert(j.subrange(0, g[0].len() as int) =~= g[0]);
        } else {
            lemma_joined_field(h, i - 1);
            lemma_start_skip(g, i);
            assert(h[i - 1] == g[i]);
            let o = g[0].len() + 1;
            let s = field_start(h, i - 1);
            assert(j.subrange(o + s, o + s + g[i].len()) =~= joined(h, COMMA).subrange(
                s,
                s + g[i].len(),
            ));
            if i < g.len() - 1 {
                assert(j[o + s + g[i].len()] == joined(h, COMMA)[s + g[i].len()]);
            }
        }
    }
}

/// What the bytes of a built sentence are from field `i` on: the field, then
/// a comma (or, for the last field, the `*`).
pub proof fn lemma_built_field(g: Seq<Seq<u8>>, cs: Seq<u8>, i: int)
    requires
        plain(g, cs),
        0 <= i < g.len(),
    ensures
        0 <= field_start(g, i),
        field_start(g, i) + g[i].len() < built(g, cs).len(),
        forall|k: int|
            0 <= k < g[i].len() ==> built(g, cs)[field_start(g, i) + k] == #[trigger] g[i][k],
        i < g.len() - 1 ==> built(g, cs)[field_start(g, i) + g[i].len()] == COMMA,
        i < g.len() - 1 ==> field_start(g, i + 1) == field_start(g, i) + g[i].len() + 1,
        i == g.len() - 1 ==> built(g, cs)[field_start(g, i) + g[i].len()] == STAR,
        forall|k: int|
            field_start(g, i) + g[i].len() < k < built(g, cs).len() ==> #[trigger] built(g, cs)[k]
                != COMMA || i < g.len() - 1,
{
    lemma_joined_field(g, i);
    let j = joined(g, COMMA);
    let b = built(g, cs);
    let s = field_start(g, i);
    assert(b.len() == j.len() + 1 + cs.len());
    if i < g.len() - 1 {
        assert(b[s + g[i].len()] == j[s + g[i].len()]);
        assert(field_start(g, i + 1) == s + g[i].len() + 1);
    } else {
        assert(b[j.len() as int] == STAR);
    }
    assert forall|k: int| 0 <= k < g[i].len() implies b[s + k] == #[trigger] g[i][k] by {
        assert(j.subrange(s, s + g[i].len())[k] == j[s + k]);
    }
    if i == g.len() - 1 {
        assert forall|k: int| s + g[i].len() < k < b.len() implies #[trigger] b[k] != COMMA by {
            assert(b[k] == cs[k - j.len() - 1]);
        }
    }
}

/// The search for the end of field `i` from its start, in the built
/// sentence.
pub proof fn lemma_field_end(g: Seq<Seq<u8>>, cs: Seq<u8>, i: int, d: u8)
    requires
        plain(g, cs),
        0 <= i < g.len(),
        d == COMMA && i < g.len() - 1 || d == STAR && i == g.len() - 1,
    ensures
        find_from(built(g, cs).skip(field_start(g, i)), d, 0) == Some(g[i].len() as int),
        built(g, cs).skip(field_start(g, i)).take(g[i].len() as int) == g[i],
        until_at(d, built(g, cs), field_start(g, i)) == Some(field_start(g, i) + g[i].len()),
        end_of(Until(d), built(g, cs), field_start(g, i)) == field_start(g, i) + g[i].len(),
        field_text(d, built(g, cs), field_start(g, i)) == Some(g[i]),
{
    lemma_built_field(g, cs, i);
    let b = built(g, cs);
    let s = field_start(g, i);
    let r = b.skip(s);
    assert forall|j: int| 0 <= j < g[i].len() implies r[j] != d by {
        assert(r[j] == g[i][j]);
        assert(g[i].contains(g[i][j]));
    }
    assert(r[g[i].len() as int] == d);
    lemma_find_unique(r, d, 0, g[i].len() as int);
    assert(r.take(g[i].len() as int) =~= g[i]);
}

/// The comma after field `i` leads to field `i + 1`, and the time rule read
/// from field `i` takes the field.
pub proof fn lemma_next_field(g: Seq<Seq<u8>>, cs: Seq<u8>, i: int)
    requires
        plain(g, cs),
        0 <= i < g.len() - 1,
    ensures
        char_at(',', built(g, cs), field_start(g, i) + g[i].len()) == Some(field_start(g, i + 1)),
        first_comma(built(g, cs).skip(field_start(g, i))) == Some(g[i].len() as int),
        end_of(NmeaUtc(), built(g, cs), field_start(g, i)) == field_start(g, i) + g[i].len(),
{
    lemma_built_field(g, cs, i);
    lemma_field_end(g, cs, i, COMMA);
    let b = built(g, cs);
    assert(b.skip(field_start(g, i) + g[i].len())[0] == b[field_start(g, i) + g[i].len()]);
}

/// The coordinate and degree rules read from field `i` take fields `i` and
/// `i + 1` and stop at the comma after them.
pub proof fn lemma_pair_fields(g: Seq<Seq<u8>>, cs: Seq<u8>, i: int)
    requires
        plain(g, cs),
        0 <= i < g.len() - 2,
    ensures
        two_commas(built(g, cs).skip(field_start(g, i))) == Some(
            (g[i].len() as int, g[i].len() + 1 + g[i + 1].len() as int),
        ),
        built(g, cs).skip(field_start(g, i)).take(g[i].len() as int) == g[i],
        built(g, cs).skip(field_start(g, i)).subrange(
            g[i].len() + 1 as int,
            g[i].len() + 1 + g[i + 1].len() as int,
        ) == g[i + 1],
        end_of(NmeaCoord(), built(g, cs), field_start(g, i)) == field_start(g, i + 1) + g[i
            + 1].len(),
        end_of(NmeaDegree(), built(g, cs), field_start(g, i)) == field_start(g, i + 1) + g[i
            + 1].len(),
{
    lemma_next_field(g, cs, i);
    lemma_field_end(g, cs, i + 1, COMMA);
    lemma_built_field(g, cs, i);
    lemma_built_field(g, cs, i + 1);
    let b = built(g, cs);
    let s = field_start(g, i);
    let r = b.skip(s);
    let c1 = g[i].len() as int;
    let c2 = c1 + 1 + g[i + 1].len();
    assert forall|j: int| c1 + 1 <= j < c2 implies r[j] != COMMA by {
        assert(r[j] == b[s + j]);
        assert(s + j == field_start(g, i + 1) + (j - c1 - 1));
        assert(r[j] == g[i + 1][j - c1 - 1]);
        assert(g[i + 1].contains(g[i + 1][j - c1 - 1]));
    }
    assert(s + c2 == field_start(g, i + 1) + g[i + 1].len());
    assert(r[c2] == b[field_start(g, i + 1) + g[i + 1].len()]);
    lemma_find_unique(r, COMMA, c1 + 1, c2);
    assert(r.subrange(c1 + 1, c2) =~= b.skip(field_start(g, i + 1)).take(g[i + 1].len() as int));
}

/// When the rule for an optional unit letter, read from field `i`, is
/// followed by a comma, it has taken the whole field.
pub proof fn lemma_unit_letter(g: Seq<Seq<u8>>, cs: Seq<u8>, i: int, c: char)
    requires
        plain(g, cs),
        0 <= i < g.len() - 1,
        c != ',',
        (c as u32) < 128,
        char_at(',', built(g, cs), end_of(Char(c), built(g, cs), field_start(g, i))) is Some,
    ensures
        end_of(Char(c), built(g, cs), field_start(g, i)) == field_start(g, i) + g[i].len(),
{
    lemma_built_field(g, cs, i);
    let b = built(g, cs);
    let s = field_start(g, i);
    let e = end_of(Char(c), b, s);
    assert(b.skip(e)[0] == b[e]);
    assert(b.skip(s)[0] == b[s]);
    if g[i].len() > 0 {
        assert(b[s] == g[i][0]);
        assert(g[i].contains(g[i][0]));
        if g[i].len() > 1 && e == s + 1 {
            assert(b[s + 1] == g[i][1]);
            assert(g[i].contains(g[i][1]));
        }
    }
}

/// A search for either of two bytes finds the first place that holds one.
proof fn lemma_find2_unique(s: Seq<u8>, c1: u8, c2: u8, i: int, k: int)
    requires
        0 <= i <= k < s.len(),
        s[k] == c1 || s[k] == c2,
        forall|j: int| i <= j < k ==> s[j] != c1 && s[j] != c2,
    ensures
        find2_from(s, c1, c2, i) == Some(k),
    decreases k - i,
{
    if i < k {
        lemma_find2_unique(s, c1, c2, i + 1, k);
    }
}

/// The rule that reads up to a comma or a `*`, from the start of field `i`,
/// takes the whole field, whether it is the last or not.
pub proof fn lemma_field_end_either(g: Seq<Seq<u8>>, cs: Seq<u8>, i: int)
    requires
        plain(g, cs),
        0 <= i < g.len(),
    ensures
        end_of(UntilEither(COMMA, STAR), built(g, cs), field_start(g, i)) == field_start(g, i)
            + g[i].len(),
        field_text2(COMMA, STAR, built(g, cs), field_start(g, i)) == Some(g[i]),
{
    lemma_built_field(g, cs, i);
    let b = built(g, cs);
    let s = field_start(g, i);
    let r = b.skip(s);
    assert forall|j: int| 0 <= j < g[i].len() implies r[j] != COMMA && r[j] != STAR by {
        assert(r[j] == g[i][j]);
        assert(g[i].contains(g[i][j]));
    }
    assert(r[g[i].len() as int] == b[s + g[i].len()]);
    lemma_find2_unique(r, COMMA, STAR, 0, g[i].len() as int);
    assert(r.take(g[i].len() as int) =~= g[i]);
}

} // verus!
