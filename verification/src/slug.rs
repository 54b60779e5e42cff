//! Slug normal form and normalization.
//!
//! A slug in normal form consists of lowercase ASCII alphanumerics, `:` as
//! the category separator and `-`, with no leading or trailing `-`.
//! Normalization lowercases, collapses every run of other characters into a
//! single `-`, and strips `-` from both ends. The rules are part of the
//! boundary contract of the revision store: a slug that is not normal is
//! rejected there, never silently corrected.

use vstd::prelude::*;

use crate::error::Error;
use crate::text::{ascii_chars, ascii_string};

verus! {

/// A character allowed in a normal slug.
pub open spec fn is_slug_char(c: char) -> bool {
    ||| (97 <= c as int && c as int <= 122)
    ||| (48 <= c as int && c as int <= 57)
    ||| c == ':'
    ||| c == '-'
}

/// No two consecutive `-` characters: normalization collapses runs, so a
/// normal slug never contains `--`.
pub open spec fn no_double_dash(s: Seq<char>) -> bool {
    forall|i: int| 0 <= i && i + 1 < s.len() ==> !((#[trigger] s[i]) == '-' && s[i + 1] == '-')
}

/// A slug in wikidot normal form: nonempty, every character allowed, no `-`
/// at either end, and no `--` anywhere (a fixed point of normalization).
pub open spec fn is_normal_chars(s: Seq<char>) -> bool {
    &&& s.len() > 0
    &&& forall|i: int| 0 <= i < s.len() ==> is_slug_char(#[trigger] s[i])
    &&& s[0] != '-'
    &&& s[s.len() - 1] != '-'
    &&& no_double_dash(s)
}

/// Whether `slug` is in normal form.
pub fn is_normal(slug: &str) -> (r: bool)
    ensures
        r == is_normal_chars(slug@),
{
    let len = slug.unicode_len();
    if len == 0 {
        return false;
    }
    let first = slug.get_char(0);
    let last = slug.get_char(len - 1);
    if first == '-' || last == '-' {
        return false;
    }
    let mut i: usize = 0;
    let mut prev_dash = false;
    while i < len
        invariant
            len == slug@.len(),
            i <= len,
            forall|k: int| 0 <= k < i ==> is_slug_char(#[trigger] slug@[k]),
            forall|k: int|
                0 <= k && k + 1 < i ==> !((#[trigger] slug@[k]) == '-' && slug@[k + 1] == '-'),
            prev_dash == (i > 0 && slug@[i - 1] == '-'),
        decreases len - i,
    {
        let c = slug.get_char(i);
        let ok = ('a' <= c && c <= 'z') || ('0' <= c && c <= '9') || c == ':' || c == '-';
        if !ok {
            return false;
        }
        if c == '-' && prev_dash {
            proof {
                assert(slug@[i - 1] == '-' && slug@[i as int] == '-');
            }
            return false;
        }
        prev_dash = c == '-';
        i += 1;
    }
    true
}

/// Fails with `SlugNotNormal` exactly when `slug` is not in normal form.
pub fn check_normal(slug: &str) -> (r: Result<(), Error>)
    ensures
        r is Ok <==> is_normal_chars(slug@),
        r is Err ==> r->Err_0 == Error::SlugNotNormal,
{
    if is_normal(slug) {
        Ok(())
    } else {
        Err(Error::SlugNotNormal)
    }
}

/// The byte a character is normalized to: lowercased if ASCII alphanumeric,
/// kept if `:`, and `-` for everything else.
pub open spec fn norm_byte(c: char) -> u8 {
    if (97 <= c as int && c as int <= 122) || (48 <= c as int && c as int <= 57) {
        c as u8
    } else if 65 <= c as int && c as int <= 90 {
        (c as int + 32) as u8
    } else if c == ':' {
        58
    } else {
        45
    }
}

/// Collapses every run of consecutive `-` bytes into a single `-`.
pub open spec fn collapse_dashes(s: Seq<u8>) -> Seq<u8>
    decreases s.len(),
{
    if s.len() == 0 {
        seq![]
    } else if s.len() >= 2 && s[0] == 45 && s[1] == 45 {
        collapse_dashes(s.drop_first())
    } else {
        seq![s[0]] + collapse_dashes(s.drop_first())
    }
}

/// Removes leading `-` bytes.
pub open spec fn strip_leading(s: Seq<u8>) -> Seq<u8>
    decreases s.len(),
{
    if s.len() > 0 && s[0] == 45 {
        strip_leading(s.drop_first())
    } else {
        s
    }
}

/// Removes trailing `-` bytes.
pub open spec fn strip_trailing(s: Seq<u8>) -> Seq<u8>
    decreases s.len(),
{
    if s.len() > 0 && s[s.len() - 1] == 45 {
        strip_trailing(s.drop_last())
    } else {
        s
    }
}

/// The bytes of the normalized form of `s`.
pub open spec fn normalize_bytes(s: Seq<char>) -> Seq<u8> {
    strip_trailing(strip_leading(collapse_dashes(s.map_values(|c: char| norm_byte(c)))))
}

/// The normalized form of `s`.
pub open spec fn normalize_chars(s: Seq<char>) -> Seq<char> {
    ascii_chars(normalize_bytes(s))
}

/// Normalizes a slug: lowercases ASCII alphanumerics, keeps `:`, turns every
/// run of other characters into a single `-`, and strips `-` from both ends.
/// The result is empty when `slug` contains no alphanumeric or `:` at all.
pub fn normalize(slug: &str) -> (r: String)
    ensures
        r@ == normalize_chars(slug@),
{
    let mapped = map_pass(slug);
    let collapsed = collapse_pass(&mapped, 0);
    proof {
        assert(mapped@.skip(0) =~= mapped@);
    }
    let stripped_lead = strip_lead_pass(collapsed);
    let stripped = strip_trail_pass(stripped_lead);
    proof {
        lemma_normalize_bytes_slug(slug@);
        assert(stripped@ == normalize_bytes(slug@));
        assert forall|i: int| 0 <= i < stripped@.len() implies stripped@[i] < 128 by {
            assert(is_slug_byte(normalize_bytes(slug@)[i]));
        }
    }
    ascii_string(stripped)
}

/// Every byte of a normalized slug is a slug byte.
proof fn lemma_normalize_bytes_slug(s: Seq<char>)
    ensures
        forall|i: int|
            0 <= i < normalize_bytes(s).len() ==> is_slug_byte(#[trigger] normalize_bytes(s)[i]),
{
    let mapped = s.map_values(|c: char| norm_byte(c));
    lemma_norm_slug_bytes(s, mapped);
    lemma_collapse_keeps_slug(mapped);
    lemma_strip_leading_keeps_slug(collapse_dashes(mapped));
    lemma_strip_trailing_keeps_slug(strip_leading(collapse_dashes(mapped)));
}

fn map_pass(slug: &str) -> (r: Vec<u8>)
    ensures
        r@ == slug@.map_values(|c: char| norm_byte(c)),
{
    let len = slug.unicode_len();
    let mut out: Vec<u8> = Vec::new();
    let mut i: usize = 0;
    while i < len
        invariant
            len == slug@.len(),
            i <= len,
            out@ =~= slug@.subrange(0, i as int).map_values(|c: char| norm_byte(c)),
        decreases len - i,
    {
        let c = slug.get_char(i);
        let b: u8;
        if ('a' <= c && c <= 'z') || ('0' <= c && c <= '9') {
            b = c as u8;
        } else if 'A' <= c && c <= 'Z' {
            b = (c as u8) + 32;
        } else if c == ':' {
            b = 58;
        } else {
            b = 45;
        }
        out.push(b);
        proof {
            assert(slug@.subrange(0, i + 1).map_values(|c: char| norm_byte(c)) =~= slug@.subrange(
                0,
                i as int,
            ).map_values(|c: char| norm_byte(c)).push(norm_byte(slug@[i as int])));
        }
        i += 1;
    }
    proof {
        assert(slug@.subrange(0, len as int) =~= slug@);
    }
    out
}

fn collapse_pass(v: &Vec<u8>, i: usize) -> (r: Vec<u8>)
    requires
        i <= v@.len(),
    ensures
        r@ == collapse_dashes(v@.skip(i as int)),
    decreases v@.len() - i,
{
    proof {
        if i < v@.len() {
            assert(v@.skip(i as int).drop_first() =~= v@.skip(i + 1));
        }
    }
    if i == v.len() {
        let out: Vec<u8> = Vec::new();
        proof {
            assert(v@.skip(i as int) =~= Seq::<u8>::empty());
        }
        out
    } else if i + 1 < v.len() && v[i] == 45 && v[i + 1] == 45 {
        proof {
            assert(v@.skip(i as int)[0] == v@[i as int]);
            assert(v@.skip(i as int)[1] == v@[i + 1]);
        }
        collapse_pass(v, i + 1)
    } else {
        proof {
            assert(v@.skip(i as int)[0] == v@[i as int]);
        }
        let mut rest = collapse_pass(v, i + 1);
        let mut out: Vec<u8> = Vec::new();
        out.push(v[i]);
        out.append(&mut rest);
        proof {
            assert(out@ =~= seq![v@[i as int]] + collapse_dashes(v@.skip(i + 1)));
        }
        out
    }
}

fn strip_lead_pass(v: Vec<u8>) -> (r: Vec<u8>)
    ensures
        r@ == strip_leading(v@),
    decreases v@.len(),
{
    if v.len() > 0 && v[0] == 45 {
        let ghost orig = v@;
        let mut v2 = v;
        v2.remove(0);
        proof {
            assert(v2@ =~= orig.drop_first());
        }
        strip_lead_pass(v2)
    } else {
        v
    }
}

fn strip_trail_pass(v: Vec<u8>) -> (r: Vec<u8>)
    ensures
        r@ == strip_trailing(v@),
    decreases v@.len(),
{
    if v.len() > 0 && v[v.len() - 1] == 45 {
        let mut v2 = v;
        let ghost before = v2@;
        v2.pop();
        proof {
            assert(v2@ =~= before.drop_last());
        }
        strip_trail_pass(v2)
    } else {
        v
    }
}

/// Mapped bytes are ASCII.
proof fn lemma_norm_bytes_small(s: Seq<char>, m: Seq<u8>)
    requires
        m == s.map_values(|c: char| norm_byte(c)),
    ensures
        forall|i: int| 0 <= i < m.len() ==> #[trigger] m[i] < 128,
{
    assert forall|i: int| 0 <= i < m.len() implies #[trigger] m[i] < 128 by {
        assert(m[i] == norm_byte(s[i]));
    }
}

/// A nonempty normalized slug is in normal form.
pub proof fn lemma_normalize_normal(s: Seq<char>)
    requires
        normalize_chars(s).len() > 0,
    ensures
        is_normal_chars(normalize_chars(s)),
{
    let mapped = s.map_values(|c: char| norm_byte(c));
    lemma_norm_slug_bytes(s, mapped);
    lemma_collapse_keeps_slug(mapped);
    lemma_strip_leading_keeps_slug(collapse_dashes(mapped));
    lemma_strip_trailing_keeps_slug(strip_leading(collapse_dashes(mapped)));
    lemma_strip_leading_no_lead(collapse_dashes(mapped));
    lemma_strip_trailing_no_trail(strip_leading(collapse_dashes(mapped)));
    lemma_strip_trailing_keeps_first(strip_leading(collapse_dashes(mapped)));
    let out = normalize_bytes(s);
    assert forall|i: int| 0 <= i < normalize_chars(s).len()
        implies is_slug_char(#[trigger] normalize_chars(s)[i]) by {
        assert(normalize_chars(s)[i] == out[i] as char);
        assert(is_slug_byte(out[i]));
        if out[i] == 58 {
            assert((out[i] as char) == ':');
        }
        if out[i] == 45 {
            assert((out[i] as char) == '-');
        }
    }
    assert(normalize_chars(s)[0] == out[0] as char);
    assert(out[0] != 45);
    assert(('-' as int) == 45);
    assert(normalize_chars(s)[normalize_chars(s).len() - 1] == out[out.len() - 1] as char);
    assert(out[out.len() - 1] != 45);
    lemma_collapse_no_dd(mapped);
    lemma_strip_leading_no_dd(collapse_dashes(mapped));
    lemma_strip_trailing_no_dd(strip_leading(collapse_dashes(mapped)));
    assert(out == strip_trailing(strip_leading(collapse_dashes(mapped))));
    assert forall|i: int| 0 <= i && i + 1 < normalize_chars(s).len()
        implies !((#[trigger] normalize_chars(s)[i]) == '-' && normalize_chars(s)[i + 1]
            == '-') by {
        assert(normalize_chars(s)[i] == out[i] as char);
        assert(normalize_chars(s)[i + 1] == out[i + 1] as char);
        assert(is_slug_byte(out[i]) && is_slug_byte(out[i + 1]));
        assert(!(out[i] == 45 && out[i + 1] == 45));
        if normalize_chars(s)[i] == '-' && normalize_chars(s)[i + 1] == '-' {
            assert((out[i] as char) as int == out[i] as int);
            assert((out[i + 1] as char) as int == out[i + 1] as int);
        }
    }
}

/// The head of a collapsed sequence is a dash exactly when the input's is.
proof fn lemma_collapse_head(s: Seq<u8>)
    ensures
        s.len() > 0 ==> collapse_dashes(s).len() > 0,
        s.len() > 0 ==> ((collapse_dashes(s)[0] == 45) <==> (s[0] == 45)),
    decreases s.len(),
{
    if s.len() >= 2 && s[0] == 45 && s[1] == 45 {
        lemma_collapse_head(s.drop_first());
        assert(s.drop_first()[0] == s[1]);
    }
}

/// A collapsed sequence holds no two consecutive dashes.
proof fn lemma_collapse_no_dd(s: Seq<u8>)
    ensures
        forall|i: int|
            0 <= i && i + 1 < collapse_dashes(s).len() ==> !((#[trigger] collapse_dashes(s)[i])
                == 45 && collapse_dashes(s)[i + 1] == 45),
    decreases s.len(),
{
    if s.len() == 0 {
    } else if s.len() >= 2 && s[0] == 45 && s[1] == 45 {
        lemma_collapse_no_dd(s.drop_first());
        assert forall|i: int| 0 <= i && i + 1 < collapse_dashes(s).len()
            implies !((#[trigger] collapse_dashes(s)[i]) == 45 && collapse_dashes(s)[i + 1]
                == 45) by {
            assert(collapse_dashes(s)[i] == collapse_dashes(s.drop_first())[i]);
            assert(collapse_dashes(s)[i + 1] == collapse_dashes(s.drop_first())[i + 1]);
        }
    } else {
        lemma_collapse_no_dd(s.drop_first());
        let rest = collapse_dashes(s.drop_first());
        assert forall|i: int| 0 <= i && i + 1 < collapse_dashes(s).len()
            implies !((#[trigger] collapse_dashes(s)[i]) == 45 && collapse_dashes(s)[i + 1]
                == 45) by {
            if i == 0 {
                assert(collapse_dashes(s)[0] == s[0]);
                assert(collapse_dashes(s)[1] == rest[0]);
                if s[0] == 45 {
                    // The run did not continue, so the next input byte (the
                    // head of the collapsed rest) is not a dash.
                    assert(s.drop_first().len() > 0);
                    assert(s[1] != 45);
                    lemma_collapse_head(s.drop_first());
                    assert(s.drop_first()[0] == s[1]);
                    assert(rest[0] != 45);
                }
            } else {
                assert(collapse_dashes(s)[i] == rest[i - 1]);
                assert(collapse_dashes(s)[i + 1] == rest[i]);
            }
        }
    }
}

/// Stripping leading dashes keeps consecutive-dash freedom.
proof fn lemma_strip_leading_no_dd(s: Seq<u8>)
    requires
        forall|i: int| 0 <= i && i + 1 < s.len() ==> !((#[trigger] s[i]) == 45 && s[i + 1] == 45),
    ensures
        forall|i: int|
            0 <= i && i + 1 < strip_leading(s).len() ==> !((#[trigger] strip_leading(s)[i]) == 45
                && strip_leading(s)[i + 1] == 45),
    decreases s.len(),
{
    if s.len() > 0 && s[0] == 45 {
        assert forall|i: int| 0 <= i && i + 1 < s.drop_first().len()
            implies !((#[trigger] s.drop_first()[i]) == 45 && s.drop_first()[i + 1] == 45) by {
            assert(s.drop_first()[i] == s[i + 1]);
            assert(s.drop_first()[i + 1] == s[i + 2]);
        }
        lemma_strip_leading_no_dd(s.drop_first());
        assert forall|i: int| 0 <= i && i + 1 < strip_leading(s).len()
            implies !((#[trigger] strip_leading(s)[i]) == 45 && strip_leading(s)[i + 1]
                == 45) by {
            assert(strip_leading(s)[i] == strip_leading(s.drop_first())[i]);
            assert(strip_leading(s)[i + 1] == strip_leading(s.drop_first())[i + 1]);
        }
    }
}

/// Stripping trailing dashes keeps consecutive-dash freedom.
proof fn lemma_strip_trailing_no_dd(s: Seq<u8>)
    requires
        forall|i: int| 0 <= i && i + 1 < s.len() ==> !((#[trigger] s[i]) == 45 && s[i + 1] == 45),
    ensures
        forall|i: int|
            0 <= i && i + 1 < strip_trailing(s).len() ==> !((#[trigger] strip_trailing(s)[i])
                == 45 && strip_trailing(s)[i + 1] == 45),
    decreases s.len(),
{
    if s.len() > 0 && s[s.len() - 1] == 45 {
        assert forall|i: int| 0 <= i && i + 1 < s.drop_last().len()
            implies !((#[trigger] s.drop_last()[i]) == 45 && s.drop_last()[i + 1] == 45) by {
            assert(s.drop_last()[i] == s[i]);
            assert(s.drop_last()[i + 1] == s[i + 1]);
        }
        lemma_strip_trailing_no_dd(s.drop_last());
        assert forall|i: int| 0 <= i && i + 1 < strip_trailing(s).len()
            implies !((#[trigger] strip_trailing(s)[i]) == 45 && strip_trailing(s)[i + 1]
                == 45) by {
            assert(strip_trailing(s)[i] == strip_trailing(s.drop_last())[i]);
            assert(strip_trailing(s)[i + 1] == strip_trailing(s.drop_last())[i + 1]);
        }
    }
}

/// A byte a normalized slug may contain.
pub open spec fn is_slug_byte(b: u8) -> bool {
    (97 <= b && b <= 122) || (48 <= b && b <= 57) || b == 58 || b == 45
}

proof fn lemma_norm_slug_bytes(s: Seq<char>, m: Seq<u8>)
    requires
        m == s.map_values(|c: char| norm_byte(c)),
    ensures
        forall|i: int| 0 <= i < m.len() ==> is_slug_byte(#[trigger] m[i]),
{
    assert forall|i: int| 0 <= i < m.len() implies is_slug_byte(#[trigger] m[i]) by {
        assert(m[i] == norm_byte(s[i]));
    }
}

proof fn lemma_collapse_keeps_slug(s: Seq<u8>)
    requires
        forall|i: int| 0 <= i < s.len() ==> is_slug_byte(#[trigger] s[i]),
    ensures
        forall|i: int|
            0 <= i < collapse_dashes(s).len() ==> is_slug_byte(#[trigger] collapse_dashes(s)[i]),
    decreases s.len(),
{
    if s.len() > 0 {
        assert(forall|i: int|
            0 <= i < s.drop_first().len() ==> is_slug_byte(#[trigger] s.drop_first()[i]));
        lemma_collapse_keeps_slug(s.drop_first());
        let rest = collapse_dashes(s.drop_first());
        assert forall|i: int| 0 <= i < collapse_dashes(s).len()
            implies is_slug_byte(#[trigger] collapse_dashes(s)[i]) by {
            if s.len() >= 2 && s[0] == 45 && s[1] == 45 {
                assert(collapse_dashes(s)[i] == rest[i]);
            } else if i == 0 {
                assert(collapse_dashes(s)[0] == s[0]);
            } else {
                assert(collapse_dashes(s)[i] == rest[i - 1]);
            }
        }
    }
}

proof fn lemma_strip_leading_keeps_slug(s: Seq<u8>)
    requires
        forall|i: int| 0 <= i < s.len() ==> is_slug_byte(#[trigger] s[i]),
    ensures
        forall|i: int|
            0 <= i < strip_leading(s).len() ==> is_slug_byte(#[trigger] strip_leading(s)[i]),
    decreases s.len(),
{
    if s.len() > 0 && s[0] == 45 {
        assert(forall|i: int|
            0 <= i < s.drop_first().len() ==> is_slug_byte(#[trigger] s.drop_first()[i]));
        lemma_strip_leading_keeps_slug(s.drop_first());
        let rest = strip_leading(s.drop_first());
        assert forall|i: int| 0 <= i < strip_leading(s).len()
            implies is_slug_byte(#[trigger] strip_leading(s)[i]) by {
            assert(strip_leading(s)[i] == rest[i]);
        }
    }
}

proof fn lemma_strip_trailing_keeps_slug(s: Seq<u8>)
    requires
        forall|i: int| 0 <= i < s.len() ==> is_slug_byte(#[trigger] s[i]),
    ensures
        forall|i: int|
            0 <= i < strip_trailing(s).len() ==> is_slug_byte(#[trigger] strip_trailing(s)[i]),
    decreases s.len(),
{
    if s.len() > 0 && s[s.len() - 1] == 45 {
        assert(forall|i: int|
            0 <= i < s.drop_last().len() ==> is_slug_byte(#[trigger] s.drop_last()[i]));
        lemma_strip_trailing_keeps_slug(s.drop_last());
        let rest = strip_trailing(s.drop_last());
        assert forall|i: int| 0 <= i < strip_trailing(s).len()
            implies is_slug_byte(#[trigger] strip_trailing(s)[i]) by {
            assert(strip_trailing(s)[i] == rest[i]);
        }
    }
}

/// After stripping, a nonempty sequence does not start with `-`.
proof fn lemma_strip_leading_no_lead(s: Seq<u8>)
    ensures
        strip_leading(s).len() > 0 ==> strip_leading(s)[0] != 45,
    decreases s.len(),
{
    if s.len() > 0 && s[0] == 45 {
        lemma_strip_leading_no_lead(s.drop_first());
    }
}

/// After stripping, a nonempty sequence does not end with `-`.
proof fn lemma_strip_trailing_no_trail(s: Seq<u8>)
    ensures
        strip_trailing(s).len() > 0 ==> strip_trailing(s)[strip_trailing(s).len() - 1] != 45,
    decreases s.len(),
{
    if s.len() > 0 && s[s.len() - 1] == 45 {
        lemma_strip_trailing_no_trail(s.drop_last());
    }
}

/// Stripping trailing dashes does not change the first element.
proof fn lemma_strip_trailing_keeps_first(s: Seq<u8>)
    ensures
        strip_trailing(s).len() > 0 ==> strip_trailing(s)[0] == s[0],
    decreases s.len(),
{
    if s.len() > 0 && s[s.len() - 1] == 45 {
        lemma_strip_trailing_keeps_first(s.drop_last());
    }
}

} // verus!
