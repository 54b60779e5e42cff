//! Ordering and rendering of text.
//!
//! Tags and slugs are ordered lexicographically by scalar value, the order
//! that the catalog's sorted columns use. Commit identifiers and commit
//! messages are rendered from integers, so everything here is stated over
//! mathematical sequences.

use vstd::prelude::*;

verus! {

/// Strict lexicographic order on character sequences, by scalar value.
pub open spec fn seq_lt(a: Seq<char>, b: Seq<char>) -> bool
    decreases a.len(),
{
    if b.len() == 0 {
        false
    } else if a.len() == 0 {
        true
    } else if (a[0] as int) < (b[0] as int) {
        true
    } else if a[0] == b[0] {
        seq_lt(a.drop_first(), b.drop_first())
    } else {
        false
    }
}

/// Exactly one of `seq_lt(a, b)`, `seq_lt(b, a)` and `a == b` holds.
pub proof fn lemma_seq_lt_trichotomy(a: Seq<char>, b: Seq<char>)
    ensures
        seq_lt(a, b) || seq_lt(b, a) || a =~= b,
        seq_lt(a, b) ==> !seq_lt(b, a),
        seq_lt(a, b) ==> !(a =~= b),
    decreases a.len(),
{
    if b.len() == 0 && a.len() == 0 {
        assert(a =~= b);
    } else if b.len() == 0 || a.len() == 0 {
    } else if a[0] == b[0] {
        lemma_seq_lt_trichotomy(a.drop_first(), b.drop_first());
        if a.drop_first() =~= b.drop_first() {
            assert forall|i: int| 0 <= i < a.len() implies a[i] == b[i] by {
                if i > 0 {
                    assert(a[i] == a.drop_first()[i - 1]);
                    assert(b[i] == b.drop_first()[i - 1]);
                }
            }
            assert(a =~= b);
        }
        if a =~= b {
            assert forall|i: int| 0 <= i < a.drop_first().len()
                implies a.drop_first()[i] == b.drop_first()[i] by {
                assert(a.drop_first()[i] == a[i + 1]);
                assert(b.drop_first()[i] == b[i + 1]);
            }
            assert(a.drop_first() =~= b.drop_first());
        }
    } else {
        if (a[0] as int) < (b[0] as int) {
            assert(seq_lt(a, b));
        } else {
            assert((b[0] as int) < (a[0] as int));
            assert(seq_lt(b, a));
        }
    }
}

/// Lexicographic order is transitive.
pub proof fn lemma_seq_lt_trans(a: Seq<char>, b: Seq<char>, c: Seq<char>)
    requires
        seq_lt(a, b),
        seq_lt(b, c),
    ensures
        seq_lt(a, c),
    decreases a.len(),
{
    if a.len() == 0 || b.len() == 0 || c.len() == 0 {
    } else if a[0] == b[0] && b[0] == c[0] {
        lemma_seq_lt_trans(a.drop_first(), b.drop_first(), c.drop_first());
    }
}

/// Compares two string slices in the order of `seq_lt`.
pub fn str_lt(a: &str, b: &str) -> (r: bool)
    ensures
        r == seq_lt(a@, b@),
{
    let a_len = a.unicode_len();
    let b_len = b.unicode_len();
    proof {
        assert(a@.skip(0) =~= a@);
        assert(b@.skip(0) =~= b@);
    }
    str_lt_from(a, b, a_len, b_len, 0)
}

fn str_lt_from(a: &str, b: &str, a_len: usize, b_len: usize, i: usize) -> (r: bool)
    requires
        a_len == a@.len(),
        b_len == b@.len(),
        i <= a_len,
        i <= b_len,
    ensures
        r == seq_lt(a@.skip(i as int), b@.skip(i as int)),
    decreases a_len - i,
{
    if i == b_len {
        false
    } else if i == a_len {
        true
    } else {
        let ca = a.get_char(i);
        let cb = b.get_char(i);
        proof {
            assert(a@.skip(i as int)[0] == a@[i as int]);
            assert(b@.skip(i as int)[0] == b@[i as int]);
        }
        if ca < cb {
            true
        } else if ca == cb {
            let r = str_lt_from(a, b, a_len, b_len, i + 1);
            proof {
                assert(a@.skip(i as int).drop_first() =~= a@.skip(i + 1));
                assert(b@.skip(i as int).drop_first() =~= b@.skip(i + 1));
            }
            r
        } else {
            false
        }
    }
}

/// Compares two string slices for character-for-character equality.
pub fn str_eq(a: &str, b: &str) -> (r: bool)
    ensures
        r == (a@ =~= b@),
{
    let a_len = a.unicode_len();
    let b_len = b.unicode_len();
    if a_len != b_len {
        return false;
    }
    proof {
        assert(a@.skip(0) =~= a@);
        assert(b@.skip(0) =~= b@);
    }
    str_eq_from(a, b, a_len, 0)
}

fn str_eq_from(a: &str, b: &str, len: usize, i: usize) -> (r: bool)
    requires
        len == a@.len(),
        len == b@.len(),
        i <= len,
    ensures
        r == (a@.skip(i as int) =~= b@.skip(i as int)),
    decreases len - i,
{
    if i == len {
        true
    } else {
        let ca = a.get_char(i);
        let cb = b.get_char(i);
        if ca == cb {
            let r = str_eq_from(a, b, len, i + 1);
            proof {
                assert(ca == a@[i as int]);
                assert(cb == b@[i as int]);
                assert(a@.skip(i as int)[0] == a@[i as int]);
                assert(b@.skip(i as int)[0] == b@[i as int]);
                if r {
                    assert forall|k: int| 0 <= k < a@.skip(i as int).len()
                        implies a@.skip(i as int)[k] == b@.skip(i as int)[k] by {
                        if k > 0 {
                            assert(a@.skip(i as int)[k] == a@.skip(i + 1)[k - 1]);
                            assert(b@.skip(i as int)[k] == b@.skip(i + 1)[k - 1]);
                        }
                    }
                    assert(a@.skip(i as int) =~= b@.skip(i as int));
                } else {
                    if a@.skip(i as int) =~= b@.skip(i as int) {
                        assert forall|k: int| 0 <= k < a@.skip(i + 1).len()
                            implies #[trigger] a@.skip(i + 1)[k] == b@.skip(i + 1)[k] by {
                            assert(a@.skip(i + 1)[k] == a@.skip(i as int)[k + 1]);
                            assert(b@.skip(i + 1)[k] == b@.skip(i as int)[k + 1]);
                        }
                        assert(a@.skip(i + 1) =~= b@.skip(i + 1));
                    }
                }
            }
            r
        } else {
            proof {
                assert(ca == a@[i as int]);
                assert(cb == b@[i as int]);
                if a@.skip(i as int) =~= b@.skip(i as int) {
                    assert(a@.skip(i as int)[0] == b@.skip(i as int)[0]);
                    assert(a@[i as int] == b@[i as int]);
                }
            }
            false
        }
    }
}

/// The position of the first element satisfying `p`, if any.
pub open spec fn first_where<T>(s: Seq<T>, p: spec_fn(T) -> bool) -> Option<int>
    decreases s.len(),
{
    if s.len() == 0 {
        None
    } else if p(s[0]) {
        Some(0int)
    } else {
        match first_where(s.drop_first(), p) {
            Some(j) => Some(j + 1),
            None => None,
        }
    }
}

/// Where `first_where` points and what `None` means.
pub proof fn lemma_first_where_bounds<T>(s: Seq<T>, p: spec_fn(T) -> bool)
    ensures
        match first_where(s, p) {
            Some(i) => 0 <= i < s.len() && p(s[i]) && forall|j: int| 0 <= j < i ==> !p(#[trigger] s[j]),
            None => forall|j: int| 0 <= j < s.len() ==> !p(#[trigger] s[j]),
        },
    decreases s.len(),
{
    if s.len() > 0 && !p(s[0]) {
        lemma_first_where_bounds(s.drop_first(), p);
        match first_where(s.drop_first(), p) {
            Some(j) => {
                assert(s.drop_first()[j] == s[j + 1]);
                assert forall|i: int| 0 <= i < j + 1 implies !p(#[trigger] s[i]) by {
                    if i > 0 {
                        assert(s[i] == s.drop_first()[i - 1]);
                    }
                }
            },
            None => {
                assert forall|j: int| 0 <= j < s.len() implies !p(#[trigger] s[j]) by {
                    if j > 0 {
                        assert(s[j] == s.drop_first()[j - 1]);
                    }
                }
            },
        }
    }
}

/// The first match is what `first_where` returns.
pub proof fn lemma_first_where_holds<T>(s: Seq<T>, p: spec_fn(T) -> bool, k: int)
    requires
        0 <= k < s.len(),
        p(s[k]),
        forall|j: int| 0 <= j < k ==> !p(#[trigger] s[j]),
    ensures
        first_where(s, p) == Some(k),
    decreases s.len(),
{
    if k > 0 {
        assert forall|j: int| 0 <= j < k - 1 implies !p(#[trigger] s.drop_first()[j]) by {
            assert(s.drop_first()[j] == s[j + 1]);
        }
        assert(s.drop_first()[k - 1] == s[k]);
        lemma_first_where_holds(s.drop_first(), p, k - 1);
    }
}

/// Sequences on which `p` agrees pointwise give the same first match.
pub proof fn lemma_first_where_pointwise<T>(s1: Seq<T>, s2: Seq<T>, p: spec_fn(T) -> bool)
    requires
        s1.len() == s2.len(),
        forall|i: int| 0 <= i < s1.len() ==> p(#[trigger] s1[i]) == p(#[trigger] s2[i]),
    ensures
        first_where(s1, p) == first_where(s2, p),
    decreases s1.len(),
{
    if s1.len() > 0 {
        assert(p(s1[0]) == p(s2[0]));
        assert forall|i: int| 0 <= i < s1.drop_first().len()
            implies p(#[trigger] s1.drop_first()[i]) == p(#[trigger] s2.drop_first()[i]) by {
            assert(s1.drop_first()[i] == s1[i + 1]);
            assert(s2.drop_first()[i] == s2[i + 1]);
        }
        lemma_first_where_pointwise(s1.drop_first(), s2.drop_first(), p);
    }
}

/// The position of the last element satisfying `p`, if any.
pub open spec fn last_where<T>(s: Seq<T>, p: spec_fn(T) -> bool) -> Option<int>
    decreases s.len(),
{
    if s.len() == 0 {
        None
    } else if p(s.last()) {
        Some(s.len() - 1)
    } else {
        last_where(s.drop_last(), p)
    }
}

/// Where `last_where` points and what `None` means.
pub proof fn lemma_last_where_bounds<T>(s: Seq<T>, p: spec_fn(T) -> bool)
    ensures
        match last_where(s, p) {
            Some(i) => 0 <= i < s.len() && p(s[i]) && forall|j: int|
                i < j < s.len() ==> !p(#[trigger] s[j]),
            None => forall|j: int| 0 <= j < s.len() ==> !p(#[trigger] s[j]),
        },
    decreases s.len(),
{
    if s.len() > 0 && !p(s.last()) {
        lemma_last_where_bounds(s.drop_last(), p);
        match last_where(s.drop_last(), p) {
            Some(j) => {
                assert(s.drop_last()[j] == s[j]);
                assert forall|i: int| j < i < s.len() implies !p(#[trigger] s[i]) by {
                    if i < s.len() - 1 {
                        assert(s[i] == s.drop_last()[i]);
                    }
                }
            },
            None => {
                assert forall|j: int| 0 <= j < s.len() implies !p(#[trigger] s[j]) by {
                    if j < s.len() - 1 {
                        assert(s[j] == s.drop_last()[j]);
                    }
                }
            },
        }
    }
}

/// The last match is what `last_where` returns.
pub proof fn lemma_last_where_holds<T>(s: Seq<T>, p: spec_fn(T) -> bool, k: int)
    requires
        0 <= k < s.len(),
        p(s[k]),
        forall|j: int| k < j < s.len() ==> !p(#[trigger] s[j]),
    ensures
        last_where(s, p) == Some(k),
    decreases s.len(),
{
    if k < s.len() - 1 {
        assert forall|j: int| k < j < s.drop_last().len() implies !p(#[trigger] s.drop_last()[j]) by {
            assert(s.drop_last()[j] == s[j]);
        }
        assert(s.drop_last()[k] == s[k]);
        lemma_last_where_holds(s.drop_last(), p, k);
    }
}

/// The characters of an ASCII byte sequence.
pub open spec fn ascii_chars(bytes: Seq<u8>) -> Seq<char> {
    bytes.map_values(|b: u8| b as char)
}

/// Relies on `String::from_utf8`: a sequence of ASCII bytes is valid UTF-8
/// and decodes to the character with the same scalar value, byte for byte.
#[verifier::external_body]
pub fn ascii_string(bytes: Vec<u8>) -> (r: String)
    requires
        forall|i: int| 0 <= i < bytes@.len() ==> bytes@[i] < 128,
    ensures
        r@ =~= ascii_chars(bytes@),
{
    match String::from_utf8(bytes) {
        Ok(s) => s,
        Err(_) => String::new(),
    }
}

/// Relies on `String::from_iter` over `char`: the resulting string holds
/// exactly the given characters in order.
#[verifier::external_body]
pub fn chars_string(chars: &Vec<char>) -> (r: String)
    ensures
        r@ == chars@,
{
    chars.iter().collect()
}

/// The decimal digits of `n`, most significant first, as ASCII bytes.
pub open spec fn dec_bytes(n: nat) -> Seq<u8>
    decreases n,
{
    if n < 10 {
        seq![(48 + n) as u8]
    } else {
        dec_bytes(n / 10).push((48 + n % 10) as u8)
    }
}

/// Every decimal digit byte is an ASCII digit.
pub proof fn lemma_dec_bytes_ascii(n: nat)
    ensures
        forall|i: int| 0 <= i < dec_bytes(n).len() ==> 48 <= #[trigger] dec_bytes(n)[i] <= 57,
    decreases n,
{
    if n < 10 {
        assert(dec_bytes(n) =~= seq![(48 + n) as u8]);
        assert(dec_bytes(n)[0] == (48 + n) as u8);
    } else {
        lemma_dec_bytes_ascii(n / 10);
        let prefix = dec_bytes(n / 10);
        assert forall|i: int| 0 <= i < dec_bytes(n).len()
            implies 48 <= #[trigger] dec_bytes(n)[i] <= 57 by {
            if i < prefix.len() {
                assert(dec_bytes(n)[i] == prefix[i]);
            } else {
                assert(dec_bytes(n)[i] == (48 + n % 10) as u8);
            }
        }
    }
}

/// Renders `n` in decimal.
pub fn u64_to_dec(n: u64) -> (r: Vec<u8>)
    ensures
        r@ =~= dec_bytes(n as nat),
    decreases n,
{
    if n < 10 {
        let mut v = Vec::new();
        v.push(48 + n as u8);
        v
    } else {
        let mut v = u64_to_dec(n / 10);
        v.push(48 + (n % 10) as u8);
        v
    }
}

/// Renders `n` in decimal as a `String`.
pub fn u64_to_string(n: u64) -> (r: String)
    ensures
        r@ =~= ascii_chars(dec_bytes(n as nat)),
{
    let v = u64_to_dec(n);
    proof {
        lemma_dec_bytes_ascii(n as nat);
    }
    ascii_string(v)
}

/// The lowercase hex digit for a value below 16.
pub open spec fn hex_digit(d: nat) -> u8 {
    if d < 10 {
        (48 + d) as u8
    } else {
        (87 + d) as u8
    }
}

/// `n` in lowercase hex, `width` digits, most significant first.
pub open spec fn hex_bytes(n: nat, width: nat) -> Seq<u8>
    decreases width,
{
    if width == 0 {
        seq![]
    } else {
        hex_bytes(n / 16, (width - 1) as nat).push(hex_digit(n % 16))
    }
}

/// Fixed-width hex encodings of values below `16^width` are injective.
pub proof fn lemma_hex_bytes_injective(n1: nat, n2: nat, width: nat)
    requires
        n1 < pow16(width),
        n2 < pow16(width),
        hex_bytes(n1, width) =~= hex_bytes(n2, width),
    ensures
        n1 == n2,
    decreases width,
{
    if width > 0 {
        let w1 = (width - 1) as nat;
        lemma_hex_bytes_ascii(n1 / 16, w1);
        lemma_hex_bytes_ascii(n2 / 16, w1);
        assert(hex_bytes(n1, width) == hex_bytes(n1 / 16, w1).push(hex_digit(n1 % 16)));
        assert(hex_bytes(n2, width) == hex_bytes(n2 / 16, w1).push(hex_digit(n2 % 16)));
        assert(hex_bytes(n1, width)[width - 1] == hex_digit(n1 % 16));
        assert(hex_bytes(n2, width)[width - 1] == hex_digit(n2 % 16));
        assert(hex_digit(n1 % 16) == hex_digit(n2 % 16));
        assert(n1 % 16 == n2 % 16);
        assert forall|i: int| 0 <= i < w1
            implies #[trigger] hex_bytes(n1 / 16, w1)[i] == hex_bytes(n2 / 16, w1)[i] by {
            assert(hex_bytes(n1, width)[i] == hex_bytes(n1 / 16, w1)[i]);
            assert(hex_bytes(n2, width)[i] == hex_bytes(n2 / 16, w1)[i]);
        }
        assert(hex_bytes(n1 / 16, w1) =~= hex_bytes(n2 / 16, w1));
        assert(n1 == 16 * (n1 / 16) + n1 % 16);
        assert(n2 == 16 * (n2 / 16) + n2 % 16);
        assert(n1 / 16 < pow16(w1)) by {
            if n1 / 16 >= pow16(w1) {
                assert(16 * (n1 / 16) >= 16 * pow16(w1));
            }
        }
        assert(n2 / 16 < pow16(w1)) by {
            if n2 / 16 >= pow16(w1) {
                assert(16 * (n2 / 16) >= 16 * pow16(w1));
            }
        }
        lemma_hex_bytes_injective(n1 / 16, n2 / 16, w1);
    }
}

/// `16^width`.
pub open spec fn pow16(width: nat) -> nat
    decreases width,
{
    if width == 0 {
        1
    } else {
        16 * pow16((width - 1) as nat)
    }
}

/// Every hex digit byte is a lowercase hex character.
pub proof fn lemma_hex_bytes_ascii(n: nat, width: nat)
    ensures
        hex_bytes(n, width).len() == width,
        forall|i: int|
            0 <= i < width ==> is_hex_lower_byte(#[trigger] hex_bytes(n, width)[i]),
    decreases width,
{
    if width > 0 {
        lemma_hex_bytes_ascii(n / 16, (width - 1) as nat);
    }
}

/// An ASCII decimal digit or a lowercase hex letter.
pub open spec fn is_hex_lower_byte(b: u8) -> bool {
    (48 <= b <= 57) || (97 <= b <= 102)
}

/// Renders `n` in lowercase hex with the given number of digits.
pub fn u64_to_hex(n: u64, width: u64) -> (r: Vec<u8>)
    ensures
        r@ =~= hex_bytes(n as nat, width as nat),
    decreases width,
{
    if width == 0 {
        Vec::new()
    } else {
        let mut v = u64_to_hex(n / 16, width - 1);
        let d = (n % 16) as u8;
        if d < 10 {
            v.push(48 + d);
        } else {
            v.push(87 + d);
        }
        v
    }
}

} // verus!
