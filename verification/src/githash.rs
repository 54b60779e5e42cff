//! Commit identifiers of the revision store.
//!
//! A commit id is an opaque 40-character lowercase hex string. The store
//! derives fresh ids from its own commit counter, so distinct commits of one
//! store always carry distinct ids.

use vstd::prelude::*;

use crate::text::{ascii_chars, hex_bytes, lemma_hex_bytes_ascii, lemma_hex_bytes_injective,
    pow16, u64_to_hex};

verus! {

/// An ASCII decimal digit or lowercase hex letter.
pub open spec fn is_hex_lower_char(c: char) -> bool {
    (48 <= c as int && c as int <= 57) || (97 <= c as int && c as int <= 102)
}

/// A well-formed commit id: 40 lowercase hex characters.
pub open spec fn is_git_hash(s: Seq<char>) -> bool {
    &&& s.len() == 40
    &&& forall|i: int| 0 <= i < s.len() ==> is_hex_lower_char(#[trigger] s[i])
}

/// A commit id of the revision store.
#[derive(Debug)]
pub struct GitHash {
    inner: String,
}

impl View for GitHash {
    type V = Seq<char>;

    closed spec fn view(&self) -> Seq<char> {
        self.inner@
    }
}

impl GitHash {
    /// Wraps a string that is already known to be a well-formed commit id.
    pub fn from_checked(s: String) -> (r: GitHash)
        requires
            is_git_hash(s@),
        ensures
            r@ == s@,
    {
        GitHash { inner: s }
    }

    /// The commit id as a string slice.
    pub fn as_str(&self) -> (r: &str)
        ensures
            r@ == self@,
    {
        self.inner.as_str()
    }

    /// A copy of this commit id.
    pub fn duplicate(&self) -> (r: GitHash)
        ensures
            r@ == self@,
    {
        GitHash { inner: self.inner.clone() }
    }

    /// Whether two commit ids are the same.
    pub fn eq_hash(&self, other: &GitHash) -> (r: bool)
        ensures
            r == (self@ == other@),
    {
        self.inner == other.inner
    }

    /// The commit id assigned to the `n`-th commit of a store.
    pub fn of_index(n: u64) -> (r: GitHash)
        ensures
            r@ == hash_chars(n as nat),
    {
        let bytes = u64_to_hex(n, 40);
        proof {
            lemma_hex_bytes_ascii(n as nat, 40);
        }
        let s = crate::text::ascii_string(bytes);
        GitHash { inner: s }
    }
}

/// The characters of the commit id assigned to the `n`-th commit.
pub open spec fn hash_chars(n: nat) -> Seq<char> {
    ascii_chars(hex_bytes(n, 40))
}

/// Generated commit ids are well formed.
pub proof fn lemma_hash_chars_wf(n: nat)
    ensures
        is_git_hash(hash_chars(n)),
{
    lemma_hex_bytes_ascii(n, 40);
}

/// Distinct commit counters yield distinct commit ids.
pub proof fn lemma_hash_chars_injective(n1: nat, n2: nat)
    requires
        n1 < 0x1_0000_0000_0000_0000,
        n2 < 0x1_0000_0000_0000_0000,
        hash_chars(n1) == hash_chars(n2),
    ensures
        n1 == n2,
{
    lemma_hex_bytes_ascii(n1, 40);
    lemma_hex_bytes_ascii(n2, 40);
    assert forall|i: int| 0 <= i < 40
        implies #[trigger] hex_bytes(n1, 40)[i] == hex_bytes(n2, 40)[i] by {
        assert(hash_chars(n1)[i] == hex_bytes(n1, 40)[i] as char);
        assert(hash_chars(n2)[i] == hex_bytes(n2, 40)[i] as char);
        assert(hex_bytes(n1, 40)[i] < 128);
        assert(hex_bytes(n2, 40)[i] < 128);
        assert((hex_bytes(n1, 40)[i] as char) as int == hex_bytes(n1, 40)[i] as int);
        assert((hex_bytes(n2, 40)[i] as char) as int == hex_bytes(n2, 40)[i] as int);
    }
    assert(hex_bytes(n1, 40) =~= hex_bytes(n2, 40));
    lemma_pow16_grows(16, 40);
    lemma_pow16_16();
    lemma_hex_bytes_injective(n1, n2, 40);
}

/// Sixteen hex digits already cover every 64-bit value.
proof fn lemma_pow16_16()
    ensures
        pow16(16) == 0x1_0000_0000_0000_0000,
{
    assert(pow16(0) == 1);
    assert(pow16(1) == 0x10);
    assert(pow16(2) == 0x100);
    assert(pow16(3) == 0x1000);
    assert(pow16(4) == 0x1_0000);
    assert(pow16(5) == 0x10_0000);
    assert(pow16(6) == 0x100_0000);
    assert(pow16(7) == 0x1000_0000);
    assert(pow16(8) == 0x1_0000_0000);
    assert(pow16(9) == 0x10_0000_0000);
    assert(pow16(10) == 0x100_0000_0000);
    assert(pow16(11) == 0x1000_0000_0000);
    assert(pow16(12) == 0x1_0000_0000_0000);
    assert(pow16(13) == 0x10_0000_0000_0000);
    assert(pow16(14) == 0x100_0000_0000_0000);
    assert(pow16(15) == 0x1000_0000_0000_0000);
    assert(pow16(16) == 0x1_0000_0000_0000_0000);
}

/// `pow16` is monotone in the exponent.
proof fn lemma_pow16_grows(w1: nat, w2: nat)
    requires
        w1 <= w2,
    ensures
        pow16(w1) <= pow16(w2),
    decreases w2 - w1,
{
    if w1 < w2 {
        lemma_pow16_grows(w1, (w2 - 1) as nat);
        lemma_pow16_pos((w2 - 1) as nat);
    }
}

/// `pow16` is positive.
proof fn lemma_pow16_pos(w: nat)
    ensures
        pow16(w) >= 1,
    decreases w,
{
    if w > 0 {
        lemma_pow16_pos((w - 1) as nat);
    }
}

} // verus!
