//! The stable identifier of an issue.
//!
//! A hash is a 64-bit value assigned once when an issue is created and
//! never recomputed.  Its canonical text form is exactly sixteen lowercase
//! hexadecimal digits; parsing is the only public way to obtain a hash from
//! text, and rendering the parse of any canonical text gives the text back.

use vstd::prelude::*;

use crate::hex::{all_hex, hex_decode, hex_encode, hex_seq, hex_value, pow16,
    lemma_decode_encode, lemma_encode_decode, lemma_hex_value_bound, lemma_u64_below_pow16_16};
use crate::Error;

verus! {

/// Text that denotes a hash: exactly sixteen lowercase hex digits.
pub open spec fn valid_hash_text(s: Seq<char>) -> bool {
    s.len() == 16 && all_hex(s)
}

/// The canonical text of a hash value.
pub open spec fn hash_text(v: u64) -> Seq<char> {
    hex_seq(16, v as nat)
}

/// The immutable identifier of one issue.
#[derive(Clone, Copy, Debug, PartialEq, Eq, PartialOrd, Ord, Hash, Structural)]
pub struct IssueHash {
    value: u64,
}

impl View for IssueHash {
    type V = u64;

    closed spec fn view(&self) -> u64 {
        self.value
    }
}

impl IssueHash {
    /// A hash from its raw 64-bit value.  The creation path derives this
    /// value internally; callers outside issue creation go through `parse`.
    pub(crate) fn from_value(value: u64) -> (r: IssueHash)
        ensures
            r@ == value,
    {
        IssueHash { value }
    }

    /// Parses canonical hash text.  Succeeds exactly on sixteen lowercase
    /// hex digits; any other text is rejected with a `ParseError` that
    /// carries the offending text.
    pub fn parse(s: &str) -> (r: Result<IssueHash, Error>)
        ensures
            r is Ok <==> valid_hash_text(s@),
            r is Ok ==> r->Ok_0@ as nat == hex_value(s@),
            r is Err ==> (r->Err_0 matches Error::ParseError(t) && t@ == s@),
    {
        let n = s.unicode_len();
        if n != 16 {
            return Err(Error::ParseError(s.to_owned()));
        }
        assert(s@.subrange(0, 16) =~= s@);
        match hex_decode(s, 0, 16) {
            Some(v) => Ok(IssueHash { value: v }),
            None => Err(Error::ParseError(s.to_owned())),
        }
    }

    /// The canonical text of this hash: sixteen lowercase hex digits.
    pub fn to_text(&self) -> (r: String)
        ensures
            r@ == hash_text(self@),
    {
        hex_encode(16, self.value)
    }

    /// Whether two hashes name the same issue.
    pub fn same(&self, other: &IssueHash) -> (r: bool)
        ensures
            r == (self@ == other@),
    {
        self.value == other.value
    }
}

/// Law: for every valid hash text, rendering the parsed hash gives the
/// text back unchanged.
pub proof fn lemma_hash_text_round_trip(t: Seq<char>)
    requires
        valid_hash_text(t),
    ensures
        hex_value(t) < pow16(16),
        hash_text(hex_value(t) as u64) == t,
{
    lemma_hex_value_bound(t);
    crate::hex::lemma_pow16_values();
    lemma_encode_decode(t);
}

/// Law: the canonical text of every hash parses back to the same hash.
pub proof fn lemma_hash_value_round_trip(v: u64)
    ensures
        valid_hash_text(hash_text(v)),
        hex_value(hash_text(v)) == v as nat,
{
    lemma_u64_below_pow16_16(v);
    lemma_decode_encode(16, v as nat);
}

} // verus!
