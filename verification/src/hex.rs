//! Canonical lowercase hexadecimal encoding of machine words.
//!
//! Every identifier and numeric field that the engine persists is written
//! as a fixed-width string over the sixteen-character alphabet `0-9a-f`.
//! The functions here are the sole text codec for such numbers, and the
//! lemmas establish that encoding and decoding invert each other.

use vstd::prelude::*;

verus! {

/// The numeric value of one hexadecimal digit, or 16 for any other character.
pub open spec fn hex_val(c: char) -> nat {
    if c == '0' { 0 } else if c == '1' { 1 } else if c == '2' { 2 } else if c == '3' { 3 }
    else if c == '4' { 4 } else if c == '5' { 5 } else if c == '6' { 6 } else if c == '7' { 7 }
    else if c == '8' { 8 } else if c == '9' { 9 } else if c == 'a' { 10 } else if c == 'b' { 11 }
    else if c == 'c' { 12 } else if c == 'd' { 13 } else if c == 'e' { 14 } else if c == 'f' { 15 }
    else { 16 }
}

/// Whether a character belongs to the canonical (lowercase) hex alphabet.
pub open spec fn is_hex_digit(c: char) -> bool {
    hex_val(c) < 16
}

/// The canonical digit character for a value below sixteen.
pub open spec fn hex_char(v: nat) -> char {
    if v == 0 { '0' } else if v == 1 { '1' } else if v == 2 { '2' } else if v == 3 { '3' }
    else if v == 4 { '4' } else if v == 5 { '5' } else if v == 6 { '6' } else if v == 7 { '7' }
    else if v == 8 { '8' } else if v == 9 { '9' } else if v == 10 { 'a' } else if v == 11 { 'b' }
    else if v == 12 { 'c' } else if v == 13 { 'd' } else if v == 14 { 'e' } else { 'f' }
}

/// Whether every character of a text is a canonical hex digit.
pub open spec fn all_hex(s: Seq<char>) -> bool {
    forall|i: int| 0 <= i < s.len() ==> is_hex_digit(#[trigger] s[i])
}

/// Sixteen to the given power.
pub open spec fn pow16(n: nat) -> nat
    decreases n,
{
    if n == 0 { 1 } else { 16 * pow16((n - 1) as nat) }
}

/// The number denoted by a big-endian string of hex digits.
pub open spec fn hex_value(s: Seq<char>) -> nat
    decreases s.len(),
{
    if s.len() == 0 { 0 } else { 16 * hex_value(s.drop_last()) + hex_val(s.last()) }
}

/// The canonical big-endian encoding of a number in exactly `n` digits.
pub open spec fn hex_seq(n: nat, v: nat) -> Seq<char>
    decreases n,
{
    if n == 0 { Seq::empty() } else { hex_seq((n - 1) as nat, v / 16).push(hex_char(v % 16)) }
}

pub proof fn lemma_hex_char_val(v: nat)
    requires
        v < 16,
    ensures
        hex_val(hex_char(v)) == v,
        is_hex_digit(hex_char(v)),
{
}

pub proof fn lemma_hex_val_char(c: char)
    requires
        is_hex_digit(c),
    ensures
        hex_char(hex_val(c)) == c,
{
}

pub proof fn lemma_hex_seq_len(n: nat, v: nat)
    ensures
        hex_seq(n, v).len() == n,
    decreases n,
{
    if n > 0 {
        lemma_hex_seq_len((n - 1) as nat, v / 16);
    }
}

/// A string of `n` hex digits denotes a value below sixteen to the `n`.
pub proof fn lemma_hex_value_bound(s: Seq<char>)
    requires
        all_hex(s),
    ensures
        hex_value(s) < pow16(s.len()),
    decreases s.len(),
{
    if s.len() > 0 {
        assert(all_hex(s.drop_last()));
        lemma_hex_value_bound(s.drop_last());
        assert(hex_val(s.last()) < 16);
    }
}

/// Decoding the canonical encoding of any value below sixteen to the `n`
/// gives the value back, and the encoding is made of hex digits.
pub proof fn lemma_decode_encode(n: nat, v: nat)
    requires
        v < pow16(n),
    ensures
        hex_seq(n, v).len() == n,
        all_hex(hex_seq(n, v)),
        hex_value(hex_seq(n, v)) == v,
    decreases n,
{
    lemma_hex_seq_len(n, v);
    if n == 0 {
    } else {
        assert(pow16(n) == 16 * pow16((n - 1) as nat));
        assert(v / 16 < pow16((n - 1) as nat)) by (nonlinear_arith)
            requires v < 16 * pow16((n - 1) as nat),
        ;
        lemma_decode_encode((n - 1) as nat, v / 16);
        let s = hex_seq(n, v);
        let pre = hex_seq((n - 1) as nat, v / 16);
        assert(s == pre.push(hex_char(v % 16)));
        assert(s.drop_last() =~= pre);
        assert(s.last() == hex_char(v % 16));
        assert(v % 16 < 16) by (nonlinear_arith);
        lemma_hex_char_val(v % 16);
        assert(hex_value(s) == 16 * hex_value(pre) + hex_val(s.last()));
        assert(16 * (v / 16) + v % 16 == v) by (nonlinear_arith);
        assert forall|i: int| 0 <= i < s.len() implies is_hex_digit(s[i]) by {
            if i < n - 1 {
                assert(s[i] == pre[i]);
            }
        }
    }
}

/// Encoding the value denoted by a string of hex digits, at that string's
/// own width, gives the string back: the canonical text round-trips.
pub proof fn lemma_encode_decode(s: Seq<char>)
    requires
        all_hex(s),
    ensures
        hex_seq(s.len(), hex_value(s)) == s,
    decreases s.len(),
{
    if s.len() == 0 {
        assert(hex_seq(0, 0) =~= s);
    } else {
        let dl = s.drop_last();
        let d = hex_val(s.last());
        assert(all_hex(dl));
        assert(is_hex_digit(s.last()));
        lemma_encode_decode(dl);
        let v = hex_value(s);
        assert(v == 16 * hex_value(dl) + d);
        assert(d < 16);
        assert(v / 16 == hex_value(dl) && v % 16 == d) by (nonlinear_arith)
            requires v == 16 * hex_value(dl) + d, d < 16,
        ;
        lemma_hex_val_char(s.last());
        assert(hex_seq(s.len(), v) == hex_seq(dl.len(), hex_value(dl)).push(hex_char(d)));
        assert(hex_seq(s.len(), v) =~= s);
    }
}

/// The two powers of sixteen that bound the widths used here.
pub proof fn lemma_pow16_values()
    ensures
        pow16(15) == 0x1000000000000000,
        pow16(16) == 0x10000000000000000,
{
    assert(pow16(0) == 1);
    assert(pow16(1) == 16);
    assert(pow16(2) == 0x100);
    assert(pow16(3) == 0x1000);
    assert(pow16(4) == 0x10000);
    assert(pow16(5) == 0x100000);
    assert(pow16(6) == 0x1000000);
    assert(pow16(7) == 0x10000000);
    assert(pow16(8) == 0x100000000);
    assert(pow16(9) == 0x1000000000);
    assert(pow16(10) == 0x10000000000);
    assert(pow16(11) == 0x100000000000);
    assert(pow16(12) == 0x1000000000000);
    assert(pow16(13) == 0x10000000000000);
    assert(pow16(14) == 0x100000000000000);
    assert(pow16(15) == 0x1000000000000000);
    assert(pow16(16) == 0x10000000000000000);
}

/// Every 64-bit value lies below sixteen to the sixteenth.
pub proof fn lemma_u64_below_pow16_16(v: u64)
    ensures
        (v as nat) < pow16(16),
{
    lemma_pow16_values();
}

/// Appends the canonical digit character for a value below sixteen.
fn push_hex_char(s: &mut String, d: u64)
    requires
        d < 16,
    ensures
        final(s)@ == old(s)@.push(hex_char(d as nat)),
{
    if d == 0 { proof { reveal_strlit("0"); } s.append("0"); assert(s@ =~= old(s)@.push('0')); }
    else if d == 1 { proof { reveal_strlit("1"); } s.append("1"); assert(s@ =~= old(s)@.push('1')); }
    else if d == 2 { proof { reveal_strlit("2"); } s.append("2"); assert(s@ =~= old(s)@.push('2')); }
    else if d == 3 { proof { reveal_strlit("3"); } s.append("3"); assert(s@ =~= old(s)@.push('3')); }
    else if d == 4 { proof { reveal_strlit("4"); } s.append("4"); assert(s@ =~= old(s)@.push('4')); }
    else if d == 5 { proof { reveal_strlit("5"); } s.append("5"); assert(s@ =~= old(s)@.push('5')); }
    else if d == 6 { proof { reveal_strlit("6"); } s.append("6"); assert(s@ =~= old(s)@.push('6')); }
    else if d == 7 { proof { reveal_strlit("7"); } s.append("7"); assert(s@ =~= old(s)@.push('7')); }
    else if d == 8 { proof { reveal_strlit("8"); } s.append("8"); assert(s@ =~= old(s)@.push('8')); }
    else if d == 9 { proof { reveal_strlit("9"); } s.append("9"); assert(s@ =~= old(s)@.push('9')); }
    else if d == 10 { proof { reveal_strlit("a"); } s.append("a"); assert(s@ =~= old(s)@.push('a')); }
    else if d == 11 { proof { reveal_strlit("b"); } s.append("b"); assert(s@ =~= old(s)@.push('b')); }
    else if d == 12 { proof { reveal_strlit("c"); } s.append("c"); assert(s@ =~= old(s)@.push('c')); }
    else if d == 13 { proof { reveal_strlit("d"); } s.append("d"); assert(s@ =~= old(s)@.push('d')); }
    else if d == 14 { proof { reveal_strlit("e"); } s.append("e"); assert(s@ =~= old(s)@.push('e')); }
    else { proof { reveal_strlit("f"); } s.append("f"); assert(s@ =~= old(s)@.push('f')); }
}

/// Renders a value as exactly `n` big-endian hex digits.
pub fn hex_encode(n: u64, v: u64) -> (s: String)
    ensures
        s@ == hex_seq(n as nat, v as nat),
    decreases n,
{
    if n == 0 {
        let s = String::new();
        assert(s@ =~= hex_seq(0, v as nat));
        s
    } else {
        let mut s = hex_encode(n - 1, v / 16);
        push_hex_char(&mut s, v % 16);
        s
    }
}

/// The numeric value of one hexadecimal character, if it is one.
fn hex_digit_value(c: char) -> (r: Option<u64>)
    ensures
        r is Some <==> is_hex_digit(c),
        r is Some ==> r->0 as nat == hex_val(c),
{
    if c == '0' { Some(0) } else if c == '1' { Some(1) } else if c == '2' { Some(2) }
    else if c == '3' { Some(3) } else if c == '4' { Some(4) } else if c == '5' { Some(5) }
    else if c == '6' { Some(6) } else if c == '7' { Some(7) } else if c == '8' { Some(8) }
    else if c == '9' { Some(9) } else if c == 'a' { Some(10) } else if c == 'b' { Some(11) }
    else if c == 'c' { Some(12) } else if c == 'd' { Some(13) } else if c == 'e' { Some(14) }
    else if c == 'f' { Some(15) } else { None }
}

/// Reads the number denoted by the characters of `s` between `from` and
/// `to`, or nothing if one of them is not a canonical hex digit.
pub fn hex_decode(s: &str, from: usize, to: usize) -> (r: Option<u64>)
    requires
        from <= to <= s@.len(),
        to - from <= 16,
    ensures
        r is Some <==> all_hex(s@.subrange(from as int, to as int)),
        r is Some ==> r->0 as nat == hex_value(s@.subrange(from as int, to as int)),
    decreases to - from,
{
    let ghost sub = s@.subrange(from as int, to as int);
    if to == from {
        assert(sub =~= Seq::<char>::empty());
        Some(0)
    } else {
        let c = s.get_char(to - 1);
        assert(sub.last() == c);
        assert(sub.drop_last() =~= s@.subrange(from as int, to - 1));
        match hex_digit_value(c) {
            None => {
                assert(!all_hex(sub));
                None
            },
            Some(d) => {
                match hex_decode(s, from, to - 1) {
                    None => {
                        assert(!all_hex(sub)) by {
                            let pre = s@.subrange(from as int, to - 1);
                            let j = choose|i: int| 0 <= i < pre.len() && !is_hex_digit(pre[i]);
                            assert(!is_hex_digit(sub[j]));
                        }
                        None
                    },
                    Some(hi) => {
                        proof {
                            assert(all_hex(sub)) by {
                                let pre = s@.subrange(from as int, to - 1);
                                assert forall|i: int| 0 <= i < sub.len() implies is_hex_digit(sub[i]) by {
                                    if i < sub.len() - 1 {
                                        assert(sub[i] == pre[i]);
                                    }
                                }
                            }
                            lemma_hex_value_bound(sub.drop_last());
                            lemma_pow16_values();
                            assert(pow16((to - from - 1) as nat) <= pow16(15)) by {
                                lemma_pow16_le((to - from - 1) as nat, 15);
                            }
                        }
                        Some(hi * 16 + d)
                    },
                }
            },
        }
    }
}

/// Sixteen to a smaller power is no larger.
pub proof fn lemma_pow16_le(a: nat, b: nat)
    requires
        a <= b,
    ensures
        pow16(a) <= pow16(b),
    decreases b,
{
    if a < b {
        lemma_pow16_le(a, (b - 1) as nat);
        assert(pow16(b) == 16 * pow16((b - 1) as nat));
        assert(pow16((b - 1) as nat) <= 16 * pow16((b - 1) as nat)) by (nonlinear_arith)
            requires pow16((b - 1) as nat) >= 0,
        ;
    }
}

} // verus!
