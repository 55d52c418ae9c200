//! Fixed-width hexadecimal rendering of 64-bit numbers, the numeric layer of
//! the row codec: every number is stored as exactly sixteen hex digits.

use vstd::prelude::*;

verus! {

use vstd::arithmetic::div_mod::{
    lemma_div_denominator, lemma_mod_breakdown, lemma_div_multiples_vanish,
};
use vstd::string::StringExecFns;
use vstd::string::StrSliceExecFns;

/// Sixteen to the `n`-th power.
pub open spec fn pow16(n: nat) -> nat
    decreases n,
{
    if n == 0 {
        1
    } else {
        16 * pow16((n - 1) as nat)
    }
}

pub proof fn lemma_pow16_pos(n: nat)
    ensures
        pow16(n) >= 1,
    decreases n,
{
    if n > 0 {
        lemma_pow16_pos((n - 1) as nat);
    }
}

pub proof fn lemma_pow16_mono(a: nat, b: nat)
    requires
        a <= b,
    ensures
        pow16(a) <= pow16(b),
    decreases b,
{
    if a < b {
        lemma_pow16_mono(a, (b - 1) as nat);
        lemma_pow16_pos((b - 1) as nat);
    }
}

/// The value of sixteen digit positions: one beyond the largest `u64`.
pub proof fn lemma_pow16_16()
    ensures
        pow16(15) == 0x1000_0000_0000_0000,
        pow16(16) == 0x1_0000_0000_0000_0000,
{
    assert(pow16(0) == 1);
    assert(pow16(1) == 16);
    assert(pow16(2) == 0x100);
    assert(pow16(3) == 0x1000);
    assert(pow16(4) == 0x1_0000);
    assert(pow16(5) == 0x10_0000);
    assert(pow16(6) == 0x100_0000);
    assert(pow16(7) == 0x1000_0000);
    assert(pow16(8) == 0x1_0000_0000);
    assert(pow16(9) == 0x10_0000_0000);
    assert(pow16(10) == 0x100_0000_0000);
    assert(pow16(11) == 0x1000_0000_0000);
    assert(pow16(12) == 0x1_0000_0000_0000);
    assert(pow16(13) == 0x10_0000_0000_0000);
    assert(pow16(14) == 0x100_0000_0000_0000);
    assert(pow16(15) == 0x1000_0000_0000_0000);
    assert(pow16(16) == 0x1_0000_0000_0000_0000);
}

/// The numeric value of a hex digit character, or a negative number for any
/// other character.
pub open spec fn hex_val(c: char) -> int {
    let u = c as int;
    if 48 <= u && u <= 57 {
        u - 48
    } else if 97 <= u && u <= 102 {
        u - 87
    } else {
        -1
    }
}

pub open spec fn is_hex_digit(c: char) -> bool {
    hex_val(c) >= 0
}

/// The lower-case hex digit character of a value below sixteen.
pub open spec fn hex_char(d: int) -> char {
    if d == 0 { '0' } else if d == 1 { '1' } else if d == 2 { '2' } else if d == 3 { '3' }
    else if d == 4 { '4' } else if d == 5 { '5' } else if d == 6 { '6' } else if d == 7 { '7' }
    else if d == 8 { '8' } else if d == 9 { '9' } else if d == 10 { 'a' } else if d == 11 { 'b' }
    else if d == 12 { 'c' } else if d == 13 { 'd' } else if d == 14 { 'e' } else { 'f' }
}

pub proof fn lemma_hex_char_val(d: int)
    requires
        0 <= d < 16,
    ensures
        hex_val(hex_char(d)) == d,
        is_hex_digit(hex_char(d)),
{
}

/// The `w` least significant hex digits of `v`, most significant first.
pub open spec fn u64_hex(v: nat, w: nat) -> Seq<char>
    decreases w,
{
    if w == 0 {
        Seq::empty()
    } else {
        u64_hex(v / 16, (w - 1) as nat).push(hex_char((v % 16) as int))
    }
}

/// The number read from a sequence of hex digit characters.
pub open spec fn hex_nat(s: Seq<char>) -> int
    decreases s.len(),
{
    if s.len() == 0 {
        0
    } else {
        hex_nat(s.drop_last()) * 16 + hex_val(s.last())
    }
}

pub open spec fn all_hex(s: Seq<char>) -> bool {
    forall|i: int| 0 <= i < s.len() ==> is_hex_digit(s[i])
}

pub proof fn lemma_u64_hex_len(v: nat, w: nat)
    ensures
        u64_hex(v, w).len() == w,
    decreases w,
{
    if w > 0 {
        lemma_u64_hex_len(v / 16, (w - 1) as nat);
    }
}

pub proof fn lemma_u64_hex_all_hex(v: nat, w: nat)
    ensures
        all_hex(u64_hex(v, w)),
    decreases w,
{
    if w > 0 {
        lemma_u64_hex_all_hex(v / 16, (w - 1) as nat);
        lemma_u64_hex_len(v / 16, (w - 1) as nat);
        let s = u64_hex(v, w);
        assert forall|i: int| 0 <= i < s.len() implies is_hex_digit(s[i]) by {
            if i < w - 1 {
                assert(s[i] == u64_hex(v / 16, (w - 1) as nat)[i]);
            } else {
                lemma_hex_char_val((v % 16) as int);
            }
        }
    }
}

/// Reading back the hex rendering of `v` yields `v` modulo the capacity of
/// the digit width.
pub proof fn lemma_hex_nat_u64_hex(v: nat, w: nat)
    ensures
        hex_nat(u64_hex(v, w)) == v % pow16(w),
    decreases w,
{
    lemma_pow16_pos(w);
    if w == 0 {
        assert(v as int % 1 == 0) by (nonlinear_arith);
    } else {
        lemma_hex_nat_u64_hex(v / 16, (w - 1) as nat);
        lemma_u64_hex_len(v / 16, (w - 1) as nat);
        let s = u64_hex(v, w);
        assert(s.drop_last() =~= u64_hex(v / 16, (w - 1) as nat));
        assert(s.last() == hex_char((v % 16) as int));
        lemma_hex_char_val((v % 16) as int);
        lemma_pow16_pos((w - 1) as nat);
        lemma_mod_breakdown(v as int, 16, pow16((w - 1) as nat) as int);
        assert(16 * pow16((w - 1) as nat) == pow16(w));
        assert(hex_nat(s) == ((v / 16) % pow16((w - 1) as nat)) * 16 + v % 16);
        assert(v % pow16(w) == 16 * ((v / 16) % pow16((w - 1) as nat)) + v % 16);
    }
}

/// Each digit of the rendering, indexed from the most significant end.
pub proof fn lemma_u64_hex_index(v: nat, w: nat, k: int)
    requires
        0 <= k < w,
    ensures
        u64_hex(v, w)[k] == hex_char(((v / pow16((w - 1 - k) as nat)) % 16) as int),
    decreases w,
{
    lemma_u64_hex_len(v / 16, (w - 1) as nat);
    if k == w - 1 {
        assert(pow16(0) == 1);
        assert(v / 1 == v) by {
            lemma_div_multiples_vanish(v as int, 1);
        }
    } else {
        lemma_u64_hex_index(v / 16, (w - 1) as nat, k);
        let p = pow16((w - 2 - k) as nat) as int;
        lemma_pow16_pos((w - 2 - k) as nat);
        lemma_div_denominator(v as int, 16, p);
        assert(16 * pow16((w - 2 - k) as nat) == pow16((w - 1 - k) as nat));
        assert((v as int / 16) / p == v as int / (16 * p));
    }
}

pub proof fn lemma_hex_nat_bound(s: Seq<char>)
    requires
        all_hex(s),
    ensures
        0 <= hex_nat(s) < pow16(s.len()),
    decreases s.len(),
{
    lemma_pow16_pos(s.len());
    if s.len() > 0 {
        assert(all_hex(s.drop_last())) by {
            assert(forall|i: int| 0 <= i < s.len() - 1 ==> s.drop_last()[i] == s[i]);
        }
        lemma_hex_nat_bound(s.drop_last());
        assert(is_hex_digit(s.last()));
    }
}

/// The lower-case hex digit as a one-character string slice.
fn hex_digit_str(d: u8) -> (r: &'static str)
    requires
        d < 16,
    ensures
        r@ =~= seq![hex_char(d as int)],
{
    proof {
        reveal_strlit("0"); reveal_strlit("1"); reveal_strlit("2"); reveal_strlit("3");
        reveal_strlit("4"); reveal_strlit("5"); reveal_strlit("6"); reveal_strlit("7");
        reveal_strlit("8"); reveal_strlit("9"); reveal_strlit("a"); reveal_strlit("b");
        reveal_strlit("c"); reveal_strlit("d"); reveal_strlit("e"); reveal_strlit("f");
    }
    match d {
        0 => "0", 1 => "1", 2 => "2", 3 => "3",
        4 => "4", 5 => "5", 6 => "6", 7 => "7",
        8 => "8", 9 => "9", 10 => "a", 11 => "b",
        12 => "c", 13 => "d", 14 => "e", _ => "f",
    }
}

/// Appends the sixteen-digit hex rendering of `v` to `out`.
pub fn encode_hex16(v: u64, out: &mut String)
    ensures
        final(out)@ == old(out)@ + u64_hex(v as nat, 16),
{
    proof {
        lemma_u64_hex_len(v as nat, 16);
        lemma_pow16_16();
    }
    let ghost base = out@;
    let mut p: u64 = 0x1000_0000_0000_0000;
    let mut k: usize = 0;
    while k < 16
        invariant
            k <= 16,
            k < 16 ==> p as nat == pow16((15 - k) as nat),
            u64_hex(v as nat, 16).len() == 16,
            out@ == base + u64_hex(v as nat, 16).subrange(0, k as int),
        decreases 16 - k,
    {
        proof {
            lemma_pow16_pos((15 - k) as nat);
            lemma_u64_hex_index(v as nat, 16, k as int);
        }
        let d: u8 = ((v / p) % 16) as u8;
        out.append(hex_digit_str(d));
        proof {
            assert(out@ =~= base + u64_hex(v as nat, 16).subrange(0, k as int + 1));
        }
        if k < 15 {
            proof {
                lemma_div_multiples_vanish(pow16((14 - k) as nat) as int, 16);
                assert(16 * pow16((14 - k) as nat) == pow16((15 - k) as nat));
            }
            p = p / 16;
        }
        k = k + 1;
    }
    proof {
        assert(u64_hex(v as nat, 16).subrange(0, 16) =~= u64_hex(v as nat, 16));
    }
}

/// Reads sixteen hex digits of `s` starting at `pos`, or reports that some
/// character there is not a hex digit.
pub fn decode_hex16(s: &str, pos: usize) -> (r: Option<u64>)
    requires
        pos + 16 <= s@.len(),
        s@.len() <= usize::MAX,
    ensures
        match r {
            Some(v) => all_hex(s@.subrange(pos as int, pos as int + 16)) && v as int == hex_nat(
                s@.subrange(pos as int, pos as int + 16),
            ),
            None => !all_hex(s@.subrange(pos as int, pos as int + 16)),
        },
{
    let mut acc: u64 = 0;
    let mut j: usize = 0;
    while j < 16
        invariant
            j <= 16,
            pos + 16 <= s@.len(),
            s@.len() <= usize::MAX,
            all_hex(s@.subrange(pos as int, pos as int + j as int)),
            acc as int == hex_nat(s@.subrange(pos as int, pos as int + j as int)),
            (acc as nat) < pow16(j as nat),
        decreases 16 - j,
    {
        let c = s.get_char(pos + j);
        let u: u32 = c as u32;
        let d: u8 = if 48 <= u && u <= 57 {
            (u - 48) as u8
        } else if 97 <= u && u <= 102 {
            (u - 87) as u8
        } else {
            proof {
                assert(s@.subrange(pos as int, pos as int + 16)[j as int] == c);
                assert(!is_hex_digit(c));
            }
            return None;
        };
        proof {
            assert(d as int == hex_val(c));
            lemma_pow16_mono((j + 1) as nat, 16);
            lemma_pow16_16();
            let pre = s@.subrange(pos as int, pos as int + j as int);
            let ext = s@.subrange(pos as int, pos as int + j as int + 1);
            assert(ext.drop_last() =~= pre);
            assert(ext.last() == c);
            assert(forall|i: int| 0 <= i < ext.len() ==> is_hex_digit(ext[i]));
        }
        acc = acc * 16 + d as u64;
        j = j + 1;
    }
    proof {
        lemma_pow16_16();
    }
    Some(acc)
}

} // verus!
