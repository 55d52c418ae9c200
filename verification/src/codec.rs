//! The row codec: a total, side-effect-free textual rendering of rows into
//! the byte strings stored by the key-value engine, together with its
//! decoder and the proof that decoding inverts encoding.
//!
//! Layout, in characters: a row is its entries in order; an entry is the
//! column name followed by the value; a string is sixteen hex digits giving
//! its length, then its characters; a value is one marker character (`N`
//! null, `T` true, `F` false, `I` integer, `S` string) followed, for
//! integers, by sixteen hex digits of the two's-complement bit pattern, and,
//! for strings, by a string.

use vstd::prelude::*;

verus! {

use vstd::string::StringExecFns;
use vstd::string::StrSliceExecFns;
use crate::error::CodecError;
use crate::hex::{
    hex_nat, u64_hex, all_hex,
    lemma_pow16_16, lemma_u64_hex_len, lemma_u64_hex_all_hex, lemma_hex_nat_u64_hex,
    lemma_hex_nat_bound, encode_hex16, decode_hex16,
};
use crate::value::{Value, ValV, DataRow, RowV, val_view, row_view};

/// The capacity of sixteen hex digits: one beyond the largest `u64`.
pub open spec fn radix64() -> nat {
    0x1_0000_0000_0000_0000
}

/// The unsigned bit pattern of a signed 64-bit integer.
pub open spec fn i64_bits(i: i64) -> nat {
    if i >= 0 {
        i as nat
    } else {
        (i + 0x1_0000_0000_0000_0000) as nat
    }
}

/// The signed reading of an unsigned 64-bit bit pattern.
pub open spec fn bits_i64(n: nat) -> int {
    if n < 0x8000_0000_0000_0000 {
        n as int
    } else {
        n - 0x1_0000_0000_0000_0000
    }
}

/// A string fits the codec when its length fits in sixteen hex digits; every
/// string of this machine does.
pub open spec fn wf_str(t: Seq<char>) -> bool {
    t.len() < radix64()
}

pub open spec fn wf_val(v: ValV) -> bool {
    match v {
        ValV::Str(t) => wf_str(t),
        _ => true,
    }
}

/// A row is representable by the codec when each of its column names and
/// string values is.
pub open spec fn wf_row(es: RowV) -> bool {
    forall|i: int| 0 <= i < es.len() ==> wf_str(#[trigger] es[i].0) && wf_val(es[i].1)
}

/// The encoding of a string: its length, then its characters.
pub open spec fn enc_str(t: Seq<char>) -> Seq<char> {
    u64_hex(t.len(), 16) + t
}

/// The encoding of a value: a marker, then its payload.
pub open spec fn enc_val(v: ValV) -> Seq<char> {
    match v {
        ValV::Null => seq!['N'],
        ValV::Bool(b) => if b {
            seq!['T']
        } else {
            seq!['F']
        },
        ValV::Int(i) => seq!['I'] + u64_hex(i64_bits(i), 16),
        ValV::Str(t) => seq!['S'] + enc_str(t),
    }
}

/// The encoding of one entry: the column name, then the value.
pub open spec fn enc_entry(e: (Seq<char>, ValV)) -> Seq<char> {
    enc_str(e.0) + enc_val(e.1)
}

/// The encoding of a sequence of entries, in order.
pub open spec fn enc_entries(es: RowV) -> Seq<char>
    decreases es.len(),
{
    if es.len() == 0 {
        Seq::empty()
    } else {
        enc_entry(es[0]) + enc_entries(es.drop_first())
    }
}

/// The encoding of a whole row.
pub open spec fn enc_row(es: RowV) -> Seq<char> {
    enc_entries(es)
}

/// Reads a string at position `i`: the content and the position after it.
pub open spec fn p_str(s: Seq<char>, i: int) -> Option<(Seq<char>, int)> {
    if 0 <= i && i + 16 <= s.len() && all_hex(s.subrange(i, i + 16)) {
        let n = hex_nat(s.subrange(i, i + 16));
        if i + 16 + n <= s.len() {
            Some((s.subrange(i + 16, i + 16 + n), i + 16 + n))
        } else {
            None
        }
    } else {
        None
    }
}

/// Reads a value at position `i`.
pub open spec fn p_val(s: Seq<char>, i: int) -> Option<(ValV, int)> {
    if 0 <= i < s.len() {
        let c = s[i];
        if c == 'N' {
            Some((ValV::Null, i + 1))
        } else if c == 'T' {
            Some((ValV::Bool(true), i + 1))
        } else if c == 'F' {
            Some((ValV::Bool(false), i + 1))
        } else if c == 'I' {
            if i + 17 <= s.len() && all_hex(s.subrange(i + 1, i + 17)) {
                Some((ValV::Int(bits_i64(hex_nat(s.subrange(i + 1, i + 17)) as nat) as i64), i + 17))
            } else {
                None
            }
        } else if c == 'S' {
            match p_str(s, i + 1) {
                Some((t, j)) => Some((ValV::Str(t), j)),
                None => None,
            }
        } else {
            None
        }
    } else {
        None
    }
}

/// Reads one entry at position `i`.
pub open spec fn p_entry(s: Seq<char>, i: int) -> Option<((Seq<char>, ValV), int)> {
    match p_str(s, i) {
        Some((name, j)) => match p_val(s, j) {
            Some((v, k)) => Some((((name, v)), k)),
            None => None,
        },
        None => None,
    }
}

/// Reads entries from position `i` to the end of the text.
pub open spec fn p_entries(s: Seq<char>, i: int) -> Option<RowV>
    decreases s.len() - i,
{
    if i == s.len() {
        Some(Seq::empty())
    } else {
        match p_entry(s, i) {
            Some((e, j)) => if i < j <= s.len() {
                match p_entries(s, j) {
                    Some(rest) => Some(seq![e] + rest),
                    None => None,
                }
            } else {
                None
            },
            None => None,
        }
    }
}

/// Prepends already-read entries to the outcome of reading the rest.
pub open spec fn prepend(acc: RowV, o: Option<RowV>) -> Option<RowV> {
    match o {
        Some(rest) => Some(acc + rest),
        None => None,
    }
}

/// What the decoder accepts, and the row it reads: the whole text must be a
/// sequence of encoded entries.
pub open spec fn dec_row(s: Seq<char>) -> Option<RowV> {
    p_entries(s, 0)
}

/// Encodings split over concatenation of entry sequences.
pub proof fn lemma_enc_entries_app(a: RowV, b: RowV)
    ensures
        enc_entries(a + b) == enc_entries(a) + enc_entries(b),
    decreases a.len(),
{
    if a.len() == 0 {
        assert(a + b =~= b);
        assert(enc_entries(a) + enc_entries(b) =~= enc_entries(b));
    } else {
        lemma_enc_entries_app(a.drop_first(), b);
        assert((a + b).drop_first() =~= a.drop_first() + b);
        assert((a + b)[0] == a[0]);
        assert(enc_entry(a[0]) + (enc_entries(a.drop_first()) + enc_entries(b)) =~= (enc_entry(
            a[0],
        ) + enc_entries(a.drop_first())) + enc_entries(b));
    }
}

/// A string read from its own encoding followed by anything yields exactly
/// the string.
proof fn lemma_p_str_enc(s: Seq<char>, i: int, t: Seq<char>)
    requires
        wf_str(t),
        0 <= i,
        i + enc_str(t).len() <= s.len(),
        s.subrange(i, i + enc_str(t).len() as int) == enc_str(t),
    ensures
        enc_str(t).len() == 16 + t.len(),
        p_str(s, i) == Some((t, i + enc_str(t).len() as int)),
{
    lemma_u64_hex_len(t.len(), 16);
    let l = enc_str(t).len() as int;
    assert(s.subrange(i, i + 16) =~= u64_hex(t.len(), 16)) by {
        assert forall|k: int| 0 <= k < 16 implies s.subrange(i, i + 16)[k] == u64_hex(
            t.len(),
            16,
        )[k] by {
            assert(s.subrange(i, i + 16)[k] == s[i + k]);
            assert(s[i + k] == s.subrange(i, i + l)[k]);
            assert(enc_str(t)[k] == u64_hex(t.len(), 16)[k]);
        }
    }
    lemma_u64_hex_all_hex(t.len(), 16);
    lemma_hex_nat_u64_hex(t.len(), 16);
    lemma_pow16_16();
    assert(hex_nat(s.subrange(i, i + 16)) == t.len());
    assert(s.subrange(i + 16, i + 16 + t.len() as int) =~= t) by {
        assert forall|k: int| 0 <= k < t.len() implies s.subrange(
            i + 16,
            i + 16 + t.len() as int,
        )[k] == t[k] by {
            assert(s.subrange(i + 16, i + 16 + t.len() as int)[k] == s[i + 16 + k]);
            assert(s[i + 16 + k] == s.subrange(i, i + l)[16 + k]);
            assert(enc_str(t)[16 + k] == t[k]);
        }
    }
}

/// A value read from its own encoding followed by anything yields exactly
/// the value.
proof fn lemma_p_val_enc(s: Seq<char>, i: int, v: ValV)
    requires
        wf_val(v),
        0 <= i,
        i + enc_val(v).len() <= s.len(),
        s.subrange(i, i + enc_val(v).len() as int) == enc_val(v),
    ensures
        enc_val(v).len() >= 1,
        p_val(s, i) == Some((v, i + enc_val(v).len() as int)),
{
    let l = enc_val(v).len() as int;
    assert(s[i] == enc_val(v)[0]) by {
        assert(s.subrange(i, i + l)[0] == s[i]);
    }
    match v {
        ValV::Null => {}
        ValV::Bool(b) => {}
        ValV::Int(n) => {
            lemma_u64_hex_len(i64_bits(n), 16);
            assert(s.subrange(i + 1, i + 17) =~= u64_hex(i64_bits(n), 16)) by {
                assert forall|k: int| 0 <= k < 16 implies s.subrange(i + 1, i + 17)[k] == u64_hex(
                    i64_bits(n),
                    16,
                )[k] by {
                    assert(s.subrange(i + 1, i + 17)[k] == s[i + 1 + k]);
                    assert(s[i + 1 + k] == s.subrange(i, i + l)[1 + k]);
                    assert(enc_val(v)[1 + k] == u64_hex(i64_bits(n), 16)[k]);
                }
            }
            lemma_u64_hex_all_hex(i64_bits(n), 16);
            lemma_hex_nat_u64_hex(i64_bits(n), 16);
            lemma_pow16_16();
            assert(hex_nat(s.subrange(i + 1, i + 17)) == i64_bits(n));
            assert(bits_i64(i64_bits(n)) == n as int);
        }
        ValV::Str(t) => {
            let lt = enc_str(t).len() as int;
            lemma_u64_hex_len(t.len(), 16);
            assert(s.subrange(i + 1, i + 1 + lt) =~= enc_str(t)) by {
                assert forall|k: int| 0 <= k < lt implies s.subrange(i + 1, i + 1 + lt)[k]
                    == enc_str(t)[k] by {
                    assert(s.subrange(i + 1, i + 1 + lt)[k] == s[i + 1 + k]);
                    assert(s[i + 1 + k] == s.subrange(i, i + l)[1 + k]);
                    assert(enc_val(v)[1 + k] == enc_str(t)[k]);
                }
            }
            lemma_p_str_enc(s, i + 1, t);
        }
    }
}

/// A sequence of entries read from its own encoding yields exactly the
/// entries.
proof fn lemma_p_entries_enc(s: Seq<char>, i: int, es: RowV)
    requires
        wf_row(es),
        0 <= i <= s.len(),
        s.len() - i == enc_entries(es).len(),
        s.subrange(i, s.len() as int) == enc_entries(es),
    ensures
        p_entries(s, i) == Some(es),
    decreases es.len(),
{
    if es.len() == 0 {
        assert(i == s.len());
    } else {
        let e = es[0];
        let rest = es.drop_first();
        assert(enc_entries(es) == enc_entry(e) + enc_entries(rest));
        let ln = enc_str(e.0).len() as int;
        let lv = enc_val(e.1).len() as int;
        let lr = enc_entries(rest).len() as int;
        assert(wf_str(e.0) && wf_val(e.1));
        assert(s.subrange(i, i + ln) =~= enc_str(e.0)) by {
            assert forall|k: int| 0 <= k < ln implies s.subrange(i, i + ln)[k] == enc_str(e.0)[k] by {
                assert(s.subrange(i, i + ln)[k] == s[i + k]);
                assert(s[i + k] == s.subrange(i, s.len() as int)[k]);
                assert(enc_entries(es)[k] == enc_entry(e)[k]);
                assert(enc_entry(e)[k] == enc_str(e.0)[k]);
            }
        }
        lemma_p_str_enc(s, i, e.0);
        assert(s.subrange(i + ln, i + ln + lv) =~= enc_val(e.1)) by {
            assert forall|k: int| 0 <= k < lv implies s.subrange(i + ln, i + ln + lv)[k] == enc_val(
                e.1,
            )[k] by {
                assert(s.subrange(i + ln, i + ln + lv)[k] == s[i + ln + k]);
                assert(s[i + ln + k] == s.subrange(i, s.len() as int)[ln + k]);
                assert(enc_entries(es)[ln + k] == enc_entry(e)[ln + k]);
                assert(enc_entry(e)[ln + k] == enc_val(e.1)[k]);
            }
        }
        lemma_p_val_enc(s, i + ln, e.1);
        let j = i + ln + lv;
        assert(p_entry(s, i) == Some((e, j)));
        assert(wf_row(rest)) by {
            assert(forall|k: int| 0 <= k < rest.len() ==> #[trigger] rest[k] == es[k + 1]);
        }
        assert(s.subrange(j, s.len() as int) =~= enc_entries(rest)) by {
            assert forall|k: int| 0 <= k < lr implies s.subrange(j, s.len() as int)[k]
                == enc_entries(rest)[k] by {
                assert(s.subrange(j, s.len() as int)[k] == s[j + k]);
                assert(s[j + k] == s.subrange(i, s.len() as int)[ln + lv + k]);
                assert(enc_entries(es)[ln + lv + k] == enc_entries(rest)[k]);
            }
        }
        lemma_p_entries_enc(s, j, rest);
        assert(es =~= seq![e] + rest);
    }
}

/// Round trip: decoding the encoding of any representable row yields exactly
/// that row. Every row whose strings fit this machine is representable.
pub proof fn lemma_round_trip(es: RowV)
    requires
        wf_row(es),
    ensures
        dec_row(enc_row(es)) == Some(es),
{
    let s = enc_row(es);
    assert(s.subrange(0, s.len() as int) =~= s);
    lemma_p_entries_enc(s, 0, es);
}

/// Appends the encoding of a string to `out`.
fn encode_str_into(t: &String, out: &mut String)
    ensures
        final(out)@ == old(out)@ + enc_str(t@),
{
    let n = t.as_str().unicode_len();
    encode_hex16(n as u64, out);
    out.append(t.as_str());
    proof {
        assert(final(out)@ =~= old(out)@ + enc_str(t@));
    }
}

/// Appends the encoding of a value to `out`.
fn encode_val_into(v: &Value, out: &mut String)
    ensures
        final(out)@ == old(out)@ + enc_val(val_view(*v)),
{
    proof {
        reveal_strlit("N");
        reveal_strlit("T");
        reveal_strlit("F");
        reveal_strlit("I");
        reveal_strlit("S");
    }
    match v {
        Value::Null => {
            out.append("N");
            proof {
                assert(final(out)@ =~= old(out)@ + enc_val(val_view(*v)));
            }
        }
        Value::Bool(b) => {
            if *b {
                out.append("T");
            } else {
                out.append("F");
            }
            proof {
                assert(final(out)@ =~= old(out)@ + enc_val(val_view(*v)));
            }
        }
        Value::Int(i) => {
            out.append("I");
            let u: u64 = if *i >= 0 {
                *i as u64
            } else {
                ((*i as i128) + 0x1_0000_0000_0000_0000i128) as u64
            };
            proof {
                assert(u as nat == i64_bits(*i));
            }
            encode_hex16(u, out);
            proof {
                assert(final(out)@ =~= old(out)@ + enc_val(val_view(*v)));
            }
        }
        Value::Str(t) => {
            out.append("S");
            encode_str_into(t, out);
            proof {
                assert(final(out)@ =~= old(out)@ + enc_val(val_view(*v)));
            }
        }
    }
}

/// Encodes a row into the text stored by the engine.
pub fn encode_row(r: &DataRow) -> (out: String)
    ensures
        out@ == enc_row(row_view(*r)),
{
    let ghost es = row_view(*r);
    let mut out = String::new();
    let mut idx: usize = 0;
    proof {
        assert(out@ =~= enc_entries(es.subrange(0, 0)));
    }
    while idx < r.entries.len()
        invariant
            idx <= r.entries.len(),
            es == row_view(*r),
            es.len() == r.entries.len(),
            out@ == enc_entries(es.subrange(0, idx as int)),
        decreases r.entries.len() - idx,
    {
        let e = &r.entries[idx];
        encode_str_into(&e.0, &mut out);
        encode_val_into(&e.1, &mut out);
        proof {
            assert(es[idx as int] == (e.0@, val_view(e.1)));
            assert(es.subrange(0, idx as int + 1) =~= es.subrange(0, idx as int) + seq![
                es[idx as int],
            ]);
            lemma_enc_entries_app(es.subrange(0, idx as int), seq![es[idx as int]]);
            assert(enc_entries(seq![es[idx as int]]) =~= enc_entry(es[idx as int]) + enc_entries(
                Seq::empty(),
            )) by {
                assert(seq![es[idx as int]].drop_first() =~= Seq::<(Seq<char>, ValV)>::empty());
            }
            assert(out@ =~= enc_entries(es.subrange(0, idx as int + 1)));
        }
        idx = idx + 1;
    }
    proof {
        assert(es.subrange(0, es.len() as int) =~= es);
    }
    out
}

/// Reads a string at `pos`; on success the string and the position after it.
fn decode_str_at(s: &str, n: usize, pos: usize) -> (r: Result<(String, usize), CodecError>)
    requires
        n == s@.len(),
        pos <= n,
    ensures
        match r {
            Ok(p) => p_str(s@, pos as int) == Some((p.0@, p.1 as int)) && pos < p.1 <= s@.len(),
            Err(_) => p_str(s@, pos as int) is None,
        },
{
    if n - pos < 16 {
        return Err(CodecError::Truncated);
    }
    match decode_hex16(s, pos) {
        None => Err(CodecError::BadDigit),
        Some(v) => {
            proof {
                lemma_hex_nat_bound(s@.subrange(pos as int, pos as int + 16));
            }
            let rest = n - (pos + 16);
            if v > rest as u64 {
                return Err(CodecError::Truncated);
            }
            let len: usize = v as usize;
            let t = s.substring_char(pos + 16, pos + 16 + len).to_owned();
            Ok((t, pos + 16 + len))
        }
    }
}

/// Reads a value at `pos`; on success the value and the position after it.
fn decode_val_at(s: &str, n: usize, pos: usize) -> (r: Result<(Value, usize), CodecError>)
    requires
        n == s@.len(),
        pos <= n,
    ensures
        match r {
            Ok(p) => p_val(s@, pos as int) == Some((val_view(p.0), p.1 as int)) && pos < p.1
                <= s@.len(),
            Err(_) => p_val(s@, pos as int) is None,
        },
{
    if pos == n {
        return Err(CodecError::Truncated);
    }
    let c = s.get_char(pos);
    if c == 'N' {
        Ok((Value::Null, pos + 1))
    } else if c == 'T' {
        Ok((Value::Bool(true), pos + 1))
    } else if c == 'F' {
        Ok((Value::Bool(false), pos + 1))
    } else if c == 'I' {
        if n - (pos + 1) < 16 {
            return Err(CodecError::Truncated);
        }
        match decode_hex16(s, pos + 1) {
            None => Err(CodecError::BadDigit),
            Some(u) => {
                proof {
                    lemma_hex_nat_bound(s@.subrange(pos as int + 1, pos as int + 17));
                    lemma_pow16_16();
                }
                let i: i64 = if u < 0x8000_0000_0000_0000 {
                    u as i64
                } else {
                    ((u as i128) - 0x1_0000_0000_0000_0000i128) as i64
                };
                proof {
                    assert(i as int == bits_i64(u as nat));
                }
                Ok((Value::Int(i), pos + 17))
            }
        }
    } else if c == 'S' {
        match decode_str_at(s, n, pos + 1) {
            Ok((t, j)) => Ok((Value::Str(t), j)),
            Err(e) => Err(e),
        }
    } else {
        Err(CodecError::BadMarker)
    }
}

/// Decodes the text of one stored row. Succeeds exactly on the texts that
/// are the encoding of some row, and then yields that row.
pub fn decode_row(s: &str) -> (r: Result<DataRow, CodecError>)
    ensures
        match r {
            Ok(row) => dec_row(s@) == Some(row_view(row)),
            Err(_) => dec_row(s@) is None,
        },
{
    let n = s.unicode_len();
    let mut entries: Vec<(String, Value)> = Vec::new();
    let mut pos: usize = 0;
    while pos < n
        invariant
            n == s@.len(),
            pos <= n,
            p_entries(s@, 0) == prepend(
                entries@.map_values(|e: (String, Value)| (e.0@, val_view(e.1))),
                p_entries(s@, pos as int),
            ),
        decreases n - pos,
    {
        let ghost accv = entries@.map_values(|e: (String, Value)| (e.0@, val_view(e.1)));
        let name = match decode_str_at(s, n, pos) {
            Ok(p) => p,
            Err(e) => {
                proof {
                    assert(p_entries(s@, pos as int) is None);
                }
                return Err(e);
            }
        };
        let val = match decode_val_at(s, n, name.1) {
            Ok(p) => p,
            Err(e) => {
                proof {
                    assert(p_entries(s@, pos as int) is None);
                }
                return Err(e);
            }
        };
        let j = val.1;
        proof {
            assert(p_entry(s@, pos as int) == Some(((name.0@, val_view(val.0)), j as int)));
        }
        entries.push((name.0, val.0));
        proof {
            let e: (Seq<char>, ValV) = (name.0@, val_view(val.0));
            assert(entries@.map_values(|q: (String, Value)| (q.0@, val_view(q.1))) =~= accv + seq![
                e,
            ]);
            let o = p_entries(s@, j as int);
            if o is Some {
                let rest = o->0;
                assert(p_entries(s@, pos as int) == Some(seq![e] + rest));
                assert(accv + (seq![e] + rest) =~= (accv + seq![e]) + rest);
            } else {
                assert(p_entries(s@, pos as int) is None);
            }
        }
        pos = j;
    }
    proof {
        assert(p_entries(s@, pos as int) == Some(Seq::<(Seq<char>, ValV)>::empty()));
        let accv = entries@.map_values(|e: (String, Value)| (e.0@, val_view(e.1)));
        assert(accv + Seq::<(Seq<char>, ValV)>::empty() =~= accv);
    }
    Ok(DataRow { entries })
}

} // verus!
