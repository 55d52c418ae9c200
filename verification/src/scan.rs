//! The scan/lookup engine's verified half: a pluggable row codec interface,
//! decoding of the raw entries a table scan returns, and point lookup by
//! linear search over the decoded pairs.

use vstd::prelude::*;

verus! {

use crate::codec::{enc_row, dec_row, wf_row, encode_row, decode_row};
use crate::error::{CodecError, StorageError};
use crate::value::{DataRow, Key, RowV, key_view, row_view};

/// A pluggable row serialization strategy: a total encoding of rows into
/// stored text whose decoder accepts exactly the encodings and inverts them.
pub trait Codec: Sized {
    /// The encoding this codec writes.
    spec fn enc(&self, es: RowV) -> Seq<char>;

    /// The rows this codec reads back, where it reads any.
    spec fn dec(&self, s: Seq<char>) -> Option<RowV>;

    /// Decoding inverts encoding on every representable row.
    proof fn codec_round_trip(&self, es: RowV)
        requires
            wf_row(es),
        ensures
            self.dec(self.enc(es)) == Some(es),
    ;

    /// Encodes one row as the text to store.
    fn encode(&self, r: &DataRow) -> (out: String)
        ensures
            out@ == self.enc(row_view(*r)),
    ;

    /// Decodes one stored text; fails exactly on texts this codec never
    /// writes.
    fn decode(&self, s: &str) -> (r: Result<DataRow, CodecError>)
        ensures
            match r {
                Ok(row) => self.dec(s@) == Some(row_view(row)),
                Err(_) => self.dec(s@) is None,
            },
    ;
}

/// The adapter's own codec: the textual row rendering of this crate.
#[derive(Debug, Clone, Copy)]
pub struct TextCodec;

impl Codec for TextCodec {
    open spec fn enc(&self, es: RowV) -> Seq<char> {
        enc_row(es)
    }

    open spec fn dec(&self, s: Seq<char>) -> Option<RowV> {
        dec_row(s)
    }

    proof fn codec_round_trip(&self, es: RowV) {
        crate::codec::lemma_round_trip(es);
    }

    fn encode(&self, r: &DataRow) -> (out: String) {
        encode_row(r)
    }

    fn decode(&self, s: &str) -> (r: Result<DataRow, CodecError>) {
        decode_row(s)
    }
}

/// The decoded pairs correspond one to one, in order, to the raw entries of
/// a scan, whose keys are pairwise distinct.
pub open spec fn scan_result_of<C: Codec>(
    codec: C,
    raw: Seq<(Seq<char>, Seq<char>)>,
    rows: Seq<(Key, DataRow)>,
) -> bool {
    &&& rows.len() == raw.len()
    &&& forall|k: int|
        0 <= k < raw.len() ==> key_view(#[trigger] rows[k].0) == raw[k].0 && Some(
            row_view(rows[k].1),
        ) == codec.dec(raw[k].1)
    &&& forall|i: int, j: int| 0 <= i < j < raw.len() ==> raw[i].0 != raw[j].0
}

/// Decodes the raw entries of one table scan, in engine order. An empty scan
/// yields an empty sequence, never an error.
pub fn decode_scan<C: Codec>(codec: &C, entries: &Vec<(String, String)>) -> (r: Result<
    Vec<(Key, DataRow)>,
    StorageError,
>)
    ensures
        match r {
            Ok(rows) => rows@.len() == entries@.len() && forall|k: int|
                0 <= k < entries@.len() ==> key_view(#[trigger] rows@[k].0) == entries@[k].0@
                    && Some(row_view(rows@[k].1)) == codec.dec(entries@[k].1@),
            Err(e) => (exists|k: int|
                0 <= k < entries@.len() && codec.dec(entries@[k].1@) is None) && e matches
                StorageError::Codec(_),
        },
        entries@.len() == 0 ==> r is Ok,
{
    let mut rows: Vec<(Key, DataRow)> = Vec::new();
    let mut i: usize = 0;
    while i < entries.len()
        invariant
            i <= entries@.len(),
            rows@.len() == i,
            forall|k: int|
                0 <= k < i ==> key_view(#[trigger] rows@[k].0) == entries@[k].0@ && Some(
                    row_view(rows@[k].1),
                ) == codec.dec(entries@[k].1@),
        decreases entries@.len() - i,
    {
        let row = match codec.decode(entries[i].1.as_str()) {
            Ok(row) => row,
            Err(e) => {
                return Err(StorageError::Codec(e));
            }
        };
        let key = Key::Str(entries[i].0.clone());
        rows.push((key, row));
        i = i + 1;
    }
    Ok(rows)
}

/// The element at `i` is the first whose key carries the text `t`.
pub open spec fn found_at(rows: Seq<(Key, DataRow)>, t: Seq<char>, i: int) -> bool {
    &&& 0 <= i < rows.len()
    &&& key_view(rows[i].0) == t
    &&& forall|j: int| 0 <= j < i ==> key_view(#[trigger] rows[j].0) != t
}

/// What a point lookup over decoded pairs yields.
pub open spec fn lookup_result(rows: Seq<(Key, DataRow)>, t: Seq<char>, opt: Option<DataRow>) -> bool {
    match opt {
        Some(row) => exists|i: int|
            #[trigger] found_at(rows, t, i) && row_view(row) == row_view(rows[i].1),
        None => forall|i: int| 0 <= i < rows.len() ==> key_view(#[trigger] rows[i].0) != t,
    }
}

/// Point lookup: the row of the first pair whose key equals the target, or
/// nothing when no key matches. Linear in the number of pairs.
pub fn find_row(rows: Vec<(Key, DataRow)>, target: &Key) -> (r: Option<DataRow>)
    ensures
        lookup_result(rows@, key_view(*target), r),
{
    let mut i: usize = 0;
    while i < rows.len()
        invariant
            i <= rows@.len(),
            forall|j: int| 0 <= j < i ==> key_view(#[trigger] rows@[j].0) != key_view(*target),
        decreases rows@.len() - i,
    {
        if rows[i].0.same_as(target) {
            let ghost gi = i as int;
            let ghost grows = rows@;
            let mut rows = rows;
            let p = rows.swap_remove(i);
            proof {
                assert(found_at(grows, key_view(*target), gi));
                assert(row_view(p.1) == row_view(grows[gi].1));
            }
            return Some(p.1);
        }
        i = i + 1;
    }
    None
}

/// A lookup is complete: where some element of the scan carries the target
/// key, the lookup yields a row, never nothing.
pub proof fn lemma_lookup_complete(
    rows: Seq<(Key, DataRow)>,
    t: Seq<char>,
    opt: Option<DataRow>,
    w: int,
)
    requires
        lookup_result(rows, t, opt),
        0 <= w < rows.len(),
        key_view(rows[w].0) == t,
    ensures
        opt is Some,
{
}

/// With pairwise distinct keys — as every scan of one table has — at most
/// one element of a scan matches any key: a lookup's match is that element.
pub proof fn lemma_lookup_matches_one(rows: Seq<(Key, DataRow)>, t: Seq<char>, i: int, j: int)
    requires
        forall|a: int, b: int|
            0 <= a < b < rows.len() ==> key_view(#[trigger] rows[a].0) != key_view(
                #[trigger] rows[b].0,
            ),
        0 <= i < rows.len(),
        key_view(rows[i].0) == t,
        0 <= j < rows.len(),
        key_view(rows[j].0) == t,
    ensures
        i == j,
{
}

} // verus!
