//! What decoding and extracting make of a container that was cut short.
//!
//! Decoding reads the preamble and the table and nothing behind them, so a
//! cut behind the table leaves its result as it was. Extracting reads the
//! payload and nothing else, so a cut within a payload is always noticed.

use vstd::prelude::*;
use crate::container::{
    decode, group_text_len, lemma_entry_advances, lemma_name_advances, parse_entry, parse_name,
    parse_table, table_end, HeaderModel,
};
use crate::error::FormatError;
use crate::extract::extract;
use crate::reader::{le_u32, take};

verus! {

/// Whether `a` and `b` are both at least `upto` long and hold the same bytes
/// below `upto`.
pub open spec fn agree(a: Seq<u8>, b: Seq<u8>, upto: int) -> bool {
    &&& upto <= a.len()
    &&& upto <= b.len()
    &&& forall|i: int| 0 <= i < upto ==> a[i] == b[i]
}

/// A read that succeeds gives the same bytes in every container that agrees
/// with this one up to the end of the read.
pub proof fn lemma_take_agrees(a: Seq<u8>, b: Seq<u8>, pos: int, count: int, upto: int)
    requires
        take(a, pos, count) is Ok,
        pos + count <= upto,
        agree(a, b, upto),
    ensures
        take(b, pos, count) == take(a, pos, count),
{
    assert(b.subrange(pos, pos + count) =~= a.subrange(pos, pos + count));
}

/// A name field that was read is read alike in every container that agrees
/// with this one up to the field's end.
pub proof fn lemma_name_agrees(a: Seq<u8>, b: Seq<u8>, pos: int, upto: int)
    requires
        parse_name(a, pos) matches Ok((name, next)) && next <= upto,
        agree(a, b, upto),
    ensures
        parse_name(b, pos) == parse_name(a, pos),
    decreases a.len() - pos,
{
    lemma_name_advances(a, pos);
    lemma_take_agrees(a, b, pos, 4, upto);
    let group = take(a, pos, 4)->Ok_0;
    if group_text_len(group) == 4 {
        lemma_name_advances(a, pos + 4);
        lemma_name_agrees(a, b, pos + 4, upto);
    }
}

/// A table entry that was read is read alike in every container that agrees
/// with this one up to the entry's end.
pub proof fn lemma_entry_agrees(a: Seq<u8>, b: Seq<u8>, pos: int, first: bool, upto: int)
    requires
        parse_entry(a, pos, first) matches Ok((header, next)) && next <= upto,
        agree(a, b, upto),
    ensures
        parse_entry(b, pos, first) == parse_entry(a, pos, first),
{
    lemma_entry_advances(a, pos, first);
    lemma_take_agrees(a, b, pos, 4, upto);
    lemma_take_agrees(a, b, pos + 4, 4, upto);
    lemma_take_agrees(a, b, pos + 8, 4, upto);
    if !first {
        lemma_name_agrees(a, b, pos + 12, upto);
    }
}

/// A table that was read ends at or behind the position where it began.
pub proof fn lemma_table_advances(bytes: Seq<u8>, pos: int, end: int, first: bool)
    ensures
        parse_table(bytes, pos, end, first) matches Ok((headers, stop)) ==> pos <= stop,
    decreases bytes.len() - pos,
{
    if pos < end {
        lemma_entry_advances(bytes, pos, first);
        if parse_entry(bytes, pos, first) is Ok {
            let next = parse_entry(bytes, pos, first)->Ok_0.1;
            lemma_table_advances(bytes, next, end, false);
        }
    }
}

/// A table that was read is read alike in every container that agrees with
/// this one up to the table's end.
pub proof fn lemma_table_agrees(
    a: Seq<u8>,
    b: Seq<u8>,
    pos: int,
    end: int,
    first: bool,
    upto: int,
)
    requires
        parse_table(a, pos, end, first) matches Ok((headers, stop)) && stop <= upto,
        agree(a, b, upto),
    ensures
        parse_table(b, pos, end, first) == parse_table(a, pos, end, first),
    decreases a.len() - pos,
{
    if pos < end {
        lemma_entry_advances(a, pos, first);
        let next = parse_entry(a, pos, first)->Ok_0.1;
        lemma_table_advances(a, next, end, false);
        lemma_entry_agrees(a, b, pos, first, upto);
        lemma_table_agrees(a, b, next, end, false, upto);
    }
}

/// A container that was decoded begins within the bytes, and its table ends
/// behind its twenty-byte preamble.
pub proof fn lemma_decode_advances(bytes: Seq<u8>, start: int)
    ensures
        decode(bytes, start) matches Ok((headers, stop)) ==> 0 <= start && start + 20 <= stop,
{
    if decode(bytes, start) is Ok {
        let length = le_u32(take(bytes, start + 16, 4)->Ok_0);
        let end = table_end(start + 20, length);
        lemma_table_advances(bytes, start + 20, end, true);
    }
}

/// Decoding reads nothing behind the table: where it succeeds on `a` and
/// stops at `stop`, it gives the same headers on every container that agrees
/// with `a` up to `stop`.
pub proof fn lemma_decode_agrees(a: Seq<u8>, b: Seq<u8>, start: int)
    requires
        decode(a, start) matches Ok((headers, stop)) && agree(a, b, stop),
    ensures
        decode(b, start) == decode(a, start),
{
    let stop = decode(a, start)->Ok_0.1;
    let length = le_u32(take(a, start + 16, 4)->Ok_0);
    let end = table_end(start + 20, length);
    lemma_table_advances(a, start + 20, end, true);
    lemma_take_agrees(a, b, start, 15, stop);
    lemma_take_agrees(a, b, start + 15, 1, stop);
    lemma_take_agrees(a, b, start + 16, 4, stop);
    lemma_table_agrees(a, b, start + 20, end, true, stop);
}

/// A container cut behind its table decodes as before.
pub proof fn lemma_decode_after_cut(bytes: Seq<u8>, start: int, cut: int)
    requires
        decode(bytes, start) matches Ok((headers, stop)) && stop <= cut <= bytes.len(),
    ensures
        decode(bytes.take(cut), start) == decode(bytes, start),
{
    lemma_decode_agrees(bytes, bytes.take(cut), start);
}

/// Extracting never passes for success what the container does not hold: a
/// payload that ends behind the end of the container is reported as
/// `Truncated`, and only such a payload is.
pub proof fn lemma_extract_truncated(bytes: Seq<u8>, header: HeaderModel)
    ensures
        header.offset + header.compressed_size > bytes.len() <==> extract(bytes, header) == Err::<
            Seq<u8>,
            FormatError,
        >(
            FormatError::Truncated {
                offset: header.offset as u64,
                wanted: header.compressed_size as u64,
            },
        ),
        extract(bytes, header) matches Err(FormatError::Truncated { .. }) <==> header.offset
            + header.compressed_size > bytes.len(),
{
}

/// Extracting reads the payload and nothing else: two containers that hold
/// the same bytes where `header` points give the same result.
pub proof fn lemma_extract_reads_payload(a: Seq<u8>, b: Seq<u8>, header: HeaderModel)
    requires
        take(a, header.offset as int, header.compressed_size as int) == take(
            b,
            header.offset as int,
            header.compressed_size as int,
        ),
    ensures
        extract(a, header) == extract(b, header),
{
}

/// A container that is cut behind its table and before the end of the
/// payload of one of its resources still decodes to the same headers, and
/// extracting that resource from it fails with `Truncated`.
pub proof fn lemma_cut_within_payload(bytes: Seq<u8>, start: int, cut: int, i: int)
    requires
        decode(bytes, start) matches Ok((headers, stop)) && stop <= cut <= bytes.len() && 0 <= i
            < headers.len() && cut < headers[i].offset + headers[i].compressed_size,
    ensures
        decode(bytes.take(cut), start) == decode(bytes, start),
        decode(bytes, start) matches Ok((headers, stop)) && extract(bytes.take(cut), headers[i])
            == Err::<Seq<u8>, FormatError>(
            FormatError::Truncated {
                offset: headers[i].offset as u64,
                wanted: headers[i].compressed_size as u64,
            },
        ),
{
    lemma_decode_after_cut(bytes, start, cut);
    lemma_decode_advances(bytes, start);
    let headers = decode(bytes, start)->Ok_0.0;
    assert(bytes.take(cut).len() == cut);
    lemma_extract_truncated(bytes.take(cut), headers[i]);
}

} // verus!
