//! The container's preamble and its table of resource headers.
//!
//! All numbers are little-endian. A container begins with the fifteen bytes
//! `PocketBookTheme`, one version byte, which must be 1, and a four-byte
//! table length. The table of resource headers follows; the payloads lie
//! elsewhere in the file, at the absolute offsets the headers name.

use vstd::prelude::*;
use crate::error::FormatError;
use crate::reader::{take, le_u32, ByteReader};
use crate::text::{byte_char, latin1};

verus! {

/// One entry of the container's table: where a resource's compressed payload
/// lies, how long it is, how long it is once inflated, and what it is called.
/// The first entry of a table has no name field and the empty name.
#[derive(Debug, PartialEq, Eq)]
pub struct ResourceHeader {
    /// The declared length of the payload after inflation.
    pub size: u32,
    /// Where the compressed payload begins, counted from the start of the file.
    pub offset: u32,
    /// The length of the compressed payload.
    pub compressed_size: u32,
    /// The resource's name; empty for the configuration resource.
    pub name: String,
}

/// What a resource header says, as plain values.
pub struct HeaderModel {
    pub size: u32,
    pub offset: u32,
    pub compressed_size: u32,
    pub name: Seq<char>,
}

impl View for ResourceHeader {
    type V = HeaderModel;

    open spec fn view(&self) -> HeaderModel {
        HeaderModel {
            size: self.size,
            offset: self.offset,
            compressed_size: self.compressed_size,
            name: self.name@,
        }
    }
}

/// What each header of a list says, in order.
pub open spec fn models(headers: Seq<ResourceHeader>) -> Seq<HeaderModel> {
    Seq::new(headers.len(), |i: int| headers[i]@)
}

/// How many bytes of a four-byte group come before its first zero byte; 4
/// where it has none.
pub open spec fn group_text_len(group: Seq<u8>) -> int {
    if group[0] == 0 {
        0
    } else if group[1] == 0 {
        1
    } else if group[2] == 0 {
        2
    } else if group[3] == 0 {
        3
    } else {
        4
    }
}

/// The name field that begins at `pos`: groups of four bytes, of which the
/// first that holds a zero byte ends the field. The result is the bytes
/// before that zero and the position behind the last group read.
pub open spec fn parse_name(bytes: Seq<u8>, pos: int) -> Result<(Seq<u8>, int), FormatError>
    decreases bytes.len() - pos,
{
    match take(bytes, pos, 4) {
        Err(e) => Err(e),
        Ok(group) => {
            let k = group_text_len(group);
            if k < 4 {
                Ok((group.take(k), pos + 4))
            } else {
                match parse_name(bytes, pos + 4) {
                    Err(e) => Err(e),
                    Ok((rest, next)) => Ok((group + rest, next)),
                }
            }
        },
    }
}

/// The table entry that begins at `pos`: three numbers, and a name field
/// unless the entry is the first of its table. The result is the header and
/// the position behind the entry.
pub open spec fn parse_entry(bytes: Seq<u8>, pos: int, first: bool) -> Result<
    (HeaderModel, int),
    FormatError,
> {
    match take(bytes, pos, 4) {
        Err(e) => Err(e),
        Ok(size) => match take(bytes, pos + 4, 4) {
            Err(e) => Err(e),
            Ok(offset) => match take(bytes, pos + 8, 4) {
                Err(e) => Err(e),
                Ok(compressed_size) => match entry_name(bytes, pos + 12, first) {
                    Err(e) => Err(e),
                    Ok((name, next)) => Ok(
                        (
                            HeaderModel {
                                size: le_u32(size) as u32,
                                offset: le_u32(offset) as u32,
                                compressed_size: le_u32(compressed_size) as u32,
                                name: latin1(name),
                            },
                            next,
                        ),
                    ),
                },
            },
        },
    }
}

/// The name of the entry whose name field would begin at `pos`: nothing is
/// read for the first entry of a table.
pub open spec fn entry_name(bytes: Seq<u8>, pos: int, first: bool) -> Result<
    (Seq<u8>, int),
    FormatError,
> {
    if first {
        Ok((Seq::empty(), pos))
    } else {
        parse_name(bytes, pos)
    }
}

/// A name field that was read lies within the container and is at least one
/// group long.
pub proof fn lemma_name_advances(bytes: Seq<u8>, pos: int)
    ensures
        parse_name(bytes, pos) matches Ok((name, next)) ==> 0 <= pos && pos + 4 <= next
            <= bytes.len(),
    decreases bytes.len() - pos,
{
    if take(bytes, pos, 4) is Ok {
        let group = take(bytes, pos, 4)->Ok_0;
        if group_text_len(group) == 4 {
            lemma_name_advances(bytes, pos + 4);
        }
    }
}

/// What a name field that was read looks like: the name is the bytes from
/// the field's start up to the first zero byte, and the field ends with the
/// four-byte group that holds that zero.
pub proof fn lemma_name_shape(bytes: Seq<u8>, pos: int)
    ensures
        parse_name(bytes, pos) matches Ok((name, next)) ==> {
            &&& name == bytes.subrange(pos, pos + name.len())
            &&& forall|i: int| 0 <= i < name.len() ==> name[i] != 0
            &&& pos + name.len() < bytes.len()
            &&& bytes[pos + name.len()] == 0
            &&& next == pos + 4 * (name.len() / 4 + 1)
        },
    decreases bytes.len() - pos,
{
    if take(bytes, pos, 4) is Ok {
        let group = take(bytes, pos, 4)->Ok_0;
        let k = group_text_len(group);
        if k < 4 {
            assert(group.take(k) =~= bytes.subrange(pos, pos + k));
        } else {
            lemma_name_shape(bytes, pos + 4);
            if parse_name(bytes, pos + 4) is Ok {
                let rest = parse_name(bytes, pos + 4)->Ok_0.0;
                let name = group + rest;
                assert(name =~= bytes.subrange(pos, pos + name.len()));
                assert forall|i: int| 0 <= i < name.len() implies name[i] != 0 by {
                    if i >= 4 {
                        assert(name[i] == rest[i - 4]);
                    }
                }
            }
        }
    }
}

/// An entry that was read lies within the container and is at least twelve
/// bytes long.
pub proof fn lemma_entry_advances(bytes: Seq<u8>, pos: int, first: bool)
    ensures
        parse_entry(bytes, pos, first) matches Ok((header, next)) ==> 0 <= pos && pos + 12 <= next
            <= bytes.len(),
{
    if !first {
        lemma_name_advances(bytes, pos + 12);
    }
}

/// The table whose next entry begins at `pos` and which ends where an entry
/// ends at or behind `end`. `first` says that no entry was read yet. The
/// result is the headers in the order of the file and the position behind
/// the last entry.
pub open spec fn parse_table(bytes: Seq<u8>, pos: int, end: int, first: bool) -> Result<
    (Seq<HeaderModel>, int),
    FormatError,
>
    decreases bytes.len() - pos,
{
    if pos >= end {
        Ok((Seq::empty(), pos))
    } else {
        match parse_entry(bytes, pos, first) {
            Err(e) => Err(e),
            Ok((header, next)) => {
                proof {
                    lemma_entry_advances(bytes, pos, first);
                }
                match parse_table(bytes, next, end, false) {
                    Err(e) => Err(e),
                    Ok((rest, stop)) => Ok((seq![header] + rest, stop)),
                }
            },
        }
    }
}

/// The fifteen bytes that every container begins with: `PocketBookTheme`.
pub open spec fn magic() -> Seq<u8> {
    seq![
        0x50u8, 0x6f, 0x63, 0x6b, 0x65, 0x74, 0x42, 0x6f, 0x6f, 0x6b, 0x54, 0x68, 0x65, 0x6d, 0x65,
    ]
}

/// Where the table ends, given the position `pos` behind the table-length
/// field and the number `length` that the field holds: at `pos + length - 32`
/// in unsigned 64-bit arithmetic. That arithmetic wraps, so a length under 12
/// yields an end that no table reaches within a file.
pub open spec fn table_end(pos: int, length: int) -> int {
    (pos + length - 32) % 0x1_0000_0000_0000_0000
}

/// The container that begins at `start`: magic, version, table length and
/// table. The result is the headers of the table in the order of the file and
/// the position behind the table.
pub open spec fn decode(bytes: Seq<u8>, start: int) -> Result<(Seq<HeaderModel>, int), FormatError> {
    match take(bytes, start, 15) {
        Err(e) => Err(e),
        Ok(fingerprint) => if fingerprint != magic() {
            Err(FormatError::BadMagic)
        } else {
            match take(bytes, start + 15, 1) {
                Err(e) => Err(e),
                Ok(version) => if version[0] != 1 {
                    Err(FormatError::UnsupportedVersion { found: version[0] })
                } else {
                    match take(bytes, start + 16, 4) {
                        Err(e) => Err(e),
                        Ok(length) => parse_table(
                            bytes,
                            start + 20,
                            table_end(start + 20, le_u32(length)),
                            true,
                        ),
                    }
                },
            }
        },
    }
}

/// Where a reader that began to decode at `start` stands after the failure
/// `e`: behind the last field that it read whole.
pub open spec fn stop_after(e: FormatError, start: int) -> int {
    match e {
        FormatError::BadMagic => start + 15,
        FormatError::UnsupportedVersion { found } => start + 16,
        FormatError::Truncated { offset, wanted } => offset as int,
        FormatError::Decompression => start,
    }
}

/// A container whose first fifteen bytes are there and are not the magic
/// literal fails to decode with `BadMagic`, whatever follows them.
pub proof fn lemma_bad_magic(bytes: Seq<u8>, start: int)
    requires
        0 <= start,
        start + 15 <= bytes.len(),
        bytes.subrange(start, start + 15) != magic(),
    ensures
        decode(bytes, start) == Err::<(Seq<HeaderModel>, int), FormatError>(FormatError::BadMagic),
{
}

/// Whether `fingerprint` is the magic literal.
fn is_magic(fingerprint: &Vec<u8>) -> (same: bool)
    ensures
        same == (fingerprint@ == magic()),
{
    let same = fingerprint.len() == 15 && fingerprint[0] == 0x50 && fingerprint[1] == 0x6f
        && fingerprint[2] == 0x63 && fingerprint[3] == 0x6b && fingerprint[4] == 0x65
        && fingerprint[5] == 0x74 && fingerprint[6] == 0x42 && fingerprint[7] == 0x6f
        && fingerprint[8] == 0x6f && fingerprint[9] == 0x6b && fingerprint[10] == 0x54
        && fingerprint[11] == 0x68 && fingerprint[12] == 0x65 && fingerprint[13] == 0x6d
        && fingerprint[14] == 0x65;
    proof {
        if same {
            assert(fingerprint@ =~= magic());
        } else if fingerprint@.len() == 15 {
            assert(exists|i: int| 0 <= i < 15 && fingerprint@[i] != magic()[i]);
        }
    }
    same
}

/// Decodes the container at the reader's position: checks the magic literal
/// and the version, reads the table length and then the table, entry by
/// entry. Nothing is checked of the offsets and sizes that the headers name.
///
/// Whatever fails, fails the whole decode. The reader then stands behind the
/// last field read whole: behind the fifteen bytes where they are not the
/// magic literal, behind the version byte where it is not 1, and where a read
/// ran past the end, at the position where that read began.
#[verifier::loop_isolation(false)]
pub fn read_headers(reader: &mut ByteReader) -> (read: Result<Vec<ResourceHeader>, FormatError>)
    ensures
        final(reader).bytes() == old(reader).bytes(),
        match read {
            Ok(headers) => decode(old(reader).bytes(), old(reader).position() as int) == Ok::<
                (Seq<HeaderModel>, int),
                FormatError,
            >((models(headers@), final(reader).position() as int)),
            Err(e) => {
                &&& decode(old(reader).bytes(), old(reader).position() as int) == Err::<
                    (Seq<HeaderModel>, int),
                    FormatError,
                >(e)
                &&& final(reader).position() == stop_after(e, old(reader).position() as int)
                &&& !(e is Decompression)
            },
        },
{
    let ghost bytes = reader.bytes();
    let ghost start = reader.position() as int;
    let fingerprint = match reader.read_exact(15) {
        Ok(f) => f,
        Err(e) => { return Err(e); },
    };
    if !is_magic(&fingerprint) {
        return Err(FormatError::BadMagic);
    }
    let version = match reader.read_exact(1) {
        Ok(v) => v,
        Err(e) => { return Err(e); },
    };
    if version[0] != 1 {
        return Err(FormatError::UnsupportedVersion { found: version[0] });
    }
    let length = match reader.read_u32_le() {
        Ok(l) => l,
        Err(e) => { return Err(e); },
    };
    let wide: u128 = reader.stream_position() as u128 + length as u128 + 0x1_0000_0000_0000_0000u128
        - 32u128;
    let end: u64 = (wide % 0x1_0000_0000_0000_0000u128) as u64;
    assert(end == table_end(start + 20, length as int));
    let mut headers: Vec<ResourceHeader> = Vec::new();
    while reader.stream_position() < end
        invariant
            reader.bytes() == bytes,
            parse_table(bytes, start + 20, end as int, true) == (match parse_table(
                bytes,
                reader.position() as int,
                end as int,
                headers@.len() == 0,
            ) {
                Err(e) => Err::<(Seq<HeaderModel>, int), FormatError>(e),
                Ok((rest, stop)) => Ok((models(headers@) + rest, stop)),
            }),
        decreases bytes.len() - reader.position(),
    {
        let ghost before = reader.position() as int;
        let ghost so_far = models(headers@);
        let first = headers.len() == 0;
        let header = match read_resource_header(reader, first) {
            Ok(h) => h,
            Err(e) => { return Err(e); },
        };
        proof {
            lemma_entry_advances(bytes, before, first);
            assert forall|rest: Seq<HeaderModel>| (so_far + seq![header@]) + rest == so_far + (
            seq![header@] + rest) by {
                assert((so_far + seq![header@]) + rest =~= so_far + (seq![header@] + rest));
            }
        }
        headers.push(header);
        proof {
            assert(models(headers@) =~= so_far + seq![header@]);
        }
    }
    proof {
        assert(models(headers@) + Seq::<HeaderModel>::empty() =~= models(headers@));
    }
    Ok(headers)
}

/// Reads one table entry at the reader's position. `first` says that the
/// entry is the first of its table and so has no name field. A read past
/// the end fails with `Truncated` and leaves the reader where that read
/// began.
#[verifier::loop_isolation(false)]
pub fn read_resource_header(reader: &mut ByteReader, first: bool) -> (read: Result<
    ResourceHeader,
    FormatError,
>)
    ensures
        final(reader).bytes() == old(reader).bytes(),
        match read {
            Ok(header) => parse_entry(
                old(reader).bytes(),
                old(reader).position() as int,
                first,
            )
                == Ok::<(HeaderModel, int), FormatError>(
                (header@, final(reader).position() as int),
            ),
            Err(e) => {
                &&& parse_entry(old(reader).bytes(), old(reader).position() as int, first) == Err::<
                    (HeaderModel, int),
                    FormatError,
                >(e)
                &&& e matches FormatError::Truncated { offset, wanted }
                &&& final(reader).position() == offset
            },
        },
{
    let ghost bytes = reader.bytes();
    let ghost start = reader.position() as int;
    let size = match reader.read_u32_le() {
        Ok(v) => v,
        Err(e) => { return Err(e); },
    };
    let offset = match reader.read_u32_le() {
        Ok(v) => v,
        Err(e) => { return Err(e); },
    };
    let compressed_size = match reader.read_u32_le() {
        Ok(v) => v,
        Err(e) => { return Err(e); },
    };
    let mut name = String::new();
    let ghost mut seen: Seq<u8> = Seq::empty();
    let mut more: bool = !first;
    while more
        invariant
            reader.bytes() == bytes,
            name@ == latin1(seen),
            more ==> entry_name(bytes, start + 12, first) == (match parse_name(
                bytes,
                reader.position() as int,
            ) {
                Err(e) => Err::<(Seq<u8>, int), FormatError>(e),
                Ok((rest, next)) => Ok((seen + rest, next)),
            }),
            !more ==> entry_name(bytes, start + 12, first) == Ok::<
                (Seq<u8>, int),
                FormatError,
            >((seen, reader.position() as int)),
        decreases bytes.len() - reader.position() + (if more { 1int } else { 0int }),
    {
        let ghost before = reader.position() as int;
        let group = match reader.read_exact(4) {
            Ok(g) => g,
            Err(e) => { return Err(e); },
        };
        proof {
            assert(group@ == take(bytes, before, 4)->Ok_0);
            assert(group@.len() == 4);
        }
        let mut i: usize = 0;
        while i < 4 && group[i] != 0
            invariant
                i <= 4,
                group@.len() == 4,
                forall|j: int| 0 <= j < i ==> group@[j] != 0,
                name@ == latin1(seen + group@.take(i as int)),
            decreases 4 - i,
        {
            name.push(group[i] as char);
            proof {
                assert(latin1(seen + group@.take(i + 1)) =~= latin1(
                    seen + group@.take(i as int),
                ).push(byte_char(group@[i as int])));
            }
            i += 1;
        }
        proof {
            assert(i as int == group_text_len(group@));
            if i == 4 {
                assert(group@.take(4) =~= group@);
                assert forall|rest: Seq<u8>| (seen + group@) + rest == seen + (group@
                    + rest) by {
                    assert((seen + group@) + rest =~= seen + (group@ + rest));
                }
            }
            seen = seen + group@.take(i as int);
        }
        more = i == 4;
    }
    Ok(ResourceHeader { size, offset, compressed_size, name })
}

} // verus!
