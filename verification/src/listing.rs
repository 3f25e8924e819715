//! Listing a container: every resource with a line that says what it seems
//! to be, and the widths of the columns that hold the listing.

use vstd::prelude::*;
use vstd::utf8::encode_utf8;
use crate::container::{decode, models, read_headers, HeaderModel, ResourceHeader};
use crate::error::{format_message, FormatError};
use crate::extract::{extract, read_resource};
use crate::reader::ByteReader;
use crate::sniff::{classify, summary, ResourceKind};
use crate::text::{decimal, digits_len, texts};

verus! {

/// The widths of the four columns of a listing, in bytes of text.
#[derive(Clone, Copy, Debug, PartialEq, Eq, Structural)]
pub struct ColumnWidths {
    /// The column of the names.
    pub resource: usize,
    /// The column of the declared sizes.
    pub size: usize,
    /// The column of the compressed sizes.
    pub compressed_size: usize,
    /// The column of the describing lines.
    pub verbose: usize,
}

/// A container's resources as a listing shows them.
pub struct Listing {
    /// The headers of the table, in the order of the file.
    pub headers: Vec<ResourceHeader>,
    /// For each header the line that describes its resource, or the line
    /// that reports why the resource could not be extracted.
    pub verboses: Vec<String>,
    /// The widths that fit every row and the column titles.
    pub widths: ColumnWidths,
}

/// The greatest of `values`, and `floor` where none is greater.
pub open spec fn widest(values: Seq<int>, floor: int) -> int
    decreases values.len(),
{
    if values.len() == 0 {
        floor
    } else {
        let rest = widest(values.drop_last(), floor);
        if values.last() > rest {
            values.last()
        } else {
            rest
        }
    }
}

/// The length of each name in bytes of UTF-8.
pub open spec fn name_lengths(headers: Seq<HeaderModel>) -> Seq<int> {
    Seq::new(headers.len(), |i: int| encode_utf8(headers[i].name).len() as int)
}

/// The declared size of each resource.
pub open spec fn sizes(headers: Seq<HeaderModel>) -> Seq<int> {
    Seq::new(headers.len(), |i: int| headers[i].size as int)
}

/// The length of each line in bytes of UTF-8.
pub open spec fn line_lengths(lines: Seq<Seq<char>>) -> Seq<int> {
    Seq::new(lines.len(), |i: int| encode_utf8(lines[i]).len() as int)
}

/// The column widths of a listing of `headers` with the describing lines
/// `lines`. The names get at least the 8 bytes of their title; the sizes as
/// many digits as the greatest of them has, and at least 4; the compressed
/// sizes always 15, the length of their title, which no 32-bit number
/// exceeds; the lines at least the 7 bytes of their title.
pub open spec fn widths_of(headers: Seq<HeaderModel>, lines: Seq<Seq<char>>) -> ColumnWidths {
    ColumnWidths {
        resource: widest(name_lengths(headers), 8) as usize,
        size: decimal(widest(sizes(headers), 9999) as nat).len() as usize,
        compressed_size: 15,
        verbose: widest(line_lengths(lines), 7) as usize,
    }
}

/// What the resource of `header` in the container `bytes` seems to be, where
/// it can be extracted.
pub open spec fn described(bytes: Seq<u8>, header: HeaderModel) -> Result<
    ResourceKind,
    FormatError,
> {
    match extract(bytes, header) {
        Err(e) => Err(e),
        Ok(payload) => Ok(classify(header.name, payload)),
    }
}

/// The line of a listing for one resource: what it seems to be, or why it
/// could not be extracted.
pub open spec fn verbose(outcome: Result<ResourceKind, FormatError>) -> Seq<char> {
    match outcome {
        Ok(kind) => summary(kind),
        Err(e) => format_message(e),
    }
}

/// The describing lines of all resources of `headers`, in order.
pub open spec fn verboses_of(bytes: Seq<u8>, headers: Seq<HeaderModel>) -> Seq<Seq<char>> {
    Seq::new(headers.len(), |i: int| verbose(described(bytes, headers[i])))
}

/// Extracts the resource of `header` and guesses what it is.
pub fn describe(reader: &mut ByteReader, header: &ResourceHeader) -> (outcome: Result<
    ResourceKind,
    FormatError,
>)
    ensures
        final(reader).bytes() == old(reader).bytes(),
        outcome == described(old(reader).bytes(), header@),
{
    match read_resource(reader, header) {
        Ok(payload) => Ok(ResourceKind::kind_of(header, payload.as_slice())),
        Err(e) => Err(e),
    }
}

/// The line of a listing for the outcome of describing one resource.
pub fn verbose_line(outcome: &Result<ResourceKind, FormatError>) -> (line: String)
    ensures
        line@ == verbose(*outcome),
{
    match outcome {
        Ok(kind) => kind.to_string(),
        Err(e) => e.message(),
    }
}

/// The widths of the columns of a listing of `headers` whose describing
/// lines are `lines`.
pub fn column_widths(headers: &Vec<ResourceHeader>, lines: &Vec<String>) -> (widths: ColumnWidths)
    ensures
        widths == widths_of(models(headers@), texts(lines@)),
{
    let ghost hs = models(headers@);
    let ghost ls = texts(lines@);
    let mut max_resource: usize = 8;
    let mut max_size: usize = 9999;
    let mut i: usize = 0;
    while i < headers.len()
        invariant
            i <= headers@.len(),
            hs == models(headers@),
            max_resource == widest(name_lengths(hs).take(i as int), 8),
            max_size == widest(sizes(hs).take(i as int), 9999),
        decreases headers@.len() - i,
    {
        let header = &headers[i];
        proof {
            assert(name_lengths(hs).take(i + 1).drop_last() =~= name_lengths(hs).take(i as int));
            assert(sizes(hs).take(i + 1).drop_last() =~= sizes(hs).take(i as int));
        }
        let name_len: usize = header.name.as_str().as_bytes().len();
        if name_len > max_resource {
            max_resource = name_len;
        }
        if header.size as usize > max_size {
            max_size = header.size as usize;
        }
        i += 1;
    }
    let mut max_verbose: usize = 7;
    let mut j: usize = 0;
    while j < lines.len()
        invariant
            j <= lines@.len(),
            ls == texts(lines@),
            max_verbose == widest(line_lengths(ls).take(j as int), 7),
        decreases lines@.len() - j,
    {
        proof {
            assert(line_lengths(ls).take(j + 1).drop_last() =~= line_lengths(ls).take(j as int));
        }
        let line_len: usize = lines[j].as_str().as_bytes().len();
        if line_len > max_verbose {
            max_verbose = line_len;
        }
        j += 1;
    }
    proof {
        assert(name_lengths(hs).take(headers@.len() as int) =~= name_lengths(hs));
        assert(sizes(hs).take(headers@.len() as int) =~= sizes(hs));
        assert(line_lengths(ls).take(lines@.len() as int) =~= line_lengths(ls));
    }
    ColumnWidths {
        resource: max_resource,
        size: digits_len(max_size),
        compressed_size: 15,
        verbose: max_verbose,
    }
}

/// Lists the container at the reader's position: decodes its table, then
/// extracts and describes every resource. A resource that cannot be
/// extracted does not end the listing; its line reports the failure. Only a
/// table that cannot be decoded does.
pub fn list(reader: &mut ByteReader) -> (made: Result<Listing, FormatError>)
    ensures
        final(reader).bytes() == old(reader).bytes(),
        match decode(old(reader).bytes(), old(reader).position() as int) {
            Err(e) => made == Err::<Listing, FormatError>(e),
            Ok((headers, stop)) => {
                &&& made matches Ok(listing)
                &&& models(listing.headers@) == headers
                &&& texts(listing.verboses@) == verboses_of(old(reader).bytes(), headers)
                &&& listing.widths == widths_of(headers, texts(listing.verboses@))
            },
        },
{
    let ghost bytes = reader.bytes();
    let headers = match read_headers(reader) {
        Ok(h) => h,
        Err(e) => { return Err(e); },
    };
    let ghost hs = models(headers@);
    let mut verboses: Vec<String> = Vec::new();
    let mut i: usize = 0;
    while i < headers.len()
        invariant
            i <= headers@.len(),
            reader.bytes() == bytes,
            hs == models(headers@),
            verboses@.len() == i,
            forall|k: int| 0 <= k < i ==> (#[trigger] verboses@[k])@ == verbose(described(bytes, hs[k])),
        decreases headers@.len() - i,
    {
        let outcome = describe(reader, &headers[i]);
        verboses.push(verbose_line(&outcome));
        i += 1;
    }
    proof {
        assert(texts(verboses@) =~= verboses_of(bytes, hs));
    }
    let widths = column_widths(&headers, &verboses);
    Ok(Listing { headers, verboses, widths })
}

} // verus!
