//! Unpacking a container: the resources asked for by name, as files.

use vstd::prelude::*;
use vstd::string::StringExecFns;
use crate::container::{decode, models, read_headers, HeaderModel, ResourceHeader};
use crate::error::FormatError;
use crate::extract::{extract, read_resource};
use crate::reader::ByteReader;
use crate::text::texts;

verus! {

/// One unpacked resource: the name of the file to write and its contents.
#[derive(Debug, PartialEq, Eq)]
pub struct UnpackedFile {
    pub name: String,
    pub bytes: Vec<u8>,
}

/// What an unpacked file holds, as plain values.
pub struct FileModel {
    pub name: Seq<char>,
    pub bytes: Seq<u8>,
}

impl View for UnpackedFile {
    type V = FileModel;

    open spec fn view(&self) -> FileModel {
        FileModel { name: self.name@, bytes: self.bytes@ }
    }
}

/// What came of unpacking: the files made, in the order of the table, and
/// the failure that ended the run early, if one did.
pub struct Unpacked {
    pub files: Vec<UnpackedFile>,
    pub failure: Option<FormatError>,
}

/// What each file of a list holds, in order.
pub open spec fn file_models(files: Seq<UnpackedFile>) -> Seq<FileModel> {
    Seq::new(files.len(), |i: int| files[i]@)
}

/// The name of the file for the resource called `name`: the name itself, and
/// `theme.cfg` for the unnamed configuration resource.
pub open spec fn file_name(name: Seq<char>) -> Seq<char> {
    if name.len() == 0 {
        "theme.cfg"@
    } else {
        name
    }
}

/// What unpacking the resources called one of `wanted` gives, going through
/// `headers` in order: a file for each such resource, up to the first that
/// cannot be extracted. That failure ends the run and is the second part of
/// the result.
pub open spec fn unpacked(bytes: Seq<u8>, headers: Seq<HeaderModel>, wanted: Seq<Seq<char>>) -> (
    Seq<FileModel>,
    Option<FormatError>,
)
    decreases headers.len(),
{
    if headers.len() == 0 {
        (Seq::empty(), None)
    } else if !wanted.contains(headers.first().name) {
        unpacked(bytes, headers.drop_first(), wanted)
    } else {
        match extract(bytes, headers.first()) {
            Err(e) => (Seq::empty(), Some(e)),
            Ok(payload) => {
                let (rest, failure) = unpacked(bytes, headers.drop_first(), wanted);
                (
                    seq![FileModel { name: file_name(headers.first().name), bytes: payload }]
                        + rest,
                    failure,
                )
            },
        }
    }
}

/// The name of the file that the resource of `header` is written to.
pub fn output_name(header: &ResourceHeader) -> (name: String)
    ensures
        name@ == file_name(header.name@),
{
    if header.name.as_str().is_empty() {
        String::from_str("theme.cfg")
    } else {
        header.name.clone()
    }
}

/// Whether `name` is one of `wanted`.
pub fn is_wanted(wanted: &Vec<String>, name: &String) -> (found: bool)
    ensures
        found == texts(wanted@).contains(name@),
{
    let mut i: usize = 0;
    while i < wanted.len()
        invariant
            i <= wanted@.len(),
            forall|k: int| 0 <= k < i ==> texts(wanted@)[k] != name@,
        decreases wanted@.len() - i,
    {
        if wanted[i] == *name {
            assert(texts(wanted@)[i as int] == name@);
            return true;
        }
        i += 1;
    }
    false
}

/// Unpacks from the container at the reader's position every resource whose
/// name is one of `resources`, in the order of the table. The first resource
/// that cannot be extracted ends the run: the files made before it are
/// returned together with the failure. A table that cannot be decoded yields
/// no file at all.
pub fn unpack(reader: &mut ByteReader, resources: &Vec<String>) -> (made: Result<
    Unpacked,
    FormatError,
>)
    ensures
        final(reader).bytes() == old(reader).bytes(),
        match decode(old(reader).bytes(), old(reader).position() as int) {
            Err(e) => made == Err::<Unpacked, FormatError>(e),
            Ok((headers, stop)) => {
                &&& made matches Ok(done)
                &&& (file_models(done.files@), done.failure) == unpacked(
                    old(reader).bytes(),
                    headers,
                    texts(resources@),
                )
            },
        },
{
    let ghost bytes = reader.bytes();
    let ghost wanted = texts(resources@);
    let headers = match read_headers(reader) {
        Ok(h) => h,
        Err(e) => { return Err(e); },
    };
    let ghost hs = models(headers@);
    let mut files: Vec<UnpackedFile> = Vec::new();
    let mut failure: Option<FormatError> = None;
    let mut i: usize = 0;
    proof {
        assert(hs.skip(0) =~= hs);
        assert(file_models(files@) + unpacked(bytes, hs, wanted).0 =~= unpacked(
            bytes,
            hs,
            wanted,
        ).0);
    }
    while i < headers.len() && failure.is_none()
        invariant
            i <= headers@.len(),
            reader.bytes() == bytes,
            hs == models(headers@),
            wanted == texts(resources@),
            failure is None ==> unpacked(bytes, hs, wanted) == ({
                let (rest, end) = unpacked(bytes, hs.skip(i as int), wanted);
                (file_models(files@) + rest, end)
            }),
            failure is Some ==> unpacked(bytes, hs, wanted) == (file_models(files@), failure),
        decreases headers@.len() - i + (if failure is None { 1int } else { 0int }),
    {
        let header = &headers[i];
        let ghost so_far = file_models(files@);
        proof {
            assert(hs.skip(i as int).first() == header@);
            assert(hs.skip(i as int).drop_first() =~= hs.skip(i + 1));
        }
        if is_wanted(resources, &header.name) {
            match read_resource(reader, header) {
                Ok(payload) => {
                    let file = UnpackedFile { name: output_name(header), bytes: payload };
                    proof {
                        assert forall|rest: Seq<FileModel>| (so_far + seq![file@]) + rest == so_far
                            + (seq![file@] + rest) by {
                            assert((so_far + seq![file@]) + rest =~= so_far + (seq![file@]
                                + rest));
                        }
                    }
                    files.push(file);
                    proof {
                        assert(file_models(files@) =~= so_far + seq![file@]);
                    }
                    i += 1;
                },
                Err(e) => {
                    proof {
                        assert(so_far + Seq::<FileModel>::empty() =~= so_far);
                    }
                    failure = Some(e);
                },
            }
        } else {
            i += 1;
        }
    }
    proof {
        if failure is None {
            assert(hs.skip(i as int).len() == 0);
            assert(file_models(files@) + Seq::<FileModel>::empty() =~= file_models(files@));
        }
    }
    Ok(Unpacked { files, failure })
}

} // verus!
