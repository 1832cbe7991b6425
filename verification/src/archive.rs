//! Directory-to-archive serialization: a sequence of archive entries
//! (relative path, directory-or-file, permission mode, file bytes) is written
//! into a tar stream held in memory, and the stream is gzip-compressed into
//! the final artifact bytes. Walking the source directory and writing the
//! artifact file are the caller's business.

use vstd::prelude::*;
use crate::paths::with_extension_of;
use crate::paths::with_extension;

verus! {

/// Whether an archive entry is a directory or a regular file.
#[derive(Clone, Copy, Debug, PartialEq, Eq, Structural)]
pub enum EntryKind {
    Directory,
    File,
}

/// One entry of the archive stream: a path relative to the archived root, its
/// kind, its permission mode, and (for a file) its byte contents.
pub struct ArchiveEntry {
    pub rel_path: String,
    pub kind: EntryKind,
    pub mode: u32,
    pub data: Vec<u8>,
}

/// Mathematical image of an archive entry:
/// `(relative path, is_directory, mode, contents)`. A directory entry carries
/// no contents.
pub open spec fn entry_view(e: ArchiveEntry) -> (Seq<char>, bool, u32, Seq<u8>) {
    if e.kind == EntryKind::Directory {
        (e.rel_path@, true, e.mode, Seq::<u8>::empty())
    } else {
        (e.rel_path@, false, e.mode, e.data@)
    }
}

pub open spec fn entries_view(v: Seq<ArchiveEntry>) -> Seq<(Seq<char>, bool, u32, Seq<u8>)> {
    v.map_values(|e: ArchiveEntry| entry_view(e))
}

/// Whether `p[i..j]` lies exactly between path boundaries of `p`: one
/// slash-delimited component.
pub open spec fn is_component_range(p: Seq<char>, i: int, j: int) -> bool {
    &&& 0 <= i <= j <= p.len()
    &&& (i == 0 || p[i - 1] == '/')
    &&& (j == p.len() || p[j] == '/')
    &&& forall|m: int| i <= m < j ==> p[m] != '/'
}

/// A path the tar serializer accepts outright: ASCII with no NUL character,
/// at most 100 bytes, relative, and every slash-delimited component nonempty
/// and plain (neither `.` nor `..`). Appending an entry under such a path
/// always succeeds; other paths (longer ones, say, or ones holding a NUL) may
/// still be accepted through other header encodings, but no promise is made of
/// them.
pub open spec fn tar_path_ok(p: Seq<char>) -> bool {
    &&& 1 <= p.len() <= 100
    &&& forall|i: int| 0 <= i < p.len() ==> 0 < (#[trigger] p[i] as u32) < 128
    &&& forall|i: int, j: int|
        is_component_range(p, i, j) ==> j > i && p.subrange(i, j) != "."@ && p.subrange(i, j)
            != ".."@
}

/// An entry the tar serializer writes losslessly: its path is accepted
/// outright and its mode fits the header's seven octal digits.
pub open spec fn tar_entry_wf(e: (Seq<char>, bool, u32, Seq<u8>)) -> bool {
    tar_path_ok(e.0) && e.2 < 0o10000000
}

pub open spec fn tar_entries_wf(entries: Seq<(Seq<char>, bool, u32, Seq<u8>)>) -> bool {
    forall|i: int| 0 <= i < entries.len() ==> tar_entry_wf(#[trigger] entries[i])
}

/// Why an archival step failed.
#[derive(Clone, Copy, Debug, PartialEq, Eq, Structural)]
pub enum ArchiveError {
    Append,
    Finish,
    Compress,
}

/// An in-memory tar stream under construction.
#[verifier::external_body]
pub struct TarBuffer {
    inner: tar::Builder<Vec<u8>>,
}

/// The entries appended so far to an in-memory tar stream, in order.
pub uninterp spec fn tar_contents(t: &TarBuffer) -> Seq<(Seq<char>, bool, u32, Seq<u8>)>;

/// The serialized tar stream for the given entries: each entry as a header
/// block (and its contents, zero-padded), followed by the end-of-archive
/// blocks. The serializer normalizes the platform's path separator, which is
/// fixed within any one process.
pub uninterp spec fn tar_bytes_of(entries: Seq<(Seq<char>, bool, u32, Seq<u8>)>) -> Seq<u8>;

/// What tar's archive reader lists from a byte stream: each entry's relative
/// path, directory flag, mode and contents, in stream order, or `None` when
/// the bytes are not a well-formed archive.
pub uninterp spec fn tar_parse_of(b: Seq<u8>) -> Option<Seq<(Seq<char>, bool, u32, Seq<u8>)>>;

/// What `libflate`'s gzip decoder reads out of a gzip stream, or `None` when
/// the stream is not well-formed gzip.
pub uninterp spec fn gzip_inflate_of(b: Seq<u8>) -> Option<Seq<u8>>;

impl TarBuffer {
    /// Relies on `tar::Builder::new` over an in-memory buffer: a fresh
    /// builder has no entries.
    #[verifier::external_body]
    pub fn new() -> (t: TarBuffer)
        ensures
            tar_contents(&t) == Seq::<(Seq<char>, bool, u32, Seq<u8>)>::empty(),
    {
        TarBuffer { inner: tar::Builder::new(Vec::new()) }
    }

    /// Relies on `tar::Header` (GNU defaults, zeroed timestamps/owners) and
    /// `tar::Builder::append_data`: on success exactly one directory entry
    /// with the given path and mode is appended, and writing into the
    /// in-memory buffer fails only when the path is rejected — never for a
    /// path `tar_path_ok` accepts.
    #[verifier::external_body]
    pub fn append_dir_entry(&mut self, rel_path: &str, mode: u32) -> (r: Result<(), ArchiveError>)
        ensures
            r is Ok ==> tar_contents(final(self)) == tar_contents(old(self)).push(
                (rel_path@, true, mode, Seq::<u8>::empty()),
            ),
            tar_path_ok(rel_path@) ==> r is Ok,
    {
        let mut h = tar::Header::new_gnu();
        h.set_entry_type(tar::EntryType::dir());
        h.set_mode(mode);
        h.set_size(0);
        h.set_mtime(0);
        match self.inner.append_data(&mut h, rel_path, std::io::empty()) {
            Ok(()) => Ok(()),
            Err(_) => Err(ArchiveError::Append),
        }
    }

    /// Relies on `tar::Header` (GNU defaults, zeroed timestamps/owners) and
    /// `tar::Builder::append_data`: on success exactly one file entry with the
    /// given path, mode and contents is appended, and writing into the
    /// in-memory buffer fails only when the path is rejected — never for a
    /// path `tar_path_ok` accepts.
    #[verifier::external_body]
    pub fn append_file_entry(&mut self, rel_path: &str, mode: u32, data: &Vec<u8>) -> (r: Result<
        (),
        ArchiveError,
    >)
        ensures
            r is Ok ==> tar_contents(final(self)) == tar_contents(old(self)).push(
                (rel_path@, false, mode, data@),
            ),
            tar_path_ok(rel_path@) ==> r is Ok,
    {
        let mut h = tar::Header::new_gnu();
        h.set_entry_type(tar::EntryType::file());
        h.set_mode(mode);
        h.set_size(data.len() as u64);
        h.set_mtime(0);
        match self.inner.append_data(&mut h, rel_path, data.as_slice()) {
            Ok(()) => Ok(()),
            Err(_) => Err(ArchiveError::Append),
        }
    }

    /// Relies on `tar::Builder::into_inner`: finishing writes the fixed
    /// end-of-archive blocks into the in-memory buffer — which cannot fail —
    /// and hands the buffer back; its bytes are determined by the appended
    /// entries alone (all header fields the entries do not carry were fixed
    /// when appending). Relies further on `tar::Archive`, the reader paired
    /// with the builder: a stream of losslessly-written entries (accepted
    /// paths, modes within seven octal digits) is listed back as exactly
    /// those entries.
    #[verifier::external_body]
    pub fn finish(self) -> (r: Result<Vec<u8>, ArchiveError>)
        ensures
            r is Ok,
            r matches Ok(v) ==> v@ == tar_bytes_of(tar_contents(&self)),
            r matches Ok(v) ==> (tar_entries_wf(tar_contents(&self)) ==> tar_parse_of(v@)
                == Some(tar_contents(&self))),
    {
        match self.inner.into_inner() {
            Ok(v) => Ok(v),
            Err(_) => Err(ArchiveError::Finish),
        }
    }
}

/// Relies on `libflate::gzip::Encoder` (and its documented pairing with
/// `libflate::gzip::Decoder`): writing into an in-memory buffer cannot fail;
/// the artifact produced for `data` inflates back to exactly `data`, whatever
/// header metadata the encoder chose; and it carries at least the ten header
/// bytes and the eight trailer bytes of every gzip stream.
#[verifier::external_body]
fn gzip_compress(data: &Vec<u8>) -> (r: Result<Vec<u8>, ArchiveError>)
    ensures
        r is Ok,
        r matches Ok(v) ==> gzip_inflate_of(v@) == Some(data@) && v@.len() >= 18,
{
    let mut enc = match libflate::gzip::Encoder::new(Vec::new()) {
        Ok(e) => e,
        Err(_) => return Err(ArchiveError::Compress),
    };
    if std::io::Write::write_all(&mut enc, data.as_slice()).is_err() {
        return Err(ArchiveError::Compress);
    }
    match enc.finish().into_result() {
        Ok(v) => Ok(v),
        Err(_) => Err(ArchiveError::Compress),
    }
}

/// Serializes the entries, in order, into a tar stream.
///
/// The caller supplies the entries in an order where every directory precedes
/// its descendants and the archived root itself is absent; this function
/// preserves the given order exactly, and succeeds whenever every entry path
/// is one the serializer accepts outright.
pub fn create_tar_from_dir(entries: &Vec<ArchiveEntry>) -> (r: Result<Vec<u8>, ArchiveError>)
    ensures
        r matches Ok(v) ==> v@ == tar_bytes_of(entries_view(entries@)),
        r matches Ok(v) ==> (tar_entries_wf(entries_view(entries@)) ==> tar_parse_of(v@) == Some(
            entries_view(entries@),
        )),
        (forall|j: int|
            0 <= j < entries@.len() ==> tar_path_ok(#[trigger] entries@[j].rel_path@)) ==> r is Ok,
{
    let mut tar = TarBuffer::new();
    let mut i: usize = 0;
    while i < entries.len()
        invariant
            i <= entries@.len(),
            tar_contents(&tar) == entries_view(entries@.take(i as int)),
        decreases entries@.len() - i,
    {
        let e = &entries[i];
        let step = match e.kind {
            EntryKind::Directory => tar.append_dir_entry(e.rel_path.as_str(), e.mode),
            EntryKind::File => tar.append_file_entry(e.rel_path.as_str(), e.mode, &e.data),
        };
        match step {
            Ok(()) => {},
            Err(err) => {
                proof {
                    assert(!tar_path_ok(entries@[i as int].rel_path@));
                }
                return Err(err);
            },
        }
        proof {
            assert(entries_view(entries@.take(i + 1 as int)) =~= entries_view(
                entries@.take(i as int),
            ).push(entry_view(entries@[i as int])));
            if entries@[i as int].kind == EntryKind::Directory {
                assert(entry_view(entries@[i as int]) == (
                    entries@[i as int].rel_path@,
                    true,
                    entries@[i as int].mode,
                    Seq::<u8>::empty(),
                ));
            }
        }
        i = i + 1;
    }
    proof {
        assert(entries@.take(entries@.len() as int) =~= entries@);
    }
    tar.finish()
}

/// Serializes the entries of the directory `src_dir` into a gzip-compressed
/// tar artifact.
///
/// Returns the artifact path — `src_dir` with its extension replaced by
/// `tar.gz`, a sibling of `src_dir` — and the nonempty artifact bytes, which
/// inflate back to exactly the tar serialization of the entries; when every
/// entry is losslessly writable, reading that serialization back yields the
/// entries themselves, so unpacking the artifact reproduces them. Succeeds
/// whenever every entry path is one the serializer accepts outright.
pub fn tar_and_gzip_dir(src_dir: &str, entries: &Vec<ArchiveEntry>) -> (r: Result<
    (String, Vec<u8>),
    ArchiveError,
>)
    ensures
        r matches Ok(p) ==> p.0@ == with_extension_of(src_dir@, "tar.gz"@) && gzip_inflate_of(
            p.1@,
        ) == Some(tar_bytes_of(entries_view(entries@))) && p.1@.len() > 0,
        r is Ok && tar_entries_wf(entries_view(entries@)) ==> tar_parse_of(
            tar_bytes_of(entries_view(entries@)),
        ) == Some(entries_view(entries@)),
        (forall|j: int|
            0 <= j < entries@.len() ==> tar_path_ok(#[trigger] entries@[j].rel_path@)) ==> r is Ok,
{
    let dest_path = with_extension(src_dir, "tar.gz");
    let tar_bytes = match create_tar_from_dir(entries) {
        Ok(v) => v,
        Err(e) => {
            return Err(e);
        },
    };
    let artifact = match gzip_compress(&tar_bytes) {
        Ok(v) => v,
        Err(e) => {
            return Err(e);
        },
    };
    Ok((dest_path, artifact))
}

} // verus!
