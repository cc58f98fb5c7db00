//! Archives, written with `zip::ZipWriter` into memory. What a writer has
//! been given so far is named as a sequence of files, and so is the answer of
//! each of its operations; the functions here say what each operation does
//! to that sequence.

use vstd::prelude::*;
use std::io::Cursor;
use zip::ZipWriter;

verus! {

/// An archive in the making: a `zip::ZipWriter` over a buffer in memory.
#[verifier::external_body]
pub struct ArchiveWriter {
    inner: ZipWriter<Cursor<Vec<u8>>>,
}

/// The files that a writer has been given, in the order in which they were
/// started: the name and the content of each.
pub uninterp spec fn archive_of(w: ArchiveWriter) -> Seq<(Seq<char>, Seq<u8>)>;

/// What `ZipWriter::start_file` answers, with deflate compression and
/// otherwise default options, when a writer that has been given `files` is
/// asked to start a file of this name: the text of its error, or `None`
/// where it succeeds. The writer writes into memory and is built without its
/// clock, so the answer depends on the files and the name alone.
pub uninterp spec fn started(files: Seq<(Seq<char>, Seq<u8>)>, name: Seq<char>) -> Option<Seq<char>>;

/// What `Write::write_all` answers when a writer that has been given
/// `files`, the last of them started and still empty, is asked to write this
/// content: the text of its error, or `None` where it succeeds.
pub uninterp spec fn written(files: Seq<(Seq<char>, Seq<u8>)>, content: Seq<u8>) -> Option<Seq<char>>;

/// What `ZipWriter::finish` answers for a writer that has been given
/// `files`, each written in one piece: the bytes of the archive, or the text
/// of its error. Every file is dated alike, so the bytes depend on the files
/// alone.
pub uninterp spec fn finished(files: Seq<(Seq<char>, Seq<u8>)>) -> Result<Seq<u8>, Seq<char>>;

/// `ZipWriter::new` over an empty buffer: a writer that has been given no
/// file.
#[verifier::external_body]
pub(crate) fn writer_new() -> (w: ArchiveWriter)
    ensures
        archive_of(w).len() == 0,
{
    ArchiveWriter { inner: ZipWriter::new(Cursor::new(Vec::new())) }
}

/// `ZipWriter::start_file` with deflate compression: the answer is the one
/// named by [`started`]; where it succeeds, the writer has been given one
/// more file, of this name and still empty.
#[verifier::external_body]
pub(crate) fn writer_start(w: &mut ArchiveWriter, name: &str) -> (r: Result<(), String>)
    ensures
        match r {
            Ok(()) => started(archive_of(*old(w)), name@) is None && archive_of(*final(w))
                == archive_of(*old(w)).push((name@, Seq::empty())),
            Err(e) => started(archive_of(*old(w)), name@) == Some(e@),
        },
{
    let options = zip::write::SimpleFileOptions::default().compression_method(
        zip::CompressionMethod::Deflated,
    );
    w.inner.start_file(name, options).map_err(|e| e.to_string())
}

/// `Write::write_all` on the writer, for a file that was started and is
/// still empty: the answer is the one named by [`written`]; where it
/// succeeds, the file that was started last has this content.
#[verifier::external_body]
pub(crate) fn writer_write(w: &mut ArchiveWriter, content: &[u8]) -> (r: Result<(), String>)
    requires
        archive_of(*old(w)).len() > 0,
        archive_of(*old(w)).last().1.len() == 0,
    ensures
        match r {
            Ok(()) => written(archive_of(*old(w)), content@) is None && archive_of(*final(w))
                == archive_of(*old(w)).drop_last().push((archive_of(*old(w)).last().0, content@)),
            Err(e) => written(archive_of(*old(w)), content@) == Some(e@),
        },
{
    std::io::Write::write_all(&mut w.inner, content).map_err(|e| e.to_string())
}

/// `ZipWriter::finish`: the answer is the one named by [`finished`] for the
/// files that the writer has been given.
#[verifier::external_body]
pub(crate) fn writer_finish(w: ArchiveWriter) -> (r: Result<Vec<u8>, String>)
    ensures
        match r {
            Ok(b) => finished(archive_of(w)) == Ok::<Seq<u8>, Seq<char>>(b@),
            Err(e) => finished(archive_of(w)) == Err::<Seq<u8>, Seq<char>>(e@),
        },
{
    w.inner.finish().map(|c| c.into_inner()).map_err(|e| e.to_string())
}

} // verus!
