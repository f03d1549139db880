//! Compound files: the structured storage that Agent 1.5 characters come in,
//! read through the `cfb` crate.
use vstd::prelude::*;

verus! {

/// An in-memory file as the `cfb` crate reads it.
#[verifier::external_type_specification]
#[verifier::external_body]
#[verifier::reject_recursive_types(T)]
pub struct ExCursor<T>(std::io::Cursor<T>);

/// An open compound file.
#[verifier::external_type_specification]
#[verifier::external_body]
#[verifier::reject_recursive_types(F)]
pub struct ExCompoundFile<F>(cfb::CompoundFile<F>);

/// An open stream of a compound file.
#[verifier::external_type_specification]
#[verifier::external_body]
#[verifier::reject_recursive_types(F)]
pub struct ExStream<F>(cfb::Stream<F>);

/// What `cfb::CompoundFile::open` finds wrong with the bytes of a file, in
/// words, if it finds anything wrong.
pub uninterp spec fn compound_fault(data: Seq<u8>) -> Option<Seq<char>>;

/// The bytes of an open compound file.
pub uninterp spec fn compound_bytes(
    file: cfb::CompoundFile<std::io::Cursor<Vec<u8>>>,
) -> Seq<u8>;

/// The contents of the stream that a path leads to in the bytes of a compound
/// file, if it leads to one.
pub uninterp spec fn stream_in(data: Seq<u8>, path: Seq<char>) -> Option<Seq<u8>>;

/// What is still to be read of an open stream.
pub uninterp spec fn stream_rest(stream: cfb::Stream<std::io::Cursor<Vec<u8>>>) -> Seq<u8>;

/// A character that means the same in a path on every platform: a backslash
/// separates names on some, and a colon ends a prefix on some.
pub open spec fn is_plain_char(c: char) -> bool {
    c != '\\' && c != ':'
}

/// A path that every platform takes apart alike, from the root down. One that
/// starts with two slashes names another machine on some platforms.
pub open spec fn plain_path(path: Seq<char>) -> bool {
    &&& path.len() >= 1
    &&& path[0] == '/'
    &&& path.len() >= 2 ==> path[1] != '/'
    &&& forall|i: int| 0 <= i < path.len() ==> is_plain_char(#[trigger] path[i])
}

/// Calls `cfb::CompoundFile::open` on the bytes of a file. Whether it opens,
/// and the words of the complaint if not, are named as a function of the bytes;
/// an open file has the bytes it was opened on.
#[verifier::external_body]
pub(crate) fn open(data: Vec<u8>) -> (r: Result<
    cfb::CompoundFile<std::io::Cursor<Vec<u8>>>,
    String,
>)
    ensures
        match r {
            Ok(file) => compound_fault(data@) is None && compound_bytes(file) == data@,
            Err(e) => compound_fault(data@) == Some(e@),
        },
{
    cfb::CompoundFile::open(std::io::Cursor::new(data)).map_err(|e| e.to_string())
}

/// Calls `cfb::CompoundFile::open_stream`. It leaves the file as it is. For a
/// path that every platform takes apart alike, it succeeds exactly if the path
/// leads to a stream, and the whole contents are then still to be read. For
/// other paths nothing is said of whether it succeeds.
#[verifier::external_body]
pub(crate) fn open_stream(
    file: &mut cfb::CompoundFile<std::io::Cursor<Vec<u8>>>,
    path: &str,
) -> (r: Option<cfb::Stream<std::io::Cursor<Vec<u8>>>>)
    ensures
        compound_bytes(*final(file)) == compound_bytes(*old(file)),
        plain_path(path@) ==> match r {
            Some(stream) => stream_in(compound_bytes(*old(file)), path@) == Some(
                stream_rest(stream),
            ),
            None => stream_in(compound_bytes(*old(file)), path@) is None,
        },
{
    file.open_stream(path).ok()
}

/// Calls `read_to_end` on a stream. On success the buffer has grown by what was
/// still to be read, that many bytes are reported, and nothing is left. Reading
/// can fail on a stream that the file cuts short, and for want of memory, which
/// depends on the machine; so nothing is said of when it fails.
#[verifier::external_body]
pub(crate) fn read_to_end(
    stream: &mut cfb::Stream<std::io::Cursor<Vec<u8>>>,
    buffer: &mut Vec<u8>,
) -> (r: Result<usize, String>)
    ensures
        r matches Ok(n) ==> {
            &&& n == stream_rest(*old(stream)).len()
            &&& final(buffer)@ == old(buffer)@ + stream_rest(*old(stream))
            &&& stream_rest(*final(stream)) == Seq::<u8>::empty()
        },
{
    std::io::Read::read_to_end(stream, buffer).map_err(|e| e.to_string())
}

} // verus!
