//! The bulk ingest stream's framing decisions. A client sends frames, each
//! a 4-byte little-endian length followed by that many bytes. The first
//! frame either selects the database by name or already carries a JSON
//! batch of records; later frames carry batches. Reading the socket,
//! decoding the records and writing them stay with the server loop, which
//! asks this module what each frame means.
use vstd::prelude::*;
use crate::engine::tokenizer::texts;
use crate::query_planner::function::builtins::{trim_text, trimmed};
use crate::render::same_text;

verus! {

/// The largest payload a frame may announce: 50 MiB.
pub const MAX_FRAME_BYTES: usize = 52428800;

/// The value of a 4-byte little-endian length prefix.
pub open spec fn le_u32(b: Seq<u8>) -> int {
    b[0] as int + 256 * b[1] as int + 65536 * b[2] as int + 16777216 * b[3] as int
}

/// Decodes a frame's length prefix (`u32::from_le_bytes`).
pub fn frame_length(prefix: [u8; 4]) -> (n: u32)
    ensures
        n as int == le_u32(prefix@),
{
    let b0 = prefix[0] as u32;
    let b1 = prefix[1] as u32;
    let b2 = prefix[2] as u32;
    let b3 = prefix[3] as u32;
    b0 + 256 * b1 + 65536 * b2 + 16777216 * b3
}

/// Whether a frame announcing `len` bytes is refused (the connection is
/// closed rather than the payload read).
pub fn frame_too_large(len: u32) -> (r: bool)
    ensures
        r == (len > MAX_FRAME_BYTES),
{
    len as u64 > MAX_FRAME_BYTES as u64
}

/// The text `String::from_utf8_lossy` makes of `bytes`: the UTF-8 decoding,
/// with each invalid sequence replaced by U+FFFD.
pub uninterp spec fn utf8_lossy(bytes: Seq<u8>) -> Seq<char>;

/// `String::from_utf8_lossy`, owned.
#[verifier::external_body]
fn lossy_text(bytes: &[u8]) -> (r: String)
    ensures
        r@ == utf8_lossy(bytes@),
{
    String::from_utf8_lossy(bytes).into_owned()
}

/// What the first frame of a connection is.
#[derive(Debug, Clone, PartialEq, Eq)]
pub enum FirstFrame {
    /// A JSON batch (it starts with `[` or `{`): the records go to the
    /// database the server picks for unnamed streams.
    Data,
    /// A database name: the stream writes there, and the server
    /// acknowledges the selection.
    Database(String),
}

/// The database a name frame selects, given the frame's decoded text:
/// the trimmed text, or `default` when nothing is left.
pub open spec fn database_named(text: Seq<char>) -> Seq<char> {
    if trimmed(text).len() == 0 { "default"@ } else { trimmed(text) }
}

/// A first frame is data when its payload starts with `[` or `{`.
pub open spec fn is_data_frame(payload: Seq<u8>) -> bool {
    payload.len() > 0 && (payload[0] == 91u8 || payload[0] == 123u8)
}

/// The database a name frame selects (see [`database_named`]), from the
/// frame's decoded text.
pub fn database_from_text(text: &str) -> (r: String)
    ensures
        r@ == database_named(text@),
{
    let t = trim_text(text);
    if t.unicode_len() == 0 {
        proof {
            reveal_strlit("default");
        }
        String::from_str("default")
    } else {
        t
    }
}

/// Classifies the first frame of a connection.
pub fn first_frame(payload: &[u8]) -> (r: FirstFrame)
    ensures
        is_data_frame(payload@) ==> r == FirstFrame::Data,
        !is_data_frame(payload@) ==> (r matches FirstFrame::Database(name) && name@ == database_named(utf8_lossy(payload@))),
{
    if payload.len() > 0 && (payload[0] == 91u8 || payload[0] == 123u8) {
        FirstFrame::Data
    } else {
        let text = lossy_text(payload);
        FirstFrame::Database(database_from_text(text.as_str()))
    }
}

/// The database an unnamed stream writes to, given the names of the
/// databases with a schema in the order the server walked them: the first
/// that is not `default`, else `default`.
pub open spec fn unnamed_stream_database(names: Seq<Seq<char>>) -> Seq<char>
    decreases names.len(),
{
    if names.len() == 0 {
        "default"@
    } else if names[0] != "default"@ {
        names[0]
    } else {
        unnamed_stream_database(names.drop_first())
    }
}

/// Picks the database an unnamed stream writes to (see
/// [`unnamed_stream_database`]).
pub fn database_for_unnamed_stream(names: &Vec<String>) -> (r: String)
    ensures
        r@ == unnamed_stream_database(texts(names@)),
{
    proof {
        reveal_strlit("default");
        assert(texts(names@).skip(0) =~= texts(names@));
    }
    let mut i: usize = 0;
    while i < names.len()
        invariant
            i <= names@.len(),
            unnamed_stream_database(texts(names@)) == unnamed_stream_database(texts(names@).skip(i as int)),
        decreases names@.len() - i,
    {
        proof {
            assert(texts(names@).skip(i as int).drop_first() =~= texts(names@).skip(i + 1));
            assert(texts(names@).skip(i as int)[0] == names@[i as int]@);
        }
        if !same_text(names[i].as_str(), "default") {
            return names[i].clone();
        }
        i = i + 1;
    }
    proof {
        assert(texts(names@).skip(i as int).len() == 0);
    }
    String::from_str("default")
}

} // verus!
