//! Input as a byte stream that is decoded one code point at a time.
//!
//! The decoding itself is done by the `unicode_reader` crate; this module
//! decides, byte by byte, when a read is complete.

use unicode_reader::CodePoints;
use vstd::prelude::*;

verus! {

/// What the decoder makes of a group of bytes.
#[derive(Debug, Clone, Copy, PartialEq, Eq)]
pub enum Decoded {
    /// There are no bytes.
    Empty,
    /// The bytes start with this code point.
    Char(char),
    /// The bytes end inside a code point.
    Incomplete,
    /// The bytes are not UTF-8.
    Invalid,
}

/// How far a read has come.
#[derive(Debug, Clone, Copy, PartialEq, Eq)]
pub enum Progress {
    /// The bytes so far end inside a code point: another byte is needed.
    More,
    /// The read is over, with a character or without one.
    Done(Option<char>),
}

/// The outcome of one read from a byte stream.
#[verifier::ext_equal]
pub struct Reading {
    /// The character read, if any.
    pub event: Option<char>,
    /// The bytes that the read left in the stream.
    pub rest: Seq<u8>,
}

/// A name for what `unicode_reader::CodePoints` yields first on a stream
/// that holds exactly `bytes`.
pub uninterp spec fn first_code_point(bytes: Seq<u8>) -> Decoded;

/// `CodePoints::from(..).next()` on the bytes of `bytes`: the first item
/// of the decoder, with its error told apart by kind.  An error of kind
/// `UnexpectedEof` is the decoder's report that the stream ended inside a
/// code point; every other error stands for bytes that are not UTF-8.
#[verifier::external_body]
fn decode_first(bytes: &Vec<u8>) -> (d: Decoded)
    ensures
        d == first_code_point(bytes@),
{
    match CodePoints::from(bytes.iter().copied().map(Ok::<u8, std::io::Error>)).next() {
        None => Decoded::Empty,
        Some(Ok(c)) => Decoded::Char(c),
        Some(Err(e)) => match e.kind() {
            std::io::ErrorKind::UnexpectedEof => Decoded::Incomplete,
            _ => Decoded::Invalid,
        },
    }
}

/// What a read makes of the bytes gathered so far once `byte` arrives,
/// and the bytes it keeps for the next byte.
pub open spec fn feed_spec(gathered: Seq<u8>, byte: Option<u8>) -> (Progress, Seq<u8>) {
    match byte {
        None => (Progress::Done(None), Seq::empty()),
        Some(b) => match first_code_point(gathered.push(b)) {
            Decoded::Char(c) => (Progress::Done(Some(c)), Seq::empty()),
            Decoded::Incomplete => (Progress::More, gathered.push(b)),
            _ => (Progress::Done(None), Seq::empty()),
        },
    }
}

/// Hands the next byte of the stream, or its end, to a read in progress.
///
/// The read is over when the gathered bytes form a code point, when they
/// cannot be UTF-8, and at the end of the stream; in the last two cases
/// no character was read.  A finished read leaves `gathered` empty.
pub fn feed(gathered: &mut Vec<u8>, byte: Option<u8>) -> (p: Progress)
    ensures
        (p, final(gathered)@) == feed_spec(old(gathered)@, byte),
{
    match byte {
        None => {
            gathered.clear();
            Progress::Done(None)
        },
        Some(b) => {
            gathered.push(b);
            match decode_first(gathered) {
                Decoded::Char(c) => {
                    gathered.clear();
                    Progress::Done(Some(c))
                },
                Decoded::Incomplete => Progress::More,
                _ => {
                    gathered.clear();
                    Progress::Done(None)
                },
            }
        },
    }
}

/// A read that has gathered the first `n - 1` bytes of `stream` and now
/// takes the next one.
pub open spec fn scan(stream: Seq<u8>, n: int) -> Reading
    decreases stream.len() + 1 - n,
{
    if n < 1 || n > stream.len() {
        Reading { event: None, rest: Seq::empty() }
    } else {
        match first_code_point(stream.take(n)) {
            Decoded::Char(c) => Reading { event: Some(c), rest: stream.skip(n) },
            Decoded::Incomplete => scan(stream, n + 1),
            _ => Reading { event: None, rest: stream.skip(n) },
        }
    }
}

/// One read from `stream`: bytes are taken until they form a code point
/// or cannot be UTF-8.  At the end of the stream no character is read.
pub open spec fn read_spec(stream: Seq<u8>) -> Reading {
    scan(stream, 1)
}

} // verus!
