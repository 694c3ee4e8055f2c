//! Replies and their encoding on the wire.

use crate::decimal::{decimal_digits, push_decimal};
use vstd::prelude::*;
use vstd::utf8::encode_utf8;

verus! {

/// What the server answers to a request.
#[derive(Debug, PartialEq, Eq)]
pub enum Reply {
    /// A value, sent as a bulk string.
    Bulk(String),
    /// The absence of a value.
    Null,
    /// A one-line status.
    Status(String),
}

/// A reply as mathematical text.
pub enum ReplyView {
    Bulk(Seq<char>),
    Null,
    Status(Seq<char>),
}

impl View for Reply {
    type V = ReplyView;

    open spec fn view(&self) -> ReplyView {
        match self {
            Reply::Bulk(text) => ReplyView::Bulk(text@),
            Reply::Null => ReplyView::Null,
            Reply::Status(text) => ReplyView::Status(text@),
        }
    }
}

/// The two bytes that end a line.
pub open spec fn terminator() -> Seq<u8> {
    seq![13u8, 10u8]
}

/// A bulk string: `$`, the payload's length in bytes written in decimal, a
/// terminator, the payload and a terminator.
pub open spec fn encode_bulk(text: Seq<char>) -> Seq<u8> {
    seq![36u8] + decimal_digits(encode_utf8(text).len()) + terminator() + encode_utf8(text)
        + terminator()
}

/// The null bulk string, `$-1` and a terminator.
pub open spec fn encode_null() -> Seq<u8> {
    seq![36u8, 45u8, 49u8] + terminator()
}

/// A status line: `+`, the text and a terminator.
pub open spec fn encode_status(text: Seq<char>) -> Seq<u8> {
    seq![43u8] + encode_utf8(text) + terminator()
}

/// The bytes that stand for a reply on the wire.
pub open spec fn encode_reply(reply: ReplyView) -> Seq<u8> {
    match reply {
        ReplyView::Bulk(text) => encode_bulk(text),
        ReplyView::Null => encode_null(),
        ReplyView::Status(text) => encode_status(text),
    }
}

/// Appends `bytes` to `out`.
fn push_bytes(out: &mut Vec<u8>, bytes: &[u8])
    ensures
        final(out)@ == old(out)@ + bytes@,
{
    let mut i: usize = 0;
    while i < bytes.len()
        invariant
            i <= bytes.len(),
            out@ == old(out)@ + bytes@.subrange(0, i as int),
        decreases bytes.len() - i,
    {
        out.push(bytes[i]);
        assert(bytes@.subrange(0, i + 1) =~= bytes@.subrange(0, i as int).push(bytes@[i as int]));
        i = i + 1;
    }
    assert(bytes@.subrange(0, i as int) =~= bytes@);
}

/// Appends a terminator to `out`.
fn push_terminator(out: &mut Vec<u8>)
    ensures
        final(out)@ == old(out)@ + terminator(),
{
    out.push(13);
    out.push(10);
    assert(final(out)@ =~= old(out)@ + terminator());
}

impl Reply {
    /// Encodes the reply for the wire.
    pub fn encode(&self) -> (bytes: Vec<u8>)
        ensures
            bytes@ == encode_reply(self@),
    {
        let mut out: Vec<u8> = Vec::new();
        match self {
            Reply::Bulk(text) => {
                let payload = text.as_str().as_bytes();
                out.push(36);
                push_decimal(&mut out, payload.len());
                push_terminator(&mut out);
                push_bytes(&mut out, payload);
                push_terminator(&mut out);
                assert(out@ =~= encode_bulk(text@));
            },
            Reply::Null => {
                out.push(36);
                out.push(45);
                out.push(49);
                push_terminator(&mut out);
                assert(out@ =~= encode_null());
            },
            Reply::Status(text) => {
                out.push(43);
                push_bytes(&mut out, text.as_str().as_bytes());
                push_terminator(&mut out);
                assert(out@ =~= encode_status(text@));
            },
        }
        out
    }
}

} // verus!
