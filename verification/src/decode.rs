//! Decoding of request frames: an array of bulk strings.
//!
//! A frame is `*<count>\r\n` followed by `count` elements, each of them
//! `$<length>\r\n`, `length` bytes of payload and `\r\n`. Whatever follows the
//! last element is left unread.

use crate::decimal::{parse_decimal, parse_number, unsigned_part};
use crate::text::{decode_text, text_from_bytes};
use vstd::prelude::*;
use vstd::slice::*;

verus! {

/// The byte `*`, which opens a frame.
pub const ARRAY_MARK: u8 = 42;

/// The byte `$`, which opens a bulk string.
pub const BULK_MARK: u8 = 36;

/// Carriage return, the first byte of a terminator.
pub const CR: u8 = 13;

/// Line feed, the second byte of a terminator.
pub const LF: u8 = 10;

/// The position of the first carriage return at or after `pos`, or the
/// length of `bytes` if there is none.
pub open spec fn line_end(bytes: Seq<u8>, pos: int) -> int
    decreases bytes.len() - pos,
{
    if pos < 0 || pos >= bytes.len() {
        bytes.len() as int
    } else if bytes[pos] == 13 {
        pos
    } else {
        line_end(bytes, pos + 1)
    }
}

/// A number field that starts at `pos`: the number written up to the next
/// carriage return, which a line feed must follow. Gives the number and the
/// position after the terminator.
pub open spec fn decode_number_line(bytes: Seq<u8>, pos: int) -> Option<(nat, int)> {
    let end = line_end(bytes, pos);
    if 0 <= pos && end + 1 < bytes.len() && bytes[end + 1] == 10 {
        match parse_decimal(bytes.subrange(pos, end)) {
            Some(n) => Some((n, end + 2)),
            None => None,
        }
    } else {
        None
    }
}

/// A bulk string that starts at `pos`: the marker, the payload's length in
/// bytes, the payload, which must be valid UTF-8, and its terminator. Gives
/// the payload as text and the position after the terminator.
pub open spec fn decode_bulk(bytes: Seq<u8>, pos: int) -> Option<(Seq<char>, int)> {
    if 0 <= pos < bytes.len() && bytes[pos] == 36 {
        match decode_number_line(bytes, pos + 1) {
            Some((n, start)) => {
                if start + n + 2 <= bytes.len() && bytes[start + n] == 13 && bytes[start + n + 1]
                    == 10 {
                    match decode_text(bytes.subrange(start, start + n)) {
                        Some(text) => Some((text, start + n + 2)),
                        None => None,
                    }
                } else {
                    None
                }
            },
            None => None,
        }
    } else {
        None
    }
}

/// `rest` put behind `head`, where there is a `rest`.
pub open spec fn prepend(head: Seq<Seq<char>>, rest: Option<Seq<Seq<char>>>) -> Option<
    Seq<Seq<char>>,
> {
    match rest {
        Some(tail) => Some(head + tail),
        None => None,
    }
}

/// `count` bulk strings in a row, the first of them at `pos`.
pub open spec fn decode_elements(bytes: Seq<u8>, pos: int, count: nat) -> Option<Seq<Seq<char>>>
    decreases count,
{
    if count == 0 {
        Some(Seq::empty())
    } else {
        match decode_bulk(bytes, pos) {
            Some((text, next)) => prepend(seq![text], decode_elements(bytes, next, (count - 1) as nat)),
            None => None,
        }
    }
}

/// The frame at the start of `bytes`: its elements in order, or `None` where
/// `bytes` do not start with a well-formed frame.
pub open spec fn decode_frame(bytes: Seq<u8>) -> Option<Seq<Seq<char>>> {
    if bytes.len() > 0 && bytes[0] == 42 {
        match decode_number_line(bytes, 1) {
            Some((count, start)) => decode_elements(bytes, start, count),
            None => None,
        }
    } else {
        None
    }
}

/// The end of a line lies between where the search began and the end of the
/// input, no carriage return stands before it, and one stands at it unless
/// it is the end of the input.
pub proof fn lemma_line_end(bytes: Seq<u8>, pos: int)
    requires
        0 <= pos <= bytes.len(),
    ensures
        pos <= line_end(bytes, pos) <= bytes.len(),
        forall|i: int| pos <= i < line_end(bytes, pos) ==> bytes[i] != 13,
        line_end(bytes, pos) < bytes.len() ==> bytes[line_end(bytes, pos)] == 13,
    decreases bytes.len() - pos,
{
    if pos < bytes.len() && bytes[pos] != 13 {
        lemma_line_end(bytes, pos + 1);
    }
}

/// A number field is at least one digit and a terminator long, and ends
/// within the input.
pub proof fn lemma_number_line_advances(bytes: Seq<u8>, pos: int)
    requires
        0 <= pos <= bytes.len(),
        decode_number_line(bytes, pos) is Some,
    ensures
        pos + 3 <= decode_number_line(bytes, pos)->Some_0.1 <= bytes.len(),
{
    lemma_line_end(bytes, pos);
    let end = line_end(bytes, pos);
    let field = bytes.subrange(pos, end);
    assert(unsigned_part(field).len() > 0);
}

/// A bulk string is at least six bytes long and ends within the input.
pub proof fn lemma_bulk_advances(bytes: Seq<u8>, pos: int)
    requires
        decode_bulk(bytes, pos) is Some,
    ensures
        pos + 6 <= decode_bulk(bytes, pos)->Some_0.1 <= bytes.len(),
{
    lemma_number_line_advances(bytes, pos + 1);
}

/// A run of `count` bulk strings needs at least six bytes for each.
pub proof fn lemma_elements_need_room(bytes: Seq<u8>, pos: int, count: nat)
    requires
        0 <= pos <= bytes.len(),
        decode_elements(bytes, pos, count) is Some,
    ensures
        pos + 6 * count <= bytes.len(),
        decode_elements(bytes, pos, count)->Some_0.len() == count,
    decreases count,
{
    if count > 0 {
        lemma_bulk_advances(bytes, pos);
        let next = decode_bulk(bytes, pos)->Some_0.1;
        lemma_elements_need_room(bytes, next, (count - 1) as nat);
    }
}

/// Finds the end of the line that starts at `pos`.
fn find_line_end(bytes: &[u8], pos: usize) -> (end: usize)
    requires
        pos <= bytes.len(),
    ensures
        end == line_end(bytes@, pos as int),
        pos <= end <= bytes.len(),
{
    let mut end: usize = pos;
    while end < bytes.len() && bytes[end] != CR
        invariant
            pos <= end <= bytes.len(),
            line_end(bytes@, pos as int) == line_end(bytes@, end as int),
        decreases bytes.len() - end,
    {
        end = end + 1;
    }
    end
}

/// Reads the number field at `pos`. A number larger than the whole input is
/// reported as `None`: no count or length that large can be honoured.
fn read_number_line(bytes: &[u8], pos: usize) -> (r: Option<(usize, usize)>)
    requires
        pos <= bytes.len(),
    ensures
        r == match decode_number_line(bytes@, pos as int) {
            Some((n, next)) => if n <= bytes.len() {
                Some((n as usize, next as usize))
            } else {
                None
            },
            None => None,
        },
{
    let end = find_line_end(bytes, pos);
    if end >= bytes.len() || end + 1 >= bytes.len() {
        return None;
    }
    if bytes[end + 1] != LF {
        return None;
    }
    match parse_number(slice_subrange(bytes, pos, end), bytes.len() as u64) {
        Some(n) => Some((n as usize, end + 2)),
        None => None,
    }
}

/// Reads the bulk string at `pos`.
fn read_bulk(bytes: &[u8], pos: usize) -> (r: Option<(String, usize)>)
    requires
        pos <= bytes.len(),
    ensures
        match r {
            Some((text, next)) => decode_bulk(bytes@, pos as int) == Some((text@, next as int)),
            None => decode_bulk(bytes@, pos as int) is None,
        },
{
    if pos >= bytes.len() || bytes[pos] != BULK_MARK {
        return None;
    }
    let (len, start) = match read_number_line(bytes, pos + 1) {
        Some(field) => field,
        None => {
            proof {
                if decode_number_line(bytes@, pos + 1) is Some {
                    lemma_number_line_advances(bytes@, pos + 1);
                }
            }
            return None;
        },
    };
    proof {
        lemma_number_line_advances(bytes@, pos + 1);
    }
    if len > bytes.len() - start || bytes.len() - start - len < 2 {
        return None;
    }
    if bytes[start + len] != CR || bytes[start + len + 1] != LF {
        return None;
    }
    match text_from_bytes(slice_subrange(bytes, start, start + len)) {
        Some(text) => Some((text, start + len + 2)),
        None => None,
    }
}

/// Decodes the frame at the start of `message_bytes` into its elements.
///
/// The result is `None` where the input is empty, does not open with the
/// array marker, holds a count or length that is no number, declares a
/// payload that would run past the end of the input, lacks a terminator, or
/// holds a payload that is not valid UTF-8. A frame of no elements decodes to
/// the empty sequence. No byte outside the input is read.
pub fn parse_resp(message_bytes: &[u8]) -> (r: Option<Vec<String>>)
    ensures
        r.deep_view() == decode_frame(message_bytes@),
{
    if message_bytes.len() == 0 || message_bytes[0] != ARRAY_MARK {
        return None;
    }
    let (count, start) = match read_number_line(message_bytes, 1) {
        Some(field) => field,
        None => {
            proof {
                if decode_number_line(message_bytes@, 1) is Some {
                    lemma_number_line_advances(message_bytes@, 1);
                    let (n, next) = decode_number_line(message_bytes@, 1)->Some_0;
                    if decode_elements(message_bytes@, next, n) is Some {
                        lemma_elements_need_room(message_bytes@, next, n);
                    }
                }
            }
            return None;
        },
    };
    proof {
        lemma_number_line_advances(message_bytes@, 1);
    }
    let mut result: Vec<String> = Vec::new();
    let mut idx: usize = start;
    let mut done: usize = 0;
    assert(result.deep_view() =~= Seq::<Seq<char>>::empty());
    while done < count
        invariant
            done <= count,
            idx <= message_bytes.len(),
            decode_frame(message_bytes@) == prepend(
                result.deep_view(),
                decode_elements(message_bytes@, idx as int, (count - done) as nat),
            ),
        decreases count - done,
    {
        let ghost before = result.deep_view();
        match read_bulk(message_bytes, idx) {
            Some((text, next)) => {
                proof {
                    lemma_bulk_advances(message_bytes@, idx as int);
                }
                let ghost item = text@;
                result.push(text);
                proof {
                    assert(result.deep_view() =~= before.push(item));
                    let rest = decode_elements(
                        message_bytes@,
                        next as int,
                        (count - done - 1) as nat,
                    );
                    if rest is Some {
                        assert(before + (seq![item] + rest->Some_0) =~= before.push(item)
                            + rest->Some_0);
                    }
                }
                idx = next;
                done = done + 1;
            },
            None => {
                return None;
            },
        }
    }
    assert(result.deep_view() + Seq::<Seq<char>>::empty() =~= result.deep_view());
    Some(result)
}

} // verus!
