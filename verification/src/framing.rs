//! How encoding and decoding fit together: what is encoded decodes to
//! itself, decoding does not look beyond the frame, and a frame cut short
//! does not decode.

use crate::decimal::{
    decimal_digits,
    is_digit,
    lemma_decimal_digits_value,
    lemma_parse_decimal_digits,
};
use crate::decode::{
    decode_bulk,
    decode_elements,
    decode_frame,
    decode_number_line,
    lemma_bulk_advances,
    lemma_line_end,
    lemma_number_line_advances,
    line_end,
};
use crate::reply::{encode_bulk, encode_reply, terminator, ReplyView};
use crate::text::decode_text;
use vstd::prelude::*;
use vstd::utf8::{encode_utf8, encode_utf8_decode_utf8, encode_utf8_valid_utf8, valid_utf8};

verus! {

/// A number field: the shortest decimal writing of `n` and a terminator.
pub open spec fn encode_number_line(n: nat) -> Seq<u8> {
    decimal_digits(n) + terminator()
}

/// The elements of a frame, each as a bulk string, one after the other.
pub open spec fn encode_elements(args: Seq<Seq<char>>) -> Seq<u8>
    decreases args.len(),
{
    if args.len() == 0 {
        Seq::empty()
    } else {
        encode_bulk(args[0]) + encode_elements(args.drop_first())
    }
}

/// A frame: `*`, the number of elements, a terminator and the elements.
pub open spec fn encode_frame(args: Seq<Seq<char>>) -> Seq<u8> {
    seq![42u8] + encode_number_line(args.len()) + encode_elements(args)
}

/// The position after `count` bulk strings in a row, the first of them at
/// `pos`: where the next element would start.
pub open spec fn elements_end(bytes: Seq<u8>, pos: int, count: nat) -> Option<int>
    decreases count,
{
    if count == 0 {
        Some(pos)
    } else {
        match decode_bulk(bytes, pos) {
            Some((_, next)) => elements_end(bytes, next, (count - 1) as nat),
            None => None,
        }
    }
}

/// The position after the frame at the start of `bytes`.
pub open spec fn frame_end(bytes: Seq<u8>) -> Option<int> {
    if bytes.len() > 0 && bytes[0] == 42 {
        match decode_number_line(bytes, 1) {
            Some((count, start)) => elements_end(bytes, start, count),
            None => None,
        }
    } else {
        None
    }
}

/// Where no carriage return stands between `pos` and `end`, and one stands
/// at `end`, the line that starts at `pos` ends at `end`.
pub proof fn lemma_line_end_found(bytes: Seq<u8>, pos: int, end: int)
    requires
        0 <= pos <= end < bytes.len(),
        forall|i: int| pos <= i < end ==> bytes[i] != 13,
        bytes[end] == 13,
    ensures
        line_end(bytes, pos) == end,
    decreases end - pos,
{
    if pos < end {
        lemma_line_end_found(bytes, pos + 1, end);
    }
}

/// An encoded number field decodes to its number, wherever it stands, and
/// the decoding ends where the field does.
pub proof fn lemma_number_line_round_trip(before: Seq<u8>, n: nat, after: Seq<u8>)
    ensures
        decode_number_line(before + encode_number_line(n) + after, before.len() as int) == Some(
            (n, (before.len() + encode_number_line(n).len()) as int),
        ),
{
    let digits = decimal_digits(n);
    let bytes = before + encode_number_line(n) + after;
    let pos = before.len() as int;
    let end = pos + digits.len();
    lemma_decimal_digits_value(n);
    lemma_parse_decimal_digits(n);
    assert forall|i: int| pos <= i < end implies bytes[i] != 13 by {
        assert(bytes[i] == digits[i - pos]);
        assert(is_digit(digits[i - pos]));
    }
    assert(bytes[end] == 13);
    assert(bytes[end + 1] == 10);
    lemma_line_end_found(bytes, pos, end);
    assert(bytes.subrange(pos, end) =~= digits);
}

/// An encoded bulk string decodes to its text, wherever it stands, and the
/// decoding ends where the bulk string does. This holds of every text, the
/// empty one included.
pub proof fn lemma_bulk_round_trip(before: Seq<u8>, text: Seq<char>, after: Seq<u8>)
    ensures
        decode_bulk(before + encode_bulk(text) + after, before.len() as int) == Some(
            (text, (before.len() + encode_bulk(text).len()) as int),
        ),
{
    let payload = encode_utf8(text);
    let n = payload.len();
    let bytes = before + encode_bulk(text) + after;
    let pos = before.len() as int;
    let head = before + seq![36u8];
    let tail = payload + terminator() + after;
    assert(bytes =~= head + encode_number_line(n) + tail);
    lemma_number_line_round_trip(head, n, tail);
    let start = pos + 1 + encode_number_line(n).len();
    assert(bytes[pos] == 36);
    assert(decode_number_line(bytes, pos + 1) == Some((n, start)));
    assert(bytes.subrange(start, start + n) =~= payload);
    assert(bytes[start + n] == 13);
    assert(bytes[start + n + 1] == 10);
    encode_utf8_valid_utf8(text);
    encode_utf8_decode_utf8(text);
    assert(decode_text(payload) == Some(text));
}

/// Encoded elements decode to themselves, wherever they stand.
pub proof fn lemma_elements_round_trip(before: Seq<u8>, args: Seq<Seq<char>>, after: Seq<u8>)
    ensures
        decode_elements(before + encode_elements(args) + after, before.len() as int, args.len())
            == Some(args),
        elements_end(before + encode_elements(args) + after, before.len() as int, args.len())
            == Some((before.len() + encode_elements(args).len()) as int),
    decreases args.len(),
{
    let bytes = before + encode_elements(args) + after;
    if args.len() == 0 {
        assert(args =~= Seq::<Seq<char>>::empty());
    } else {
        let first = encode_bulk(args[0]);
        let rest = args.drop_first();
        let tail = encode_elements(rest) + after;
        assert(bytes =~= before + first + tail);
        lemma_bulk_round_trip(before, args[0], tail);
        assert(bytes =~= (before + first) + encode_elements(rest) + after);
        lemma_elements_round_trip(before + first, rest, after);
        assert(seq![args[0]] + rest =~= args);
    }
}

/// An encoded frame decodes to its elements, whatever follows it. This
/// holds of every number of elements and of every text, the empty one
/// included.
pub proof fn lemma_frame_round_trip(args: Seq<Seq<char>>, after: Seq<u8>)
    ensures
        decode_frame(encode_frame(args) + after) == Some(args),
        frame_end(encode_frame(args) + after) == Some(encode_frame(args).len() as int),
{
    let bytes = encode_frame(args) + after;
    let mark = seq![42u8];
    let tail = encode_elements(args) + after;
    assert(bytes =~= mark + encode_number_line(args.len()) + tail);
    lemma_number_line_round_trip(mark, args.len(), tail);
    let head = mark + encode_number_line(args.len());
    assert(bytes =~= head + encode_elements(args) + after);
    lemma_elements_round_trip(head, args, after);
    assert(bytes[0] == 42);
}

/// A bulk reply behind the header of a frame of one element decodes to the
/// text that was encoded, whatever its length and whatever follows.
pub proof fn lemma_bulk_reply_round_trip(text: Seq<char>, after: Seq<u8>)
    ensures
        decode_frame(seq![42u8, 49u8, 13u8, 10u8] + encode_reply(ReplyView::Bulk(text)) + after)
            == Some(seq![text]),
{
    let args = seq![text];
    assert(encode_elements(args.drop_first()) =~= Seq::<u8>::empty());
    assert(encode_frame(args) =~= seq![42u8, 49u8, 13u8, 10u8] + encode_bulk(text));
    lemma_frame_round_trip(args, after);
}

/// Elements decode exactly where a position after them is defined.
pub proof fn lemma_elements_end(bytes: Seq<u8>, pos: int, count: nat)
    requires
        0 <= pos <= bytes.len(),
    ensures
        decode_elements(bytes, pos, count) is Some <==> elements_end(bytes, pos, count) is Some,
        elements_end(bytes, pos, count) matches Some(end) ==> pos <= end <= bytes.len(),
    decreases count,
{
    if count > 0 && decode_bulk(bytes, pos) is Some {
        lemma_bulk_advances(bytes, pos);
        lemma_elements_end(bytes, decode_bulk(bytes, pos)->Some_0.1, (count - 1) as nat);
    }
}

/// A frame decodes exactly where a position after it is defined, and that
/// position lies within the input.
pub proof fn lemma_frame_end(bytes: Seq<u8>)
    ensures
        decode_frame(bytes) is Some <==> frame_end(bytes) is Some,
        frame_end(bytes) matches Some(end) ==> 0 < end <= bytes.len(),
{
    if bytes.len() > 0 && bytes[0] == 42 && decode_number_line(bytes, 1) is Some {
        lemma_number_line_advances(bytes, 1);
        let (count, start) = decode_number_line(bytes, 1)->Some_0;
        lemma_elements_end(bytes, start, count);
    }
}

/// Whether `bytes` begin with `part`.
pub open spec fn begins_with(bytes: Seq<u8>, part: Seq<u8>) -> bool {
    part.len() <= bytes.len() && bytes.subrange(0, part.len() as int) == part
}

proof fn lemma_begins_with_index(bytes: Seq<u8>, part: Seq<u8>, i: int)
    requires
        begins_with(bytes, part),
        0 <= i < part.len(),
    ensures
        bytes[i] == part[i],
{
    assert(bytes.subrange(0, part.len() as int)[i] == bytes[i]);
}

proof fn lemma_line_end_extends(bytes: Seq<u8>, part: Seq<u8>, pos: int)
    requires
        begins_with(bytes, part),
        0 <= pos <= part.len(),
        line_end(part, pos) < part.len(),
    ensures
        line_end(bytes, pos) == line_end(part, pos),
    decreases part.len() - pos,
{
    lemma_line_end(part, pos);
    if pos < part.len() {
        lemma_begins_with_index(bytes, part, pos);
        if part[pos] != 13 {
            lemma_line_end_extends(bytes, part, pos + 1);
        }
    }
}

proof fn lemma_number_line_extends(bytes: Seq<u8>, part: Seq<u8>, pos: int)
    requires
        begins_with(bytes, part),
        0 <= pos <= part.len(),
        decode_number_line(part, pos) is Some,
    ensures
        decode_number_line(bytes, pos) == decode_number_line(part, pos),
{
    let end = line_end(part, pos);
    lemma_line_end(part, pos);
    lemma_line_end_extends(bytes, part, pos);
    lemma_begins_with_index(bytes, part, end + 1);
    assert(bytes.subrange(pos, end) =~= part.subrange(pos, end)) by {
        assert forall|i: int| pos <= i < end implies bytes[i] == part[i] by {
            lemma_begins_with_index(bytes, part, i);
        }
    }
}

proof fn lemma_bulk_extends(bytes: Seq<u8>, part: Seq<u8>, pos: int)
    requires
        begins_with(bytes, part),
        decode_bulk(part, pos) is Some,
    ensures
        decode_bulk(bytes, pos) == decode_bulk(part, pos),
{
    lemma_begins_with_index(bytes, part, pos);
    lemma_number_line_extends(bytes, part, pos + 1);
    lemma_number_line_advances(part, pos + 1);
    let (n, start) = decode_number_line(part, pos + 1)->Some_0;
    lemma_begins_with_index(bytes, part, start + n);
    lemma_begins_with_index(bytes, part, start + n + 1);
    assert(bytes.subrange(start, start + n) =~= part.subrange(start, start + n)) by {
        assert forall|i: int| start <= i < start + n implies bytes[i] == part[i] by {
            lemma_begins_with_index(bytes, part, i);
        }
    }
}

proof fn lemma_elements_extend(bytes: Seq<u8>, part: Seq<u8>, pos: int, count: nat)
    requires
        begins_with(bytes, part),
        0 <= pos <= part.len(),
        decode_elements(part, pos, count) is Some,
    ensures
        decode_elements(bytes, pos, count) == decode_elements(part, pos, count),
        elements_end(bytes, pos, count) == elements_end(part, pos, count),
    decreases count,
{
    if count > 0 {
        lemma_bulk_extends(bytes, part, pos);
        lemma_bulk_advances(part, pos);
        let next = decode_bulk(part, pos)->Some_0.1;
        lemma_elements_extend(bytes, part, next, (count - 1) as nat);
    }
}

/// Decoding does not look beyond the frame: where the beginning of an input
/// decodes, the whole input decodes to the same elements, and the frame ends
/// at the same position.
pub proof fn lemma_frame_extends(bytes: Seq<u8>, part: Seq<u8>)
    requires
        begins_with(bytes, part),
        decode_frame(part) is Some,
    ensures
        decode_frame(bytes) == decode_frame(part),
        frame_end(bytes) == frame_end(part),
{
    lemma_begins_with_index(bytes, part, 0);
    lemma_number_line_extends(bytes, part, 1);
    lemma_number_line_advances(part, 1);
    let (count, start) = decode_number_line(part, 1)->Some_0;
    lemma_elements_extend(bytes, part, start, count);
}

/// A frame cut short does not decode: where a frame ends at `end`, no
/// beginning of the input that is shorter than `end` decodes.
pub proof fn lemma_truncated_frame(bytes: Seq<u8>, kept: int)
    requires
        frame_end(bytes) is Some,
        0 <= kept < frame_end(bytes)->Some_0,
    ensures
        decode_frame(bytes.subrange(0, kept)) is None,
{
    lemma_frame_end(bytes);
    let part = bytes.subrange(0, kept);
    if decode_frame(part) is Some {
        assert(bytes.subrange(0, part.len() as int) =~= part);
        lemma_frame_extends(bytes, part);
        lemma_frame_end(part);
    }
}

/// No proper beginning of an encoded frame decodes.
pub proof fn lemma_truncated_encoding(args: Seq<Seq<char>>, kept: int)
    requires
        0 <= kept < encode_frame(args).len(),
    ensures
        decode_frame(encode_frame(args).subrange(0, kept)) is None,
{
    lemma_frame_round_trip(args, Seq::empty());
    assert(encode_frame(args) + Seq::<u8>::empty() =~= encode_frame(args));
    lemma_truncated_frame(encode_frame(args), kept);
}

/// A bulk string whose declared length runs past the end of the input does
/// not decode.
pub proof fn lemma_overlong_bulk(bytes: Seq<u8>, pos: int)
    requires
        decode_number_line(bytes, pos + 1) matches Some((n, start)) && start + n > bytes.len(),
    ensures
        decode_bulk(bytes, pos) is None,
{
}

/// A bulk string whose payload is not valid UTF-8 does not decode.
pub proof fn lemma_invalid_text_bulk(bytes: Seq<u8>, pos: int)
    requires
        decode_number_line(bytes, pos + 1) matches Some((n, start)) && !valid_utf8(
            bytes.subrange(start, start + n),
        ),
    ensures
        decode_bulk(bytes, pos) is None,
{
}

/// A frame does not decode unless each of its elements does: where the
/// element at index `i` starts at `at` and does not decode, neither does
/// the frame.
pub proof fn lemma_bad_element(bytes: Seq<u8>, i: nat, at: int)
    requires
        decode_number_line(bytes, 1) matches Some((count, start)) && i < count && elements_end(
            bytes,
            start,
            i,
        ) == Some(at),
        decode_bulk(bytes, at) is None,
    ensures
        decode_frame(bytes) is None,
{
    let (count, start) = decode_number_line(bytes, 1)->Some_0;
    lemma_bad_element_from(bytes, start, count, i, at);
}

proof fn lemma_bad_element_from(bytes: Seq<u8>, pos: int, count: nat, i: nat, at: int)
    requires
        i < count,
        elements_end(bytes, pos, i) == Some(at),
        decode_bulk(bytes, at) is None,
    ensures
        decode_elements(bytes, pos, count) is None,
    decreases i,
{
    if i > 0 {
        let next = decode_bulk(bytes, pos)->Some_0.1;
        lemma_bad_element_from(bytes, next, (count - 1) as nat, (i - 1) as nat, at);
    }
}

} // verus!
