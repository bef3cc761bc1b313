//! The wire protocol: a request names a byte range of the file, a response
//! carries the bytes of one.
//!
//! A request is `GET <start> <length>` and a line feed. A response is
//! `DATA <start> <length>`, a line feed, and exactly `<length>` bytes.

use vstd::prelude::*;
use vstd::slice::slice_subrange;
use std::ops::Range;
use crate::ascii::{
    check_ascii_text, decimal_digits, find_byte, find_token_end, find_token_start,
    index_of_byte, is_ascii_text, is_space, lemma_decimal_round_trip, lemma_index_of_byte_is,
    lemma_skip_spaces_is, lemma_token_end_is, parse_decimal, parsed_decimal, push_decimal,
    skip_spaces, token_end, LINE_FEED, SPACE,
};

verus! {

/// A half-open interval `[start, end)` of file offsets.
pub type ByteRange = Range<usize>;

pub const MAX_MESSAGE_SIZE: usize = 519;

/// Why a datagram is no response.
#[derive(Debug, Clone, Copy, PartialEq, Eq, Structural)]
pub enum DecodeError {
    /// No line feed ends the header.
    MissingLineFeed,
    /// The header holds a byte outside ASCII.
    HeaderNotAscii,
    /// The header has no second token.
    MissingStart,
    /// The second token is no unsigned decimal number.
    InvalidStart,
    /// The header has no third token.
    MissingLength,
    /// The third token is no unsigned decimal number.
    InvalidLength,
    /// The length is zero or above the segment size.
    LengthOutOfRange,
    /// The bytes after the line feed are not exactly `length` many.
    PayloadSizeMismatch,
    /// The end of the range does not fit the machine word.
    RangeOverflow,
}

/// The start and length that a header names, or why it names none.
///
/// The header is split on whitespace; the first token is the message kind,
/// the second the start and the third the length. Further tokens are ignored.
pub open spec fn decode_header(h: Seq<u8>) -> Result<(usize, usize), DecodeError> {
    let kind_at = skip_spaces(h, 0);
    let start_at = skip_spaces(h, token_end(h, kind_at));
    let start_end = token_end(h, start_at);
    let length_at = skip_spaces(h, start_end);
    let length_end = token_end(h, length_at);
    if !is_ascii_text(h) {
        Err(DecodeError::HeaderNotAscii)
    } else if start_at >= h.len() {
        Err(DecodeError::MissingStart)
    } else {
        match parsed_decimal(h.subrange(start_at, start_end)) {
            None => Err(DecodeError::InvalidStart),
            Some(start) => if length_at >= h.len() {
                Err(DecodeError::MissingLength)
            } else {
                match parsed_decimal(h.subrange(length_at, length_end)) {
                    None => Err(DecodeError::InvalidLength),
                    Some(length) => Ok((start, length)),
                }
            },
        }
    }
}

/// The start and length of the response that a datagram holds, or why it holds none.
pub open spec fn decode(msg: Seq<u8>) -> Result<(usize, usize), DecodeError> {
    let lf = index_of_byte(msg, LINE_FEED, 0);
    if lf >= msg.len() {
        Err(DecodeError::MissingLineFeed)
    } else {
        match decode_header(msg.subrange(0, lf)) {
            Err(e) => Err(e),
            Ok((start, length)) => if length < 1 || length > Response::DATA_SIZE {
                Err(DecodeError::LengthOutOfRange)
            } else if msg.len() - lf - 1 != length {
                Err(DecodeError::PayloadSizeMismatch)
            } else if start + length > usize::MAX {
                Err(DecodeError::RangeOverflow)
            } else {
                Ok((start, length))
            },
        }
    }
}

/// The payload of a datagram that decodes: everything after the first line feed.
pub open spec fn payload_of(msg: Seq<u8>) -> Seq<u8> {
    msg.subrange(index_of_byte(msg, LINE_FEED, 0) + 1, msg.len() as int)
}

/// A decoded response, borrowing its payload from the datagram.
#[derive(Debug)]
pub struct Response<'message> {
    message_bytes: &'message [u8],
    header: &'message [u8],
    data: &'message [u8],
    byte_range: Range<usize>,
}

fn parse_header(h: &[u8]) -> (r: Result<(usize, usize), DecodeError>)
    ensures
        r == decode_header(h@),
{
    if !check_ascii_text(h) {
        return Err(DecodeError::HeaderNotAscii);
    }
    let kind_at = find_token_start(h, 0);
    let kind_end = find_token_end(h, kind_at);
    let start_at = find_token_start(h, kind_end);
    if start_at >= h.len() {
        return Err(DecodeError::MissingStart);
    }
    let start_end = find_token_end(h, start_at);
    let start = match parse_decimal(slice_subrange(h, start_at, start_end)) {
        Some(start) => start,
        None => {
            return Err(DecodeError::InvalidStart);
        },
    };
    let length_at = find_token_start(h, start_end);
    if length_at >= h.len() {
        return Err(DecodeError::MissingLength);
    }
    let length_end = find_token_end(h, length_at);
    match parse_decimal(slice_subrange(h, length_at, length_end)) {
        Some(length) => Ok((start, length)),
        None => Err(DecodeError::InvalidLength),
    }
}

impl<'message> Response<'message> {
    pub const DATA_SIZE: usize = 500;

    pub const MIN_HEADER_SIZE: usize = 9;

    pub const MAX_HEADER_SIZE: usize = 19;

    pub const MAX_SIZE: usize = 519;

    /// The datagram this response was decoded from.
    pub closed spec fn message(&self) -> Seq<u8> {
        self.message_bytes@
    }

    pub closed spec fn range(&self) -> Range<usize> {
        self.byte_range
    }

    pub closed spec fn payload(&self) -> Seq<u8> {
        self.data@
    }

    pub fn is_message_size_valid(size: usize) -> (valid: bool)
        ensures
            valid == (Self::MIN_HEADER_SIZE <= size && size <= Self::MAX_SIZE),
    {
        Self::MIN_HEADER_SIZE <= size && size <= Self::MAX_SIZE
    }

    pub fn is_header_size_valid(size: usize) -> (valid: bool)
        ensures
            valid == (Self::MIN_HEADER_SIZE <= size && size <= Self::MAX_HEADER_SIZE),
    {
        Self::MIN_HEADER_SIZE <= size && size <= Self::MAX_HEADER_SIZE
    }

    /// Decodes a datagram. It is a response exactly when `decode` says so, and
    /// then the range and payload are those the datagram names.
    pub fn new(message_bytes: &'message [u8]) -> (r: Result<Self, DecodeError>)
        ensures
            match r {
                Ok(response) => {
                    &&& decode(message_bytes@) == Ok::<(usize, usize), DecodeError>(
                        (response.range().start, range_len(response.range())),
                    )
                    &&& response.range().start <= response.range().end
                    &&& response.payload() == payload_of(message_bytes@)
                    &&& response.payload().len() == response.range().end - response.range().start
                    &&& response.message() == message_bytes@
                },
                Err(e) => decode(message_bytes@) == Err::<(usize, usize), DecodeError>(e),
            },
    {
        let line_feed = find_byte(message_bytes, LINE_FEED, 0);
        if line_feed >= message_bytes.len() {
            return Err(DecodeError::MissingLineFeed);
        }
        let header = slice_subrange(message_bytes, 0, line_feed);
        let (start, length) = match parse_header(header) {
            Ok(fields) => fields,
            Err(e) => {
                return Err(e);
            },
        };
        if length < 1 || length > Self::DATA_SIZE {
            return Err(DecodeError::LengthOutOfRange);
        }
        if message_bytes.len() - line_feed - 1 != length {
            return Err(DecodeError::PayloadSizeMismatch);
        }
        if start > usize::MAX - length {
            return Err(DecodeError::RangeOverflow);
        }
        let data = slice_subrange(message_bytes, line_feed + 1, message_bytes.len());
        Ok(Response { message_bytes, header, data, byte_range: start..(start + length) })
    }

    pub fn byte_range(&self) -> (r: &Range<usize>)
        ensures
            *r == self.range(),
    {
        &self.byte_range
    }

    pub fn data(&self) -> (d: &[u8])
        ensures
            d@ == self.payload(),
    {
        self.data
    }
}

/// The number of offsets in a range: none where it ends before it starts.
pub open spec fn range_len(range: Range<usize>) -> usize {
    if range.start <= range.end {
        (range.end - range.start) as usize
    } else {
        0
    }
}

/// The wire form of the request for `range`.
pub open spec fn request_bytes(range: Range<usize>) -> Seq<u8> {
    seq![71u8, 69u8, 84u8, 32u8] + decimal_digits(range.start as nat) + seq![32u8] + decimal_digits(
        range_len(range) as nat,
    ) + seq![10u8]
}

/// A request for one byte range.
#[derive(Debug)]
pub struct Request<'range> {
    byte_range: &'range ByteRange,
}

impl<'range> Request<'range> {
    pub const MAX_SIZE: usize = 18;

    pub const MIN_SIZE: usize = 8;

    pub closed spec fn range(&self) -> Range<usize> {
        *self.byte_range
    }

    pub fn new(byte_range: &'range Range<usize>) -> (request: Self)
        ensures
            request.range() == *byte_range,
    {
        Self { byte_range }
    }

    /// The datagram to send: `GET`, the start, the length, a line feed.
    pub fn to_bytes(&self) -> (out: Vec<u8>)
        ensures
            out@ == request_bytes(self.range()),
    {
        let mut out: Vec<u8> = Vec::new();
        out.push(71u8);
        out.push(69u8);
        out.push(84u8);
        out.push(SPACE);
        assert(out@ =~= seq![71u8, 69u8, 84u8, 32u8]);
        push_decimal(&mut out, self.byte_range.start);
        out.push(SPACE);
        let length = if self.byte_range.start <= self.byte_range.end {
            self.byte_range.end - self.byte_range.start
        } else {
            0
        };
        push_decimal(&mut out, length);
        out.push(LINE_FEED);
        assert(out@ =~= request_bytes(self.range()));
        out
    }
}

/// The wire form of the response that carries `payload` for `range`.
pub open spec fn response_bytes(range: Range<usize>, payload: Seq<u8>) -> Seq<u8> {
    header_text(seq![68u8, 65u8, 84u8, 65u8], range) + seq![10u8] + payload
}

/// A header: the kind of message, the start and the length of a range,
/// with one space between them.
pub open spec fn header_text(kind: Seq<u8>, range: Range<usize>) -> Seq<u8> {
    kind + seq![32u8] + decimal_digits(range.start as nat) + seq![32u8] + decimal_digits(
        range_len(range) as nat,
    )
}

/// A header of any kind names its range: read by the rules for headers,
/// it gives back the start and the length that were written, and it holds
/// no line feed.
pub proof fn lemma_header_names_range(kind: Seq<u8>, range: Range<usize>)
    requires
        kind.len() > 0,
        forall|i: int| 0 <= i < kind.len() ==> !is_space(#[trigger] kind[i]) && kind[i] < 128,
    ensures
        decode_header(header_text(kind, range)) == Ok::<(usize, usize), DecodeError>(
            (range.start, range_len(range)),
        ),
        forall|i: int|
            0 <= i < header_text(kind, range).len() ==> #[trigger] header_text(kind, range)[i]
                != LINE_FEED,
{
    let d1 = decimal_digits(range.start as nat);
    let d2 = decimal_digits(range_len(range) as nat);
    lemma_decimal_round_trip(range.start as nat);
    lemma_decimal_round_trip(range_len(range) as nat);
    let h = header_text(kind, range);
    let n0 = kind.len() as int;
    let n1 = d1.len() as int;
    let n2 = d2.len() as int;
    assert(h.len() == n0 + 1 + n1 + 1 + n2);
    assert forall|i: int| 0 <= i < n0 implies h[i] == kind[i] by {}
    assert(h[n0] == 32u8);
    assert forall|i: int| 0 <= i < n1 implies h[n0 + 1 + i] == d1[i] by {}
    assert(h[n0 + 1 + n1] == 32u8);
    assert forall|i: int| 0 <= i < n2 implies h[n0 + 1 + n1 + 1 + i] == d2[i] by {}
    assert forall|i: int| 0 <= i < n0 implies !is_space(#[trigger] h[i]) by {
        assert(h[i] == kind[i]);
    }
    assert forall|i: int| n0 + 1 <= i < n0 + 1 + n1 implies !is_space(#[trigger] h[i]) by {
        assert(h[i] == d1[i - n0 - 1]);
    }
    assert forall|i: int| n0 + 1 + n1 + 1 <= i < h.len() implies !is_space(#[trigger] h[i]) by {
        assert(h[i] == d2[i - n0 - 1 - n1 - 1]);
    }
    lemma_skip_spaces_is(h, 0, 0);
    lemma_token_end_is(h, 0, n0);
    lemma_skip_spaces_is(h, n0, n0 + 1);
    lemma_token_end_is(h, n0 + 1, n0 + 1 + n1);
    lemma_skip_spaces_is(h, n0 + 1 + n1, n0 + 1 + n1 + 1);
    lemma_token_end_is(h, n0 + 1 + n1 + 1, h.len() as int);
    assert(h.subrange(n0 + 1, n0 + 1 + n1) =~= d1);
    assert(h.subrange(n0 + 1 + n1 + 1, h.len() as int) =~= d2);
    assert forall|i: int| 0 <= i < h.len() implies h[i] < 128 && #[trigger] h[i] != LINE_FEED by {
        if i < n0 {
            assert(h[i] == kind[i]);
        } else if i == n0 {
        } else if i < n0 + 1 + n1 {
            assert(h[i] == d1[i - n0 - 1]);
        } else if i == n0 + 1 + n1 {
        } else {
            assert(h[i] == d2[i - n0 - 1 - n1 - 1]);
        }
    }
}

/// A request names its range: it is a header of kind `GET` for the
/// range, ended by a line feed.
pub proof fn lemma_request_names_range(range: Range<usize>)
    ensures
        request_bytes(range) == header_text(seq![71u8, 69u8, 84u8], range) + seq![10u8],
        decode_header(header_text(seq![71u8, 69u8, 84u8], range)) == Ok::<
            (usize, usize),
            DecodeError,
        >((range.start, range_len(range))),
{
    let kind = seq![71u8, 69u8, 84u8];
    assert(request_bytes(range) =~= header_text(kind, range) + seq![10u8]);
    lemma_header_names_range(kind, range);
}

/// The codec round trip: the response that carries the bytes of a range
/// of one to `DATA_SIZE` bytes decodes to that range and those bytes.
pub proof fn lemma_response_round_trip(range: Range<usize>, payload: Seq<u8>)
    requires
        range.start < range.end,
        range.end - range.start <= Response::DATA_SIZE,
        payload.len() == range.end - range.start,
    ensures
        decode(response_bytes(range, payload)) == Ok::<(usize, usize), DecodeError>(
            (range.start, (range.end - range.start) as usize),
        ),
        payload_of(response_bytes(range, payload)) == payload,
{
    let kind = seq![68u8, 65u8, 84u8, 65u8];
    lemma_header_names_range(kind, range);
    let h = header_text(kind, range);
    let msg = response_bytes(range, payload);
    assert forall|i: int| 0 <= i < h.len() implies #[trigger] msg[i] != LINE_FEED by {
        assert(msg[i] == h[i]);
    }
    assert(msg[h.len() as int] == LINE_FEED);
    lemma_index_of_byte_is(msg, LINE_FEED, 0, h.len() as int);
    assert(msg.subrange(0, h.len() as int) =~= h);
    assert(msg.subrange(h.len() as int + 1, msg.len() as int) =~= payload);
}

} // verus!
