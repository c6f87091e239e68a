//! The credential header: the word `Basic`, white space, and a token.
//!
//! A header is read as fields parted by runs of ASCII white space. All of
//! this works on the header's UTF-8 bytes; a white-space byte is always a
//! character of its own, so a field is always text again.

use crate::text::lemma_split_at_ascii;
use vstd::prelude::*;
use vstd::string::*;
use vstd::utf8::*;

verus! {

/// The bytes that part the fields of a header: space, tab, line feed,
/// vertical tab, form feed and carriage return.
pub open spec fn is_space(b: u8) -> bool {
    b == 0x20 || (0x09 <= b && b <= 0x0D)
}

/// The bytes of the word `Basic`.
pub open spec fn scheme_name() -> Seq<u8> {
    seq![0x42u8, 0x61u8, 0x73u8, 0x69u8, 0x63u8]
}

/// The first index at or after `from` that holds no white space, or the
/// length of `bytes`.
pub open spec fn skip_spaces(bytes: Seq<u8>, from: int) -> int
    decreases bytes.len() - from,
{
    if 0 <= from < bytes.len() && is_space(bytes[from]) {
        skip_spaces(bytes, from + 1)
    } else {
        from
    }
}

/// The first index at or after `from` that holds white space, or the length
/// of `bytes`.
pub open spec fn skip_field(bytes: Seq<u8>, from: int) -> int
    decreases bytes.len() - from,
{
    if 0 <= from < bytes.len() && !is_space(bytes[from]) {
        skip_field(bytes, from + 1)
    } else {
        from
    }
}

/// Where the first two fields of a header stand, and where a third would
/// start.
pub struct Layout {
    pub scheme_start: int,
    pub scheme_end: int,
    pub token_start: int,
    pub token_end: int,
    pub rest_start: int,
}

/// The layout of `bytes` read from the left.
pub open spec fn layout(bytes: Seq<u8>) -> Layout {
    let scheme_start = skip_spaces(bytes, 0);
    let scheme_end = skip_field(bytes, scheme_start);
    let token_start = skip_spaces(bytes, scheme_end);
    let token_end = skip_field(bytes, token_start);
    let rest_start = skip_spaces(bytes, token_end);
    Layout { scheme_start, scheme_end, token_start, token_end, rest_start }
}

/// What a header is found to be.
pub enum Header {
    /// It holds no field at all.
    Empty,
    /// It holds one field, or more than two, or its first field is not the
    /// word `Basic`.
    Malformed,
    /// It holds the word `Basic` and this token.
    Token(Seq<u8>),
}

/// The reading of a header's bytes.
pub open spec fn read_header(bytes: Seq<u8>) -> Header {
    let at = layout(bytes);
    if at.scheme_start >= bytes.len() {
        Header::Empty
    } else if at.token_start >= bytes.len() || at.rest_start < bytes.len() {
        Header::Malformed
    } else if bytes.subrange(at.scheme_start, at.scheme_end) != scheme_name() {
        Header::Malformed
    } else {
        Header::Token(bytes.subrange(at.token_start, at.token_end))
    }
}

/// Where [`skip_spaces`] stops: after white space only, and not on white
/// space.
pub proof fn lemma_skip_spaces(bytes: Seq<u8>, from: int)
    requires
        0 <= from <= bytes.len(),
    ensures
        from <= skip_spaces(bytes, from) <= bytes.len(),
        forall|i: int| from <= i < skip_spaces(bytes, from) ==> is_space(#[trigger] bytes[i]),
        skip_spaces(bytes, from) < bytes.len() ==> !is_space(bytes[skip_spaces(bytes, from)]),
    decreases bytes.len() - from,
{
    if from < bytes.len() && is_space(bytes[from]) {
        lemma_skip_spaces(bytes, from + 1);
    }
}

/// Where [`skip_field`] stops: after a run free of white space, and on white
/// space unless at the end.
pub proof fn lemma_skip_field(bytes: Seq<u8>, from: int)
    requires
        0 <= from <= bytes.len(),
    ensures
        from <= skip_field(bytes, from) <= bytes.len(),
        forall|i: int| from <= i < skip_field(bytes, from) ==> !is_space(#[trigger] bytes[i]),
        skip_field(bytes, from) < bytes.len() ==> is_space(bytes[skip_field(bytes, from)]),
    decreases bytes.len() - from,
{
    if from < bytes.len() && !is_space(bytes[from]) {
        lemma_skip_field(bytes, from + 1);
    }
}

/// A run free of white space with white space or an end on both sides is a
/// field: the scans stop at its ends.
pub proof fn lemma_field_found(bytes: Seq<u8>, from: int, start: int, end: int)
    requires
        0 <= from <= start < end <= bytes.len(),
        forall|i: int| from <= i < start ==> is_space(#[trigger] bytes[i]),
        forall|i: int| start <= i < end ==> !is_space(#[trigger] bytes[i]),
        end < bytes.len() ==> is_space(bytes[end]),
    ensures
        skip_spaces(bytes, from) == start,
        skip_field(bytes, start) == end,
{
    lemma_spaces_through(bytes, from, start);
    lemma_field_through(bytes, start, end);
}

proof fn lemma_spaces_through(bytes: Seq<u8>, from: int, start: int)
    requires
        0 <= from <= start <= bytes.len(),
        forall|i: int| from <= i < start ==> is_space(#[trigger] bytes[i]),
        start < bytes.len() ==> !is_space(bytes[start]),
    ensures
        skip_spaces(bytes, from) == start,
    decreases start - from,
{
    if from < start {
        assert(is_space(bytes[from]));
        lemma_spaces_through(bytes, from + 1, start);
    }
}

proof fn lemma_field_through(bytes: Seq<u8>, from: int, end: int)
    requires
        0 <= from <= end <= bytes.len(),
        forall|i: int| from <= i < end ==> !is_space(#[trigger] bytes[i]),
        end < bytes.len() ==> is_space(bytes[end]),
    ensures
        skip_field(bytes, from) == end,
    decreases end - from,
{
    if from < end {
        assert(!is_space(bytes[from]));
        lemma_field_through(bytes, from + 1, end);
    }
}

fn is_space_byte(b: u8) -> (r: bool)
    ensures
        r == is_space(b),
{
    b == 0x20 || (0x09 <= b && b <= 0x0D)
}

fn scan_spaces(bytes: &[u8], from: usize) -> (r: usize)
    requires
        from <= bytes@.len(),
    ensures
        r == skip_spaces(bytes@, from as int),
        from <= r <= bytes@.len(),
{
    let mut i: usize = from;
    while i < bytes.len() && is_space_byte(bytes[i])
        invariant
            from <= i <= bytes@.len(),
            skip_spaces(bytes@, i as int) == skip_spaces(bytes@, from as int),
        decreases bytes@.len() - i,
    {
        i += 1;
    }
    i
}

fn scan_field(bytes: &[u8], from: usize) -> (r: usize)
    requires
        from <= bytes@.len(),
    ensures
        r == skip_field(bytes@, from as int),
        from <= r <= bytes@.len(),
{
    let mut i: usize = from;
    while i < bytes.len() && !is_space_byte(bytes[i])
        invariant
            from <= i <= bytes@.len(),
            skip_field(bytes@, i as int) == skip_field(bytes@, from as int),
        decreases bytes@.len() - i,
    {
        i += 1;
    }
    i
}

fn is_scheme(bytes: &[u8], start: usize, end: usize) -> (r: bool)
    requires
        start <= end <= bytes@.len(),
    ensures
        r == (bytes@.subrange(start as int, end as int) == scheme_name()),
{
    let ghost field = bytes@.subrange(start as int, end as int);
    if end - start != 5 {
        assert(field.len() != scheme_name().len());
        return false;
    }
    let r = bytes[start] == 0x42 && bytes[start + 1] == 0x61 && bytes[start + 2] == 0x73
        && bytes[start + 3] == 0x69 && bytes[start + 4] == 0x63;
    proof {
        assert(field[0] == bytes@[start as int]);
        assert(field[1] == bytes@[start + 1]);
        assert(field[2] == bytes@[start + 2]);
        assert(field[3] == bytes@[start + 3]);
        assert(field[4] == bytes@[start + 4]);
        if r {
            assert(field =~= scheme_name());
        }
    }
    r
}

/// What [`credential_token`] found in a header.
pub enum Credential<'a> {
    /// The header holds no field.
    Empty,
    /// The header is not the word `Basic` and one token.
    Malformed,
    /// The token that follows the word `Basic`.
    Token(&'a str),
}

impl<'a> Credential<'a> {
    /// The finding with the token as bytes.
    pub open spec fn bytes(self) -> Header {
        match self {
            Credential::Empty => Header::Empty,
            Credential::Malformed => Header::Malformed,
            Credential::Token(token) => Header::Token(token.spec_bytes()),
        }
    }
}

/// Reads a credential header and hands out the token in it.
pub fn credential_token<'a>(header: &'a str) -> (r: Credential<'a>)
    ensures
        r.bytes() == read_header(header.spec_bytes()),
{
    let bytes = header.as_bytes();
    let ghost all = bytes@;
    let size = bytes.len();
    let scheme_start = scan_spaces(bytes, 0);
    if scheme_start >= size {
        return Credential::Empty;
    }
    let scheme_end = scan_field(bytes, scheme_start);
    let token_start = scan_spaces(bytes, scheme_end);
    if token_start >= size {
        return Credential::Malformed;
    }
    let token_end = scan_field(bytes, token_start);
    let rest_start = scan_spaces(bytes, token_end);
    if rest_start < size {
        return Credential::Malformed;
    }
    if !is_scheme(bytes, scheme_start, scheme_end) {
        return Credential::Malformed;
    }
    proof {
        encode_utf8_valid_utf8(header@);
        lemma_skip_spaces(all, 0);
        lemma_skip_field(all, scheme_start as int);
        lemma_skip_spaces(all, scheme_end as int);
        lemma_skip_field(all, token_start as int);
        assert(scheme_start < scheme_end);
        assert(scheme_end < token_start);
        assert(token_start < token_end);
        assert(is_space(all[token_start - 1]));
        lemma_split_at_ascii(all, token_start - 1);
        if token_end < size {
            lemma_split_at_ascii(all, token_end as int);
        } else {
            is_char_boundary_start_end_of_seq(all);
        }
    }
    let (head, _) = header.split_at(token_end);
    proof {
        let front = all.subrange(0, token_end as int);
        assert(head.spec_bytes() == front);
        encode_utf8_valid_utf8(head@);
        assert(front[token_start - 1] == all[token_start - 1]);
        lemma_split_at_ascii(front, token_start - 1);
        assert(front.subrange(token_start as int, front.len() as int) =~= all.subrange(
            token_start as int,
            token_end as int,
        ));
    }
    let (_, token) = head.split_at(token_start);
    Credential::Token(token)
}

} // verus!
