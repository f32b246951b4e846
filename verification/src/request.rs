//! The request grammar: from the raw buffer to method, path, headers and
//! body.
//!
//! The buffer is decoded as UTF-8, invalid sequences replaced, and the white
//! space at its end is dropped. The text is split into lines at carriage
//! return, line feed pairs. The first line must hold exactly three
//! white-space separated tokens: method, path and version. The lines after
//! it, up to the first empty one, are header lines; each is parted at its
//! first colon, space pair, and a line without such a pair is skipped. Where
//! lines follow the empty line, the last line of the request is its body.

use crate::fields::{with_pair, Pair, StringMap};
use crate::text::{
    parse_header_line, split_crlf, split_header, split_lines, split_tokens, split_white_space,
    trim_end, trimmed_end,
};
use vstd::prelude::*;
use vstd::utf8::{decode_utf8, valid_utf8};

verus! {

/// The text that a lossy UTF-8 decoding gives for `bytes`.
pub uninterp spec fn utf8_lossy(bytes: Seq<u8>) -> Seq<char>;

/// Calls `String::from_utf8_lossy` and takes the result as an owned string.
/// The text is the one that the name `utf8_lossy` stands for; of bytes that
/// are valid UTF-8 it is their decoding.
#[verifier::external_body]
fn from_utf8_lossy(bytes: &[u8]) -> (text: String)
    ensures
        text@ == utf8_lossy(bytes@),
        valid_utf8(bytes@) ==> text@ == decode_utf8(bytes@),
{
    String::from_utf8_lossy(bytes).into_owned()
}

/// The model of a parsed request.
pub struct RequestModel {
    pub method: Seq<char>,
    pub path: Seq<char>,
    pub headers: Seq<Pair>,
    pub body: Option<Seq<char>>,
}

/// A parsed request. Header names are kept as received; of two header lines
/// with one name the later one gives the value.
#[derive(Clone, Debug)]
pub struct ParsedRequest {
    pub method: String,
    pub path: String,
    pub headers: StringMap,
    pub body: Option<String>,
}

impl View for ParsedRequest {
    type V = RequestModel;

    open spec fn view(&self) -> RequestModel {
        RequestModel {
            method: self.method@,
            path: self.path@,
            headers: self.headers@,
            body: match self.body {
                Some(body) => Some(body@),
                None => None,
            },
        }
    }
}

/// Why a request could not be parsed.
#[derive(Clone, Copy, Debug, PartialEq, Eq)]
pub enum ParseError {
    /// The first line does not hold exactly three tokens.
    MalformedRequestLine,
}

/// Number of lines at the start of `lines` that are not empty.
pub open spec fn leading_filled(lines: Seq<Seq<char>>) -> nat
    decreases lines.len(),
{
    if lines.len() > 0 && lines[0].len() > 0 {
        1 + leading_filled(lines.skip(1))
    } else {
        0
    }
}

/// The header lines of a request: those after the first line, up to the
/// first empty one.
pub open spec fn header_section(lines: Seq<Seq<char>>) -> Seq<Seq<char>> {
    lines.skip(1).take(leading_filled(lines.skip(1)) as int)
}

/// The header fields that a sequence of header lines gives, the lines taken
/// in order and those without a separator skipped.
pub open spec fn collect_headers(lines: Seq<Seq<char>>) -> Seq<Pair>
    decreases lines.len(),
{
    if lines.len() == 0 {
        seq![]
    } else {
        let before = collect_headers(lines.drop_last());
        match split_header(lines.last()) {
            Some((name, value)) => with_pair(before, name, value),
            None => before,
        }
    }
}

/// The body of a request: its last line, where lines follow the empty line
/// that ends the headers and that last line is not empty.
pub open spec fn body_of(lines: Seq<Seq<char>>) -> Option<Seq<char>> {
    if 2 + leading_filled(lines.skip(1)) < lines.len() && lines.last().len() > 0 {
        Some(lines.last())
    } else {
        None
    }
}

/// The lines of a request text.
pub open spec fn request_lines(text: Seq<char>) -> Seq<Seq<char>> {
    split_crlf(trimmed_end(text))
}

/// The tokens of the first line of a request text.
pub open spec fn request_line_tokens(text: Seq<char>) -> Seq<Seq<char>> {
    split_white_space(request_lines(text)[0])
}

/// The request that `text` holds, if its first line has three tokens.
pub open spec fn parsed(text: Seq<char>) -> Option<RequestModel> {
    let lines = request_lines(text);
    let tokens = request_line_tokens(text);
    if tokens.len() == 3 {
        Some(
            RequestModel {
                method: tokens[0],
                path: tokens[1],
                headers: collect_headers(header_section(lines)),
                body: body_of(lines),
            },
        )
    } else {
        None
    }
}

/// The header fields of a request keep their names distinct.
pub proof fn lemma_collect_headers_distinct(lines: Seq<Seq<char>>)
    ensures
        crate::fields::distinct_names(collect_headers(lines)),
    decreases lines.len(),
{
    if lines.len() > 0 {
        lemma_collect_headers_distinct(lines.drop_last());
        match split_header(lines.last()) {
            Some((name, value)) => {
                crate::fields::lemma_with_pair(
                    collect_headers(lines.drop_last()),
                    name,
                    value,
                    name,
                );
            },
            None => {},
        }
    }
}

/// Decodes a raw request buffer as UTF-8, replacing what is not valid.
pub fn decode(buffer: &[u8]) -> (text: String)
    ensures
        text@ == utf8_lossy(buffer@),
        valid_utf8(buffer@) ==> text@ == decode_utf8(buffer@),
{
    from_utf8_lossy(buffer)
}

/// Parses a decoded request.
pub fn parse_request(text: &str) -> (result: Result<ParsedRequest, ParseError>)
    ensures
        match result {
            Ok(request) => parsed(text@) == Some(request@) && request.headers.wf(),
            Err(_) => parsed(text@) is None,
        },
{
    let trimmed = trim_end(text);
    let lines = split_lines(trimmed.as_str());
    let ghost all = request_lines(text@);
    assert(lines.deep_view() == all);
    assert(all.len() >= 1);
    assert(lines@.len() == lines.deep_view().len());
    assert(lines@[0]@ == all[0]);
    let tokens = split_tokens(lines[0].as_str());
    assert(tokens@.len() == tokens.deep_view().len());
    if tokens.len() != 3 {
        return Err(ParseError::MalformedRequestLine);
    }
    assert(tokens@[0]@ == tokens.deep_view()[0]);
    assert(tokens@[1]@ == tokens.deep_view()[1]);
    let method = tokens[0].clone();
    let path = tokens[1].clone();

    let n = lines.len();
    let ghost tail = all.skip(1);
    let mut headers = StringMap::new();
    let mut i: usize = 1;
    assert(tail.skip(0) == tail);
    assert(tail.take(0) == Seq::<Seq<char>>::empty());
    while i < n && !lines[i].as_str().is_empty()
        invariant
            n == lines@.len(),
            lines.deep_view() == all,
            tail == all.skip(1),
            1 <= i <= n,
            headers.wf(),
            leading_filled(tail) == (i - 1) + leading_filled(tail.skip(i - 1)),
            headers@ == collect_headers(tail.take(i - 1)),
        decreases n - i,
    {
        assert(lines@[i as int]@ == all[i as int]);
        assert(tail.skip(i - 1)[0] == all[i as int]);
        assert(tail.skip(i - 1).skip(1) == tail.skip(i as int));
        assert(tail.take(i as int).drop_last() == tail.take(i - 1));
        assert(tail.take(i as int).last() == all[i as int]);
        match parse_header_line(lines[i].as_str()) {
            Some((name, value)) => {
                headers.insert(name.as_str(), value.as_str());
            },
            None => {},
        }
        i += 1;
    }
    proof {
        if i < n {
            assert(lines@[i as int]@ == all[i as int]);
            assert(tail.skip(i - 1)[0] == all[i as int]);
        }
        assert(leading_filled(tail) == i - 1);
    }
    let body = if n - i > 1 && !lines[n - 1].as_str().is_empty() {
        assert(lines@[n - 1]@ == all.last());
        Some(lines[n - 1].clone())
    } else {
        proof {
            if n - i > 1 {
                assert(lines@[n - 1]@ == all.last());
            }
        }
        None
    };
    Ok(ParsedRequest { method, path, headers, body })
}

} // verus!
