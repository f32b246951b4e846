//! The response renderer: status line, header block, blank line, body.

use crate::fields::{has_name, Pair, StringMap};
use vstd::prelude::*;
use vstd::utf8::encode_utf8;

verus! {

/// The decimal digits of `n`, as ASCII bytes, without leading zeros.
pub open spec fn decimal(n: nat) -> Seq<u8>
    decreases n,
{
    if n < 10 {
        seq![(48 + n) as u8]
    } else {
        decimal(n / 10).push((48 + n % 10) as u8)
    }
}

/// The number that a sequence of ASCII digits denotes.
pub open spec fn decimal_value(digits: Seq<u8>) -> nat
    decreases digits.len(),
{
    if digits.len() == 0 {
        0
    } else {
        (10 * decimal_value(digits.drop_last()) + (digits.last() - 48)) as nat
    }
}

/// One header line: name, colon, space, value.
pub open spec fn header_line(name: Seq<char>, value: Seq<u8>) -> Seq<u8> {
    encode_utf8(name) + encode_utf8(": "@) + value
}

/// The lines of the headers that the caller gave, in their order.
pub open spec fn given_lines(headers: Seq<Pair>) -> Seq<Seq<u8>> {
    Seq::new(headers.len(), |i: int| header_line(headers[i].0, encode_utf8(headers[i].1)))
}

/// The line of one default header: present only where the caller gave no
/// header of that name.
pub open spec fn default_line(headers: Seq<Pair>, name: Seq<char>, value: Seq<u8>) -> Seq<
    Seq<u8>,
> {
    if has_name(headers, name) {
        seq![]
    } else {
        seq![header_line(name, value)]
    }
}

/// The lines of the default headers that the caller did not override, for a
/// body of `body_len` bytes.
pub open spec fn default_lines(headers: Seq<Pair>, body_len: nat) -> Seq<Seq<u8>> {
    default_line(headers, "Content-Type"@, encode_utf8("application/json"@)) + default_line(
        headers,
        "Content-Length"@,
        decimal(body_len),
    ) + default_line(headers, "Connection"@, encode_utf8("close"@)) + default_line(
        headers,
        "Server"@,
        encode_utf8("Hotpocket :3"@),
    ) + default_line(headers, "X-Frame-Options"@, encode_utf8("SAMEORIGIN"@))
}

/// All header lines of a response: the given ones, then the defaults.
pub open spec fn header_lines(headers: Seq<Pair>, body_len: nat) -> Seq<Seq<u8>> {
    given_lines(headers) + default_lines(headers, body_len)
}

/// `lines` with a carriage return, line feed pair between each two.
pub open spec fn join_crlf(lines: Seq<Seq<u8>>) -> Seq<u8>
    decreases lines.len(),
{
    if lines.len() == 0 {
        seq![]
    } else if lines.len() == 1 {
        lines[0]
    } else {
        join_crlf(lines.drop_last()) + encode_utf8("\r\n"@) + lines.last()
    }
}

/// The bytes of a complete response.
pub open spec fn rendered(code: u16, reason: Seq<char>, headers: Seq<Pair>, body: Seq<u8>) -> Seq<
    u8,
> {
    encode_utf8("HTTP/1.1 "@) + decimal(code as nat) + encode_utf8(" "@) + encode_utf8(reason)
        + encode_utf8("\n"@) + join_crlf(header_lines(headers, body.len())) + encode_utf8(
        "\r\n\r\n"@,
    ) + body
}

/// The byte sequences that `lines` holds.
spec fn views(lines: Seq<Vec<u8>>) -> Seq<Seq<u8>> {
    Seq::new(lines.len(), |i: int| lines[i]@)
}

/// Appends the decimal digits of `n` to `out`.
fn push_decimal(out: &mut Vec<u8>, n: usize)
    ensures
        final(out)@ == old(out)@ + decimal(n as nat),
    decreases n,
{
    if n >= 10 {
        push_decimal(out, n / 10);
    }
    let digit: u8 = (n % 10) as u8;
    out.push(48 + digit);
    assert(out@ == old(out)@ + decimal(n as nat));
}

/// Appends the UTF-8 bytes of `s` to `out`.
fn push_str(out: &mut Vec<u8>, s: &str)
    ensures
        final(out)@ == old(out)@ + encode_utf8(s@),
{
    out.extend_from_slice(s.as_bytes());
    assert(out@ == old(out)@ + encode_utf8(s@));
}

/// Appends `bytes` to `out`.
fn push_bytes(out: &mut Vec<u8>, bytes: &[u8])
    ensures
        final(out)@ == old(out)@ + bytes@,
{
    out.extend_from_slice(bytes);
    assert(out@ == old(out)@ + bytes@);
}

/// The line of the header `name` with the value `value`.
fn make_line(name: &str, value: &[u8]) -> (line: Vec<u8>)
    ensures
        line@ == header_line(name@, value@),
{
    let mut line: Vec<u8> = Vec::new();
    push_str(&mut line, name);
    push_str(&mut line, ": ");
    push_bytes(&mut line, value);
    assert(line@ == header_line(name@, value@));
    line
}

/// Appends the line of the default header `name` unless `headers` names it.
fn push_default(lines: &mut Vec<Vec<u8>>, headers: &StringMap, name: &str, value: &[u8])
    ensures
        views(final(lines)@) == views(old(lines)@) + default_line(
            headers@,
            name@,
            value@,
        ),
{
    if !headers.contains_key(name) {
        let line = make_line(name, value);
        lines.push(line);
        assert(views(lines@) == views(old(lines)@) + seq![line@]);
    } else {
        assert(views(lines@) == views(old(lines)@) + Seq::<Seq<u8>>::empty());
    }
}

/// The decimal digits of `n`, as ASCII bytes.
pub fn decimal_bytes(n: usize) -> (digits: Vec<u8>)
    ensures
        digits@ == decimal(n as nat),
{
    let mut digits: Vec<u8> = Vec::new();
    push_decimal(&mut digits, n);
    assert(digits@ == decimal(n as nat));
    digits
}

/// Renders a complete response: the status line ended by a line feed, the
/// given headers followed by the defaults that they do not override, each
/// two lines parted by a carriage return, line feed pair, then a blank line
/// and the body.
pub fn render(code: u16, reason: &str, headers: &StringMap, body: &[u8]) -> (response: Vec<u8>)
    ensures
        response@ == rendered(code, reason@, headers@, body@),
{
    let mut lines: Vec<Vec<u8>> = Vec::new();
    let n = headers.len();
    let mut i: usize = 0;
    assert(views(lines@) == given_lines(headers@).take(0));
    while i < n
        invariant
            n == headers@.len(),
            i <= n,
            views(lines@) == given_lines(headers@).take(i as int),
        decreases n - i,
    {
        let line = make_line(headers.name_at(i).as_str(), headers.value_at(i).as_str().as_bytes());
        let ghost before = views(lines@);
        lines.push(line);
        assert(views(lines@) == before.push(line@));
        assert(given_lines(headers@).take(i + 1) == given_lines(headers@).take(i as int).push(
            given_lines(headers@)[i as int],
        ));
        i += 1;
    }
    assert(given_lines(headers@).take(n as int) == given_lines(headers@));
    let length = decimal_bytes(body.len());
    push_default(&mut lines, headers, "Content-Type", "application/json".as_bytes());
    push_default(&mut lines, headers, "Content-Length", length.as_slice());
    push_default(&mut lines, headers, "Connection", "close".as_bytes());
    push_default(&mut lines, headers, "Server", "Hotpocket :3".as_bytes());
    push_default(&mut lines, headers, "X-Frame-Options", "SAMEORIGIN".as_bytes());
    assert(views(lines@) == header_lines(headers@, body@.len()));

    let mut response: Vec<u8> = Vec::new();
    push_str(&mut response, "HTTP/1.1 ");
    push_decimal(&mut response, code as usize);
    push_str(&mut response, " ");
    push_str(&mut response, reason);
    push_str(&mut response, "\n");
    let ghost head = response@;
    let count = lines.len();
    let mut k: usize = 0;
    assert(views(lines@).take(0) == Seq::<Seq<u8>>::empty());
    assert(response@ == head + join_crlf(views(lines@).take(0)));
    while k < count
        invariant
            count == lines@.len(),
            k <= count,
            response@ == head + join_crlf(views(lines@).take(k as int)),
        decreases count - k,
    {
        let ghost sofar = views(lines@).take(k as int);
        let ghost next = views(lines@).take(k + 1);
        assert(next.drop_last() == sofar);
        assert(next.last() == lines@[k as int]@);
        if k > 0 {
            push_str(&mut response, "\r\n");
        }
        push_bytes(&mut response, lines[k].as_slice());
        assert(response@ == head + join_crlf(next));
        k += 1;
    }
    assert(views(lines@).take(count as int) == views(lines@));
    push_str(&mut response, "\r\n\r\n");
    push_bytes(&mut response, body);
    assert(response@ == rendered(code, reason@, headers@, body@));
    response
}

} // verus!
