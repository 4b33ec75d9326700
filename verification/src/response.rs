//! Responses and their wire form.

use crate::bytes::{COLON, CR, LF, SPACE};
use crate::headers::{texts, with_value, Headers};
use crate::status::Status;
use vstd::prelude::*;
use vstd::utf8::encode_utf8;

verus! {

/// The answer to one request.
#[derive(Debug)]
pub struct Response {
    pub status: Status,
    pub version: String,
    pub headers: Headers,
    pub body: Option<Vec<u8>>,
}

/// What a response holds, as mathematical values.
pub struct ResponseView {
    pub code: u16,
    pub reason: Seq<char>,
    pub version: Seq<char>,
    pub headers: Seq<(Seq<char>, Seq<Seq<char>>)>,
    pub body: Option<Seq<u8>>,
}

/// The contents of an optional byte vector.
pub open spec fn body_view(body: Option<Vec<u8>>) -> Option<Seq<u8>> {
    match body {
        Some(bytes) => Some(bytes@),
        None => None,
    }
}

impl View for Response {
    type V = ResponseView;

    open spec fn view(&self) -> ResponseView {
        ResponseView {
            code: self.status.code,
            reason: self.status.reason@,
            version: self.version@,
            headers: self.headers@,
            body: body_view(self.body),
        }
    }
}

/// The bytes that end a line on the wire.
pub open spec fn line_end() -> Seq<u8> {
    seq![CR, LF]
}

/// The decimal digits of `n`, as ASCII bytes, without leading zeros.
pub open spec fn decimal(n: nat) -> Seq<u8>
    decreases n,
{
    if n < 10 {
        seq![(48 + n) as u8]
    } else {
        decimal(n / 10).push((48 + n % 10) as u8)
    }
}

/// The status line: version, code and reason, separated by single spaces.
pub open spec fn status_line(version: Seq<char>, code: u16, reason: Seq<char>) -> Seq<u8> {
    encode_utf8(version) + seq![SPACE] + decimal(code as nat) + seq![SPACE] + encode_utf8(reason)
        + line_end()
}

/// One header line: the name, a colon and a space, the value.
pub open spec fn header_line(name: Seq<char>, value: Seq<char>) -> Seq<u8> {
    encode_utf8(name) + seq![COLON, SPACE] + encode_utf8(value) + line_end()
}

/// One header line for each value of a name, in order.
pub open spec fn value_lines(name: Seq<char>, values: Seq<Seq<char>>) -> Seq<u8>
    decreases values.len(),
{
    if values.len() == 0 {
        Seq::empty()
    } else {
        value_lines(name, values.drop_last()) + header_line(name, values.last())
    }
}

/// The lines of all headers: names in insertion order, each with its values.
pub open spec fn header_lines(h: Seq<(Seq<char>, Seq<Seq<char>>)>) -> Seq<u8>
    decreases h.len(),
{
    if h.len() == 0 {
        Seq::empty()
    } else {
        header_lines(h.drop_last()) + value_lines(h.last().0, h.last().1)
    }
}

/// The bytes after the blank line: the body, or nothing where there is none.
pub open spec fn body_bytes(body: Option<Seq<u8>>) -> Seq<u8> {
    match body {
        Some(bytes) => bytes,
        None => Seq::empty(),
    }
}

/// The wire form of a response: status line, header lines, a blank line,
/// then the body.
pub open spec fn wire_bytes(r: ResponseView) -> Seq<u8> {
    status_line(r.version, r.code, r.reason) + header_lines(r.headers) + line_end() + body_bytes(
        r.body,
    )
}

impl Response {
    /// A response with the given status, version `HTTP/1.1`, no headers and
    /// no body.
    pub fn new(status: Status) -> (r: Response)
        ensures
            r@ == (ResponseView {
                code: status.code,
                reason: status.reason@,
                version: "HTTP/1.1"@,
                headers: Seq::empty(),
                body: None,
            }),
    {
        Response { status, version: "HTTP/1.1".to_owned(), headers: Headers::new(), body: None }
    }

    /// Replaces the status.
    pub fn set_status(&mut self, status: Status)
        ensures
            final(self)@ == (ResponseView {
                code: status.code,
                reason: status.reason@,
                ..old(self)@
            }),
    {
        self.status = status;
    }

    /// Replaces the version text.
    pub fn set_version(&mut self, version: String)
        ensures
            final(self)@ == (ResponseView { version: version@, ..old(self)@ }),
    {
        self.version = version;
    }

    /// Attaches a body, replacing any earlier one.
    pub fn set_body(&mut self, body: Vec<u8>)
        ensures
            final(self)@ == (ResponseView { body: Some(body@), ..old(self)@ }),
    {
        self.body = Some(body);
    }

    /// Records one more value for the header `name`.
    pub fn append_header(&mut self, name: &str, value: &str)
        ensures
            final(self)@ == (ResponseView {
                headers: with_value(old(self)@.headers, name@, value@),
                ..old(self)@
            }),
    {
        self.headers.append(name.to_owned(), value.to_owned());
    }
}

/// Appends the UTF-8 bytes of `text`.
pub fn push_text(out: &mut Vec<u8>, text: &str)
    ensures
        final(out)@ == old(out)@ + encode_utf8(text@),
{
    out.extend_from_slice(text.as_bytes());
}

/// Appends the decimal digits of `n`.
pub fn push_decimal(out: &mut Vec<u8>, n: u16)
    ensures
        final(out)@ == old(out)@ + decimal(n as nat),
    decreases n,
{
    if n >= 10 {
        push_decimal(out, n / 10);
    }
    let digit: u8 = 48 + (n % 10) as u8;
    out.push(digit);
    assert(out@ =~= old(out)@ + decimal(n as nat));
}

/// Appends one header line.
pub fn push_header_line(out: &mut Vec<u8>, name: &str, value: &str)
    ensures
        final(out)@ == old(out)@ + header_line(name@, value@),
{
    push_text(out, name);
    out.push(COLON);
    out.push(SPACE);
    push_text(out, value);
    out.push(CR);
    out.push(LF);
    assert(out@ =~= old(out)@ + header_line(name@, value@));
}

/// Renders a response into wire bytes.
pub fn response_to_buffer(response: &Response) -> (buffer: Vec<u8>)
    ensures
        buffer@ == wire_bytes(response@),
{
    let mut buffer: Vec<u8> = Vec::new();
    push_text(&mut buffer, response.version.as_str());
    buffer.push(SPACE);
    push_decimal(&mut buffer, response.status.code);
    buffer.push(SPACE);
    push_text(&mut buffer, response.status.reason.as_str());
    buffer.push(CR);
    buffer.push(LF);
    let ghost head = status_line(response@.version, response@.code, response@.reason);
    assert(buffer@ =~= head);
    let ghost h = response@.headers;
    let mut i: usize = 0;
    assert(h.take(0) =~= Seq::empty());
    while i < response.headers.len()
        invariant
            i <= h.len(),
            h == response@.headers,
            buffer@ == head + header_lines(h.take(i as int)),
        decreases h.len() - i,
    {
        let name = response.headers.name_at(i);
        let values = response.headers.values_at(i);
        let ghost done = buffer@;
        let mut j: usize = 0;
        assert(texts(values@).take(0) =~= Seq::empty());
        while j < values.len()
            invariant
                j <= values@.len(),
                buffer@ == done + value_lines(name@, texts(values@).take(j as int)),
            decreases values@.len() - j,
        {
            proof {
                let upto = texts(values@).take(j + 1);
                assert(upto.drop_last() =~= texts(values@).take(j as int));
                assert(upto.last() == values@[j as int]@);
            }
            push_header_line(&mut buffer, name.as_str(), values[j].as_str());
            j += 1;
        }
        proof {
            assert(texts(values@).take(values@.len() as int) =~= texts(values@));
            let upto = h.take(i + 1);
            assert(upto.drop_last() =~= h.take(i as int));
            assert(upto.last() == h[i as int]);
        }
        i += 1;
    }
    assert(h.take(h.len() as int) =~= h);
    buffer.push(CR);
    buffer.push(LF);
    match &response.body {
        Some(body) => {
            buffer.extend_from_slice(body.as_slice());
        },
        None => {},
    }
    assert(buffer@ =~= wire_bytes(response@));
    buffer
}

} // verus!
