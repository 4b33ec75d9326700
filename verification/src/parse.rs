//! The request parser: one buffered request, as wire bytes, becomes a
//! structured request or a parse error.

use crate::bytes::{
    decode_lossy, decoded, drop_byte, rows, split, split_bytes, without, COLON, CR, LF, SPACE,
};
use crate::headers::{lemma_with_value_distinct, names_distinct, with_value, Headers};
use crate::method::{method_from_str, method_named, Method};
use vstd::prelude::*;

verus! {

/// Why a buffer is not a request.
#[derive(Debug, Clone, Copy, PartialEq, Eq, Structural)]
pub enum ParseRequestError {
    /// The verb of the protocol line is not a known method.
    InvalidMethod,
    /// There is no protocol line, or it has fewer than three tokens.
    IncompleteRequest,
}

impl ParseRequestError {
    /// The error in words.
    pub fn message(&self) -> (text: String)
        ensures
            text@ == match *self {
                ParseRequestError::InvalidMethod => "Invalid method"@,
                ParseRequestError::IncompleteRequest => "Incomplete HTTP request specification"@,
            },
    {
        match self {
            ParseRequestError::InvalidMethod => "Invalid method".to_owned(),
            ParseRequestError::IncompleteRequest => {
                "Incomplete HTTP request specification".to_owned()
            },
        }
    }
}

/// The three tokens of a protocol line.
#[derive(Debug)]
pub struct HttpProtocol {
    pub method: Method,
    pub path: String,
    pub version: String,
}

/// One parsed request.
#[derive(Debug)]
pub struct ParsedRequest {
    pub method: Method,
    pub path: String,
    pub version: String,
    pub headers: Headers,
    pub body: Vec<u8>,
}

/// What a request holds, as mathematical values.
pub struct RequestView {
    pub method: Method,
    pub path: Seq<char>,
    pub version: Seq<char>,
    pub headers: Seq<(Seq<char>, Seq<Seq<char>>)>,
    pub body: Seq<u8>,
}

impl View for ParsedRequest {
    type V = RequestView;

    open spec fn view(&self) -> RequestView {
        RequestView {
            method: self.method,
            path: self.path@,
            version: self.version@,
            headers: self.headers@,
            body: self.body@,
        }
    }
}

/// The logical lines of a buffer: line feeds are dropped wherever they stand,
/// and each carriage return ends a line. An empty buffer has no line; any
/// other has at least one, and its last line is empty where the buffer ends
/// with a line break.
pub open spec fn request_lines(buffer: Seq<u8>) -> Seq<Seq<u8>> {
    if buffer.len() == 0 {
        Seq::empty()
    } else {
        split(without(buffer, LF), seq![CR])
    }
}

/// What a protocol line says: its first three space-separated tokens are the
/// method, the path and the version; further tokens are ignored.
pub open spec fn protocol_of(line: Seq<u8>) -> Result<
    (Method, Seq<char>, Seq<char>),
    ParseRequestError,
> {
    let tokens = split(line, seq![SPACE]);
    if tokens.len() < 3 {
        Err(ParseRequestError::IncompleteRequest)
    } else {
        match method_named(decoded(tokens[0])) {
            None => Err(ParseRequestError::InvalidMethod),
            Some(method) => Ok((method, decoded(tokens[1]), decoded(tokens[2]))),
        }
    }
}

/// The headers `h` after the line `line`: a line with the separator `": "`
/// gives the name before its first occurrence the value that follows it, up
/// to the next occurrence; a line without the separator changes nothing.
pub open spec fn with_line(h: Seq<(Seq<char>, Seq<Seq<char>>)>, line: Seq<u8>) -> Seq<
    (Seq<char>, Seq<Seq<char>>),
> {
    let parts = split(line, seq![COLON, SPACE]);
    if parts.len() >= 2 {
        with_value(h, decoded(parts[0]), decoded(parts[1]))
    } else {
        h
    }
}

/// The headers that a run of header lines gives, taken in order.
pub open spec fn headers_of(lines: Seq<Seq<u8>>) -> Seq<(Seq<char>, Seq<Seq<char>>)>
    decreases lines.len(),
{
    if lines.len() == 0 {
        Seq::empty()
    } else {
        with_line(headers_of(lines.drop_last()), lines.last())
    }
}

/// The index of the first empty line at or after `from`, or the number of
/// lines where there is none.
pub open spec fn header_end(lines: Seq<Seq<u8>>, from: int) -> int
    decreases lines.len() - from,
{
    if from < 0 || from >= lines.len() {
        lines.len() as int
    } else if lines[from].len() == 0 {
        from
    } else {
        header_end(lines, from + 1)
    }
}

/// The bytes of the lines after the blank line at `end`, joined; nothing
/// where the input ended before a blank line.
pub open spec fn body_of(lines: Seq<Seq<u8>>, end: int) -> Seq<u8> {
    if 0 <= end < lines.len() {
        lines.subrange(end + 1, lines.len() as int).flatten()
    } else {
        Seq::empty()
    }
}

/// What parsing makes of a buffer.
pub open spec fn parsed(buffer: Seq<u8>) -> Result<RequestView, ParseRequestError> {
    let lines = request_lines(buffer);
    if lines.len() == 0 {
        Err(ParseRequestError::IncompleteRequest)
    } else {
        match protocol_of(lines[0]) {
            Err(e) => Err(e),
            Ok((method, path, version)) => {
                let end = header_end(lines, 1);
                Ok(
                    RequestView {
                        method,
                        path,
                        version,
                        headers: headers_of(lines.subrange(1, end)),
                        body: body_of(lines, end),
                    },
                )
            },
        }
    }
}

/// A buffer whose protocol line has fewer than three tokens is incomplete,
/// whatever its verb.
pub proof fn lemma_short_protocol_line_incomplete(buffer: Seq<u8>)
    requires
        request_lines(buffer).len() > 0,
        split(request_lines(buffer)[0], seq![SPACE]).len() < 3,
    ensures
        parsed(buffer) == Err::<RequestView, ParseRequestError>(
            ParseRequestError::IncompleteRequest,
        ),
{
}

/// A buffer whose protocol line has three tokens and a verb that names no
/// method has an invalid method.
pub proof fn lemma_unknown_verb_invalid(buffer: Seq<u8>)
    requires
        request_lines(buffer).len() > 0,
        split(request_lines(buffer)[0], seq![SPACE]).len() >= 3,
        method_named(decoded(split(request_lines(buffer)[0], seq![SPACE])[0])).is_none(),
    ensures
        parsed(buffer) == Err::<RequestView, ParseRequestError>(ParseRequestError::InvalidMethod),
{
}

/// Header lines never give one name two entries.
pub proof fn lemma_headers_of_distinct(lines: Seq<Seq<u8>>)
    ensures
        names_distinct(headers_of(lines)),
    decreases lines.len(),
{
    if lines.len() > 0 {
        lemma_headers_of_distinct(lines.drop_last());
        let h = headers_of(lines.drop_last());
        let parts = split(lines.last(), seq![COLON, SPACE]);
        if parts.len() >= 2 {
            lemma_with_value_distinct(h, decoded(parts[0]), decoded(parts[1]));
        }
    }
}

/// The header block ends at `end` where every line from `from` up to `end` is
/// non-empty and `end` is an empty line or the end of the input.
pub proof fn lemma_header_end(lines: Seq<Seq<u8>>, from: int, end: int)
    requires
        0 <= from <= end <= lines.len(),
        forall|j: int| from <= j < end ==> lines[j].len() > 0,
        end == lines.len() || lines[end].len() == 0,
    ensures
        header_end(lines, from) == end,
    decreases end - from,
{
    if from < end {
        lemma_header_end(lines, from + 1, end);
    }
}

/// Splits a buffer into its logical lines.
pub fn split_lines(buffer: &[u8]) -> (lines: Vec<Vec<u8>>)
    ensures
        rows(lines@) == request_lines(buffer@),
{
    if buffer.len() == 0 {
        let lines: Vec<Vec<u8>> = Vec::new();
        assert(rows(lines@) =~= Seq::<Seq<u8>>::empty());
        return lines;
    }
    let kept = drop_byte(buffer, LF);
    let mut sep: Vec<u8> = Vec::new();
    sep.push(CR);
    assert(sep@ =~= seq![CR]);
    split_bytes(kept.as_slice(), sep.as_slice())
}

impl HttpProtocol {
    /// The protocol that three decoded tokens give: the verb must name a
    /// method; path and version are taken as they are.
    pub fn from_tokens(verb: &str, path: String, version: String) -> (r: Result<
        HttpProtocol,
        ParseRequestError,
    >)
        ensures
            match r {
                Ok(p) => method_named(verb@) == Some(p.method) && p.path@ == path@ && p.version@
                    == version@,
                Err(e) => method_named(verb@).is_none() && e == ParseRequestError::InvalidMethod,
            },
    {
        match method_from_str(verb) {
            Some(method) => Ok(HttpProtocol { method, path, version }),
            None => Err(ParseRequestError::InvalidMethod),
        }
    }
}

/// Reads the protocol line.
pub fn get_protocol(line: &[u8]) -> (r: Result<HttpProtocol, ParseRequestError>)
    ensures
        match r {
            Ok(p) => protocol_of(line@) == Ok::<_, ParseRequestError>(
                (p.method, p.path@, p.version@),
            ),
            Err(e) => protocol_of(line@) == Err::<(Method, Seq<char>, Seq<char>), _>(e),
        },
{
    let mut sep: Vec<u8> = Vec::new();
    sep.push(SPACE);
    assert(sep@ =~= seq![SPACE]);
    let tokens = split_bytes(line, sep.as_slice());
    if tokens.len() < 3 {
        return Err(ParseRequestError::IncompleteRequest);
    }
    assert(rows(tokens@)[0] == tokens@[0]@);
    assert(rows(tokens@)[1] == tokens@[1]@);
    assert(rows(tokens@)[2] == tokens@[2]@);
    let verb = decode_lossy(tokens[0].as_slice());
    let path = decode_lossy(tokens[1].as_slice());
    let version = decode_lossy(tokens[2].as_slice());
    HttpProtocol::from_tokens(verb.as_str(), path, version)
}

/// Reads header lines from `lines[from]` on, up to the first empty line or
/// the end of the input. Returns the headers and the index at which it stopped.
pub fn parse_headers(lines: &Vec<Vec<u8>>, from: usize) -> (r: (Headers, usize))
    requires
        from <= lines@.len(),
    ensures
        r.1 == header_end(rows(lines@), from as int),
        from <= r.1 <= lines@.len(),
        r.0@ == headers_of(rows(lines@).subrange(from as int, r.1 as int)),
        names_distinct(r.0@),
{
    let mut headers = Headers::new();
    let mut sep: Vec<u8> = Vec::new();
    sep.push(COLON);
    sep.push(SPACE);
    assert(sep@ =~= seq![COLON, SPACE]);
    let mut k: usize = from;
    assert(rows(lines@).subrange(from as int, from as int) =~= Seq::<Seq<u8>>::empty());
    while k < lines.len() && lines[k].len() != 0
        invariant
            from <= k <= lines@.len(),
            sep@ == seq![COLON, SPACE],
            forall|j: int| from <= j < k ==> rows(lines@)[j].len() > 0,
            headers@ == headers_of(rows(lines@).subrange(from as int, k as int)),
        decreases lines@.len() - k,
    {
        let parts = split_bytes(lines[k].as_slice(), sep.as_slice());
        proof {
            let run = rows(lines@).subrange(from as int, k + 1);
            assert(run.drop_last() =~= rows(lines@).subrange(from as int, k as int));
            assert(run.last() == lines@[k as int]@);
        }
        if parts.len() >= 2 {
            assert(rows(parts@)[0] == parts@[0]@);
            assert(rows(parts@)[1] == parts@[1]@);
            let name = decode_lossy(parts[0].as_slice());
            let value = decode_lossy(parts[1].as_slice());
            headers.append(name, value);
        }
        k += 1;
    }
    proof {
        lemma_header_end(rows(lines@), from as int, k as int);
        lemma_headers_of_distinct(rows(lines@).subrange(from as int, k as int));
    }
    (headers, k)
}

/// Joins the lines from `from` on into one byte vector.
pub fn join_lines(lines: &Vec<Vec<u8>>, from: usize) -> (body: Vec<u8>)
    requires
        from <= lines@.len(),
    ensures
        body@ == rows(lines@).subrange(from as int, lines@.len() as int).flatten(),
{
    let mut body: Vec<u8> = Vec::new();
    let mut k: usize = from;
    assert(rows(lines@).subrange(from as int, from as int) =~= Seq::<Seq<u8>>::empty());
    while k < lines.len()
        invariant
            from <= k <= lines@.len(),
            body@ == rows(lines@).subrange(from as int, k as int).flatten(),
        decreases lines@.len() - k,
    {
        proof {
            let done = rows(lines@).subrange(from as int, k as int);
            assert(rows(lines@).subrange(from as int, k + 1) =~= done.push(lines@[k as int]@));
            done.lemma_flatten_push(lines@[k as int]@);
        }
        body.extend_from_slice(lines[k].as_slice());
        k += 1;
    }
    body
}

/// Parses one buffered request.
pub fn parse_request(buffer: Vec<u8>) -> (r: Result<ParsedRequest, ParseRequestError>)
    ensures
        match r {
            Ok(request) => parsed(buffer@) == Ok::<_, ParseRequestError>(request@),
            Err(e) => parsed(buffer@) == Err::<RequestView, _>(e),
        },
        r matches Ok(request) ==> names_distinct(request.headers@),
{
    let lines = split_lines(buffer.as_slice());
    if lines.len() == 0 {
        return Err(ParseRequestError::IncompleteRequest);
    }
    assert(rows(lines@)[0] == lines@[0]@);
    let protocol = match get_protocol(lines[0].as_slice()) {
        Ok(p) => p,
        Err(e) => {
            return Err(e);
        },
    };
    let (headers, end) = parse_headers(&lines, 1);
    let body = if end < lines.len() {
        join_lines(&lines, end + 1)
    } else {
        Vec::new()
    };
    Ok(
        ParsedRequest {
            method: protocol.method,
            path: protocol.path,
            version: protocol.version,
            headers,
            body,
        },
    )
}

} // verus!
