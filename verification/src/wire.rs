//! The wire form of a request, and the law that parsing reads back what was
//! written.

use crate::bytes::{
    free_of, join, lacks, lemma_decoded_encoded, lemma_split_join, lemma_split_pair,
    lemma_without_join, COLON, CR, LF, SPACE,
};
use crate::headers::{
    is_first_named, lacks_name, lemma_first_named, names_distinct, with_value,
};
use crate::method::{ascii_uppercase, method_named, Method};
use crate::parse::{
    body_of, headers_of, lemma_header_end, parsed, protocol_of, request_lines, with_line,
    ParseRequestError, RequestView,
};
use crate::response::line_end;
use vstd::prelude::*;
use vstd::utf8::{encode_utf8, is_ascii_chars, is_ascii_chars_encode_utf8};

verus! {

/// The name of a method, as it is written on the wire.
pub open spec fn method_name(method: Method) -> Seq<char> {
    match method {
        Method::Get => "GET"@,
        Method::Head => "HEAD"@,
        Method::Post => "POST"@,
        Method::Put => "PUT"@,
        Method::Delete => "DELETE"@,
        Method::Connect => "CONNECT"@,
        Method::Options => "OPTIONS"@,
        Method::Trace => "TRACE"@,
        Method::Patch => "PATCH"@,
    }
}

/// The protocol line of a request: method, path and version with single
/// spaces between them.
pub open spec fn protocol_line(r: RequestView) -> Seq<u8> {
    join(
        seq![encode_utf8(method_name(r.method)), encode_utf8(r.path), encode_utf8(r.version)],
        seq![SPACE],
    )
}

/// One header line without its line end: the name, a colon and a space, the
/// value.
pub open spec fn header_text(name: Seq<char>, value: Seq<char>) -> Seq<u8> {
    encode_utf8(name) + seq![COLON, SPACE] + encode_utf8(value)
}

/// The lines of one header entry: one for each value, in order.
pub open spec fn entry_lines(name: Seq<char>, values: Seq<Seq<char>>) -> Seq<Seq<u8>> {
    Seq::new(values.len(), |j: int| header_text(name, values[j]))
}

/// The lines of all header entries, in order.
pub open spec fn all_header_lines(h: Seq<(Seq<char>, Seq<Seq<char>>)>) -> Seq<Seq<u8>>
    decreases h.len(),
{
    if h.len() == 0 {
        Seq::empty()
    } else {
        all_header_lines(h.drop_last()) + entry_lines(h.last().0, h.last().1)
    }
}

/// The lines of a written request: the protocol line, the header lines, a
/// blank line, and the body as the last line.
pub open spec fn wire_lines(r: RequestView) -> Seq<Seq<u8>> {
    seq![protocol_line(r)] + all_header_lines(r.headers) + seq![Seq::empty(), r.body]
}

/// The wire form of a request: its lines, with a line end between them.
pub open spec fn request_bytes(r: RequestView) -> Seq<u8> {
    join(wire_lines(r), line_end())
}

/// The bytes hold neither a carriage return nor a line feed.
pub open spec fn line_safe(s: Seq<u8>) -> bool {
    free_of(s, CR) && free_of(s, LF)
}

/// The text can stand on either side of a header line: it holds no line
/// break, and no colon followed by a space.
pub open spec fn header_safe(text: Seq<char>) -> bool {
    line_safe(encode_utf8(text)) && lacks(encode_utf8(text), seq![COLON, SPACE])
}

/// The entry has at least one value, and its name and values can stand in
/// header lines.
pub open spec fn entry_writable(e: (Seq<char>, Seq<Seq<char>>)) -> bool {
    e.1.len() > 0 && header_safe(e.0) && forall|j: int|
        0 <= j < e.1.len() ==> header_safe(#[trigger] e.1[j])
}

/// The request can be written so that it reads back: path and version hold
/// no space and no line break; each header name stands once, has a value,
/// and names and values can stand in header lines; the body holds no line
/// break.
pub open spec fn writable(r: RequestView) -> bool {
    &&& line_safe(encode_utf8(r.path))
    &&& free_of(encode_utf8(r.path), SPACE)
    &&& line_safe(encode_utf8(r.version))
    &&& free_of(encode_utf8(r.version), SPACE)
    &&& names_distinct(r.headers)
    &&& forall|i: int| 0 <= i < r.headers.len() ==> entry_writable(#[trigger] r.headers[i])
    &&& line_safe(r.body)
}

/// A method's name names the method, and its bytes hold no space and no
/// line break.
pub proof fn lemma_method_name(method: Method)
    ensures
        method_named(method_name(method)) == Some(method),
        free_of(encode_utf8(method_name(method)), SPACE),
        line_safe(encode_utf8(method_name(method))),
        encode_utf8(method_name(method)).len() > 0,
{
    reveal_strlit("GET");
    reveal_strlit("HEAD");
    reveal_strlit("POST");
    reveal_strlit("PUT");
    reveal_strlit("DELETE");
    reveal_strlit("CONNECT");
    reveal_strlit("OPTIONS");
    reveal_strlit("TRACE");
    reveal_strlit("PATCH");
    let name = method_name(method);
    assert(ascii_uppercase(name) =~= name);
    assert(is_ascii_chars(name));
    is_ascii_chars_encode_utf8(name);
    assert("HEAD"@[0] != "GET"@[0]);
    assert("POST"@[0] != "GET"@[0]);
    assert("POST"@[0] != "HEAD"@[0]);
    assert("PUT"@[1] != "POST"@[1]);
    assert("PATCH"@[1] != "POST"@[1]);
    assert("PATCH"@[1] != "PUT"@[1]);
}

/// Joined pieces are free of a byte that neither they nor the separator hold.
pub proof fn lemma_join_free_of(pieces: Seq<Seq<u8>>, sep: Seq<u8>, b: u8)
    requires
        free_of(sep, b),
        forall|k: int| 0 <= k < pieces.len() ==> free_of(#[trigger] pieces[k], b),
    ensures
        free_of(join(pieces, sep), b),
    decreases pieces.len(),
{
    if pieces.len() > 1 {
        let rest = pieces.skip(1);
        assert forall|k: int| 0 <= k < rest.len() implies free_of(#[trigger] rest[k], b) by {
            assert(rest[k] == pieces[k + 1]);
        }
        lemma_join_free_of(rest, sep, b);
    }
}

/// The protocol line of a writable request reads back as its method, path
/// and version, and holds no line break.
pub proof fn lemma_protocol_round_trip(r: RequestView)
    requires
        writable(r),
    ensures
        protocol_of(protocol_line(r)) == Ok::<(Method, Seq<char>, Seq<char>), ParseRequestError>(
            (r.method, r.path, r.version),
        ),
        line_safe(protocol_line(r)),
        protocol_line(r).len() > 0,
{
    let tokens =
        seq![encode_utf8(method_name(r.method)), encode_utf8(r.path), encode_utf8(r.version)];
    lemma_method_name(r.method);
    lemma_split_join(tokens, SPACE);
    lemma_decoded_encoded(method_name(r.method));
    lemma_decoded_encoded(r.path);
    lemma_decoded_encoded(r.version);
    lemma_join_free_of(tokens, seq![SPACE], CR);
    lemma_join_free_of(tokens, seq![SPACE], LF);
    assert(join(tokens, seq![SPACE]).len() >= tokens[0].len()) by {
        reveal_with_fuel(join, 2);
    }
}

/// Header lines read one after another, starting from the headers `h`.
pub open spec fn fold_lines(h: Seq<(Seq<char>, Seq<Seq<char>>)>, lines: Seq<Seq<u8>>) -> Seq<
    (Seq<char>, Seq<Seq<char>>),
>
    decreases lines.len(),
{
    if lines.len() == 0 {
        h
    } else {
        with_line(fold_lines(h, lines.drop_last()), lines.last())
    }
}

/// Reading two runs of header lines in a row is reading the first, then the
/// second from where the first ended.
pub proof fn lemma_headers_of_concat(a: Seq<Seq<u8>>, b: Seq<Seq<u8>>)
    ensures
        headers_of(a + b) == fold_lines(headers_of(a), b),
    decreases b.len(),
{
    if b.len() == 0 {
        assert(a + b =~= a);
    } else {
        lemma_headers_of_concat(a, b.drop_last());
        assert((a + b).drop_last() =~= a + b.drop_last());
        assert((a + b).last() == b.last());
    }
}

/// A written header line adds its value under its name.
pub proof fn lemma_header_line_read(
    h: Seq<(Seq<char>, Seq<Seq<char>>)>,
    name: Seq<char>,
    value: Seq<char>,
)
    requires
        header_safe(name),
        header_safe(value),
    ensures
        with_line(h, header_text(name, value)) == with_value(h, name, value),
        line_safe(header_text(name, value)),
        header_text(name, value).len() > 0,
{
    lemma_split_pair(encode_utf8(name), encode_utf8(value), COLON, SPACE);
    lemma_decoded_encoded(name);
    lemma_decoded_encoded(value);
}

/// Reading the first `j` lines of an entry whose name is new to `h` adds the
/// entry, with its first `j` values, at the end of `h`.
pub proof fn lemma_entry_read(
    h: Seq<(Seq<char>, Seq<Seq<char>>)>,
    name: Seq<char>,
    values: Seq<Seq<char>>,
    j: int,
)
    requires
        lacks_name(h, name),
        entry_writable((name, values)),
        1 <= j <= values.len(),
    ensures
        fold_lines(h, entry_lines(name, values).take(j)) == h.push((name, values.take(j))),
    decreases j,
{
    let lines = entry_lines(name, values).take(j);
    assert(lines.last() == header_text(name, values[j - 1]));
    assert(header_safe(values[j - 1]));
    if j == 1 {
        assert(lines.drop_last() =~= Seq::<Seq<u8>>::empty());
        assert(fold_lines(h, lines.drop_last()) == h);
        lemma_header_line_read(h, name, values[0]);
        assert(values.take(1) =~= seq![values[0]]);
        assert(with_value(h, name, values[0]) == h.push((name, seq![values[0]])));
    } else {
        lemma_entry_read(h, name, values, j - 1);
        assert(lines.drop_last() =~= entry_lines(name, values).take(j - 1));
        let before = h.push((name, values.take(j - 1)));
        assert(fold_lines(h, lines.drop_last()) == before);
        lemma_header_line_read(before, name, values[j - 1]);
        assert(is_first_named(before, name, h.len() as int));
        lemma_first_named(before, name, h.len() as int);
        assert(values.take(j - 1).push(values[j - 1]) =~= values.take(j));
        assert(before[h.len() as int].1 == values.take(j - 1));
        assert(before.update(h.len() as int, (name, values.take(j))) =~= h.push(
            (name, values.take(j)),
        ));
    }
}

/// The header lines of writable headers read back as those headers; each
/// line is non-empty and holds no line break.
pub proof fn lemma_headers_round_trip(h: Seq<(Seq<char>, Seq<Seq<char>>)>)
    requires
        names_distinct(h),
        forall|i: int| 0 <= i < h.len() ==> entry_writable(#[trigger] h[i]),
    ensures
        headers_of(all_header_lines(h)) == h,
        forall|k: int|
            0 <= k < all_header_lines(h).len() ==> line_safe(#[trigger] all_header_lines(h)[k])
                && all_header_lines(h)[k].len() > 0,
    decreases h.len(),
{
    if h.len() > 0 {
        let init = h.drop_last();
        let (name, values) = h.last();
        assert forall|i: int| 0 <= i < init.len() implies entry_writable(#[trigger] init[i]) by {
            assert(init[i] == h[i]);
        }
        assert(names_distinct(init)) by {
            assert forall|i: int, j: int| 0 <= i < j < init.len() implies init[i].0
                != init[j].0 by {
                assert(h[i].0 != h[j].0);
            }
        }
        lemma_headers_round_trip(init);
        assert(entry_writable(h[h.len() - 1]));
        assert(lacks_name(init, name)) by {
            assert forall|i: int| 0 <= i < init.len() implies init[i].0 != name by {
                assert(h[i].0 != h[h.len() - 1].0);
            }
        }
        let lines = entry_lines(name, values);
        lemma_headers_of_concat(all_header_lines(init), lines);
        lemma_entry_read(init, name, values, values.len() as int);
        assert(lines.take(values.len() as int) =~= lines);
        assert(values.take(values.len() as int) =~= values);
        assert(init.push((name, values)) =~= h);
        assert forall|k: int| 0 <= k < all_header_lines(h).len() implies line_safe(
            #[trigger] all_header_lines(h)[k],
        ) && all_header_lines(h)[k].len() > 0 by {
            if k >= all_header_lines(init).len() {
                let j = k - all_header_lines(init).len();
                assert(all_header_lines(h)[k] == header_text(name, values[j]));
                assert(header_safe(values[j]));
                lemma_header_line_read(init, name, values[j]);
            } else {
                assert(all_header_lines(h)[k] == all_header_lines(init)[k]);
            }
        }
    }
}

/// Round trip: a writable request, written to the wire and parsed, is the
/// same request again, with its method, path, version, headers and body.
pub proof fn lemma_parse_round_trip(r: RequestView)
    requires
        writable(r),
    ensures
        parsed(request_bytes(r)) == Ok::<RequestView, ParseRequestError>(r),
{
    let lines = wire_lines(r);
    let hl = all_header_lines(r.headers);
    let n = hl.len() as int;
    lemma_protocol_round_trip(r);
    lemma_headers_round_trip(r.headers);
    assert(lines.len() == n + 3);
    assert(lines[0] == protocol_line(r));
    assert forall|k: int| 0 <= k < lines.len() implies line_safe(#[trigger] lines[k]) by {
        if 1 <= k <= n {
            assert(lines[k] == hl[k - 1]);
        }
    }
    let buffer = request_bytes(r);
    assert(line_end() == seq![CR, LF]);
    lemma_without_join(lines, CR, LF);
    lemma_split_join(lines, CR);
    assert(buffer.len() > 0) by {
        reveal_with_fuel(join, 2);
    }
    assert(request_lines(buffer) == lines);
    assert forall|j: int| 1 <= j < n + 1 implies lines[j].len() > 0 by {
        assert(lines[j] == hl[j - 1]);
    }
    assert(lines[n + 1].len() == 0);
    lemma_header_end(lines, 1, n + 1);
    assert(lines.subrange(1, n + 1) =~= hl);
    let rest = lines.subrange(n + 2, lines.len() as int);
    assert(rest =~= seq![r.body]);
    rest.lemma_flatten_one_element();
    assert(body_of(lines, n + 1) == r.body);
}

} // verus!
