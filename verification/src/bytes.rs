//! Byte-level building blocks of the wire format: splitting on a separator,
//! dropping a byte, copying ranges, and lossy decoding into text.

use vstd::prelude::*;

verus! {

/// The carriage-return byte that ends a line on the wire.
pub const CR: u8 = 13;

/// The line-feed byte, which is dropped wherever it occurs.
pub const LF: u8 = 10;

/// The space byte that separates the tokens of the protocol line.
pub const SPACE: u8 = 32;

/// The colon byte that begins the separator between a header's name and value.
pub const COLON: u8 = 58;

/// `sep` occurs in `s` at index `i`.
pub open spec fn occurs_at(s: Seq<u8>, sep: Seq<u8>, i: int) -> bool {
    0 <= i && i + sep.len() <= s.len() && s.subrange(i, i + sep.len()) == sep
}

/// `i` is the leftmost index at which `sep` occurs in `s`.
pub open spec fn is_first_occurrence(s: Seq<u8>, sep: Seq<u8>, i: int) -> bool {
    occurs_at(s, sep, i) && forall|j: int| 0 <= j < i ==> !occurs_at(s, sep, j)
}

/// The leftmost index at which `sep` occurs in `s`, where there is one.
pub open spec fn first_occurrence(s: Seq<u8>, sep: Seq<u8>) -> int {
    choose|i: int| is_first_occurrence(s, sep, i)
}

/// The pieces of `s` between the non-overlapping occurrences of `sep`, taken
/// from the left. There is always at least one piece; an empty separator
/// splits nothing.
pub open spec fn split(s: Seq<u8>, sep: Seq<u8>) -> Seq<Seq<u8>>
    decreases s.len(),
{
    let i = first_occurrence(s, sep);
    if sep.len() > 0 && is_first_occurrence(s, sep, i) {
        seq![s.subrange(0, i)] + split(s.subrange(i + sep.len(), s.len() as int), sep)
    } else {
        seq![s]
    }
}

/// `s` without the occurrences of the byte `b`.
pub open spec fn without(s: Seq<u8>, b: u8) -> Seq<u8> {
    s.filter(differs_from(b))
}

/// The predicate that holds of every byte but `b`.
pub open spec fn differs_from(b: u8) -> spec_fn(u8) -> bool {
    |x: u8| x != b
}

/// The contents of a vector of byte vectors, as a sequence of sequences.
pub open spec fn rows(v: Seq<Vec<u8>>) -> Seq<Seq<u8>> {
    v.map_values(|x: Vec<u8>| x@)
}

/// An occurrence in a suffix is an occurrence in the whole, shifted.
pub proof fn lemma_occurs_in_suffix(s: Seq<u8>, sep: Seq<u8>, start: int, k: int)
    requires
        0 <= start <= s.len(),
        0 <= k,
    ensures
        occurs_at(s.subrange(start, s.len() as int), sep, k) == occurs_at(s, sep, start + k),
{
    let t = s.subrange(start, s.len() as int);
    if k + sep.len() <= t.len() {
        assert(t.subrange(k, k + sep.len()) =~= s.subrange(start + k, start + k + sep.len()));
    }
}

/// Where `sep` occurs nowhere in `s`, splitting leaves `s` whole.
pub proof fn lemma_split_none(s: Seq<u8>, sep: Seq<u8>)
    requires
        forall|j: int| !occurs_at(s, sep, j),
    ensures
        split(s, sep) == seq![s],
{
}

/// Where the leftmost occurrence of `sep` in `s` is at `i`, splitting yields
/// the bytes before `i`, then the pieces of what follows the separator.
pub proof fn lemma_split_at(s: Seq<u8>, sep: Seq<u8>, i: int)
    requires
        sep.len() > 0,
        is_first_occurrence(s, sep, i),
    ensures
        split(s, sep) == seq![s.subrange(0, i)] + split(
            s.subrange(i + sep.len(), s.len() as int),
            sep,
        ),
{
    let c = first_occurrence(s, sep);
    assert(is_first_occurrence(s, sep, c));
    assert(c == i) by {
        if c < i {
            assert(!occurs_at(s, sep, c));
        }
        if i < c {
            assert(!occurs_at(s, sep, i));
        }
    }
}

/// Where `sep` occurs in `s` at `j`, it has a leftmost occurrence, at or
/// before `j`.
pub proof fn lemma_first_occurrence(s: Seq<u8>, sep: Seq<u8>, j: int)
    requires
        occurs_at(s, sep, j),
    ensures
        is_first_occurrence(s, sep, first_occurrence(s, sep)),
        first_occurrence(s, sep) <= j,
    decreases j,
{
    if forall|k: int| 0 <= k < j ==> !occurs_at(s, sep, k) {
        assert(is_first_occurrence(s, sep, j));
    } else {
        let k = choose|k: int| 0 <= k < j && occurs_at(s, sep, k);
        lemma_first_occurrence(s, sep, k);
    }
    let c = first_occurrence(s, sep);
    if j < c {
        assert(!occurs_at(s, sep, j));
    }
}

/// Splitting yields a single piece exactly where the separator is empty or
/// occurs nowhere; the piece is then the whole input.
pub proof fn lemma_split_whole(s: Seq<u8>, sep: Seq<u8>)
    ensures
        split(s, sep).len() >= 1,
        split(s, sep).len() == 1 <==> (sep.len() == 0 || forall|j: int| !occurs_at(s, sep, j)),
        split(s, sep).len() == 1 ==> split(s, sep)[0] == s,
    decreases s.len(),
{
    if sep.len() > 0 && exists|j: int| occurs_at(s, sep, j) {
        let j = choose|j: int| occurs_at(s, sep, j);
        lemma_first_occurrence(s, sep, j);
        let i = first_occurrence(s, sep);
        lemma_split_whole(s.subrange(i + sep.len(), s.len() as int), sep);
    }
}

/// Whether `sep` occurs in `s` at index `i`.
pub fn matches_at(s: &[u8], sep: &[u8], i: usize) -> (found: bool)
    requires
        i <= s@.len(),
    ensures
        found == occurs_at(s@, sep@, i as int),
{
    if sep.len() > s.len() - i {
        return false;
    }
    let n: usize = s.len();
    let mut k: usize = 0;
    while k < sep.len()
        invariant
            n == s@.len(),
            i + sep@.len() <= s@.len(),
            k <= sep@.len(),
            forall|j: int| 0 <= j < k ==> s@[i + j] == sep@[j],
        decreases sep@.len() - k,
    {
        if s[i + k] != sep[k] {
            proof {
                let window = s@.subrange(i as int, i + sep@.len());
                assert(window[k as int] == s@[i + k]);
            }
            return false;
        }
        k += 1;
    }
    assert(s@.subrange(i as int, i + sep@.len()) =~= sep@);
    true
}

/// A copy of the bytes of `s` from `from` up to `to`.
pub fn copy_range(s: &[u8], from: usize, to: usize) -> (out: Vec<u8>)
    requires
        from <= to <= s@.len(),
    ensures
        out@ == s@.subrange(from as int, to as int),
{
    let mut out: Vec<u8> = Vec::new();
    let mut k: usize = from;
    while k < to
        invariant
            from <= k <= to <= s@.len(),
            out@ == s@.subrange(from as int, k as int),
        decreases to - k,
    {
        out.push(s[k]);
        assert(out@ =~= s@.subrange(from as int, k + 1));
        k += 1;
    }
    out
}

/// Splits `s` on the separator `sep`.
pub fn split_bytes(s: &[u8], sep: &[u8]) -> (pieces: Vec<Vec<u8>>)
    ensures
        rows(pieces@) == split(s@, sep@),
{
    let mut pieces: Vec<Vec<u8>> = Vec::new();
    if sep.len() == 0 {
        pieces.push(copy_range(s, 0, s.len()));
        assert(s@.subrange(0, s@.len() as int) =~= s@);
        assert(rows(pieces@) =~= seq![s@]);
        return pieces;
    }
    let mut start: usize = 0;
    let mut i: usize = 0;
    assert(s@.subrange(0, s@.len() as int) =~= s@);
    assert(rows(pieces@) =~= Seq::<Seq<u8>>::empty());
    assert(Seq::<Seq<u8>>::empty() + split(s@, sep@) =~= split(s@, sep@));
    while i < s.len()
        invariant
            sep@.len() > 0,
            start <= i <= s@.len(),
            split(s@, sep@) == rows(pieces@) + split(
                s@.subrange(start as int, s@.len() as int),
                sep@,
            ),
            forall|j: int| start <= j < i ==> !occurs_at(s@, sep@, j),
        decreases s@.len() - i,
    {
        if matches_at(s, sep, i) {
            let piece = copy_range(s, start, i);
            proof {
                let rest = s@.subrange(start as int, s@.len() as int);
                assert forall|k: int| 0 <= k < i - start implies !occurs_at(rest, sep@, k) by {
                    lemma_occurs_in_suffix(s@, sep@, start as int, k);
                }
                lemma_occurs_in_suffix(s@, sep@, start as int, i - start);
                lemma_split_at(rest, sep@, i - start);
                assert(rest.subrange(0, i - start) =~= s@.subrange(start as int, i as int));
                assert(rest.subrange(i - start + sep@.len(), rest.len() as int) =~= s@.subrange(
                    i + sep@.len(),
                    s@.len() as int,
                ));
                assert(rows(pieces@.push(piece)) =~= rows(pieces@).push(piece@));
                assert(rows(pieces@).push(piece@) + split(
                    s@.subrange(i + sep@.len(), s@.len() as int),
                    sep@,
                ) =~= rows(pieces@) + (seq![piece@] + split(
                    s@.subrange(i + sep@.len(), s@.len() as int),
                    sep@,
                )));
            }
            pieces.push(piece);
            i += sep.len();
            start = i;
        } else {
            i += 1;
        }
    }
    let piece = copy_range(s, start, s.len());
    proof {
        let rest = s@.subrange(start as int, s@.len() as int);
        assert forall|k: int| !occurs_at(rest, sep@, k) by {
            if 0 <= k {
                lemma_occurs_in_suffix(s@, sep@, start as int, k);
            }
        }
        lemma_split_none(rest, sep@);
        assert(rows(pieces@.push(piece)) =~= rows(pieces@).push(piece@));
        assert(rows(pieces@).push(piece@) =~= rows(pieces@) + seq![rest]);
    }
    pieces.push(piece);
    pieces
}

/// A copy of `s` without the occurrences of the byte `b`.
pub fn drop_byte(s: &[u8], b: u8) -> (out: Vec<u8>)
    ensures
        out@ == without(s@, b),
{
    let mut out: Vec<u8> = Vec::new();
    let mut k: usize = 0;
    let ghost keep = differs_from(b);
    assert(s@.take(0) =~= Seq::<u8>::empty());
    while k < s.len()
        invariant
            k <= s@.len(),
            keep == differs_from(b),
            out@ == s@.take(k as int).filter(keep),
        decreases s@.len() - k,
    {
        proof {
            assert(s@.take(k + 1) =~= s@.take(k as int).push(s@[k as int]));
            s@.take(k as int).lemma_filter_push(s@[k as int], keep);
        }
        if s[k] != b {
            out.push(s[k]);
        }
        k += 1;
    }
    assert(s@.take(s@.len() as int) =~= s@);
    out
}

/// What lossy UTF-8 decoding makes of a byte sequence that is not valid
/// UTF-8: the text with a replacement character for each invalid sequence.
pub uninterp spec fn utf8_lossy(bytes: Seq<u8>) -> Seq<char>;

/// The text of a byte sequence: valid UTF-8 is the text that it encodes;
/// anything else is decoded lossily.
pub open spec fn decoded(bytes: Seq<u8>) -> Seq<char> {
    if vstd::utf8::valid_utf8(bytes) {
        vstd::utf8::decode_utf8(bytes)
    } else {
        utf8_lossy(bytes)
    }
}

/// Decodes bytes into text with `String::from_utf8_lossy`: bytes that are
/// valid UTF-8 give the text that they encode; for any others the result,
/// with replacement characters for the invalid sequences, is a function of
/// the bytes alone.
#[verifier::external_body]
pub(crate) fn decode_lossy(bytes: &[u8]) -> (text: String)
    ensures
        text@ == decoded(bytes@),
        !vstd::utf8::valid_utf8(bytes@) ==> text@ == utf8_lossy(bytes@),
{
    String::from_utf8_lossy(bytes).into_owned()
}

/// Encoded text decodes to itself.
pub proof fn lemma_decoded_encoded(text: Seq<char>)
    ensures
        decoded(vstd::utf8::encode_utf8(text)) == text,
{
    vstd::utf8::encode_utf8_valid_utf8(text);
    vstd::utf8::encode_utf8_decode_utf8(text);
}

/// The byte `b` does not occur in `s`.
pub open spec fn free_of(s: Seq<u8>, b: u8) -> bool {
    forall|i: int| 0 <= i < s.len() ==> s[i] != b
}

/// The separator `sep` occurs nowhere in `s`.
pub open spec fn lacks(s: Seq<u8>, sep: Seq<u8>) -> bool {
    forall|i: int| !occurs_at(s, sep, i)
}

/// The pieces joined into one sequence, with `sep` between neighbours.
pub open spec fn join(pieces: Seq<Seq<u8>>, sep: Seq<u8>) -> Seq<u8>
    decreases pieces.len(),
{
    if pieces.len() == 0 {
        Seq::empty()
    } else if pieces.len() == 1 {
        pieces[0]
    } else {
        pieces[0] + sep + join(pieces.skip(1), sep)
    }
}

/// Dropping a byte that does not occur changes nothing.
pub proof fn lemma_without_absent(s: Seq<u8>, b: u8)
    requires
        free_of(s, b),
    ensures
        without(s, b) == s,
    decreases s.len(),
{
    reveal(Seq::filter);
    if s.len() > 0 {
        lemma_without_absent(s.drop_last(), b);
        assert(s.drop_last().push(s.last()) =~= s);
    }
}

/// Joining with a two-byte separator and dropping its second byte is joining
/// with the first byte alone, where the pieces are free of the dropped byte.
pub proof fn lemma_without_join(pieces: Seq<Seq<u8>>, keep: u8, b: u8)
    requires
        keep != b,
        forall|k: int| 0 <= k < pieces.len() ==> free_of(#[trigger] pieces[k], b),
    ensures
        without(join(pieces, seq![keep, b]), b) == join(pieces, seq![keep]),
    decreases pieces.len(),
{
    let pred = differs_from(b);
    if pieces.len() == 0 {
        reveal(Seq::filter);
    } else if pieces.len() == 1 {
        lemma_without_absent(pieces[0], b);
    } else {
        let rest = pieces.skip(1);
        assert forall|k: int| 0 <= k < rest.len() implies free_of(#[trigger] rest[k], b) by {
            assert(rest[k] == pieces[k + 1]);
        }
        lemma_without_join(rest, keep, b);
        lemma_without_absent(pieces[0], b);
        let sep = seq![keep, b];
        assert(sep.filter(pred) == seq![keep]) by {
            reveal(Seq::filter);
            let one = Seq::<u8>::empty().push(keep);
            Seq::<u8>::empty().lemma_filter_push(keep, pred);
            one.lemma_filter_push(b, pred);
            assert(one.push(b) =~= sep);
            assert(Seq::<u8>::empty().filter(pred) =~= Seq::<u8>::empty());
            assert(one =~= seq![keep]);
        }
        Seq::filter_distributes_over_add(pieces[0], sep, pred);
        Seq::filter_distributes_over_add(pieces[0] + sep, join(rest, sep), pred);
    }
}

/// Splitting what was joined with a one-byte separator gives the pieces
/// back, where none of them holds that byte.
pub proof fn lemma_split_join(pieces: Seq<Seq<u8>>, b: u8)
    requires
        pieces.len() >= 1,
        forall|k: int| 0 <= k < pieces.len() ==> free_of(#[trigger] pieces[k], b),
    ensures
        split(join(pieces, seq![b]), seq![b]) == pieces,
    decreases pieces.len(),
{
    let sep = seq![b];
    let first = pieces[0];
    if pieces.len() == 1 {
        assert forall|j: int| !occurs_at(first, sep, j) by {
            if occurs_at(first, sep, j) {
                assert(first.subrange(j, j + 1)[0] == b);
            }
        }
        lemma_split_none(first, sep);
        assert(seq![first] =~= pieces);
    } else {
        let rest = pieces.skip(1);
        assert forall|k: int| 0 <= k < rest.len() implies free_of(#[trigger] rest[k], b) by {
            assert(rest[k] == pieces[k + 1]);
        }
        lemma_split_join(rest, b);
        let s = join(pieces, sep);
        let at = first.len() as int;
        assert(s.subrange(at, at + 1) =~= sep);
        assert forall|j: int| 0 <= j < at implies !occurs_at(s, sep, j) by {
            if occurs_at(s, sep, j) {
                assert(s.subrange(j, j + 1)[0] == b);
            }
        }
        lemma_split_at(s, sep, at);
        assert(s.subrange(0, at) =~= first);
        assert(s.subrange(at + 1, s.len() as int) =~= join(rest, sep));
        assert(seq![first] + rest =~= pieces);
    }
}

/// Splitting `left`, the separator and `right` gives the two, where neither
/// holds the separator and `left` with the separator's first byte holds it
/// only at its end.
pub proof fn lemma_split_pair(left: Seq<u8>, right: Seq<u8>, c: u8, d: u8)
    requires
        c != d,
        lacks(left, seq![c, d]),
        lacks(right, seq![c, d]),
    ensures
        split(left + seq![c, d] + right, seq![c, d]) == seq![left, right],
{
    let sep = seq![c, d];
    let s = left + sep + right;
    let at = left.len() as int;
    assert(s.subrange(at, at + 2) =~= sep);
    assert forall|j: int| 0 <= j < at implies !occurs_at(s, sep, j) by {
        if occurs_at(s, sep, j) {
            if j + 2 <= at {
                assert(s.subrange(j, j + 2) =~= left.subrange(j, j + 2));
                assert(occurs_at(left, sep, j));
            } else {
                assert(s.subrange(j, j + 2)[1] == c);
            }
        }
    }
    lemma_split_at(s, sep, at);
    assert(s.subrange(0, at) =~= left);
    assert(s.subrange(at + 2, s.len() as int) =~= right);
    lemma_split_none(right, sep);
    assert(seq![left] + seq![right] =~= seq![left, right]);
}

} // verus!
