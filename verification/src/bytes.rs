use vstd::prelude::*;
use vstd::slice::*;
use vstd::string::*;
use vstd::utf8::*;

verus! {

/// The byte that pads a fixed-size read buffer beyond the bytes that were read.
pub const FILL: u8 = 0;

/// The bytes of a text made of ASCII characters only, one byte for each character.
pub open spec fn ascii(text: Seq<char>) -> Seq<u8> {
    Seq::new(text.len(), |i: int| text[i] as u8)
}

/// The bytes of an ASCII string literal.
pub(crate) fn literal(text: &str) -> (bytes: &[u8])
    requires
        is_ascii_chars(text@),
    ensures
        bytes@ == ascii(text@),
{
    let bytes = text.as_bytes();
    proof {
        is_ascii_spec_bytes(text);
        assert(is_ascii(text));
        assert(bytes@ =~= ascii(text@));
    }
    bytes
}

/// `bytes` without the run of fill bytes at its end.
pub open spec fn without_fill(bytes: Seq<u8>) -> Seq<u8>
    decreases bytes.len(),
{
    if bytes.len() > 0 && bytes.last() == FILL {
        without_fill(bytes.drop_last())
    } else {
        bytes
    }
}

/// What `without_fill` keeps is a prefix that does not end in a fill byte, and
/// everything it drops is fill.
pub proof fn lemma_without_fill(bytes: Seq<u8>)
    ensures
        without_fill(bytes).len() <= bytes.len(),
        without_fill(bytes) == bytes.subrange(0, without_fill(bytes).len() as int),
        without_fill(bytes).len() > 0 ==> without_fill(bytes).last() != FILL,
        forall|i: int| without_fill(bytes).len() <= i < bytes.len() ==> bytes[i] == FILL,
        without_fill(without_fill(bytes)) == without_fill(bytes),
    decreases bytes.len(),
{
    if bytes.len() > 0 && bytes.last() == FILL {
        let shorter = bytes.drop_last();
        lemma_without_fill(shorter);
        let kept = without_fill(shorter);
        assert(kept =~= bytes.subrange(0, kept.len() as int));
        assert forall|i: int| kept.len() <= i < bytes.len() implies bytes[i] == FILL by {
            if i < shorter.len() {
                assert(shorter[i] == bytes[i]);
            }
        }
    } else {
        assert(bytes =~= bytes.subrange(0, bytes.len() as int));
    }
}

/// The part of `bytes` before the fill bytes at its end.
pub fn trim_fill(bytes: &[u8]) -> (kept: &[u8])
    ensures
        kept@ == without_fill(bytes@),
{
    let mut n: usize = bytes.len();
    assert(bytes@.subrange(0, n as int) =~= bytes@);
    while n > 0 && bytes[n - 1] == FILL
        invariant
            n <= bytes@.len(),
            without_fill(bytes@) == without_fill(bytes@.subrange(0, n as int)),
        decreases n,
    {
        assert(bytes@.subrange(0, n as int).drop_last() =~= bytes@.subrange(0, n - 1));
        n = n - 1;
    }
    slice_subrange(bytes, 0, n)
}

/// Whether `pattern` stands in `bytes` at position `at`.
pub open spec fn matches_at(bytes: Seq<u8>, pattern: Seq<u8>, at: int) -> bool {
    &&& 0 <= at
    &&& at + pattern.len() <= bytes.len()
    &&& bytes.subrange(at, at + pattern.len()) == pattern
}

/// Whether `bytes` begins with `pattern`.
pub open spec fn begins_with(bytes: Seq<u8>, pattern: Seq<u8>) -> bool {
    matches_at(bytes, pattern, 0)
}

/// The first position at or after `from` where `pattern` stands in `bytes`.
pub open spec fn match_from(bytes: Seq<u8>, pattern: Seq<u8>, from: int) -> Option<int>
    decreases bytes.len() + 1 - from,
{
    if from < 0 || from + pattern.len() > bytes.len() {
        None
    } else if matches_at(bytes, pattern, from) {
        Some(from)
    } else {
        match_from(bytes, pattern, from + 1)
    }
}

/// The first position where `pattern` stands in `bytes`.
pub open spec fn first_match(bytes: Seq<u8>, pattern: Seq<u8>) -> Option<int> {
    match_from(bytes, pattern, 0)
}

/// `match_from` gives a position where the pattern stands, with none between
/// `from` and it; or none, and then the pattern stands nowhere from `from` on.
pub proof fn lemma_match_from(bytes: Seq<u8>, pattern: Seq<u8>, from: int)
    requires
        0 <= from,
    ensures
        match match_from(bytes, pattern, from) {
            Some(at) => {
                &&& from <= at
                &&& matches_at(bytes, pattern, at)
                &&& forall|j: int| from <= j < at ==> !matches_at(bytes, pattern, j)
            },
            None => forall|j: int| from <= j ==> !matches_at(bytes, pattern, j),
        },
    decreases bytes.len() + 1 - from,
{
    if from + pattern.len() > bytes.len() {
    } else if matches_at(bytes, pattern, from) {
    } else {
        lemma_match_from(bytes, pattern, from + 1);
    }
}

/// A position where the pattern stands, with none before it, is the first match.
pub proof fn lemma_first_match_is(bytes: Seq<u8>, pattern: Seq<u8>, at: int)
    requires
        matches_at(bytes, pattern, at),
        forall|j: int| 0 <= j < at ==> !matches_at(bytes, pattern, j),
    ensures
        first_match(bytes, pattern) == Some(at),
{
    lemma_match_from(bytes, pattern, 0);
}

/// Whether `pattern` stands in `bytes` at position `at`.
pub fn has_at(bytes: &[u8], pattern: &[u8], at: usize) -> (found: bool)
    ensures
        found == matches_at(bytes@, pattern@, at as int),
{
    if pattern.len() > bytes.len() || at > bytes.len() - pattern.len() {
        return false;
    }
    let mut k: usize = 0;
    while k < pattern.len()
        invariant
            k <= pattern@.len(),
            at + pattern@.len() <= bytes@.len() == bytes.len(),
            forall|j: int| 0 <= j < k ==> bytes@[at + j] == pattern@[j],
        decreases pattern@.len() - k,
    {
        if bytes[at + k] != pattern[k] {
            assert(bytes@.subrange(at as int, at + pattern@.len())[k as int] != pattern@[k as int]);
            return false;
        }
        k = k + 1;
    }
    assert(bytes@.subrange(at as int, at + pattern@.len()) =~= pattern@);
    true
}

/// The first position where `pattern` stands in `bytes`.
pub fn find(bytes: &[u8], pattern: &[u8]) -> (found: Option<usize>)
    ensures
        match found {
            Some(at) => first_match(bytes@, pattern@) == Some(at as int) && at + pattern@.len()
                <= bytes@.len(),
            None => first_match(bytes@, pattern@) is None,
        },
{
    if pattern.len() > bytes.len() {
        return None;
    }
    let last: usize = bytes.len() - pattern.len();
    let mut at: usize = 0;
    loop
        invariant
            last == bytes@.len() - pattern@.len(),
            at <= last,
            first_match(bytes@, pattern@) == match_from(bytes@, pattern@, at as int),
        decreases last - at,
    {
        if has_at(bytes, pattern, at) {
            return Some(at);
        }
        if at == last {
            assert(match_from(bytes@, pattern@, at + 1) is None);
            return None;
        }
        at = at + 1;
    }
}

/// The parts of `bytes` between the occurrences of `separator`, found from left
/// to right without overlap. With an empty separator `bytes` is the one part.
pub open spec fn pieces(bytes: Seq<u8>, separator: Seq<u8>) -> Seq<Seq<u8>>
    decreases bytes.len(),
{
    let found = first_match(bytes, separator);
    if separator.len() > 0 && found is Some && 0 <= found->0 && found->0 + separator.len()
        <= bytes.len() {
        seq![bytes.subrange(0, found->0)] + pieces(
            bytes.subrange(found->0 + separator.len(), bytes.len() as int),
            separator,
        )
    } else {
        seq![bytes]
    }
}

/// The contents of a list of byte strings.
pub open spec fn contents(list: Seq<Vec<u8>>) -> Seq<Seq<u8>> {
    Seq::new(list.len(), |i: int| list[i]@)
}

/// The parts of `bytes` between the occurrences of `separator`.
pub fn split(bytes: &[u8], separator: &[u8]) -> (parts: Vec<Vec<u8>>)
    ensures
        contents(parts@) == pieces(bytes@, separator@),
{
    let mut parts: Vec<Vec<u8>> = Vec::new();
    let mut start: usize = 0;
    assert(bytes@.subrange(0, bytes@.len() as int) =~= bytes@);
    assert(contents(parts@) + pieces(bytes@, separator@) =~= pieces(bytes@, separator@));
    if separator.len() == 0 {
        parts.push(slice_to_vec(bytes));
        assert(contents(parts@) =~= seq![bytes@]);
        return parts;
    }
    loop
        invariant
            separator@.len() > 0,
            start <= bytes@.len(),
            pieces(bytes@, separator@) == contents(parts@) + pieces(
                bytes@.subrange(start as int, bytes@.len() as int),
                separator@,
            ),
        decreases bytes@.len() - start,
    {
        let rest = slice_subrange(bytes, start, bytes.len());
        let ghost before = contents(parts@);
        proof {
            lemma_match_from(rest@, separator@, 0);
        }
        match find(rest, separator) {
            Some(at) => {
                parts.push(slice_to_vec(slice_subrange(rest, 0, at)));
                proof {
                    assert(contents(parts@) =~= before + seq![rest@.subrange(0, at as int)]);
                    assert(rest@.subrange(at + separator@.len(), rest@.len() as int)
                        =~= bytes@.subrange(
                        start + at + separator@.len(),
                        bytes@.len() as int,
                    ));
                }
                start = start + at + separator.len();
            },
            None => {
                parts.push(slice_to_vec(rest));
                proof {
                    assert(contents(parts@) =~= before + seq![rest@]);
                }
                return parts;
            },
        }
    }
}

/// The part of `bytes` before the first occurrence of `separator`: all of it
/// where there is none.
pub open spec fn before(bytes: Seq<u8>, separator: Seq<u8>) -> Seq<u8> {
    match first_match(bytes, separator) {
        Some(at) => bytes.subrange(0, at),
        None => bytes,
    }
}

/// Where the first byte of the separator does not occur, there is no match,
/// and what stands before the separator is the whole.
pub proof fn lemma_before_is_whole(bytes: Seq<u8>, separator: Seq<u8>)
    requires
        separator.len() > 0,
        !bytes.contains(separator[0]),
    ensures
        first_match(bytes, separator) is None,
        before(bytes, separator) == bytes,
{
    lemma_match_from(bytes, separator, 0);
    if let Some(at) = first_match(bytes, separator) {
        assert(bytes.subrange(at, at + separator.len())[0] == separator[0]);
        assert(bytes[at] == separator[0]);
    }
}

/// The part of `bytes` before the first occurrence of `separator`.
pub fn take_before(bytes: &[u8], separator: &[u8]) -> (part: Vec<u8>)
    ensures
        part@ == before(bytes@, separator@),
{
    proof {
        lemma_match_from(bytes@, separator@, 0);
    }
    match find(bytes, separator) {
        Some(at) => slice_to_vec(slice_subrange(bytes, 0, at)),
        None => slice_to_vec(bytes),
    }
}

/// Whether two byte strings are the same.
pub fn same(left: &[u8], right: &[u8]) -> (equal: bool)
    ensures
        equal == (left@ == right@),
{
    if left.len() != right.len() {
        return false;
    }
    let found = has_at(left, right, 0);
    proof {
        assert(left@.subrange(0, left@.len() as int) =~= left@);
    }
    found
}

/// An upper-case ASCII letter as its lower-case letter; any other byte as it is.
pub open spec fn lowered_byte(byte: u8) -> u8 {
    if 65 <= byte <= 90 {
        (byte + 32) as u8
    } else {
        byte
    }
}

/// `bytes` with each upper-case ASCII letter replaced by its lower-case letter.
pub open spec fn lowered(bytes: Seq<u8>) -> Seq<u8> {
    Seq::new(bytes.len(), |i: int| lowered_byte(bytes[i]))
}

/// `bytes` with each upper-case ASCII letter replaced by its lower-case letter.
pub fn to_lower(bytes: &[u8]) -> (lower: Vec<u8>)
    ensures
        lower@ == lowered(bytes@),
{
    let mut lower: Vec<u8> = Vec::new();
    let mut i: usize = 0;
    while i < bytes.len()
        invariant
            i <= bytes@.len(),
            lower@ == lowered(bytes@.subrange(0, i as int)),
        decreases bytes@.len() - i,
    {
        let byte: u8 = bytes[i];
        let low: u8 = if 65 <= byte && byte <= 90 {
            byte + 32
        } else {
            byte
        };
        lower.push(low);
        i = i + 1;
        assert(lower@ =~= lowered(bytes@.subrange(0, i as int)));
    }
    assert(bytes@.subrange(0, i as int) =~= bytes@);
    lower
}

/// Space, tab, line feed, form feed and carriage return.
pub open spec fn is_whitespace(byte: u8) -> bool {
    byte == 32 || byte == 9 || byte == 10 || byte == 12 || byte == 13
}

/// `bytes` with every whitespace byte taken out.
pub open spec fn without_whitespace(bytes: Seq<u8>) -> Seq<u8> {
    bytes.filter(|byte: u8| !is_whitespace(byte))
}

/// Bytes that hold no whitespace are left as they are.
pub proof fn lemma_without_whitespace_keeps(bytes: Seq<u8>)
    requires
        forall|i: int| 0 <= i < bytes.len() ==> !is_whitespace(#[trigger] bytes[i]),
    ensures
        without_whitespace(bytes) == bytes,
    decreases bytes.len(),
{
    reveal(Seq::filter);
    if bytes.len() > 0 {
        lemma_without_whitespace_keeps(bytes.drop_last());
        assert(bytes.drop_last().push(bytes.last()) =~= bytes);
    }
}

/// `bytes` with every whitespace byte taken out.
pub fn strip_whitespace(bytes: &[u8]) -> (kept: Vec<u8>)
    ensures
        kept@ == without_whitespace(bytes@),
{
    let mut kept: Vec<u8> = Vec::new();
    let mut i: usize = 0;
    proof {
        reveal(Seq::filter);
    }
    while i < bytes.len()
        invariant
            i <= bytes@.len(),
            kept@ == without_whitespace(bytes@.subrange(0, i as int)),
        decreases bytes@.len() - i,
    {
        let byte: u8 = bytes[i];
        proof {
            reveal(Seq::filter);
            assert(bytes@.subrange(0, i + 1).drop_last() =~= bytes@.subrange(0, i as int));
        }
        if !(byte == 32 || byte == 9 || byte == 10 || byte == 12 || byte == 13) {
            kept.push(byte);
        }
        i = i + 1;
    }
    assert(bytes@.subrange(0, i as int) =~= bytes@);
    kept
}

/// The decimal digits of `n` in ASCII, without leading zeros.
pub open spec fn decimal(n: nat) -> Seq<u8>
    decreases n,
{
    if n < 10 {
        seq![(48 + n) as u8]
    } else {
        decimal(n / 10).push((48 + n % 10) as u8)
    }
}

/// The decimal digits of `n` in ASCII, without leading zeros.
pub fn to_decimal(n: usize) -> (digits: Vec<u8>)
    ensures
        digits@ == decimal(n as nat),
    decreases n,
{
    if n < 10 {
        let mut digits: Vec<u8> = Vec::new();
        digits.push(48 + (n as u8));
        assert(digits@ =~= seq![(48 + n) as u8]);
        digits
    } else {
        let mut digits = to_decimal(n / 10);
        digits.push(48 + ((n % 10) as u8));
        digits
    }
}

/// `std::str::from_utf8` accepts a byte string exactly when it is well-formed
/// UTF-8; this says so over the definition of well-formed UTF-8 in `vstd::utf8`.
#[verifier::external_body]
pub(crate) fn is_utf8(bytes: &[u8]) -> (valid: bool)
    ensures
        valid == valid_utf8(bytes@),
{
    match std::str::from_utf8(bytes) {
        Ok(_) => true,
        Err(_) => false,
    }
}

/// Where the separator stands at `at` and its first byte occurs nowhere before
/// `at`, the first match is at `at`.
pub proof fn lemma_first_match_after(bytes: Seq<u8>, separator: Seq<u8>, at: int)
    requires
        separator.len() > 0,
        matches_at(bytes, separator, at),
        forall|j: int| 0 <= j < at ==> bytes[j] != separator[0],
    ensures
        first_match(bytes, separator) == Some(at),
{
    assert forall|j: int| 0 <= j < at implies !matches_at(bytes, separator, j) by {
        if matches_at(bytes, separator, j) {
            assert(bytes.subrange(j, j + separator.len())[0] == bytes[j]);
        }
    }
    lemma_first_match_is(bytes, separator, at);
}

/// Where the first byte of the separator does not occur, the whole is the one
/// part.
pub proof fn lemma_pieces_whole(bytes: Seq<u8>, separator: Seq<u8>)
    requires
        separator.len() > 0,
        !bytes.contains(separator[0]),
    ensures
        pieces(bytes, separator) == seq![bytes],
{
    lemma_before_is_whole(bytes, separator);
}

/// Fill bytes after a text that does not end in one are dropped, all of them
/// and nothing more.
pub proof fn lemma_without_fill_of_padded(text: Seq<u8>, fill: Seq<u8>)
    requires
        text.len() == 0 || text.last() != FILL,
        forall|i: int| 0 <= i < fill.len() ==> fill[i] == FILL,
    ensures
        without_fill(text + fill) == text,
    decreases fill.len(),
{
    if fill.len() == 0 {
        assert(text + fill =~= text);
    } else {
        let shorter = fill.drop_last();
        assert((text + fill).drop_last() =~= text + shorter);
        assert((text + fill).last() == fill.last());
        lemma_without_fill_of_padded(text, shorter);
    }
}

/// ASCII text is well-formed UTF-8.
pub proof fn lemma_ascii_is_utf8(text: Seq<char>)
    requires
        is_ascii_chars(text),
    ensures
        valid_utf8(ascii(text)),
{
    is_ascii_chars_encode_utf8(text);
    encode_utf8_valid_utf8(text);
    assert(ascii(text) =~= encode_utf8(text));
}

/// A run of fill bytes is well-formed UTF-8.
pub proof fn lemma_fill_is_utf8(fill: Seq<u8>)
    requires
        forall|i: int| 0 <= i < fill.len() ==> fill[i] == FILL,
    ensures
        valid_utf8(fill),
{
    let text = Seq::new(fill.len(), |i: int| '\0');
    lemma_ascii_is_utf8(text);
    assert(fill =~= ascii(text));
}

/// Whether the first byte of the separator occurs in it a second time.
pub open spec fn repeats_first_byte(separator: Seq<u8>) -> bool {
    separator.subrange(1, separator.len() as int).contains(separator[0])
}

/// The parts of two byte strings joined by the separator are the parts of the
/// one and then the parts of the other, for a separator whose first byte does
/// not occur in it a second time.
pub proof fn lemma_pieces_joined(left: Seq<u8>, right: Seq<u8>, separator: Seq<u8>)
    requires
        separator.len() > 0,
        !repeats_first_byte(separator),
    ensures
        pieces(left + separator + right, separator) == pieces(left, separator) + pieces(
            right,
            separator,
        ),
    decreases left.len(),
{
    let joined = left + separator + right;
    let width = separator.len() as int;
    lemma_match_from(left, separator, 0);
    match first_match(left, separator) {
        Some(at) => {
            assert(joined.subrange(at, at + width) =~= left.subrange(at, at + width));
            assert forall|j: int| 0 <= j < at implies !matches_at(joined, separator, j) by {
                assert(!matches_at(left, separator, j));
                assert(joined.subrange(j, j + width) =~= left.subrange(j, j + width));
            }
            lemma_first_match_is(joined, separator, at);
            let rest = left.subrange(at + width, left.len() as int);
            assert(joined.subrange(at + width, joined.len() as int) =~= rest + separator + right);
            assert(joined.subrange(0, at) =~= left.subrange(0, at));
            lemma_pieces_joined(rest, right, separator);
            assert(pieces(left, separator) == seq![left.subrange(0, at)] + pieces(rest, separator));
            assert(pieces(joined, separator) == seq![left.subrange(0, at)] + pieces(
                rest + separator + right,
                separator,
            ));
            assert(pieces(joined, separator) =~= pieces(left, separator) + pieces(
                right,
                separator,
            ));
        },
        None => {
            let at = left.len() as int;
            assert(joined.subrange(at, at + width) =~= separator);
            assert forall|j: int| 0 <= j < at implies !matches_at(joined, separator, j) by {
                if matches_at(joined, separator, j) {
                    if j + width <= at {
                        assert(joined.subrange(j, j + width) =~= left.subrange(j, j + width));
                        assert(matches_at(left, separator, j));
                    } else {
                        let i = at - j;
                        assert(joined.subrange(j, j + width)[i] == joined[at]);
                        assert(joined[at] == separator[0]);
                        assert(separator.subrange(1, width)[i - 1] == separator[0]);
                    }
                }
            }
            lemma_first_match_is(joined, separator, at);
            assert(joined.subrange(0, at) =~= left);
            assert(joined.subrange(at + width, joined.len() as int) =~= right);
        },
    }
}

} // verus!
