//! Newline-delimited text in the bytes of a connection.

use vstd::prelude::*;
use vstd::utf8::{
    decode_utf8, encode_scalar, encode_utf8, encode_utf8_decode_utf8, encode_utf8_valid_utf8,
    valid_utf8,
};

verus! {

/// How many bytes stand before the first newline; all of them where there is
/// no newline.
pub open spec fn line_end(bytes: Seq<u8>) -> int
    decreases bytes.len(),
{
    if bytes.len() == 0 || bytes[0] == 10 {
        0
    } else {
        1 + line_end(bytes.skip(1))
    }
}

/// Whether the bytes hold a complete line.
pub open spec fn has_line(bytes: Seq<u8>) -> bool {
    line_end(bytes) < bytes.len()
}

/// A line without the carriage return at its end.
pub open spec fn without_return(line: Seq<u8>) -> Seq<u8> {
    if line.len() > 0 && line.last() == 13 {
        line.drop_last()
    } else {
        line
    }
}

/// The first line, without its line ending.
pub open spec fn first_line(bytes: Seq<u8>) -> Seq<u8> {
    without_return(bytes.take(line_end(bytes)))
}

/// What stands behind the first line.
pub open spec fn behind_line(bytes: Seq<u8>) -> Seq<u8> {
    bytes.skip(line_end(bytes) + 1)
}

/// The first newline is the first: it is one, and none stands before it.
pub proof fn lemma_line_end(bytes: Seq<u8>)
    ensures
        0 <= line_end(bytes) <= bytes.len(),
        forall|i: int| 0 <= i < line_end(bytes) ==> #[trigger] bytes[i] != 10,
        has_line(bytes) ==> bytes[line_end(bytes)] == 10,
    decreases bytes.len(),
{
    if bytes.len() > 0 && bytes[0] != 10 {
        let rest = bytes.skip(1);
        lemma_line_end(rest);
        assert forall|i: int| 0 <= i < line_end(bytes) implies #[trigger] bytes[i] != 10 by {
            if i > 0 {
                assert(rest[i - 1] == bytes[i]);
            }
        }
    }
}

/// Where the first newline stands, from what is known of it.
proof fn lemma_line_end_is(bytes: Seq<u8>, end: int)
    requires
        0 <= end <= bytes.len(),
        forall|i: int| 0 <= i < end ==> #[trigger] bytes[i] != 10,
        end < bytes.len() ==> bytes[end] == 10,
    ensures
        line_end(bytes) == end,
{
    lemma_line_end(bytes);
    if line_end(bytes) < end {
        assert(bytes[line_end(bytes)] != 10);
    } else if line_end(bytes) > end {
        assert(bytes[end] != 10);
    }
}

/// The text that bytes encode. `None` where they are no UTF-8.
pub open spec fn decoded(bytes: Seq<u8>) -> Option<Seq<char>> {
    if valid_utf8(bytes) {
        Some(decode_utf8(bytes))
    } else {
        None
    }
}

/// The text that bytes encode, or the reason where they are no UTF-8.
pub open spec fn decoded_or(bytes: Seq<u8>, reason: Seq<char>) -> Result<Seq<char>, Seq<char>> {
    match decoded(bytes) {
        Some(text) => Ok(text),
        None => Err(reason),
    }
}

/// What `String::from_utf8` says, in words, of bytes that are no UTF-8.
pub uninterp spec fn utf8_error(bytes: Seq<u8>) -> Seq<char>;

/// What a decoded text or a reason says.
pub open spec fn decoded_view(text: Result<String, String>) -> Result<Seq<char>, Seq<char>> {
    match text {
        Ok(text) => Ok(text@),
        Err(reason) => Err(reason@),
    }
}

/// `String::from_utf8`: the text that the bytes encode, or the error in words
/// where they are no UTF-8.
#[verifier::external_body]
fn decode(bytes: Vec<u8>) -> (text: Result<String, String>)
    ensures
        decoded_view(text) == decoded_or(bytes@, utf8_error(bytes@)),
{
    String::from_utf8(bytes).map_err(|error| error.to_string())
}

/// Splits the bytes of a connection into lines. Bytes that do not end a line
/// yet are kept until the rest of the line arrives.
pub struct LineReader {
    buffer: Vec<u8>,
}

impl View for LineReader {
    type V = Seq<u8>;

    closed spec fn view(&self) -> Seq<u8> {
        self.buffer@
    }
}

impl LineReader {
    pub fn new() -> (reader: LineReader)
        ensures
            reader@ == Seq::<u8>::empty(),
    {
        LineReader { buffer: Vec::new() }
    }

    /// Takes in bytes that arrived.
    pub fn receive(&mut self, chunk: &[u8])
        ensures
            final(self)@ == old(self)@ + chunk@,
    {
        self.buffer.extend_from_slice(chunk);
        assert(self.buffer@ =~= old(self).buffer@ + chunk@);
    }

    /// The next complete line, without its line ending, or the wording of the
    /// error where it is no UTF-8. `None` where the rest of the line has not
    /// arrived: at the end of the connection that part of a line is dropped.
    pub fn next_line(&mut self) -> (line: Option<Result<String, String>>)
        ensures
            line is Some <==> has_line(old(self)@),
            line is None ==> final(self)@ == old(self)@,
            line matches Some(read) ==> {
                let text = first_line(old(self)@);
                &&& final(self)@ == behind_line(old(self)@)
                &&& decoded_view(read) == decoded_or(text, utf8_error(text))
            },
    {
        let ghost bytes = self@;
        let mut end: usize = 0;
        while end < self.buffer.len() && self.buffer[end] != 10
            invariant
                end <= self.buffer.len(),
                self.buffer@ == bytes,
                forall|i: int| 0 <= i < end ==> #[trigger] bytes[i] != 10,
            decreases self.buffer.len() - end,
        {
            end += 1;
        }
        proof {
            lemma_line_end_is(bytes, end as int);
        }
        if end == self.buffer.len() {
            return None;
        }
        let mut line = self.buffer.split_off(end + 1);
        std::mem::swap(&mut self.buffer, &mut line);
        assert(self.buffer@ =~= behind_line(bytes));
        line.pop();
        assert(line@ =~= bytes.take(end as int));
        if line.len() > 0 && line[line.len() - 1] == 13 {
            line.pop();
            assert(line@ =~= bytes.take(end as int).drop_last());
        }
        assert(line@ == first_line(bytes));
        Some(decode(line))
    }
}

/// The first line that means something, and the bytes behind it. Without such
/// a line, the bytes of the line that is not complete yet.
pub open spec fn scanned<T>(bytes: Seq<u8>, meaning: spec_fn(Seq<u8>) -> Option<T>) -> (
    Option<T>,
    Seq<u8>,
)
    decreases bytes.len(),
{
    if !has_line(bytes) {
        (None, bytes)
    } else {
        proof {
            lemma_line_end(bytes);
        }
        match meaning(first_line(bytes)) {
            Some(found) => (Some(found), behind_line(bytes)),
            None => scanned(behind_line(bytes), meaning),
        }
    }
}

// --- Laws ---

/// All complete lines, without their line endings.
pub open spec fn lines(bytes: Seq<u8>) -> Seq<Seq<u8>>
    decreases bytes.len(),
{
    if !has_line(bytes) {
        seq![]
    } else {
        proof {
            lemma_line_end(bytes);
        }
        seq![first_line(bytes)] + lines(behind_line(bytes))
    }
}

/// The bytes behind the last complete line.
pub open spec fn left_over(bytes: Seq<u8>) -> Seq<u8>
    decreases bytes.len(),
{
    if !has_line(bytes) {
        bytes
    } else {
        proof {
            lemma_line_end(bytes);
        }
        left_over(behind_line(bytes))
    }
}

/// How the first line goes on where more bytes follow: not at all.
proof fn lemma_first_line_stays(a: Seq<u8>, b: Seq<u8>)
    requires
        has_line(a),
    ensures
        has_line(a + b),
        line_end(a + b) == line_end(a),
        first_line(a + b) == first_line(a),
        behind_line(a + b) == behind_line(a) + b,
{
    lemma_line_end(a);
    let end = line_end(a);
    assert forall|i: int| 0 <= i < end implies #[trigger] (a + b)[i] != 10 by {
        assert(a[i] != 10);
    }
    lemma_line_end_is(a + b, end);
    assert((a + b).take(end) =~= a.take(end));
    assert((a + b).skip(end + 1) =~= a.skip(end + 1) + b);
}

/// It does not matter how the bytes of a connection are cut into chunks: the
/// lines of two chunks are the lines of the first, and then those of the bytes
/// that the first left over with the second behind them.
pub proof fn lemma_chunks(a: Seq<u8>, b: Seq<u8>)
    ensures
        lines(a + b) == lines(a) + lines(left_over(a) + b),
        left_over(a + b) == left_over(left_over(a) + b),
    decreases a.len(),
{
    if has_line(a) {
        lemma_line_end(a);
        lemma_first_line_stays(a, b);
        lemma_chunks(behind_line(a), b);
        assert(lines(a + b) =~= lines(a) + lines(left_over(a) + b));
    } else {
        assert(lines(a) + lines(a + b) =~= lines(a + b));
    }
}

proof fn lemma_encode_concat(a: Seq<char>, b: Seq<char>)
    ensures
        encode_utf8(a + b) == encode_utf8(a) + encode_utf8(b),
    decreases a.len(),
{
    if a.len() == 0 {
        assert(a + b =~= b);
        assert(encode_utf8(a) + encode_utf8(b) =~= encode_utf8(b));
    } else {
        lemma_encode_concat(a.drop_first(), b);
        assert((a + b).drop_first() =~= a.drop_first() + b);
        assert(encode_utf8(a + b) =~= encode_utf8(a) + encode_utf8(b));
    }
}

/// A newline or a carriage return in a character's encoding is that character.
proof fn lemma_small_byte(c: char, i: int)
    requires
        0 <= i < encode_scalar(c as u32).len(),
        encode_scalar(c as u32)[i] < 0x80,
    ensures
        encode_scalar(c as u32)[i] == 10 ==> c == '\n',
        encode_scalar(c as u32)[i] == 13 ==> c == '\r',
{
    let s = c as u32;
    assert(s <= 0x7f ==> (s & 0x7f) as u8 == s) by (bit_vector);
    assert(0xC0u8 | ((s >> 6) & 0x1F) as u8 >= 0x80) by (bit_vector);
    assert(0xE0u8 | ((s >> 12) & 0x0F) as u8 >= 0x80) by (bit_vector);
    assert(0xF0u8 | ((s >> 18) & 0x7) as u8 >= 0x80) by (bit_vector);
    assert(0x80u8 | (s & 0x3F) as u8 >= 0x80) by (bit_vector);
    assert(0x80u8 | ((s >> 6) & 0x3F) as u8 >= 0x80) by (bit_vector);
    assert(0x80u8 | ((s >> 12) & 0x3F) as u8 >= 0x80) by (bit_vector);
}

/// The encoding of a text without newlines has no newline.
proof fn lemma_no_newline_encoded(text: Seq<char>)
    requires
        !text.contains('\n'),
    ensures
        forall|i: int| 0 <= i < encode_utf8(text).len() ==> #[trigger] encode_utf8(text)[i] != 10,
    decreases text.len(),
{
    if text.len() > 0 {
        let first = encode_scalar(text[0] as u32);
        let rest = text.drop_first();
        assert forall|i: int| 0 <= i < rest.len() implies #[trigger] rest[i] != '\n' by {
            assert(rest[i] == text[i + 1]);
        }
        lemma_no_newline_encoded(rest);
        assert forall|i: int| 0 <= i < encode_utf8(text).len() implies #[trigger] encode_utf8(
            text,
        )[i] != 10 by {
            if i < first.len() {
                assert(encode_utf8(text)[i] == first[i]);
                if first[i] == 10 {
                    lemma_small_byte(text[0], i);
                    assert(text.contains(text[0]));
                }
            } else {
                assert(encode_utf8(text)[i] == encode_utf8(rest)[i - first.len()]);
            }
        }
    }
}

/// The encoding of a text ends in a carriage return only where the text does.
proof fn lemma_return_encoded(text: Seq<char>)
    requires
        text.len() > 0 ==> text.last() != '\r',
    ensures
        encode_utf8(text).len() > 0 ==> encode_utf8(text).last() != 13,
{
    if text.len() > 0 {
        let last = text.last();
        let one = seq![last];
        assert(text =~= text.drop_last() + one);
        lemma_encode_concat(text.drop_last(), one);
        assert(encode_utf8(one.drop_first()) =~= Seq::<u8>::empty());
        let e = encode_scalar(last as u32);
        assert(encode_utf8(one) =~= e);
        assert(encode_utf8(text).last() == e[e.len() - 1]);
        if e[e.len() - 1] == 13 {
            lemma_small_byte(last, e.len() - 1);
        }
    }
}

/// A text that was written as a line is read back as it was.
pub proof fn lemma_written_line(text: Seq<char>, behind: Seq<u8>)
    requires
        !text.contains('\n'),
        text.len() > 0 ==> text.last() != '\r',
    ensures
        has_line(encode_utf8(text.push('\n')) + behind),
        decoded(first_line(encode_utf8(text.push('\n')) + behind)) == Some(text),
        behind_line(encode_utf8(text.push('\n')) + behind) == behind,
{
    let encoded = encode_utf8(text);
    let bytes = encode_utf8(text.push('\n')) + behind;
    let newline = seq!['\n'];
    assert(text.push('\n') =~= text + newline);
    lemma_encode_concat(text, newline);
    assert(encode_utf8(newline.drop_first()) =~= Seq::<u8>::empty());
    assert(encode_scalar('\n' as u32) =~= seq![10u8]) by {
        assert((10u32 & 0x7f) as u8 == 10) by (bit_vector);
    }
    assert(encode_utf8(newline) =~= seq![10u8]);
    let end = encoded.len() as int;
    assert(bytes =~= encoded + seq![10u8] + behind);
    lemma_no_newline_encoded(text);
    assert forall|i: int| 0 <= i < end implies #[trigger] bytes[i] != 10 by {
        assert(bytes[i] == encoded[i]);
    }
    lemma_line_end_is(bytes, end);
    assert(bytes.take(end) =~= encoded);
    lemma_return_encoded(text);
    assert(bytes.skip(end + 1) =~= behind);
    encode_utf8_valid_utf8(text);
    encode_utf8_decode_utf8(text);
}

/// Reading stops with nothing found only where no line means anything, and
/// then leaves the line that is not complete yet.
pub proof fn lemma_scanned<T>(bytes: Seq<u8>, meaning: spec_fn(Seq<u8>) -> Option<T>)
    ensures
        scanned(bytes, meaning).1.len() <= bytes.len(),
        scanned(bytes, meaning).0 is Some ==> scanned(bytes, meaning).1.len() < bytes.len(),
        scanned(bytes, meaning).0 is None ==> scanned(bytes, meaning).1 == left_over(bytes),
    decreases bytes.len(),
{
    if has_line(bytes) {
        lemma_line_end(bytes);
        if meaning(first_line(bytes)) is None {
            lemma_scanned(behind_line(bytes), meaning);
        }
    }
}

/// What a reader takes in does not touch the line that is not complete yet.
pub proof fn lemma_scanned_left_over<T>(bytes: Seq<u8>, meaning: spec_fn(Seq<u8>) -> Option<T>)
    ensures
        left_over(scanned(bytes, meaning).1) == left_over(bytes),
    decreases bytes.len(),
{
    if has_line(bytes) {
        lemma_line_end(bytes);
        if meaning(first_line(bytes)) is None {
            lemma_scanned_left_over(behind_line(bytes), meaning);
        }
    }
}

/// The bytes behind the last complete line hold no complete line.
pub proof fn lemma_left_over_has_no_line(bytes: Seq<u8>)
    ensures
        !has_line(left_over(bytes)),
    decreases bytes.len(),
{
    if has_line(bytes) {
        lemma_line_end(bytes);
        lemma_left_over_has_no_line(behind_line(bytes));
    }
}

/// All that a reader finds, one after the other.
pub open spec fn found<T>(bytes: Seq<u8>, meaning: spec_fn(Seq<u8>) -> Option<T>) -> Seq<T>
    decreases bytes.len(),
{
    proof {
        lemma_scanned(bytes, meaning);
    }
    match scanned(bytes, meaning) {
        (Some(first), rest) => seq![first] + found(rest, meaning),
        (None, _) => seq![],
    }
}

/// What the lines mean, without the lines that mean nothing.
pub open spec fn meant<T>(lines: Seq<Seq<u8>>, meaning: spec_fn(Seq<u8>) -> Option<T>) -> Seq<T>
    decreases lines.len(),
{
    if lines.len() == 0 {
        seq![]
    } else {
        match meaning(lines[0]) {
            Some(first) => seq![first] + meant(lines.skip(1), meaning),
            None => meant(lines.skip(1), meaning),
        }
    }
}

/// A reader finds what the lines mean, each once and in their order.
pub proof fn lemma_found<T>(bytes: Seq<u8>, meaning: spec_fn(Seq<u8>) -> Option<T>)
    ensures
        found(bytes, meaning) == meant(lines(bytes), meaning),
    decreases bytes.len(),
{
    if has_line(bytes) {
        lemma_line_end(bytes);
        lemma_scanned(bytes, meaning);
        lemma_found(behind_line(bytes), meaning);
        assert(lines(bytes).skip(1) =~= lines(behind_line(bytes)));
        if meaning(first_line(bytes)) is None {
            assert(scanned(bytes, meaning) == scanned(behind_line(bytes), meaning));
            lemma_scanned(behind_line(bytes), meaning);
            assert(found(bytes, meaning) == found(behind_line(bytes), meaning));
        }
    }
}

proof fn lemma_meant_concat<T>(
    a: Seq<Seq<u8>>,
    b: Seq<Seq<u8>>,
    meaning: spec_fn(Seq<u8>) -> Option<T>,
)
    ensures
        meant(a + b, meaning) == meant(a, meaning) + meant(b, meaning),
    decreases a.len(),
{
    if a.len() == 0 {
        assert(a + b =~= b);
        assert(meant(a, meaning) + meant(b, meaning) =~= meant(b, meaning));
    } else {
        lemma_meant_concat(a.skip(1), b, meaning);
        assert((a + b).skip(1) =~= a.skip(1) + b);
        assert(meant(a + b, meaning) =~= meant(a, meaning) + meant(b, meaning));
    }
}

/// It does not matter to a reader how the bytes are cut into chunks either.
pub proof fn lemma_found_in_chunks<T>(
    a: Seq<u8>,
    b: Seq<u8>,
    meaning: spec_fn(Seq<u8>) -> Option<T>,
)
    ensures
        found(a + b, meaning) == found(a, meaning) + found(left_over(a) + b, meaning),
{
    lemma_chunks(a, b);
    lemma_found(a + b, meaning);
    lemma_found(a, meaning);
    lemma_found(left_over(a) + b, meaning);
    lemma_meant_concat(lines(a), lines(left_over(a) + b), meaning);
}

/// Bytes without a newline are no complete line. Bytes up to the first newline
/// are one, without the carriage return right before the newline where there is
/// one and with everything else as it is; what stands behind the newline is read
/// as if it came alone.
pub proof fn lemma_split(a: Seq<u8>, b: Seq<u8>)
    requires
        forall|i: int| 0 <= i < a.len() ==> #[trigger] a[i] != 10,
    ensures
        lines(a).len() == 0,
        left_over(a) == a,
        ({
            let bytes = a + seq![10u8] + b;
            let line = if a.len() > 0 && a[a.len() - 1] == 13 {
                a.take(a.len() - 1)
            } else {
                a
            };
            &&& has_line(bytes)
            &&& first_line(bytes) == line
            &&& behind_line(bytes) == b
            &&& lines(bytes) == seq![line] + lines(b)
            &&& left_over(bytes) == left_over(b)
        }),
{
    let bytes = a + seq![10u8] + b;
    lemma_line_end_is(bytes, a.len() as int);
    lemma_line_end(a);
    lemma_line_end(bytes);
    assert(bytes.take(a.len() as int) =~= a);
    assert(bytes.skip((a.len() + 1) as int) =~= b);
}

/// What a reader finds is what the first line means that means something, and
/// it goes on right behind that line.
pub proof fn lemma_first_found<T>(
    bytes: Seq<u8>,
    meaning: spec_fn(Seq<u8>) -> Option<T>,
    at: int,
)
    requires
        0 <= at < lines(bytes).len(),
        meaning(lines(bytes)[at]) is Some,
        forall|k: int| 0 <= k < at ==> meaning(#[trigger] lines(bytes)[k]) is None,
    ensures
        scanned(bytes, meaning).0 == meaning(lines(bytes)[at]),
        lines(scanned(bytes, meaning).1) == lines(bytes).skip(at + 1),
        left_over(scanned(bytes, meaning).1) == left_over(bytes),
    decreases bytes.len(),
{
    lemma_line_end(bytes);
    let rest = behind_line(bytes);
    assert(lines(bytes).skip(1) =~= lines(rest));
    assert(lines(bytes)[0] == first_line(bytes));
    lemma_scanned_left_over(bytes, meaning);
    if at > 0 {
        assert(meaning(lines(bytes)[0]) is None);
        assert(lines(rest)[at - 1] == lines(bytes)[at]);
        assert forall|k: int| 0 <= k < at - 1 implies meaning(#[trigger] lines(rest)[k]) is None by {
            assert(lines(bytes)[k + 1] == lines(rest)[k]);
        }
        lemma_first_found(rest, meaning, at - 1);
        assert(lines(rest).skip(at) =~= lines(bytes).skip(at + 1));
    }
}

/// A reader finds nothing where no line means anything, and then keeps the bytes
/// of the line that is not complete yet.
pub proof fn lemma_nothing_found<T>(bytes: Seq<u8>, meaning: spec_fn(Seq<u8>) -> Option<T>)
    requires
        forall|k: int| 0 <= k < lines(bytes).len() ==> meaning(#[trigger] lines(bytes)[k]) is None,
    ensures
        scanned(bytes, meaning) == (None::<T>, left_over(bytes)),
    decreases bytes.len(),
{
    if has_line(bytes) {
        lemma_line_end(bytes);
        let rest = behind_line(bytes);
        assert(lines(bytes)[0] == first_line(bytes));
        assert(meaning(lines(bytes)[0]) is None);
        assert forall|k: int| 0 <= k < lines(rest).len() implies meaning(
            #[trigger] lines(rest)[k],
        ) is None by {
            assert(lines(bytes)[k + 1] == lines(rest)[k]);
        }
        lemma_nothing_found(rest, meaning);
    }
}

} // verus!
