use vstd::prelude::*;
use vstd::string::*;

verus! {

/// The bytes that pass through percent-encoding untouched: ASCII letters,
/// digits, and the four marks `-`, `.`, `_` and `~`.
pub open spec fn is_unreserved(b: u8) -> bool {
    (0x30 <= b && b <= 0x39) || (0x41 <= b && b <= 0x5a) || (0x61 <= b && b <= 0x7a)
        || b == 0x2d || b == 0x2e || b == 0x5f || b == 0x7e
}

/// The upper-case hexadecimal digit for a value below sixteen.
pub open spec fn hex_digit(n: u8) -> char {
    if n < 10 {
        (0x30 + n) as u8 as char
    } else {
        (0x37 + n) as u8 as char
    }
}

/// The three characters that stand for a byte when it is escaped: `%` and
/// two upper-case hexadecimal digits, high nibble first.
pub open spec fn escaped_byte(b: u8) -> Seq<char> {
    seq!['%', hex_digit(b / 16), hex_digit(b % 16)]
}

/// What one byte becomes: itself when unreserved, otherwise its escape.
pub open spec fn encoded_byte(b: u8) -> Seq<char> {
    if is_unreserved(b) {
        seq![b as char]
    } else {
        escaped_byte(b)
    }
}

/// The percent-encoding of a byte string, byte by byte.
pub open spec fn percent_encoded(bytes: Seq<u8>) -> Seq<char>
    decreases bytes.len(),
{
    if bytes.len() == 0 {
        Seq::empty()
    } else {
        percent_encoded(bytes.drop_last()) + encoded_byte(bytes.last())
    }
}

/// The percent-encoding of a text: that of its UTF-8 bytes.
pub open spec fn encoded_text(text: Seq<char>) -> Seq<char> {
    percent_encoded(vstd::utf8::encode_utf8(text))
}

/// `percent_encoding::percent_encode_byte` looks the byte up in a table of
/// 256 entries, each `%` followed by the byte's value as two upper-case
/// hexadecimal digits.
pub assume_specification[ percent_encoding::percent_encode_byte ](byte: u8) -> (r: &'static str)
    ensures
        r@ == escaped_byte(byte),
;

/// `String::push` appends one character to the end of the string.
pub assume_specification[ String::push ](s: &mut String, ch: char)
    ensures
        final(s)@ == old(s)@.push(ch),
;

/// Tells whether a byte is kept as it is by [`encode`].
pub fn keeps_byte(b: u8) -> (r: bool)
    ensures
        r == is_unreserved(b),
{
    (0x30 <= b && b <= 0x39) || (0x41 <= b && b <= 0x5a) || (0x61 <= b && b <= 0x7a)
        || b == 0x2d || b == 0x2e || b == 0x5f || b == 0x7e
}

/// Percent-encodes a text for use in a signature: every byte of its UTF-8
/// form that is not unreserved is escaped, space and `+` included.
pub fn encode(input: &str) -> (out: String)
    ensures
        out@ == encoded_text(input@),
{
    let bytes = input.as_bytes();
    let mut out = String::new();
    let mut i: usize = 0;
    while i < bytes.len()
        invariant
            i <= bytes@.len(),
            out@ == percent_encoded(bytes@.subrange(0, i as int)),
        decreases bytes@.len() - i,
    {
        let b = bytes[i];
        if keeps_byte(b) {
            out.push(b as char);
        } else {
            out.append(percent_encoding::percent_encode_byte(b));
        }
        proof {
            let next = bytes@.subrange(0, i + 1);
            assert(next.drop_last() == bytes@.subrange(0, i as int));
            assert(next.last() == b);
        }
        i += 1;
    }
    proof {
        assert(bytes@.subrange(0, i as int) == bytes@);
    }
    out
}

/// An ASCII letter or digit, or one of `-`, `.`, `_` and `~`.
pub open spec fn is_unreserved_char(c: char) -> bool {
    '\0' <= c && c <= '\u{7f}' && is_unreserved(#[verifier::truncate] (c as u8))
}

/// A character that an encoded text may hold: `%`, or an unreserved ASCII
/// character (the hexadecimal digits are among these).
pub open spec fn is_encoded_char(c: char) -> bool {
    c == '%' || is_unreserved_char(c)
}

/// Every character of an encoded byte string is `%` or unreserved, so none of
/// `&`, `=`, `?`, `/`, `:`, `+` or space ever appears in one.
pub proof fn lemma_encoded_alphabet(bytes: Seq<u8>)
    ensures
        forall|i: int|
            0 <= i < percent_encoded(bytes).len() ==> is_encoded_char(
                #[trigger] percent_encoded(bytes)[i],
            ),
        vstd::utf8::is_ascii_chars(percent_encoded(bytes)),
    decreases bytes.len(),
{
    if bytes.len() > 0 {
        lemma_encoded_alphabet(bytes.drop_last());
        let b = bytes.last();
        let head = percent_encoded(bytes.drop_last());
        let tail = encoded_byte(b);
        assert(forall|j: int| 0 <= j < tail.len() ==> is_encoded_char(#[trigger] tail[j]));
        assert forall|i: int| 0 <= i < percent_encoded(bytes).len() implies is_encoded_char(
            #[trigger] percent_encoded(bytes)[i],
        ) by {
            if i >= head.len() {
                assert(percent_encoded(bytes)[i] == tail[i - head.len()]);
            } else {
                assert(percent_encoded(bytes)[i] == head[i]);
            }
        }
    }
}

/// A byte string of unreserved bytes only is encoded as itself.
pub proof fn lemma_unreserved_bytes_unchanged(bytes: Seq<u8>)
    requires
        forall|i: int| 0 <= i < bytes.len() ==> is_unreserved(#[trigger] bytes[i]),
    ensures
        percent_encoded(bytes) == Seq::new(bytes.len(), |i: int| bytes[i] as char),
    decreases bytes.len(),
{
    if bytes.len() > 0 {
        let front = bytes.drop_last();
        lemma_unreserved_bytes_unchanged(front);
        assert(is_unreserved(bytes[bytes.len() - 1]));
        assert(percent_encoded(bytes) =~= Seq::new(bytes.len(), |i: int| bytes[i] as char));
    } else {
        assert(percent_encoded(bytes) =~= Seq::new(bytes.len(), |i: int| bytes[i] as char));
    }
}

/// A text made of ASCII letters, digits, `-`, `.`, `_` and `~` only is never
/// changed by the encoding.
pub proof fn lemma_unreserved_text_unchanged(text: Seq<char>)
    requires
        forall|i: int| 0 <= i < text.len() ==> is_unreserved_char(#[trigger] text[i]),
    ensures
        encoded_text(text) == text,
{
    assert(vstd::utf8::is_ascii_chars(text));
    vstd::utf8::is_ascii_chars_encode_utf8(text);
    let bytes = vstd::utf8::encode_utf8(text);
    assert forall|i: int| 0 <= i < bytes.len() implies is_unreserved(#[trigger] bytes[i]) by {
        assert(bytes[i] == text[i] as u8);
    }
    lemma_unreserved_bytes_unchanged(bytes);
    assert forall|i: int| 0 <= i < text.len() implies (bytes[i] as char) == text[i] by {
        assert(bytes[i] == text[i] as u8);
        assert(is_unreserved_char(text[i]));
    }
    assert(encoded_text(text) =~= text);
}

/// A space is encoded as `%20`, never as `+`.
pub proof fn lemma_space_encoding()
    ensures
        encoded_text(seq![' ']) == seq!['%', '2', '0'],
{
    let text = seq![' '];
    assert(vstd::utf8::is_ascii_chars(text));
    vstd::utf8::is_ascii_chars_encode_utf8(text);
    let bytes = vstd::utf8::encode_utf8(text);
    assert(bytes.len() == 1);
    assert(bytes[0] == text[0] as u8);
    assert(bytes[0] == 0x20u8);
    assert(bytes.drop_last().len() == 0);
    assert(percent_encoded(bytes.drop_last()) == Seq::<char>::empty());
    assert(percent_encoded(bytes) =~= encoded_byte(0x20u8));
    assert(encoded_byte(0x20u8) =~= seq!['%', '2', '0']);
}

/// None of the reserved characters `&`, `=`, `?`, `/`, `:`, nor `+` or space,
/// occurs anywhere in an encoded text.
pub proof fn lemma_reserved_always_encoded(text: Seq<char>, i: int)
    requires
        0 <= i < encoded_text(text).len(),
    ensures
        encoded_text(text)[i] != '&',
        encoded_text(text)[i] != '=',
        encoded_text(text)[i] != '?',
        encoded_text(text)[i] != '/',
        encoded_text(text)[i] != ':',
        encoded_text(text)[i] != '+',
        encoded_text(text)[i] != ' ',
{
    lemma_encoded_alphabet(vstd::utf8::encode_utf8(text));
    assert(is_encoded_char(encoded_text(text)[i]));
}

} // verus!
