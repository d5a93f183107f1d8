//! Percent-encoding and Base64.
use vstd::prelude::*;

verus! {

/// The hexadecimal digit for `d`, which is below sixteen, in upper case.
pub open spec fn hex_digit(d: int) -> char {
    if d < 10 {
        (48 + d) as char
    } else {
        (55 + d) as char
    }
}

/// The value of a hexadecimal digit in either case.
pub open spec fn hex_value(c: char) -> Option<int> {
    if '0' <= c <= '9' {
        Some(c as int - 48)
    } else if 'A' <= c <= 'F' {
        Some(c as int - 55)
    } else if 'a' <= c <= 'f' {
        Some(c as int - 87)
    } else {
        None
    }
}

/// Whether a byte is a letter or a digit of ASCII.
pub open spec fn is_alphanumeric(b: u8) -> bool {
    ||| 48 <= b <= 57
    ||| 65 <= b <= 90
    ||| 97 <= b <= 122
}

/// One byte, percent-encoded unless it is a letter or a digit of ASCII.
pub open spec fn percent_encoded_byte(b: u8) -> Seq<char> {
    if is_alphanumeric(b) {
        seq![b as char]
    } else {
        seq!['%', hex_digit(b as int / 16), hex_digit(b as int % 16)]
    }
}

/// Bytes, percent-encoded one after the other.
pub open spec fn percent_encoded(bytes: Seq<u8>) -> Seq<char>
    decreases bytes.len(),
{
    if bytes.len() == 0 {
        seq![]
    } else {
        percent_encoded_byte(bytes.first()) + percent_encoded(bytes.drop_first())
    }
}

/// The bytes that a percent-encoded text of ASCII stands for: a percent sign and two hexadecimal
/// digits are one byte, and any other character is itself.
pub open spec fn percent_decoded(text: Seq<char>) -> Seq<u8>
    decreases text.len(),
{
    if text.len() == 0 {
        seq![]
    } else if text.len() >= 3 && text[0] == '%' && hex_value(text[1]) is Some && hex_value(
        text[2],
    ) is Some {
        seq![(16 * hex_value(text[1])->0 + hex_value(text[2])->0) as u8] + percent_decoded(
            text.skip(3),
        )
    } else {
        seq![text[0] as u8] + percent_decoded(text.drop_first())
    }
}

/// `percent_encoding::utf8_percent_encode` with `NON_ALPHANUMERIC`, written out: the bytes of the
/// text in UTF-8, of which the letters and digits of ASCII stand as they are and every other byte
/// is a percent sign and two hexadecimal digits in upper case.
#[verifier::external_body]
pub(crate) fn percent_encode(text: &str) -> (r: String)
    ensures
        r@ == percent_encoded(vstd::utf8::encode_utf8(text@)),
{
    percent_encoding::utf8_percent_encode(text, percent_encoding::NON_ALPHANUMERIC).to_string()
}

/// The character of the standard Base64 alphabet for a value below sixty-four.
pub open spec fn base64_char(v: int) -> char {
    if v < 26 {
        (65 + v) as char
    } else if v < 52 {
        (97 + (v - 26)) as char
    } else if v < 62 {
        (48 + (v - 52)) as char
    } else if v == 62 {
        '+'
    } else {
        '/'
    }
}

/// The value of a character of the standard Base64 alphabet.
pub open spec fn base64_value(c: char) -> int {
    if 'A' <= c <= 'Z' {
        c as int - 65
    } else if 'a' <= c <= 'z' {
        c as int - 97 + 26
    } else if '0' <= c <= '9' {
        c as int - 48 + 52
    } else if c == '+' {
        62
    } else {
        63
    }
}

/// Bytes in standard Base64: three bytes make four characters of six bits each, and what is left
/// at the end is filled up with `=`.
pub open spec fn base64_text(bytes: Seq<u8>) -> Seq<char>
    decreases bytes.len(),
{
    if bytes.len() == 0 {
        seq![]
    } else if bytes.len() == 1 {
        let a = bytes[0] as int;
        seq![base64_char(a / 4), base64_char(a % 4 * 16), '=', '=']
    } else if bytes.len() == 2 {
        let (a, b) = (bytes[0] as int, bytes[1] as int);
        seq![base64_char(a / 4), base64_char(a % 4 * 16 + b / 16), base64_char(b % 16 * 4), '=']
    } else {
        let (a, b, c) = (bytes[0] as int, bytes[1] as int, bytes[2] as int);
        seq![
            base64_char(a / 4),
            base64_char(a % 4 * 16 + b / 16),
            base64_char(b % 16 * 4 + c / 64),
            base64_char(c % 64),
        ] + base64_text(bytes.skip(3))
    }
}

/// The bytes that a text in standard Base64 stands for.
pub open spec fn base64_bytes(text: Seq<char>) -> Seq<u8>
    decreases text.len(),
{
    if text.len() < 4 {
        seq![]
    } else {
        let (a, b) = (base64_value(text[0]), base64_value(text[1]));
        let (c, d) = (base64_value(text[2]), base64_value(text[3]));
        if text[2] == '=' {
            seq![(a * 4 + b / 16) as u8]
        } else if text[3] == '=' {
            seq![(a * 4 + b / 16) as u8, (b % 16 * 16 + c / 4) as u8]
        } else {
            seq![
                (a * 4 + b / 16) as u8,
                (b % 16 * 16 + c / 4) as u8,
                (c % 4 * 64 + d) as u8,
            ] + base64_bytes(text.skip(4))
        }
    }
}

/// The characters that `len` bytes take up in Base64.
pub open spec fn base64_length(len: int) -> int {
    (len + 2) / 3 * 4
}

/// `Engine::encode` of the engine `base64::engine::general_purpose::STANDARD`: the bytes in
/// standard Base64, filled up with `=`. It panics when the text would be longer than a string can
/// be, which `requires` leaves out.
#[verifier::external_body]
pub(crate) fn base64_encode(bytes: &[u8]) -> (r: String)
    requires
        base64_length(bytes@.len() as int) <= isize::MAX,
    ensures
        r@ == base64_text(bytes@),
{
    base64::Engine::encode(&base64::engine::general_purpose::STANDARD, bytes)
}

/// Percent-encoding loses nothing: decoding gives the bytes back.
pub proof fn law_percent_decoding_gives_back(bytes: Seq<u8>)
    ensures
        percent_decoded(percent_encoded(bytes)) == bytes,
    decreases bytes.len(),
{
    if bytes.len() > 0 {
        let b = bytes.first();
        let rest = bytes.drop_first();
        let text = percent_encoded(bytes);
        law_percent_decoding_gives_back(rest);
        assert(bytes =~= seq![b] + rest);
        if is_alphanumeric(b) {
            assert(text.drop_first() =~= percent_encoded(rest));
        } else {
            assert(text.skip(3) =~= percent_encoded(rest));
        }
    }
}

/// A percent-encoded text holds nothing but letters and digits of ASCII and percent signs.
pub proof fn law_percent_encoding_is_plain(bytes: Seq<u8>)
    ensures
        forall|i: int|
            0 <= i < percent_encoded(bytes).len() ==> {
                let c = #[trigger] percent_encoded(bytes)[i];
                c == '%' || '0' <= c <= '9' || 'A' <= c <= 'Z' || 'a' <= c <= 'z'
            },
    decreases bytes.len(),
{
    if bytes.len() > 0 {
        let rest = bytes.drop_first();
        let head = percent_encoded_byte(bytes.first());
        law_percent_encoding_is_plain(rest);
        assert forall|i: int| 0 <= i < percent_encoded(bytes).len() implies {
            let c = #[trigger] percent_encoded(bytes)[i];
            c == '%' || '0' <= c <= '9' || 'A' <= c <= 'Z' || 'a' <= c <= 'z'
        } by {
            if i >= head.len() {
                assert(percent_encoded(bytes)[i] == percent_encoded(rest)[i - head.len()]);
            }
        }
    }
}

proof fn lemma_base64_char(v: int)
    requires
        0 <= v < 64,
    ensures
        base64_value(base64_char(v)) == v,
        base64_char(v) != '=',
{
}

/// Four values of six bits hold three bytes.
proof fn lemma_six_bits(a: int, b: int, c: int)
    requires
        0 <= a < 256,
        0 <= b < 256,
        0 <= c < 256,
    ensures
        0 <= a / 4 < 64,
        0 <= a % 4 * 16 + b / 16 < 64,
        0 <= b % 16 * 4 + c / 64 < 64,
        0 <= c % 64 < 64,
        a / 4 * 4 + (a % 4 * 16 + b / 16) / 16 == a,
        (a % 4 * 16 + b / 16) % 16 * 16 + (b % 16 * 4 + c / 64) / 4 == b,
        (b % 16 * 4 + c / 64) % 4 * 64 + c % 64 == c,
{
}

/// Base64 loses nothing: decoding gives the bytes back.
pub proof fn law_base64_decoding_gives_back(bytes: Seq<u8>)
    ensures
        base64_bytes(base64_text(bytes)) == bytes,
    decreases bytes.len(),
{
    if bytes.len() > 0 {
        let text = base64_text(bytes);
        let a = bytes[0] as int;
        let b = if bytes.len() > 1 {
            bytes[1] as int
        } else {
            0
        };
        let c = if bytes.len() > 2 {
            bytes[2] as int
        } else {
            0
        };
        lemma_six_bits(a, b, c);
        lemma_base64_char(a / 4);
        lemma_base64_char(a % 4 * 16 + b / 16);
        lemma_base64_char(b % 16 * 4 + c / 64);
        lemma_base64_char(c % 64);
        if bytes.len() == 1 {
            assert(base64_bytes(text) =~= bytes);
        } else if bytes.len() == 2 {
            assert(base64_bytes(text) =~= bytes);
        } else {
            law_base64_decoding_gives_back(bytes.skip(3));
            assert(text.skip(4) =~= base64_text(bytes.skip(3)));
            assert(base64_bytes(text) =~= bytes);
        }
    }
}

/// Three bytes take four characters, and a last one or two bytes take four as well.
pub proof fn law_base64_length(bytes: Seq<u8>)
    ensures
        base64_text(bytes).len() == base64_length(bytes.len() as int),
    decreases bytes.len(),
{
    if bytes.len() >= 3 {
        law_base64_length(bytes.skip(3));
    }
}

/// Percent-encoding goes byte by byte: what is joined first and encoded then is what is encoded
/// first and joined then.
pub proof fn law_percent_encoding_joins(a: Seq<u8>, b: Seq<u8>)
    ensures
        percent_encoded(a + b) == percent_encoded(a) + percent_encoded(b),
    decreases a.len(),
{
    if a.len() == 0 {
        assert(a + b =~= b);
    } else {
        law_percent_encoding_joins(a.drop_first(), b);
        assert((a + b).drop_first() =~= a.drop_first() + b);
        assert((a + b).first() == a.first());
        assert(percent_encoded(a + b) =~= percent_encoded(a) + percent_encoded(b));
    }
}

/// A letter or a digit of ASCII stands for itself; every other byte is a percent sign and its two
/// hexadecimal digits in upper case.
pub proof fn law_percent_encoding_of_a_byte(b: u8)
    ensures
        ({
            let s = percent_encoded(seq![b]);
            let c = b as char;
            if '0' <= c <= '9' || 'A' <= c <= 'Z' || 'a' <= c <= 'z' {
                s == seq![c]
            } else {
                s == seq!['%', "0123456789ABCDEF"@[b as int / 16], "0123456789ABCDEF"@[b as int % 16]]
            }
        }),
{
    reveal_strlit("0123456789ABCDEF");
    reveal_with_fuel(percent_encoded, 2);
    assert(seq![b].drop_first() =~= seq![]);
    assert(percent_encoded(seq![b]) =~= percent_encoded_byte(b));
    let (high, low) = (b as int / 16, b as int % 16);
    assert(hex_digit(high) == "0123456789ABCDEF"@[high]);
    assert(hex_digit(low) == "0123456789ABCDEF"@[low]);
}

proof fn lemma_alphabet(v: int)
    requires
        0 <= v < 64,
    ensures
        "ABCDEFGHIJKLMNOPQRSTUVWXYZabcdefghijklmnopqrstuvwxyz0123456789+/"@[v] == base64_char(v),
{
    reveal_strlit("ABCDEFGHIJKLMNOPQRSTUVWXYZabcdefghijklmnopqrstuvwxyz0123456789+/");
}

/// Base64 goes by three bytes at a time: what is joined first and encoded then is what is encoded
/// first and joined then, if the first part is a number of whole threes.
pub proof fn law_base64_joins(a: Seq<u8>, b: Seq<u8>)
    requires
        a.len() % 3 == 0,
    ensures
        base64_text(a + b) == base64_text(a) + base64_text(b),
    decreases a.len(),
{
    if a.len() == 0 {
        assert(a + b =~= b);
    } else {
        law_base64_joins(a.skip(3), b);
        assert((a + b).skip(3) =~= a.skip(3) + b);
        assert(base64_text(a + b) =~= base64_text(a) + base64_text(b));
    }
}

proof fn lemma_high_bits(a: int, b: int, c: int)
    requires
        0 <= a < 256,
        0 <= b < 256,
        0 <= c < 256,
    ensures
        (65536 * a + 256 * b + c) / 262144 == a / 4,
        (65536 * a + 256 * b + c) / 4096 == 16 * a + b / 16,
{
}

/// The six bits at each of the four places of a number of three bytes.
proof fn lemma_bits_of_three(a: int, b: int, c: int)
    requires
        0 <= a < 256,
        0 <= b < 256,
        0 <= c < 256,
    ensures
        ({
            let n = 65536 * a + 256 * b + c;
            &&& n / 262144 == a / 4
            &&& n / 4096 % 64 == a % 4 * 16 + b / 16
            &&& n / 64 % 64 == b % 16 * 4 + c / 64
            &&& n % 64 == c % 64
        }),
        0 <= a / 4 < 64,
        0 <= a % 4 * 16 + b / 16 < 64,
        0 <= b % 16 * 4 + c / 64 < 64,
        0 <= c % 64 < 64,
{
    lemma_six_bits(a, b, c);
    lemma_high_bits(a, b, c);
    let n = 65536 * a + 256 * b + c;
    assert((16 * a + b / 16) % 64 == a % 4 * 16 + b / 16);
    assert(n / 64 == 1024 * a + 4 * b + c / 64);
    assert((1024 * a + 4 * b + c / 64) % 64 == b % 16 * 4 + c / 64);
}

/// The characters of one block of Base64.
proof fn lemma_base64_block(bytes: Seq<u8>)
    requires
        1 <= bytes.len() <= 3,
    ensures
        ({
            let a = bytes[0] as int;
            let b = if bytes.len() > 1 {
                bytes[1] as int
            } else {
                0
            };
            let c = if bytes.len() > 2 {
                bytes[2] as int
            } else {
                0
            };
            let s = base64_text(bytes);
            &&& s.len() == 4
            &&& s[0] == base64_char(a / 4)
            &&& s[1] == base64_char(a % 4 * 16 + b / 16)
            &&& bytes.len() == 1 ==> s[2] == '='
            &&& bytes.len() > 1 ==> s[2] == base64_char(b % 16 * 4 + c / 64)
            &&& bytes.len() <= 2 ==> s[3] == '='
            &&& bytes.len() > 2 ==> s[3] == base64_char(c % 64)
        }),
{
    reveal_with_fuel(base64_text, 2);
    if bytes.len() == 3 {
        assert(bytes.skip(3).len() == 0);
    }
}

/// Three bytes are one number of twenty-four bits, and each of the four characters is six of its
/// bits by their place in the alphabet, the highest first. Where bytes are missing at the end they
/// count as zero, and each of them costs one character, in place of which there is a `=`.
pub proof fn law_base64_of_a_block(bytes: Seq<u8>)
    requires
        1 <= bytes.len() <= 3,
    ensures
        ({
            let alphabet = "ABCDEFGHIJKLMNOPQRSTUVWXYZabcdefghijklmnopqrstuvwxyz0123456789+/"@;
            let n = 65536 * bytes[0] + (if bytes.len() > 1 {
                256 * bytes[1]
            } else {
                0
            }) + (if bytes.len() > 2 {
                bytes[2] as int
            } else {
                0
            });
            let s = base64_text(bytes);
            &&& s.len() == 4
            &&& s[0] == alphabet[n / 262144]
            &&& s[1] == alphabet[n / 4096 % 64]
            &&& s[2] == if bytes.len() > 1 {
                alphabet[n / 64 % 64]
            } else {
                '='
            }
            &&& s[3] == if bytes.len() > 2 {
                alphabet[n % 64]
            } else {
                '='
            }
        }),
{
    let a = bytes[0] as int;
    let b = if bytes.len() > 1 {
        bytes[1] as int
    } else {
        0
    };
    let c = if bytes.len() > 2 {
        bytes[2] as int
    } else {
        0
    };
    lemma_bits_of_three(a, b, c);
    lemma_alphabet(a / 4);
    lemma_alphabet(a % 4 * 16 + b / 16);
    lemma_alphabet(b % 16 * 4 + c / 64);
    lemma_alphabet(c % 64);
    lemma_base64_block(bytes);
}

} // verus!
