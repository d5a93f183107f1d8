//! Decimal numerals, white space and comparison of text.
use vstd::prelude::*;

verus! {

/// `String::push` appends one character at the end.
pub assume_specification[ String::push ](s: &mut String, c: char)
    ensures
        final(s)@ == old(s)@.push(c),
;

/// The decimal digit for `d`, which is below ten.
pub open spec fn digit(d: nat) -> char {
    (48 + d) as char
}

/// `n` in decimal, without leading zeros.
pub open spec fn decimal(n: nat) -> Seq<char>
    decreases n,
{
    if n < 10 {
        seq![digit(n)]
    } else {
        decimal(n / 10).push(digit(n % 10))
    }
}

/// `n` in decimal, with zeros in front up to `width` characters; never cut off.
pub open spec fn zero_padded(n: nat, width: nat) -> Seq<char> {
    let digits = decimal(n);
    if digits.len() < width {
        Seq::new((width - digits.len()) as nat, |i: int| '0') + digits
    } else {
        digits
    }
}

fn push_decimal(out: &mut String, n: u64)
    ensures
        final(out)@ == old(out)@ + decimal(n as nat),
    decreases n,
{
    if n >= 10 {
        push_decimal(out, n / 10);
    }
    out.push((48u8 + (n % 10) as u8) as char);
}

fn decimal_length(n: u64) -> (len: usize)
    ensures
        len == decimal(n as nat).len(),
        1 <= len <= 20,
{
    let mut rest: u64 = n;
    let mut len: usize = 1;
    proof {
        lemma_decimal_length(n as nat);
    }
    while rest >= 10
        invariant
            decimal(n as nat).len() == len - 1 + decimal(rest as nat).len(),
            decimal(n as nat).len() <= 20,
            1 <= len,
        decreases rest,
    {
        proof {
            lemma_decimal_length(rest as nat / 10);
        }
        rest = rest / 10;
        len = len + 1;
    }
    len
}

proof fn lemma_decimal_length(n: nat)
    requires
        n <= u64::MAX,
    ensures
        1 <= decimal(n).len() <= 20,
{
    reveal_with_fuel(decimal, 21);
}

/// Appends `n` in decimal, with zeros in front up to `width` characters.
pub fn push_padded(out: &mut String, n: u64, width: usize)
    ensures
        final(out)@ == old(out)@ + zero_padded(n as nat, width as nat),
{
    let len = decimal_length(n);
    let ghost start = out@;
    let mut written: usize = len;
    while written < width
        invariant
            len <= written,
            len <= width ==> written <= width,
            len > width ==> written == len,
            out@ == start + Seq::new((written - len) as nat, |i: int| '0'),
        decreases width - written,
    {
        out.push('0');
        written = written + 1;
    }
    push_decimal(out, n);
}

/// `n` in decimal.
pub fn decimal_text(n: u64) -> (r: String)
    ensures
        r@ == decimal(n as nat),
{
    let mut out = String::new();
    push_decimal(&mut out, n);
    out
}

/// The characters with the Unicode property White_Space.
pub open spec fn is_white_space(c: char) -> bool {
    let u = c as u32;
    ||| 0x09 <= u <= 0x0d
    ||| u == 0x20
    ||| u == 0x85
    ||| u == 0xa0
    ||| u == 0x1680
    ||| 0x2000 <= u <= 0x200a
    ||| u == 0x2028
    ||| u == 0x2029
    ||| u == 0x202f
    ||| u == 0x205f
    ||| u == 0x3000
}

/// `s` without the white space it starts with.
pub open spec fn trimmed_start(s: Seq<char>) -> Seq<char>
    decreases s.len(),
{
    if s.len() > 0 && is_white_space(s.first()) {
        trimmed_start(s.drop_first())
    } else {
        s
    }
}

/// `s` without the white space it ends with.
pub open spec fn trimmed_end(s: Seq<char>) -> Seq<char>
    decreases s.len(),
{
    if s.len() > 0 && is_white_space(s.last()) {
        trimmed_end(s.drop_last())
    } else {
        s
    }
}

/// `s` without the white space at its two ends.
pub open spec fn trimmed(s: Seq<char>) -> Seq<char> {
    trimmed_end(trimmed_start(s))
}

/// `str::trim` returns the part of `s` between the white space at its two ends, where white space
/// is what has the Unicode property White_Space.
pub assume_specification[ str::trim ](s: &str) -> (r: &str)
    ensures
        r@ == trimmed(s@),
;

/// Whether two texts are the same, character for character.
pub fn same_text(a: &str, b: &str) -> (r: bool)
    ensures
        r == (a@ == b@),
{
    a.to_string() == b.to_string()
}

/// The characters of a text.
pub fn chars_of(text: &str) -> (r: Vec<char>)
    ensures
        r@ == text@,
{
    let mut chars: Vec<char> = Vec::new();
    for c in it: text.chars()
        invariant
            chars@ == it.seq().take(it.index()),
            it.seq() == text@,
    {
        chars.push(c);
    }
    chars
}

/// Two numbers with the same numeral are the same.
pub proof fn law_decimals_tell_numbers_apart(a: nat, b: nat)
    requires
        decimal(a) == decimal(b),
    ensures
        a == b,
    decreases a,
{
    lemma_decimal_is_not_empty(a / 10);
    lemma_decimal_is_not_empty(b / 10);
    assert(decimal(a).last() == digit(a % 10) && decimal(b).last() == digit(b % 10));
    if a >= 10 && b >= 10 {
        assert(decimal(a).drop_last() =~= decimal(a / 10));
        assert(decimal(b).drop_last() =~= decimal(b / 10));
        law_decimals_tell_numbers_apart(a / 10, b / 10);
    }
}

proof fn lemma_decimal_is_not_empty(n: nat)
    ensures
        decimal(n).len() > 0,
{
}

/// A numeral reads back as its number: it is one or more digits, the first of them no zero unless
/// it is the only one, and read from the left they make up the number.
pub proof fn law_decimal_reads_back(n: nat)
    ensures
        decimal(n).len() > 0,
        forall|i: int| 0 <= i < decimal(n).len() ==> '0' <= #[trigger] decimal(n)[i] <= '9',
        decimal(n).len() > 1 ==> decimal(n)[0] != '0',
        decimal(n).fold_left(0int, |value: int, c: char| 10 * value + (c as int - 48)) == n,
    decreases n,
{
    let read = |value: int, c: char| 10 * value + (c as int - 48);
    let s = decimal(n);
    reveal_with_fuel(Seq::fold_left, 2);
    if n >= 10 {
        law_decimal_reads_back(n / 10);
        let head = decimal(n / 10);
        assert(s.drop_last() =~= head);
        assert(s.fold_left(0int, read) == read(head.fold_left(0int, read), s.last()));
        assert forall|i: int| 0 <= i < s.len() implies '0' <= #[trigger] s[i] <= '9' by {
            if i < head.len() {
                assert(s[i] == head[i]);
            }
        }
        assert(s[0] == head[0]);
        if head.len() == 1 {
            assert(head.drop_last() =~= seq![]);
            assert(head.fold_left(0int, read) == read(0, head[0]));
        }
    } else {
        assert(s.drop_last() =~= seq![]);
        assert(s.fold_left(0int, read) == read(0, s[0]));
    }
}

proof fn lemma_zeros_read_nothing(zeros: nat, digits: Seq<char>)
    ensures
        (Seq::new(zeros, |i: int| '0') + digits).fold_left(
            0int,
            |value: int, c: char| 10 * value + (c as int - 48),
        ) == digits.fold_left(0int, |value: int, c: char| 10 * value + (c as int - 48)),
    decreases zeros + digits.len(),
{
    let read = |value: int, c: char| 10 * value + (c as int - 48);
    let s = Seq::new(zeros, |i: int| '0') + digits;
    reveal_with_fuel(Seq::fold_left, 2);
    if digits.len() > 0 {
        lemma_zeros_read_nothing(zeros, digits.drop_last());
        assert(s.drop_last() =~= Seq::new(zeros, |i: int| '0') + digits.drop_last());
        assert(s.last() == digits.last());
    } else if zeros > 0 {
        lemma_zeros_read_nothing((zeros - 1) as nat, digits);
        assert(s.drop_last() =~= Seq::new((zeros - 1) as nat, |i: int| '0') + digits);
        assert(s.last() == '0');
    } else {
        assert(s =~= digits);
    }
}

/// A padded numeral reads back as its number too. It takes up the width asked for; one that takes
/// up more is not padded.
pub proof fn law_padded_reads_back(n: nat, width: nat)
    ensures
        ({
            let s = zero_padded(n, width);
            &&& s.len() >= width && s.len() > 0
            &&& s.len() > width && s.len() > 1 ==> s[0] != '0'
            &&& forall|i: int| 0 <= i < s.len() ==> '0' <= #[trigger] s[i] <= '9'
            &&& s.fold_left(0int, |value: int, c: char| 10 * value + (c as int - 48)) == n
        }),
{
    law_decimal_reads_back(n);
    let digits = decimal(n);
    let s = zero_padded(n, width);
    if digits.len() < width {
        let zeros = (width - digits.len()) as nat;
        lemma_zeros_read_nothing(zeros, digits);
        assert forall|i: int| 0 <= i < s.len() implies '0' <= #[trigger] s[i] <= '9' by {
            if i >= zeros {
                assert(s[i] == digits[i - zeros]);
            }
        }
    }
}

/// The characters that count as white space, one by one.
pub proof fn law_white_space(c: char)
    ensures
        is_white_space(c) <==> seq![
            '\u{9}', '\u{a}', '\u{b}', '\u{c}', '\u{d}', ' ', '\u{85}', '\u{a0}', '\u{1680}',
            '\u{2000}', '\u{2001}', '\u{2002}', '\u{2003}', '\u{2004}', '\u{2005}', '\u{2006}',
            '\u{2007}', '\u{2008}', '\u{2009}', '\u{200a}', '\u{2028}', '\u{2029}', '\u{202f}',
            '\u{205f}', '\u{3000}',
        ].contains(c),
{
    let list = seq![
        '\u{9}', '\u{a}', '\u{b}', '\u{c}', '\u{d}', ' ', '\u{85}', '\u{a0}', '\u{1680}',
        '\u{2000}', '\u{2001}', '\u{2002}', '\u{2003}', '\u{2004}', '\u{2005}', '\u{2006}',
        '\u{2007}', '\u{2008}', '\u{2009}', '\u{200a}', '\u{2028}', '\u{2029}', '\u{202f}',
        '\u{205f}', '\u{3000}',
    ];
    let u = c as int;
    let i: int = if 0x09 <= u <= 0x0d {
        u - 0x09
    } else if u == 0x20 {
        5
    } else if u == 0x85 {
        6
    } else if u == 0xa0 {
        7
    } else if u == 0x1680 {
        8
    } else if 0x2000 <= u <= 0x200a {
        9 + u - 0x2000
    } else if u == 0x2028 {
        20
    } else if u == 0x2029 {
        21
    } else if u == 0x202f {
        22
    } else if u == 0x205f {
        23
    } else {
        24
    };
    if is_white_space(c) {
        assert(list[i] == c);
    }
}

/// Nothing is trimmed off a text that neither starts nor ends with white space.
pub proof fn law_trim_keeps(s: Seq<char>)
    requires
        s.len() > 0 ==> !is_white_space(s.first()) && !is_white_space(s.last()),
    ensures
        trimmed(s) == s,
{
}

proof fn lemma_trimmed_start(s: Seq<char>)
    ensures
        trimmed_start(s).len() > 0 ==> !is_white_space(trimmed_start(s).first()),
        trimmed_start(s).len() <= s.len(),
        trimmed_start(s) == s.skip(s.len() - trimmed_start(s).len()),
        forall|i: int| 0 <= i < s.len() - trimmed_start(s).len() ==> is_white_space(s[i]),
    decreases s.len(),
{
    if s.len() > 0 && is_white_space(s.first()) {
        lemma_trimmed_start(s.drop_first());
        let k = s.len() - trimmed_start(s).len();
        assert forall|i: int| 0 <= i < k implies is_white_space(s[i]) by {
            if i > 0 {
                assert(s[i] == s.drop_first()[i - 1]);
            }
        }
    }
}

proof fn lemma_trimmed_end(s: Seq<char>)
    ensures
        trimmed_end(s).len() > 0 ==> !is_white_space(trimmed_end(s).last()),
        trimmed_end(s).len() <= s.len(),
        trimmed_end(s) == s.take(trimmed_end(s).len() as int),
        forall|i: int| trimmed_end(s).len() <= i < s.len() ==> is_white_space(s[i]),
    decreases s.len(),
{
    if s.len() > 0 && is_white_space(s.last()) {
        lemma_trimmed_end(s.drop_last());
        assert forall|i: int| trimmed_end(s).len() <= i < s.len() implies is_white_space(s[i]) by {
            if i < s.len() - 1 {
                assert(s[i] == s.drop_last()[i]);
            }
        }
    }
}

/// What trimming leaves is one stretch of the text: everything before and after it is white space,
/// and it neither starts nor ends with white space.
pub proof fn law_trim_cuts_white_space(s: Seq<char>) -> (cut: (int, int))
    ensures
        0 <= cut.0 <= cut.1 <= s.len(),
        trimmed(s) == s.subrange(cut.0, cut.1),
        forall|i: int| 0 <= i < cut.0 ==> is_white_space(s[i]),
        forall|i: int| cut.1 <= i < s.len() ==> is_white_space(s[i]),
        cut.0 < cut.1 ==> !is_white_space(s[cut.0]) && !is_white_space(s[cut.1 - 1]),
{
    let tail = trimmed_start(s);
    lemma_trimmed_start(s);
    lemma_trimmed_end(tail);
    let from = s.len() - tail.len();
    let to = from + trimmed(s).len();
    assert(trimmed(s) =~= s.subrange(from, to));
    assert forall|i: int| to <= i < s.len() implies is_white_space(s[i]) by {
        assert(s[i] == tail[i - from]);
    }
    (from, to)
}

/// Trimming twice is trimming once.
pub proof fn law_trim_is_idempotent(s: Seq<char>)
    ensures
        trimmed(trimmed(s)) == trimmed(s),
{
    let cut = law_trim_cuts_white_space(s);
    law_trim_keeps(trimmed(s));
}

/// Writing a number appends a numeral that reads back as the number, of the width asked for or,
/// without padding, of more; nothing that was there before is touched.
pub proof fn law_written_number_reads_back(out: &mut String, n: u64, width: usize)
    requires
        call_ensures(push_padded, (out, n, width), ()),
    ensures
        ({
            let before = old(out)@.len() as int;
            let s = final(out)@.skip(before);
            &&& final(out)@.len() >= before + width
            &&& final(out)@.take(before) == old(out)@
            &&& s.len() > width && s.len() > 1 ==> s[0] != '0'
            &&& forall|i: int| 0 <= i < s.len() ==> '0' <= #[trigger] s[i] <= '9'
            &&& s.fold_left(0int, |value: int, c: char| 10 * value + (c as int - 48)) == n
        }),
{
    law_padded_reads_back(n as nat, width as nat);
    let before = old(out)@.len() as int;
    assert(final(out)@.skip(before) =~= zero_padded(n as nat, width as nat));
    assert(final(out)@.take(before) =~= old(out)@);
}

/// The text of a number is a numeral that reads back as the number.
pub proof fn law_number_text_reads_back(n: u64, r: String)
    requires
        call_ensures(decimal_text, (n,), r),
    ensures
        r@.len() > 0,
        forall|i: int| 0 <= i < r@.len() ==> '0' <= #[trigger] r@[i] <= '9',
        r@.len() > 1 ==> r@[0] != '0',
        r@.fold_left(0int, |value: int, c: char| 10 * value + (c as int - 48)) == n,
{
    law_decimal_reads_back(n as nat);
}

} // verus!
