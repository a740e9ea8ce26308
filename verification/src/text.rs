//! Text measures and decimal numerals.

use vstd::prelude::*;

verus! {

/// Whether `c` is white space: one of the code points with the Unicode
/// property `White_Space`.
pub open spec fn is_whitespace(c: char) -> bool {
    let u = c as u32;
    ||| 0x09 <= u <= 0x0D
    ||| u == 0x20
    ||| u == 0x85
    ||| u == 0xA0
    ||| u == 0x1680
    ||| 0x2000 <= u <= 0x200A
    ||| u == 0x2028
    ||| u == 0x2029
    ||| u == 0x202F
    ||| u == 0x205F
    ||| u == 0x3000
}

/// Whether a word starts at position `i` of `s`: the character there is not
/// white space, and it is the first of the text or follows white space.
pub open spec fn starts_word(s: Seq<char>, i: int) -> bool {
    &&& 0 <= i < s.len()
    &&& !is_whitespace(s[i])
    &&& (i == 0 || is_whitespace(s[i - 1]))
}

/// The number of words in `s`, a word being a maximal run of characters that
/// are not white space: the number of positions at which a word starts.
pub open spec fn word_count(s: Seq<char>) -> nat
    decreases s.len(),
{
    if s.len() == 0 {
        0
    } else {
        word_count(s.drop_last()) + if starts_word(s, s.len() - 1) {
            1nat
        } else {
            0nat
        }
    }
}

/// Tests a character for white space.
pub fn is_whitespace_char(c: char) -> (b: bool)
    ensures
        b == is_whitespace(c),
{
    let u: u32 = c as u32;
    (0x09 <= u && u <= 0x0D) || u == 0x20 || u == 0x85 || u == 0xA0 || u == 0x1680 || (0x2000 <= u
        && u <= 0x200A) || u == 0x2028 || u == 0x2029 || u == 0x202F || u == 0x205F || u == 0x3000
}

/// The characters of `text`, in order.
pub fn chars_of(text: &str) -> (chars: Vec<char>)
    ensures
        chars@ == text@,
{
    broadcast use vstd::string::group_string_axioms;

    let mut chars: Vec<char> = Vec::new();
    for c in it: text.chars()
        invariant
            it.seq() == text@,
            chars@ == text@.take(it.index() as int),
    {
        chars.push(c);
        assert(text@.take(it.index() + 1) == text@.take(it.index() as int).push(c));
    }
    assert(text@.take(text@.len() as int) == text@);
    chars
}

/// Counts the words of `text`.
pub fn count_words(text: &str) -> (n: usize)
    ensures
        n as nat == word_count(text@),
{
    let chars = chars_of(text);
    let mut n: usize = 0;
    let mut after_space = true;
    let mut i: usize = 0;
    while i < chars.len()
        invariant
            i <= chars.len(),
            chars@ == text@,
            n as nat == word_count(text@.take(i as int)),
            n <= i,
            after_space == (i == 0 || is_whitespace(text@[i - 1])),
        decreases chars.len() - i,
    {
        let space = is_whitespace_char(chars[i]);
        proof {
            let next = text@.take(i + 1);
            assert(next.drop_last() == text@.take(i as int));
            assert(starts_word(next, i as int) == (!space && after_space));
        }
        if !space && after_space {
            n = n + 1;
        }
        after_space = space;
        i = i + 1;
    }
    assert(text@.take(chars.len() as int) == text@);
    n
}

/// `s` without the white space at its end.
pub open spec fn trimmed_end(s: Seq<char>) -> Seq<char>
    decreases s.len(),
{
    if s.len() == 0 || !is_whitespace(s.last()) {
        s
    } else {
        trimmed_end(s.drop_last())
    }
}

/// `s` without the white space at its beginning.
pub open spec fn trimmed_start(s: Seq<char>) -> Seq<char>
    decreases s.len(),
{
    if s.len() == 0 || !is_whitespace(s.first()) {
        s
    } else {
        trimmed_start(s.drop_first())
    }
}

/// `s` without the white space at its beginning and at its end.
pub open spec fn trimmed(s: Seq<char>) -> Seq<char> {
    trimmed_end(trimmed_start(s))
}

/// Whether `s` holds white space only.
pub open spec fn is_blank(s: Seq<char>) -> bool {
    forall|i: int| 0 <= i < s.len() ==> is_whitespace(#[trigger] s[i])
}

/// A text is blank if and only if nothing is left of it when it is
/// trimmed.
pub proof fn lemma_blank_trims_to_nothing(s: Seq<char>)
    ensures
        is_blank(s) <==> trimmed(s).len() == 0,
{
    assert(s.skip(0) =~= s);
    lemma_trimmed_start(s, 0);
    let from = choose|from: int| is_start_of_text(s, from);
    let rest = s.skip(from);
    assert(rest.take(rest.len() as int) =~= rest);
    lemma_trimmed_end(rest, rest.len() as int);
    let to = choose|to: int| is_end_of_text(rest, to);
    if from < s.len() {
        assert(rest[0] == s[from]);
        assert(to > 0) by {
            if to == 0 {
                assert(is_whitespace(rest[0]));
            }
        }
    }
}

/// Whether `from` is where the text of `s` begins: the first position that
/// does not hold white space, or the end.
pub open spec fn is_start_of_text(s: Seq<char>, from: int) -> bool {
    &&& 0 <= from <= s.len()
    &&& forall|i: int| 0 <= i < from ==> is_whitespace(#[trigger] s[i])
    &&& from < s.len() ==> !is_whitespace(s[from])
    &&& trimmed_start(s) == s.skip(from)
}

/// Whether `to` is where the text of `s` ends: behind the last position
/// that does not hold white space, or the beginning.
pub open spec fn is_end_of_text(s: Seq<char>, to: int) -> bool {
    &&& 0 <= to <= s.len()
    &&& forall|i: int| to <= i < s.len() ==> is_whitespace(#[trigger] s[i])
    &&& to > 0 ==> !is_whitespace(s[to - 1])
    &&& trimmed_end(s) == s.take(to)
}

/// From every position before which there is white space only, the text of
/// `s` begins somewhere.
pub proof fn lemma_trimmed_start(s: Seq<char>, n: int)
    requires
        0 <= n <= s.len(),
        forall|i: int| 0 <= i < n ==> is_whitespace(#[trigger] s[i]),
        trimmed_start(s) == trimmed_start(s.skip(n)),
    ensures
        exists|from: int| is_start_of_text(s, from),
    decreases s.len() - n,
{
    let rest = s.skip(n);
    if n == s.len() || !is_whitespace(s[n]) {
        if n < s.len() {
            assert(rest.first() == s[n]);
        }
        assert(is_start_of_text(s, n));
    } else {
        assert(rest.first() == s[n]);
        assert(rest.drop_first() =~= s.skip(n + 1));
        lemma_trimmed_start(s, n + 1);
    }
}

/// Down to every position from which on there is white space only, the
/// text of `s` ends somewhere.
pub proof fn lemma_trimmed_end(s: Seq<char>, n: int)
    requires
        0 <= n <= s.len(),
        forall|i: int| n <= i < s.len() ==> is_whitespace(#[trigger] s[i]),
        trimmed_end(s) == trimmed_end(s.take(n)),
    ensures
        exists|to: int| is_end_of_text(s, to),
    decreases n,
{
    let rest = s.take(n);
    if n == 0 || !is_whitespace(s[n - 1]) {
        if n > 0 {
            assert(rest.last() == s[n - 1]);
        }
        assert(is_end_of_text(s, n));
    } else {
        assert(rest.last() == s[n - 1]);
        assert(rest.drop_last() =~= s.take(n - 1));
        lemma_trimmed_end(s, n - 1);
    }
}

/// Takes the white space off the beginning and the end of `text`.
pub fn trim(text: &str) -> (out: String)
    ensures
        out@ == trimmed(text@),
{
    let chars = chars_of(text);
    let len = chars.len();
    let mut from: usize = 0;
    assert(text@.skip(0) =~= text@);
    while from < len && is_whitespace_char(chars[from])
        invariant
            from <= len == chars@.len(),
            chars@ == text@,
            trimmed_start(text@) == trimmed_start(text@.skip(from as int)),
        decreases len - from,
    {
        proof {
            let rest = text@.skip(from as int);
            assert(rest.first() == text@[from as int]);
            assert(rest.drop_first() =~= text@.skip(from + 1));
        }
        from = from + 1;
    }
    let ghost started = text@.skip(from as int);
    proof {
        if from < len {
            assert(started.first() == text@[from as int]);
        }
        assert(trimmed_start(text@) == started);
        assert(started.take(len - from) =~= started);
    }
    let mut to: usize = len;
    while to > from && is_whitespace_char(chars[to - 1])
        invariant
            from <= to <= len == chars@.len(),
            chars@ == text@,
            started == text@.skip(from as int),
            trimmed_end(started) == trimmed_end(started.take(to - from)),
        decreases to,
    {
        proof {
            let rest = started.take(to - from);
            assert(rest.last() == text@[to - 1]);
            assert(rest.drop_last() =~= started.take(to - from - 1));
        }
        to = to - 1;
    }
    proof {
        let rest = started.take(to - from);
        if to > from {
            assert(rest.last() == text@[to - 1]);
        }
        assert(trimmed_end(started) == rest);
        assert(rest =~= text@.subrange(from as int, to as int));
    }
    String::from_str(text.substring_char(from, to))
}

/// The decimal digit for `d`, where `d < 10`.
pub open spec fn digit_char(d: nat) -> char {
    if d == 0 {
        '0'
    } else if d == 1 {
        '1'
    } else if d == 2 {
        '2'
    } else if d == 3 {
        '3'
    } else if d == 4 {
        '4'
    } else if d == 5 {
        '5'
    } else if d == 6 {
        '6'
    } else if d == 7 {
        '7'
    } else if d == 8 {
        '8'
    } else {
        '9'
    }
}

/// The decimal numeral of `n`, without sign or leading zeros.
pub open spec fn decimal(n: nat) -> Seq<char>
    decreases n,
{
    if n < 10 {
        seq![digit_char(n)]
    } else {
        decimal(n / 10).push(digit_char(n % 10))
    }
}

/// Whether `c` is one of the digits `0` to `9`.
pub open spec fn is_digit(c: char) -> bool {
    0x30 <= c as u32 <= 0x39
}

/// The value of the digit `c`.
pub open spec fn digit_value(c: char) -> nat {
    (c as u32 - 0x30) as nat
}

/// Whether `s` consists of digits only.
pub open spec fn all_digits(s: Seq<char>) -> bool {
    forall|i: int| 0 <= i < s.len() ==> is_digit(#[trigger] s[i])
}

/// The number that the digits of `s` denote in base ten.
pub open spec fn digits_value(s: Seq<char>) -> nat
    decreases s.len(),
{
    if s.len() == 0 {
        0
    } else {
        digits_value(s.drop_last()) * 10 + digit_value(s.last())
    }
}

/// The number that `s` denotes as a decimal numeral of 32 bits: an optional
/// `+`, then at least one digit and nothing else, with a value that fits.
pub open spec fn parse_decimal(s: Seq<char>) -> Option<u32> {
    let digits = if s.len() >= 2 && s[0] == '+' {
        s.skip(1)
    } else {
        s
    };
    if digits.len() > 0 && all_digits(digits) && digits_value(digits) <= u32::MAX {
        Some(digits_value(digits) as u32)
    } else {
        None
    }
}

/// Adding digits to a numeral never makes its value smaller.
pub proof fn lemma_digits_value_monotonic(s: Seq<char>, k: int)
    requires
        0 <= k <= s.len(),
    ensures
        digits_value(s.take(k)) <= digits_value(s),
    decreases s.len() - k,
{
    if k < s.len() {
        lemma_digits_value_monotonic(s, k + 1);
        assert(s.take(k + 1).drop_last() == s.take(k));
    } else {
        assert(s.take(k) == s);
    }
}

/// The numeral of a number consists of digits and denotes that number.
pub proof fn lemma_decimal_value(n: nat)
    ensures
        decimal(n).len() > 0,
        all_digits(decimal(n)),
        digits_value(decimal(n)) == n,
    decreases n,
{
    if n < 10 {
        let s = decimal(n);
        assert(s.drop_last().len() == 0);
        assert(digits_value(s) == digits_value(s.drop_last()) * 10 + digit_value(s.last()));
    } else {
        lemma_decimal_value(n / 10);
        let s = decimal(n);
        assert(s.drop_last() == decimal(n / 10));
        assert(s.last() == digit_char(n % 10));
    }
}

/// Reading the numeral of a 32-bit number gives the number back.
pub proof fn lemma_parse_decimal_roundtrip(n: u32)
    ensures
        parse_decimal(decimal(n as nat)) == Some(n),
{
    lemma_decimal_value(n as nat);
    let s = decimal(n as nat);
    assert(is_digit(s[0]));
}

/// The digit for `d` as a string.
fn digit_str(d: u8) -> (s: &'static str)
    requires
        d < 10,
    ensures
        s@ == seq![digit_char(d as nat)],
{
    proof {
        reveal_strlit("0");
        reveal_strlit("1");
        reveal_strlit("2");
        reveal_strlit("3");
        reveal_strlit("4");
        reveal_strlit("5");
        reveal_strlit("6");
        reveal_strlit("7");
        reveal_strlit("8");
        reveal_strlit("9");
    }
    let s = if d == 0 {
        "0"
    } else if d == 1 {
        "1"
    } else if d == 2 {
        "2"
    } else if d == 3 {
        "3"
    } else if d == 4 {
        "4"
    } else if d == 5 {
        "5"
    } else if d == 6 {
        "6"
    } else if d == 7 {
        "7"
    } else if d == 8 {
        "8"
    } else {
        "9"
    };
    assert(s@ =~= seq![digit_char(d as nat)]);
    s
}

/// Appends the decimal numeral of `n` to `out`.
pub fn push_decimal(out: &mut String, n: u64)
    ensures
        final(out)@ == old(out)@ + decimal(n as nat),
    decreases n,
{
    if n >= 10 {
        push_decimal(out, n / 10);
    }
    out.append(digit_str((n % 10) as u8));
    assert(out@ =~= old(out)@ + decimal(n as nat));
}

/// Reads a decimal numeral of 32 bits from `chars[from..to]`.
pub fn parse_decimal_range(chars: &Vec<char>, from: usize, to: usize) -> (value: Option<u32>)
    requires
        from <= to <= chars.len(),
    ensures
        value == parse_decimal(chars@.subrange(from as int, to as int)),
{
    let ghost s = chars@.subrange(from as int, to as int);
    let start: usize = if to - from >= 2 && chars[from] == '+' {
        from + 1
    } else {
        from
    };
    let ghost digits = chars@.subrange(start as int, to as int);
    assert(digits == if s.len() >= 2 && s[0] == '+' {
        s.skip(1)
    } else {
        s
    });
    if start == to {
        return None;
    }
    let ghost goal = if all_digits(digits) && digits_value(digits) <= u32::MAX {
        Some(digits_value(digits) as u32)
    } else {
        None
    };
    assert(parse_decimal(s) == goal);
    let mut value: u64 = 0;
    let mut i: usize = start;
    while i < to
        invariant
            from <= start <= i <= to <= chars.len(),
            digits == chars@.subrange(start as int, to as int),
            parse_decimal(chars@.subrange(from as int, to as int)) == goal,
            goal == if all_digits(digits) && digits_value(digits) <= u32::MAX {
                Some(digits_value(digits) as u32)
            } else {
                None::<u32>
            },
            all_digits(digits.take(i - start)),
            value as nat == digits_value(digits.take(i - start)),
            value <= u32::MAX,
        decreases to - i,
    {
        let c = chars[i];
        let u: u32 = c as u32;
        assert(digits[i - start] == c);
        if u < 0x30 || u > 0x39 {
            return None;
        }
        let ghost next = digits.take(i - start + 1);
        assert(next.drop_last() == digits.take(i - start));
        assert(next.last() == c);
        assert forall|j: int| 0 <= j < next.len() implies is_digit(#[trigger] next[j]) by {
            if j < i - start {
                assert(digits.take(i - start)[j] == next[j]);
            }
        }
        value = value * 10 + (u - 0x30) as u64;
        if value > 0xffff_ffff {
            proof {
                lemma_digits_value_monotonic(digits, i - start + 1);
            }
            return None;
        }
        i = i + 1;
    }
    assert(digits.take(to - start) == digits);
    Some(value as u32)
}

} // verus!
