//! Text as the rest of the crate reads and writes it: decimal numbers, and the pieces of
//! `str` that the messages, keys and headers are taken apart with.

use vstd::prelude::*;
use vstd::utf8::encode_utf8;

verus! {

/// The character for a decimal digit.
pub open spec fn digit_char(digit: nat) -> char {
    (('0' as nat) + digit) as char
}

/// A number in decimal, without leading zeros.
pub open spec fn decimal(n: nat) -> Seq<char>
    decreases n,
{
    if n < 10 {
        seq![digit_char(n)]
    } else {
        decimal(n / 10).push(digit_char(n % 10))
    }
}

/// The text of one decimal digit.
fn digit_text(digit: u64) -> (text: &'static str)
    requires
        digit < 10,
    ensures
        text@ == seq![digit_char(digit as nat)],
{
    proof {
        reveal_strlit("0");
        reveal_strlit("1");
        reveal_strlit("2");
        reveal_strlit("3");
        reveal_strlit("4");
        reveal_strlit("5");
        reveal_strlit("6");
        reveal_strlit("7");
        reveal_strlit("8");
        reveal_strlit("9");
    }
    if digit == 0 {
        "0"
    } else if digit == 1 {
        "1"
    } else if digit == 2 {
        "2"
    } else if digit == 3 {
        "3"
    } else if digit == 4 {
        "4"
    } else if digit == 5 {
        "5"
    } else if digit == 6 {
        "6"
    } else if digit == 7 {
        "7"
    } else if digit == 8 {
        "8"
    } else {
        "9"
    }
}

/// A number in decimal.
pub fn decimal_text(n: u64) -> (text: String)
    ensures
        text@ == decimal(n as nat),
    decreases n,
{
    if n < 10 {
        digit_text(n).to_owned()
    } else {
        let mut text = decimal_text(n / 10);
        text.append(digit_text(n % 10));
        text
    }
}

pub open spec fn is_digit(c: char) -> bool {
    '0' <= c <= '9'
}

/// A hexadecimal digit.
pub open spec fn is_hex(c: char) -> bool {
    is_digit(c) || 'a' <= c <= 'f' || 'A' <= c <= 'F'
}

/// The character for a hexadecimal digit, in lower case.
pub open spec fn hex_char(digit: nat) -> char {
    if digit < 10 {
        digit_char(digit)
    } else {
        (('a' as nat) + digit - 10) as char
    }
}

/// The last `width` hexadecimal digits of a number.
pub open spec fn hex(n: nat, width: nat) -> Seq<char>
    decreases width,
{
    if width == 0 {
        Seq::empty()
    } else {
        hex(n / 16, (width - 1) as nat).push(hex_char(n % 16))
    }
}

/// The text of one hexadecimal digit.
fn hex_digit_text(digit: u64) -> (text: &'static str)
    requires
        digit < 16,
    ensures
        text@ == seq![hex_char(digit as nat)],
{
    proof {
        reveal_strlit("a");
        reveal_strlit("b");
        reveal_strlit("c");
        reveal_strlit("d");
        reveal_strlit("e");
        reveal_strlit("f");
    }
    if digit < 10 {
        digit_text(digit)
    } else if digit == 10 {
        "a"
    } else if digit == 11 {
        "b"
    } else if digit == 12 {
        "c"
    } else if digit == 13 {
        "d"
    } else if digit == 14 {
        "e"
    } else {
        "f"
    }
}

/// The last `width` hexadecimal digits of a number.
pub fn hex_text(n: u64, width: u32) -> (text: String)
    ensures
        text@ == hex(n as nat, width as nat),
    decreases width,
{
    if width == 0 {
        String::new()
    } else {
        let mut text = hex_text(n / 16, width - 1);
        text.append(hex_digit_text(n % 16));
        text
    }
}

/// Hexadecimal digits are as many as asked for, and are what they are called.
pub proof fn lemma_hex(n: nat, width: nat)
    ensures
        hex(n, width).len() == width,
        forall|i: int| 0 <= i < width ==> is_hex(#[trigger] hex(n, width)[i]),
    decreases width,
{
    if width > 0 {
        lemma_hex(n / 16, (width - 1) as nat);
        assert(is_hex(hex_char(n % 16)));
    }
}

/// The number some decimal digits stand for.
pub open spec fn digits_value(digits: Seq<char>) -> nat
    decreases digits.len(),
{
    if digits.len() == 0 {
        0
    } else {
        digits_value(digits.drop_last()) * 10 + (digits.last() as nat - '0' as nat) as nat
    }
}

pub open spec fn all_digits(text: Seq<char>) -> bool {
    forall|i: int| 0 <= i < text.len() ==> is_digit(#[trigger] text[i])
}

/// The digits of a number that may be written with a leading plus.
pub open spec fn unsigned_digits(text: Seq<char>) -> Seq<char> {
    if text.len() > 0 && text[0] == '+' {
        text.skip(1)
    } else {
        text
    }
}

/// The number a text is, where it is the decimal text of one that fits: digits, at least one
/// of them, perhaps with a leading plus.
pub open spec fn spec_parse_u64(text: Seq<char>) -> Option<u64> {
    let digits = unsigned_digits(text);
    if digits.len() > 0 && all_digits(digits) && digits_value(digits) <= u64::MAX {
        Some(digits_value(digits) as u64)
    } else {
        None
    }
}

proof fn lemma_digits_value_grows(digits: Seq<char>, shorter: int)
    requires
        0 <= shorter <= digits.len(),
        all_digits(digits),
    ensures
        digits_value(digits.take(shorter)) <= digits_value(digits),
    decreases digits.len(),
{
    if shorter < digits.len() {
        let rest = digits.drop_last();
        assert forall|i: int| 0 <= i < rest.len() implies is_digit(#[trigger] rest[i]) by {
            assert(is_digit(digits[i]));
        }
        lemma_digits_value_grows(rest, shorter);
        assert(rest.take(shorter) == digits.take(shorter));
        assert(is_digit(digits[digits.len() - 1]));
    } else {
        assert(digits.take(shorter) == digits);
    }
}

/// The characters of a text.
pub fn chars_of(text: &str) -> (chars: Vec<char>)
    ensures
        chars@ == text@,
{
    let mut chars: Vec<char> = Vec::new();
    for c in it: text.chars()
        invariant
            chars@ == text@.take(it.index()),
            it.seq() == text@,
    {
        chars.push(c);
    }
    chars
}

/// The number a run of characters is, where it is the decimal text of one that fits.
pub fn parse_chars(chars: &Vec<char>, from: usize, to: usize) -> (number: Option<u64>)
    requires
        from <= to <= chars.len(),
    ensures
        number == spec_parse_u64(chars@.subrange(from as int, to as int)),
{
    let ghost text = chars@.subrange(from as int, to as int);
    let mut i: usize = from;
    if from < to && chars[from] == '+' {
        i = from + 1;
    }
    let ghost start = i as int;
    let ghost digits = unsigned_digits(text);
    assert(digits =~= chars@.subrange(start, to as int));
    if i == to {
        return None;
    }
    let mut value: u64 = 0;
    assert(digits.take(0) =~= Seq::<char>::empty());
    while i < to
        invariant
            from <= start <= i <= to <= chars.len(),
            digits == chars@.subrange(start, to as int),
            text == chars@.subrange(from as int, to as int),
            digits == unsigned_digits(text),
            value == digits_value(digits.take(i - start)),
            forall|k: int| 0 <= k < i - start ==> is_digit(#[trigger] digits[k]),
        decreases to - i,
    {
        let c: char = chars[i];
        let ghost next = digits.take(i + 1 - start);
        assert(digits[i - start] == c);
        assert(next.drop_last() == digits.take(i - start));
        assert(next.last() == c);
        if !('0' <= c && c <= '9') {
            return None;
        }
        let digit: u64 = (c as u64) - ('0' as u64);
        proof {
            if all_digits(digits) {
                lemma_digits_value_grows(digits, i + 1 - start);
            }
        }
        if value > (u64::MAX - digit) / 10 {
            assert(value * 10 + digit > u64::MAX);
            assert(!all_digits(digits) || digits_value(digits) > u64::MAX);
            return None;
        }
        value = value * 10 + digit;
        i += 1;
    }
    assert(digits.take(i - start) == digits);
    Some(value)
}

/// The number a text is, where it is the decimal text of one that fits.
pub fn parse_u64(text: &str) -> (number: Option<u64>)
    ensures
        number == spec_parse_u64(text@),
{
    let chars = chars_of(text);
    assert(chars@.subrange(0, chars.len() as int) == text@);
    parse_chars(&chars, 0, chars.len())
}

/// Where a character first stands in a text, or the text's length where it does not.
pub open spec fn first_index(text: Seq<char>, c: char) -> int
    decreases text.len(),
{
    if text.len() == 0 || text[0] == c {
        0
    } else {
        1 + first_index(text.drop_first(), c)
    }
}

pub proof fn lemma_first_index(text: Seq<char>, c: char)
    ensures
        0 <= first_index(text, c) <= text.len(),
        first_index(text, c) < text.len() ==> text[first_index(text, c)] == c,
        forall|i: int| 0 <= i < first_index(text, c) ==> #[trigger] text[i] != c,
    decreases text.len(),
{
    if text.len() > 0 && text[0] != c {
        let rest = text.drop_first();
        lemma_first_index(rest, c);
        assert forall|i: int| 0 <= i < first_index(text, c) implies #[trigger] text[i] != c by {
            if i > 0 {
                assert(rest[i - 1] != c);
            }
        }
    }
}

pub proof fn lemma_first_index_unique(text: Seq<char>, c: char, at: int)
    requires
        0 <= at <= text.len(),
        at < text.len() ==> text[at] == c,
        forall|i: int| 0 <= i < at ==> #[trigger] text[i] != c,
    ensures
        first_index(text, c) == at,
{
    lemma_first_index(text, c);
    let found = first_index(text, c);
    if found < at {
        assert(text[found] != c);
    } else if at < found {
        assert(text[at] != c);
    }
}

/// Where a character first stands among characters, or their number where it does not.
pub fn find_char(chars: &Vec<char>, c: char) -> (at: usize)
    ensures
        at == first_index(chars@, c),
{
    let mut at: usize = 0;
    while at < chars.len() && chars[at] != c
        invariant
            at <= chars.len(),
            forall|i: int| 0 <= i < at ==> #[trigger] chars@[i] != c,
        decreases chars.len() - at,
    {
        at += 1;
    }
    proof {
        lemma_first_index_unique(chars@, c, at as int);
    }
    at
}

/// How many bytes a character takes in UTF-8.
pub open spec fn utf8_width(c: char) -> nat {
    if (c as u32) < 0x80 {
        1
    } else if (c as u32) < 0x800 {
        2
    } else if (c as u32) < 0x10000 {
        3
    } else {
        4
    }
}

/// How many characters make up the first `bytes` bytes of a text, where a character ends
/// there.
pub open spec fn chars_in_bytes(text: Seq<char>, bytes: nat) -> Option<nat>
    decreases text.len(),
{
    if bytes == 0 {
        Some(0)
    } else if text.len() == 0 || utf8_width(text[0]) > bytes {
        None
    } else {
        match chars_in_bytes(text.drop_first(), (bytes - utf8_width(text[0])) as nat) {
            Some(rest) => Some(rest + 1),
            None => None,
        }
    }
}

/// The first seven bytes of a commit id, or all of one that does not split there.
pub open spec fn spec_short_sha(value: Seq<char>) -> Seq<char> {
    match chars_in_bytes(value, 7) {
        Some(chars) => value.take(chars as int),
        None => value,
    }
}

/// A commit id shortened for people.
pub fn short_sha(value: &str) -> (short: &str)
    ensures
        short@ == spec_short_sha(value@),
{
    let chars = chars_of(value);
    let mut taken: usize = 0;
    let mut left: u64 = 7;
    assert(value@.skip(0) == value@);
    while left > 0
        invariant
            chars@ == value@,
            taken <= chars.len(),
            taken + left <= 7,
            match chars_in_bytes(value@.skip(taken as int), left as nat) {
                Some(rest) => chars_in_bytes(value@, 7) == Some((taken + rest) as nat),
                None => chars_in_bytes(value@, 7) is None,
            },
        decreases left,
    {
        let ghost rest = value@.skip(taken as int);
        if taken == chars.len() {
            return value;
        }
        let c: char = chars[taken];
        assert(rest[0] == c);
        assert(rest.drop_first() == value@.skip(taken + 1));
        let width: u64 = if (c as u32) < 0x80 {
            1
        } else if (c as u32) < 0x800 {
            2
        } else if (c as u32) < 0x10000 {
            3
        } else {
            4
        };
        if width > left {
            return value;
        }
        left = left - width;
        taken = taken + 1;
    }
    assert(value@.subrange(0, taken as int) == value@.take(taken as int));
    value.substring_char(0, taken)
}

/// What the decimal text of a number is: digits, the first of them no plus, that stand for it.
pub proof fn lemma_decimal(n: nat)
    ensures
        decimal(n).len() > 0,
        all_digits(decimal(n)),
        digits_value(decimal(n)) == n,
    decreases n,
{
    assert(digits_value(Seq::<char>::empty()) == 0);
    if n < 10 {
        assert(decimal(n).drop_last() =~= Seq::<char>::empty());
        assert(decimal(n).last() == digit_char(n));
    } else {
        lemma_decimal(n / 10);
        assert(decimal(n).drop_last() =~= decimal(n / 10));
        assert(decimal(n).last() == digit_char(n % 10));
        assert forall|i: int| 0 <= i < decimal(n).len() implies is_digit(
            #[trigger] decimal(n)[i],
        ) by {
            if i < decimal(n / 10).len() {
                assert(is_digit(decimal(n / 10)[i]));
            }
        }
    }
}

/// A number read back from its decimal text is the number.
pub proof fn law_decimal_reads_back(n: u64)
    ensures
        spec_parse_u64(decimal(n as nat)) == Some(n),
{
    lemma_decimal(n as nat);
    assert(is_digit(decimal(n as nat)[0]));
}

/// Whether two texts are the same.
pub fn same_text(left: &str, right: &str) -> (same: bool)
    ensures
        same == (left@ == right@),
{
    left.to_owned() == right.to_owned()
}

/// What an optional text says.
pub open spec fn said(text: Option<&str>) -> Option<Seq<char>> {
    match text {
        Some(text) => Some(text@),
        None => None,
    }
}

/// What an optional owned text says.
pub open spec fn owned_said(text: Option<String>) -> Option<Seq<char>> {
    match text {
        Some(text) => Some(text@),
        None => None,
    }
}

/// An optional text, borrowed.
pub fn borrow_text(text: &Option<String>) -> (borrowed: Option<&str>)
    ensures
        said(borrowed) == owned_said(*text),
{
    match text {
        Some(text) => Some(text.as_str()),
        None => None,
    }
}

/// Whether an optional text says just this.
pub fn says(text: Option<&str>, word: &str) -> (same: bool)
    ensures
        same == (said(text) == Some(word@)),
{
    match text {
        Some(text) => same_text(text, word),
        None => false,
    }
}

/// What each of some texts says.
pub open spec fn all_said(parts: Seq<String>) -> Seq<Seq<char>> {
    parts.map_values(|part: String| part@)
}

/// Texts one after another, with a comma and a space between any two.
pub open spec fn joined(parts: Seq<Seq<char>>) -> Seq<char>
    decreases parts.len(),
{
    if parts.len() == 0 {
        Seq::empty()
    } else if parts.len() == 1 {
        parts[0]
    } else {
        joined(parts.drop_last()) + ", "@ + parts.last()
    }
}

pub fn join_texts(parts: &Vec<String>) -> (text: String)
    ensures
        text@ == joined(all_said(parts@)),
{
    if parts.len() == 0 {
        return String::new();
    }
    let mut text = parts[0].clone();
    let mut i: usize = 1;
    let ghost all = all_said(parts@);
    assert(all.take(1).len() == 1);
    while i < parts.len()
        invariant
            1 <= i <= parts.len(),
            all == all_said(parts@),
            text@ == joined(all.take(i as int)),
        decreases parts.len() - i,
    {
        let ghost next = all.take(i + 1);
        assert(next.drop_last() == all.take(i as int));
        assert(next.last() == parts[i as int]@);
        text.append(", ");
        text.append(parts[i].as_str());
        i += 1;
    }
    assert(all.take(i as int) == all);
    text
}

/// A text without the slashes at its end.
pub open spec fn without_trailing_slashes(text: Seq<char>) -> Seq<char>
    decreases text.len(),
{
    if text.len() > 0 && text.last() == '/' {
        without_trailing_slashes(text.drop_last())
    } else {
        text
    }
}

pub fn trim_trailing_slashes(text: &str) -> (trimmed: &str)
    ensures
        trimmed@ == without_trailing_slashes(text@),
{
    let chars = chars_of(text);
    let mut end: usize = chars.len();
    assert(text@.take(end as int) == text@);
    while end > 0 && chars[end - 1] == '/'
        invariant
            chars@ == text@,
            end <= chars.len(),
            without_trailing_slashes(text@.take(end as int)) == without_trailing_slashes(text@),
        decreases end,
    {
        let ghost now = text@.take(end as int);
        assert(now.last() == '/');
        assert(now.drop_last() == text@.take(end - 1));
        end -= 1;
    }
    assert(text@.subrange(0, end as int) == text@.take(end as int));
    text.substring_char(0, end)
}

/// The bytes of an ASCII text.
pub open spec fn ascii(text: Seq<char>) -> Seq<u8> {
    text.map_values(|c: char| c as u8)
}

/// Whether two byte strings are the same.
pub fn same_bytes(left: &[u8], right: &[u8]) -> (same: bool)
    ensures
        same == (left@ == right@),
{
    if left.len() != right.len() {
        return false;
    }
    let mut i: usize = 0;
    while i < left.len()
        invariant
            i <= left.len(),
            left.len() == right.len(),
            left@.take(i as int) == right@.take(i as int),
        decreases left.len() - i,
    {
        if left[i] != right[i] {
            assert(left@[i as int] != right@[i as int]);
            return false;
        }
        assert(left@.take(i + 1) =~= left@.take(i as int).push(left@[i as int]));
        assert(right@.take(i + 1) =~= right@.take(i as int).push(right@[i as int]));
        i += 1;
    }
    assert(left@.take(i as int) == left@);
    assert(right@.take(i as int) == right@);
    true
}

/// Whether bytes are those of an ASCII word.
pub fn is_word(bytes: &[u8], word: &str) -> (same: bool)
    requires
        word.is_ascii(),
    ensures
        same == (bytes@ == ascii(word@)),
{
    proof {
        vstd::string::is_ascii_spec_bytes(word);
        assert(vstd::utf8::encode_utf8(word@) =~= ascii(word@));
    }
    same_bytes(bytes, word.as_bytes())
}

/// A decimal text grows digit by digit: that of a number below ten is its digit, and that of a
/// greater one is that of its tenth with the last digit behind it. So it has no leading zeros
/// and no two numbers share one.
pub proof fn law_a_decimal_text_grows_digit_by_digit(n: u64, text: String, tenth: String)
    requires
        call_ensures(decimal_text, (n,), text),
        call_ensures(decimal_text, (n / 10,), tenth),
    ensures
        n < 10 ==> text@.len() == 1 && text@[0] as int == '0' as int + n,
        n >= 10 ==> text@.len() == tenth@.len() + 1 && text@.take(tenth@.len() as int) == tenth@
            && text@.last() as int == '0' as int + n % 10,
        n > 0 ==> text@[0] != '0',
        forall|i: int| 0 <= i < text@.len() ==> '0' <= #[trigger] text@[i] <= '9',
{
    lemma_decimal(n as nat);
    lemma_no_leading_zero(n as nat);
    if n >= 10 {
        assert(text@.take(tenth@.len() as int) =~= tenth@);
    }
    assert forall|i: int| 0 <= i < text@.len() implies '0' <= #[trigger] text@[i] <= '9' by {
        assert(is_digit(decimal(n as nat)[i]));
    }
}

proof fn lemma_no_leading_zero(n: nat)
    ensures
        n > 0 ==> decimal(n)[0] != '0',
    decreases n,
{
    if n >= 10 {
        lemma_no_leading_zero(n / 10);
        lemma_decimal(n / 10);
    }
}

/// A text of digits is read digit by digit: one digit is its number, and one digit more is ten
/// times the number and the digit, where that still fits.
pub proof fn law_digits_are_read_one_by_one(
    text: &str,
    longer: &str,
    digit: char,
    of_text: Option<u64>,
    of_longer: Option<u64>,
)
    requires
        '0' <= digit <= '9',
        longer@ == text@.push(digit),
        call_ensures(parse_u64, (text,), of_text),
        call_ensures(parse_u64, (longer,), of_longer),
    ensures
        text@.len() == 0 ==> (of_longer matches Some(value) && value == digit as int - '0' as int),
        of_text matches Some(value) ==> ({
            let next = value * 10 + (digit as int - '0' as int);
            if next <= u64::MAX {
                of_longer matches Some(longer) && longer == next
            } else {
                of_longer is None
            }
        }),
{
    let digits = unsigned_digits(text@);
    let more = unsigned_digits(longer@);
    if text@.len() == 0 {
        assert(more =~= seq![digit]);
        assert(more.drop_last() =~= Seq::<char>::empty());
        assert(digits_value(Seq::<char>::empty()) == 0);
        assert(is_digit(more[0]));
    } else if of_text is Some {
        assert(longer@[0] == text@[0]);
        assert(more =~= digits.push(digit));
        assert(more.drop_last() =~= digits);
        assert(all_digits(more)) by {
            assert forall|i: int| 0 <= i < more.len() implies is_digit(#[trigger] more[i]) by {
                if i < digits.len() {
                    assert(is_digit(digits[i]));
                }
            }
        }
    }
}

/// Nothing but digits, behind a plus at most, is a number; and a plus changes nothing.
pub proof fn law_only_digits_are_a_number(text: &str, signed: &str, of_text: Option<u64>, of_signed:
    Option<u64>)
    requires
        signed@ == seq!['+'] + text@,
        call_ensures(parse_u64, (text,), of_text),
        call_ensures(parse_u64, (signed,), of_signed),
    ensures
        text@.len() == 0 ==> of_text is None,
        (exists|i: int|
            1 <= i < text@.len() && !('0' <= #[trigger] text@[i] <= '9')) ==> of_text is None,
        text@.len() > 0 && text@[0] != '+' && !('0' <= text@[0] <= '9') ==> of_text is None,
        text@.len() == 1 && text@[0] == '+' ==> of_text is None,
        text@.len() > 0 && text@[0] == '+' ==> of_signed is None,
        text@.len() == 0 || text@[0] != '+' ==> of_signed == of_text,
{
    let digits = unsigned_digits(text@);
    let of_sign = unsigned_digits(signed@);
    assert(of_sign =~= text@);
    if exists|i: int| 1 <= i < text@.len() && !('0' <= #[trigger] text@[i] <= '9') {
        let i = choose|i: int| 1 <= i < text@.len() && !('0' <= #[trigger] text@[i] <= '9');
        if text@[0] == '+' {
            assert(!is_digit(digits[i - 1]));
        } else {
            assert(!is_digit(digits[i]));
        }
    }
    if text@.len() > 0 && !('0' <= text@[0] <= '9') {
        assert(!is_digit(of_sign[0]));
        if text@[0] != '+' {
            assert(!is_digit(digits[0]));
        }
    }
}

/// A hexadecimal text grows digit by digit too, in lower case, to the width asked for.
pub proof fn law_a_hexadecimal_text_grows_digit_by_digit(
    n: u64,
    width: u32,
    text: String,
    sixteenth: String,
)
    requires
        width > 0,
        call_ensures(hex_text, (n, width), text),
        call_ensures(hex_text, (n / 16, (width - 1) as u32), sixteenth),
    ensures
        text@.len() == width,
        text@.take(width - 1) == sixteenth@,
        n % 16 < 10 ==> text@.last() as int == '0' as int + n % 16,
        n % 16 >= 10 ==> text@.last() as int == 'a' as int + n % 16 - 10,
{
    lemma_hex(n as nat, width as nat);
    lemma_hex((n / 16) as nat, (width - 1) as nat);
    assert(text@.take(width - 1) =~= sixteenth@);
}

/// Where a character first stands among others: at it, with none before; and past the end where
/// it does not stand at all.
pub proof fn law_a_character_is_found_where_it_first_stands(
    chars: &Vec<char>,
    c: char,
    at: usize,
)
    requires
        call_ensures(find_char, (chars, c), at),
    ensures
        at <= chars.len(),
        at < chars.len() ==> chars[at as int] == c,
        forall|i: int| 0 <= i < at ==> #[trigger] chars[i] != c,
{
    lemma_first_index(chars@, c);
    assert forall|i: int| 0 <= i < at implies #[trigger] chars[i] != c by {
        assert(chars@[i] != c);
    }
}

proof fn lemma_ascii_chars_in_bytes(text: Seq<char>, bytes: nat)
    requires
        forall|i: int| 0 <= i < text.len() ==> (#[trigger] text[i]) as u32 <= 0x7f,
    ensures
        bytes <= text.len() ==> chars_in_bytes(text, bytes) == Some(bytes),
        bytes > text.len() ==> chars_in_bytes(text, bytes) is None,
    decreases text.len(),
{
    if bytes > 0 && text.len() > 0 {
        let rest = text.drop_first();
        assert forall|i: int| 0 <= i < rest.len() implies (#[trigger] rest[i]) as u32 <= 0x7f by {
            assert(text[i + 1] as u32 <= 0x7f);
        }
        lemma_ascii_chars_in_bytes(rest, (bytes - 1) as nat);
        assert(text[0] as u32 <= 0x7f);
    }
}

/// A commit id, which is ASCII, is shortened to its first seven characters; a shorter text is
/// left as it is.
pub proof fn law_a_commit_id_is_shortened_to_seven(value: &str, short: &str)
    requires
        forall|i: int| 0 <= i < value@.len() ==> (#[trigger] value@[i]) as u32 <= 0x7f,
        call_ensures(short_sha, (value,), short),
    ensures
        value@.len() >= 7 ==> short@ == value@.take(7),
        value@.len() < 7 ==> short@ == value@,
{
    lemma_ascii_chars_in_bytes(value@, 7);
}

/// Whatever a text is, what it is shortened to is where it begins.
pub proof fn law_a_shortened_text_is_where_it_begins(value: &str, short: &str)
    requires
        call_ensures(short_sha, (value,), short),
    ensures
        short@.len() <= value@.len(),
        short@ == value@.take(short@.len() as int),
        short@ != value@ ==> short@.len() <= 7,
{
    lemma_chars_in_bytes(value@, 7);
    assert(value@.take(value@.len() as int) =~= value@);
}

proof fn lemma_chars_in_bytes(text: Seq<char>, bytes: nat)
    ensures
        chars_in_bytes(text, bytes) matches Some(chars) ==> chars <= text.len() && chars <= bytes,
    decreases text.len(),
{
    if bytes > 0 && text.len() > 0 && utf8_width(text[0]) <= bytes {
        lemma_chars_in_bytes(text.drop_first(), (bytes - utf8_width(text[0])) as nat);
    }
}

/// Texts are joined one by one, with a comma and a space before each but the first.
pub proof fn law_texts_are_joined_one_by_one(
    parts: &Vec<String>,
    more: &Vec<String>,
    last: String,
    text: String,
    longer: String,
)
    requires
        more@ == parts@.push(last),
        call_ensures(join_texts, (parts,), text),
        call_ensures(join_texts, (more,), longer),
    ensures
        parts.len() == 0 ==> text@.len() == 0 && longer@ == last@,
        parts.len() > 0 ==> longer@ == text@ + ", "@ + last@,
{
    let all = all_said(more@);
    assert(all.drop_last() =~= all_said(parts@));
    assert(all.last() == last@);
}

/// What is trimmed of a text is the slashes at its end, all of them and nothing else.
pub proof fn law_only_the_slashes_at_the_end_are_trimmed(text: &str, trimmed: &str)
    requires
        call_ensures(trim_trailing_slashes, (text,), trimmed),
    ensures
        trimmed@.len() <= text@.len(),
        trimmed@ == text@.take(trimmed@.len() as int),
        trimmed@.len() > 0 ==> trimmed@.last() != '/',
        forall|i: int| trimmed@.len() <= i < text@.len() ==> #[trigger] text@[i] == '/',
{
    lemma_trailing_slashes(text@);
}

pub proof fn lemma_trailing_slashes(text: Seq<char>)
    ensures
        ({
            let trimmed = without_trailing_slashes(text);
            &&& trimmed.len() <= text.len()
            &&& trimmed == text.take(trimmed.len() as int)
            &&& trimmed.len() > 0 ==> trimmed.last() != '/'
            &&& forall|i: int| trimmed.len() <= i < text.len() ==> #[trigger] text[i] == '/'
        }),
    decreases text.len(),
{
    let trimmed = without_trailing_slashes(text);
    if text.len() > 0 && text.last() == '/' {
        let shorter = text.drop_last();
        lemma_trailing_slashes(shorter);
        assert(text.take(trimmed.len() as int) =~= shorter.take(trimmed.len() as int));
        assert forall|i: int| trimmed.len() <= i < text.len() implies #[trigger] text[i] == '/' by {
            if i < shorter.len() {
                assert(shorter[i] == '/');
            }
        }
    } else {
        assert(text.take(text.len() as int) =~= text);
    }
}

/// Bytes are an ASCII word where each is that of the word's character at its place.
pub proof fn law_bytes_are_a_word_character_by_character(bytes: &[u8], word: &str, same: bool)
    requires
        call_ensures(is_word, (bytes, word), same),
    ensures
        same <==> bytes@.len() == word@.len() && forall|i: int|
            0 <= i < bytes@.len() ==> #[trigger] bytes@[i] == word@[i] as u8,
{
    if bytes@.len() == word@.len() && forall|i: int|
        0 <= i < bytes@.len() ==> #[trigger] bytes@[i] == word@[i] as u8 {
        assert(bytes@ =~= ascii(word@));
    }
    if same {
        assert forall|i: int| 0 <= i < bytes@.len() implies #[trigger] bytes@[i]
            == word@[i] as u8 by {
            assert(ascii(word@)[i] == word@[i] as u8);
        }
    }
}

/// An optional text says a word where there is a text and it is that word.
pub proof fn law_what_an_optional_text_says(
    text: &str,
    word: &str,
    of_text: bool,
    of_none: bool,
    owned: String,
    borrowed: Option<&str>,
    borrowed_none: Option<&str>,
)
    requires
        call_ensures(says, (Some(text), word), of_text),
        call_ensures(says, (None::<&str>, word), of_none),
        call_ensures(borrow_text, (&Some(owned),), borrowed),
        call_ensures(borrow_text, (&None::<String>,), borrowed_none),
    ensures
        of_text <==> text@ == word@,
        !of_none,
        borrowed matches Some(borrowed) && borrowed@ == owned@,
        borrowed_none is None,
{
}

proof fn lemma_bytes_of_chars(text: Seq<char>, bytes: nat)
    ensures
        match chars_in_bytes(text, bytes) {
            Some(chars) => chars <= text.len() && encode_utf8(text.take(chars as int)).len()
                == bytes,
            None => forall|k: int|
                0 <= k <= text.len() ==> encode_utf8(#[trigger] text.take(k)).len() != bytes,
        },
    decreases text.len(),
{
    assert(text.take(0) =~= Seq::<char>::empty());
    if bytes > 0 && text.len() > 0 {
        let rest = text.drop_first();
        let width = utf8_width(text[0]);
        vstd::utf8::char_is_scalar(text[0]);
        assert forall|k: int| 1 <= k <= text.len() implies encode_utf8(#[trigger] text.take(k)).len()
            == width + encode_utf8(rest.take(k - 1)).len() by {
            assert(text.take(k).drop_first() =~= rest.take(k - 1));
            assert(text.take(k)[0] == text[0]);
            assert(encode_utf8(text.take(k)) == vstd::utf8::encode_scalar(text[0] as u32)
                + encode_utf8(text.take(k).drop_first()));
            assert(vstd::utf8::encode_scalar(text[0] as u32).len() == width);
        }
        if width <= bytes {
            lemma_bytes_of_chars(rest, (bytes - width) as nat);
        }
    }
}

/// Whatever it is made of, a text is shortened where its first seven bytes end a character, and
/// is left whole where they do not.
pub proof fn law_a_text_is_shortened_where_seven_bytes_end_a_character(value: &str, short: &str)
    requires
        call_ensures(short_sha, (value,), short),
    ensures
        (exists|k: int|
            0 <= k <= value@.len() && encode_utf8(#[trigger] value@.take(k)).len() == 7)
            ==> encode_utf8(short@).len() == 7 && short@ == value@.take(short@.len() as int),
        (forall|k: int|
            0 <= k <= value@.len() ==> encode_utf8(#[trigger] value@.take(k)).len() != 7)
            ==> short@ == value@,
{
    lemma_bytes_of_chars(value@, 7);
}

} // verus!
