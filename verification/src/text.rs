//! Text primitives: building, comparing, splitting, rendering and reading strings.
//!
//! A string is modelled by its sequence of characters.

use vstd::prelude::*;
use vstd::utf8::*;

verus! {

/// `String::push` appends one character to the end of the string.
pub assume_specification[ String::push ](target: &mut String, ch: char)
    ensures
        final(target)@ == old(target)@.push(ch),
;

/// What `String::from_utf8_lossy` makes of `bytes`: the decoded text, with replacement
/// characters where the bytes are not UTF-8.
pub uninterp spec fn utf8_lossy(bytes: Seq<u8>) -> Seq<char>;

/// `String::from_utf8_lossy`, as an owned string. Valid UTF-8 is decoded as it is; what stands
/// for malformed bytes is only named.
#[verifier::external_body]
pub(crate) fn decode_lossy(bytes: &[u8]) -> (text: String)
    ensures
        text@ == utf8_lossy(bytes@),
        valid_utf8(bytes@) ==> text@ == decode_utf8(bytes@),
{
    String::from_utf8_lossy(bytes).into_owned()
}

/// The text that bytes hold: what they encode where they are UTF-8, and what stands for them
/// where they are not.
pub open spec fn decoded(bytes: Seq<u8>) -> Seq<char> {
    if valid_utf8(bytes) {
        decode_utf8(bytes)
    } else {
        utf8_lossy(bytes)
    }
}

/// A text that was encoded is decoded as it was.
pub proof fn law_encoded_text_reads_back(chars: Seq<char>)
    ensures
        decoded(encode_utf8(chars)) == chars,
{
    encode_utf8_valid_utf8(chars);
    encode_utf8_decode_utf8(chars);
}

/// No character of a text is the zero one.
pub open spec fn without_zero(chars: Seq<char>) -> bool {
    forall|i: int| 0 <= i < chars.len() ==> #[trigger] chars[i] != '\0'
}

/// A text without the zero character is encoded without the zero byte.
pub proof fn lemma_encoded_without_zero(chars: Seq<char>)
    requires
        without_zero(chars),
    ensures
        forall|i: int| 0 <= i < encode_utf8(chars).len() ==> #[trigger] encode_utf8(chars)[i] != 0,
    decreases chars.len(),
{
    if chars.len() > 0 {
        let rest = chars.drop_first();
        assert forall|i: int| 0 <= i < rest.len() implies #[trigger] rest[i] != '\0' by {
            assert(rest[i] == chars[i + 1]);
        }
        lemma_encoded_without_zero(rest);
        let ch: char = chars[0];
        char_is_scalar(ch);
        let code = ch as u32;
        assert(code != 0) by {
            char_u32_cast(ch, code);
            assert(ch != '\0');
            assert(0u32 as char == '\0');
        }
        assert(0 < code <= 0x7f ==> (code & 0x7f) as u8 != 0) by (bit_vector);
        assert(0xC0 | ((code >> 6) & 0x1F) as u8 != 0 && 0xE0 | ((code >> 12) & 0x0F) as u8 != 0
            && 0xF0 | ((code >> 18) & 0x7) as u8 != 0 && 0x80 | (code & 0x3F) as u8 != 0 && 0x80
            | ((code >> 6) & 0x3F) as u8 != 0 && 0x80 | ((code >> 12) & 0x3F) as u8 != 0)
            by (bit_vector);
        let first = encode_scalar(code);
        let bytes = encode_utf8(chars);
        assert(bytes == first + encode_utf8(rest));
        assert forall|i: int| 0 <= i < bytes.len() implies #[trigger] bytes[i] != 0 by {
            if i >= first.len() {
                assert(bytes[i] == encode_utf8(rest)[i - first.len()]);
            } else {
                assert(bytes[i] == first[i]);
            }
        }
    }
}

/// The characters of `text`, in order.
pub fn chars_of(text: &str) -> (chars: Vec<char>)
    ensures
        chars@ == text@,
{
    let mut chars: Vec<char> = Vec::new();
    for ch in it: text.chars()
        invariant
            it.seq() == text@,
            chars@ == text@.take(it.index() as int),
    {
        chars.push(ch);
    }
    chars
}

/// The string made of `chars[start..end]`.
pub fn string_of(chars: &Vec<char>, start: usize, end: usize) -> (text: String)
    requires
        start <= end <= chars.len(),
    ensures
        text@ == chars@.subrange(start as int, end as int),
{
    let mut text: String = String::new();
    let mut i: usize = start;
    while i < end
        invariant
            start <= i <= end <= chars.len(),
            text@ == chars@.subrange(start as int, i as int),
        decreases end - i,
    {
        text.push(chars[i]);
        i += 1;
        assert(text@ =~= chars@.subrange(start as int, i as int));
    }
    text
}

/// Whether the two strings hold the same characters.
pub fn same_text(left: &str, right: &str) -> (same: bool)
    ensures
        same == (left@ == right@),
{
    let a: Vec<char> = chars_of(left);
    let b: Vec<char> = chars_of(right);
    if a.len() != b.len() {
        return false;
    }
    let mut i: usize = 0;
    while i < a.len()
        invariant
            a@ == left@,
            b@ == right@,
            a.len() == b.len(),
            i <= a.len(),
            forall|j: int| 0 <= j < i ==> a@[j] == b@[j],
        decreases a.len() - i,
    {
        if a[i] != b[i] {
            return false;
        }
        i += 1;
    }
    assert(left@ =~= right@);
    true
}

/// Whether the string holds no character.
pub fn is_blank(text: &str) -> (blank: bool)
    ensures
        blank == (text@.len() == 0),
{
    chars_of(text).len() == 0
}

/// The characters of an optional string.
pub open spec fn option_view(text: Option<String>) -> Option<Seq<char>> {
    match text {
        Some(t) => Some(t@),
        None => None,
    }
}

/// A copy of an optional string.
pub fn copy_option(text: &Option<String>) -> (copy: Option<String>)
    ensures
        copy == *text,
{
    match text {
        Some(t) => Some(t.clone()),
        None => None,
    }
}

/// `text` begins with `prefix`.
pub open spec fn has_prefix(text: Seq<char>, prefix: Seq<char>) -> bool {
    prefix.len() <= text.len() && text.take(prefix.len() as int) == prefix
}

/// Whether `text` begins with `prefix`.
pub fn starts_with(text: &str, prefix: &str) -> (starts: bool)
    ensures
        starts == has_prefix(text@, prefix@),
{
    let a: Vec<char> = chars_of(text);
    let b: Vec<char> = chars_of(prefix);
    if a.len() < b.len() {
        return false;
    }
    let mut i: usize = 0;
    while i < b.len()
        invariant
            a@ == text@,
            b@ == prefix@,
            b.len() <= a.len(),
            i <= b.len(),
            forall|j: int| 0 <= j < i ==> a@[j] == b@[j],
        decreases b.len() - i,
    {
        if a[i] != b[i] {
            assert(text@.take(prefix@.len() as int)[i as int] != prefix@[i as int]);
            return false;
        }
        i += 1;
    }
    assert(text@.take(prefix@.len() as int) =~= prefix@);
    true
}

/// The characters that Unicode calls white space.
pub open spec fn is_white_space(ch: char) -> bool {
    let code = ch as u32;
    ||| 0x09 <= code <= 0x0d
    ||| code == 0x20
    ||| code == 0x85
    ||| code == 0xa0
    ||| code == 0x1680
    ||| 0x2000 <= code <= 0x200a
    ||| code == 0x2028
    ||| code == 0x2029
    ||| code == 0x202f
    ||| code == 0x205f
    ||| code == 0x3000
}

/// Whether `ch` is white space.
pub fn white_space(ch: char) -> (white: bool)
    ensures
        white == is_white_space(ch),
{
    let code: u32 = ch as u32;
    (0x09 <= code && code <= 0x0d) || code == 0x20 || code == 0x85 || code == 0xa0 || code == 0x1680
        || (0x2000 <= code && code <= 0x200a) || code == 0x2028 || code == 0x2029 || code == 0x202f
        || code == 0x205f || code == 0x3000
}

/// `text` without its leading white space.
pub open spec fn trimmed_start(text: Seq<char>) -> Seq<char>
    decreases text.len(),
{
    if text.len() > 0 && is_white_space(text[0]) {
        trimmed_start(text.drop_first())
    } else {
        text
    }
}

/// `text` without its trailing white space.
pub open spec fn trimmed_end(text: Seq<char>) -> Seq<char>
    decreases text.len(),
{
    if text.len() > 0 && is_white_space(text.last()) {
        trimmed_end(text.drop_last())
    } else {
        text
    }
}

/// `text` without leading and trailing white space.
pub open spec fn trimmed(text: Seq<char>) -> Seq<char> {
    trimmed_end(trimmed_start(text))
}

/// A copy of `text` without leading and trailing white space.
pub fn trim(text: &str) -> (inner: String)
    ensures
        inner@ == trimmed(text@),
{
    let chars: Vec<char> = chars_of(text);
    let mut start: usize = 0;
    assert(text@.skip(0) =~= text@);
    while start < chars.len() && white_space(chars[start])
        invariant
            chars@ == text@,
            start <= chars.len(),
            trimmed_start(text@) == trimmed_start(text@.skip(start as int)),
        decreases chars.len() - start,
    {
        assert(text@.skip(start as int).drop_first() =~= text@.skip(start + 1));
        start += 1;
    }
    let mut end: usize = chars.len();
    assert(text@.skip(start as int) =~= text@.subrange(start as int, end as int));
    while start < end && white_space(chars[end - 1])
        invariant
            chars@ == text@,
            start <= end <= chars.len(),
            trimmed(text@) == trimmed_end(text@.subrange(start as int, end as int)),
        decreases end - start,
    {
        assert(text@.subrange(start as int, end as int).drop_last() =~= text@.subrange(
            start as int,
            end - 1,
        ));
        end -= 1;
    }
    string_of(&chars, start, end)
}

/// `word` alone when it has a character, else nothing.
pub open spec fn word_if_any(word: Seq<char>) -> Seq<Seq<char>> {
    if word.len() > 0 {
        seq![word]
    } else {
        Seq::empty()
    }
}

/// The words of `word` followed by `rest`, where `word` holds no white space.
pub open spec fn words_from(word: Seq<char>, rest: Seq<char>) -> Seq<Seq<char>>
    decreases rest.len(),
{
    if rest.len() == 0 {
        word_if_any(word)
    } else if is_white_space(rest[0]) {
        word_if_any(word) + words_from(Seq::empty(), rest.drop_first())
    } else {
        words_from(word.push(rest[0]), rest.drop_first())
    }
}

/// The maximal runs of characters of `text` that are not white space.
pub open spec fn words(text: Seq<char>) -> Seq<Seq<char>> {
    words_from(Seq::empty(), text)
}

/// The characters of each string of a list.
pub open spec fn views(list: Seq<String>) -> Seq<Seq<char>> {
    list.map_values(|item: String| item@)
}

/// The words of `text`, in order.
pub fn split_whitespace(text: &str) -> (list: Vec<String>)
    ensures
        views(list@) == words(text@),
{
    let chars: Vec<char> = chars_of(text);
    let mut list: Vec<String> = Vec::new();
    let mut word: String = String::new();
    let mut empty: bool = true;
    let mut i: usize = 0;
    assert(text@.skip(0) =~= text@);
    assert(views(list@) + words_from(word@, text@) =~= words(text@));
    while i < chars.len()
        invariant
            chars@ == text@,
            i <= chars.len(),
            empty == (word@.len() == 0),
            views(list@) + words_from(word@, text@.skip(i as int)) == words(text@),
        decreases chars.len() - i,
    {
        let ghost before = list@;
        let ghost held = word@;
        let ghost rest = text@.skip(i as int);
        assert(rest.drop_first() =~= text@.skip(i + 1));
        if white_space(chars[i]) {
            if !empty {
                list.push(word);
                word = String::new();
                empty = true;
            }
            assert(word@ =~= Seq::<char>::empty());
            assert(views(list@) =~= views(before) + word_if_any(held));
            assert(views(before) + (word_if_any(held) + words_from(Seq::empty(), rest.drop_first()))
                =~= views(list@) + words_from(word@, rest.drop_first()));
        } else {
            word.push(chars[i]);
            empty = false;
        }
        i += 1;
    }
    assert(text@.skip(i as int) =~= Seq::<char>::empty());
    let ghost before = list@;
    let ghost held = word@;
    if !empty {
        list.push(word);
    }
    assert(views(list@) =~= views(before) + word_if_any(held));
    list
}

/// The decimal digit `digit`, a number below ten.
pub open spec fn digit_char(digit: nat) -> char {
    (48 + digit) as char
}

/// The decimal digits of `number`, without leading zeros.
pub open spec fn decimal(number: nat) -> Seq<char>
    decreases number,
{
    if number < 10 {
        seq![digit_char(number)]
    } else {
        decimal(number / 10).push(digit_char(number % 10))
    }
}

/// The decimal digits of `number`, after a minus sign where it is negative.
pub open spec fn signed_decimal(number: int) -> Seq<char> {
    if number < 0 {
        seq!['-'] + decimal((-number) as nat)
    } else {
        decimal(number as nat)
    }
}

/// Appends the decimal digits of `number`.
pub fn push_decimal(out: &mut String, number: u128)
    ensures
        final(out)@ == old(out)@ + decimal(number as nat),
    decreases number,
{
    if number >= 10 {
        push_decimal(out, number / 10);
    }
    let digit: u8 = (number % 10) as u8;
    out.push((48u8 + digit) as char);
    assert(out@ =~= old(out)@ + decimal(number as nat));
}

/// Appends `number` in decimal, with a minus sign where it is negative.
pub fn push_signed(out: &mut String, number: i64)
    ensures
        final(out)@ == old(out)@ + signed_decimal(number as int),
{
    if number < 0 {
        out.push('-');
        let magnitude: i128 = 0 - (number as i128);
        push_decimal(out, magnitude as u128);
        assert(out@ =~= old(out)@ + signed_decimal(number as int));
    } else {
        push_decimal(out, number as u128);
    }
}

/// The lower-case hexadecimal digit `digit`, a number below sixteen.
pub open spec fn hex_char(digit: nat) -> char {
    if digit < 10 {
        (48 + digit) as char
    } else {
        (87 + digit) as char
    }
}

/// The last `width` lower-case hexadecimal digits of `number`.
pub open spec fn hex(number: nat, width: nat) -> Seq<char>
    decreases width,
{
    if width == 0 {
        Seq::empty()
    } else {
        hex(number / 16, (width - 1) as nat).push(hex_char(number % 16))
    }
}

/// Appends the last `width` hexadecimal digits of `number`.
pub fn push_hex(out: &mut String, number: u64, width: u8)
    ensures
        final(out)@ == old(out)@ + hex(number as nat, width as nat),
    decreases width,
{
    if width > 0 {
        push_hex(out, number / 16, width - 1);
        let digit: u8 = (number % 16) as u8;
        if digit < 10 {
            out.push((48u8 + digit) as char);
        } else {
            out.push((87u8 + digit) as char);
        }
    }
    assert(out@ =~= old(out)@ + hex(number as nat, width as nat));
}

/// The value of `ch` as a digit of base ten or sixteen.
pub open spec fn digit_value(ch: char, radix: nat) -> Option<nat> {
    let code = ch as u32;
    if 48 <= code <= 57 {
        Some((code - 48) as nat)
    } else if radix == 16 && 97 <= code <= 102 {
        Some((code - 87) as nat)
    } else if radix == 16 && 65 <= code <= 70 {
        Some((code - 55) as nat)
    } else {
        None
    }
}

/// Every character of `digits` is a digit.
pub open spec fn all_digits(digits: Seq<char>, radix: nat) -> bool {
    forall|i: int| 0 <= i < digits.len() ==> digit_value(#[trigger] digits[i], radix) is Some
}

/// The number that `digits` writes.
pub open spec fn digits_value(digits: Seq<char>, radix: nat) -> nat
    decreases digits.len(),
{
    if digits.len() == 0 {
        0
    } else {
        digits_value(digits.drop_last(), radix) * radix + digit_value(digits.last(), radix)->0
    }
}

/// `text` without one leading plus sign.
pub open spec fn without_plus(text: Seq<char>) -> Seq<char> {
    if text.len() > 0 && text[0] == '+' {
        text.drop_first()
    } else {
        text
    }
}

/// The unsigned number that `text` writes: digits after an optional plus sign.
pub open spec fn unsigned_value(text: Seq<char>, radix: nat) -> Option<nat> {
    let digits = without_plus(text);
    if digits.len() > 0 && all_digits(digits, radix) {
        Some(digits_value(digits, radix))
    } else {
        None
    }
}

fn digit_of(ch: char, radix: u32) -> (digit: Option<u8>)
    requires
        radix == 10 || radix == 16,
    ensures
        match digit {
            Some(d) => digit_value(ch, radix as nat) == Some(d as nat) && d < radix,
            None => digit_value(ch, radix as nat) is None,
        },
{
    let code: u32 = ch as u32;
    if 48 <= code && code <= 57 {
        Some((code - 48) as u8)
    } else if radix == 16 && 97 <= code && code <= 102 {
        Some((code - 87) as u8)
    } else if radix == 16 && 65 <= code && code <= 70 {
        Some((code - 55) as u8)
    } else {
        None
    }
}

/// Reads an unsigned number of base ten or sixteen: nothing where `text` writes none, or one
/// that does not fit.
pub fn parse_unsigned(text: &str, radix: u32) -> (number: Option<u128>)
    requires
        radix == 10 || radix == 16,
    ensures
        match (number, unsigned_value(text@, radix as nat)) {
            (Some(n), Some(value)) => n == value,
            (None, Some(value)) => value > u128::MAX,
            (None, None) => true,
            (Some(_), None) => false,
        },
{
    let chars: Vec<char> = chars_of(text);
    let mut start: usize = 0;
    if chars.len() > 0 && chars[0] == '+' {
        start = 1;
    }
    let ghost digits = without_plus(text@);
    assert(digits =~= text@.skip(start as int));
    if start == chars.len() {
        return None;
    }
    let mut value: u128 = 0;
    let mut fits: bool = true;
    let mut i: usize = start;
    assert(digits.take(0) =~= Seq::<char>::empty());
    while i < chars.len()
        invariant
            chars@ == text@,
            radix == 10 || radix == 16,
            start <= i <= chars.len(),
            digits == text@.skip(start as int),
            digits == without_plus(text@),
            forall|j: int|
                0 <= j < i - start ==> digit_value(#[trigger] digits[j], radix as nat) is Some,
            fits ==> value == digits_value(digits.take(i - start), radix as nat),
            !fits ==> digits_value(digits.take(i - start), radix as nat) > u128::MAX,
        decreases chars.len() - i,
    {
        let ghost longer = digits.take(i + 1 - start);
        assert(longer.drop_last() =~= digits.take(i - start));
        assert(longer.last() == digits[i - start]);
        assert(digits[i - start] == chars[i as int]);
        match digit_of(chars[i], radix) {
            None => {
                assert(!all_digits(digits, radix as nat));
                return None;
            },
            Some(digit) => {
                proof {
                    let shorter = digits_value(digits.take(i - start), radix as nat);
                    assert(shorter <= shorter * radix) by (nonlinear_arith)
                        requires
                            radix >= 1,
                    ;
                }
                if fits {
                    match value.checked_mul(radix as u128) {
                        None => {
                            fits = false;
                        },
                        Some(scaled) => {
                            match scaled.checked_add(digit as u128) {
                                None => {
                                    fits = false;
                                },
                                Some(sum) => {
                                    value = sum;
                                },
                            }
                        },
                    }
                }
            },
        }
        i += 1;
    }
    assert(digits.take(i - start) =~= digits);
    if fits {
        Some(value)
    } else {
        None
    }
}

/// `left` stands before `right` in the order of their characters.
pub open spec fn text_before(left: Seq<char>, right: Seq<char>) -> bool
    decreases left.len(),
{
    if right.len() == 0 {
        false
    } else if left.len() == 0 {
        true
    } else if left[0] == right[0] {
        text_before(left.drop_first(), right.drop_first())
    } else {
        left[0] < right[0]
    }
}

/// Whether `left` stands before `right` in the order of their characters.
pub fn comes_before(left: &str, right: &str) -> (before: bool)
    ensures
        before == text_before(left@, right@),
{
    let a: Vec<char> = chars_of(left);
    let b: Vec<char> = chars_of(right);
    let mut i: usize = 0;
    assert(left@.skip(0) =~= left@);
    assert(right@.skip(0) =~= right@);
    while i < a.len() && i < b.len() && a[i] == b[i]
        invariant
            a@ == left@,
            b@ == right@,
            i <= a.len(),
            i <= b.len(),
            text_before(left@, right@) == text_before(left@.skip(i as int), right@.skip(i as int)),
        decreases a.len() - i,
    {
        assert(left@.skip(i as int).drop_first() =~= left@.skip(i + 1));
        assert(right@.skip(i as int).drop_first() =~= right@.skip(i + 1));
        i += 1;
    }
    if i == b.len() {
        false
    } else if i == a.len() {
        true
    } else {
        a[i] < b[i]
    }
}

/// `count` spaces.
pub open spec fn spaces(count: int) -> Seq<char> {
    if count > 0 {
        Seq::new(count as nat, |i: int| ' ')
    } else {
        Seq::empty()
    }
}

/// Appends `count` spaces.
pub fn push_spaces(out: &mut String, count: usize)
    ensures
        final(out)@ == old(out)@ + spaces(count as int),
{
    let mut i: usize = 0;
    while i < count
        invariant
            i <= count,
            out@ == old(out)@ + spaces(i as int),
        decreases count - i,
    {
        out.push(' ');
        i += 1;
        assert(out@ =~= old(out)@ + spaces(i as int));
    }
    assert(out@ =~= old(out)@ + spaces(count as int));
}

/// `text` filled up with spaces on its left to `width` characters.
pub open spec fn padded_left(text: Seq<char>, width: nat) -> Seq<char> {
    spaces(width - text.len()) + text
}

/// `text` filled up with spaces on its right to `width` characters.
pub open spec fn padded_right(text: Seq<char>, width: nat) -> Seq<char> {
    text + spaces(width - text.len())
}

/// Appends `text`, filled up with spaces on its left to `width` characters.
pub fn push_padded_left(out: &mut String, text: &str, width: usize)
    ensures
        final(out)@ == old(out)@ + padded_left(text@, width as nat),
{
    let length: usize = chars_of(text).len();
    if length < width {
        push_spaces(out, width - length);
    }
    out.append(text);
    assert(out@ =~= old(out)@ + padded_left(text@, width as nat));
}

/// Appends `text`, filled up with spaces on its right to `width` characters.
pub fn push_padded_right(out: &mut String, text: &str, width: usize)
    ensures
        final(out)@ == old(out)@ + padded_right(text@, width as nat),
{
    let length: usize = chars_of(text).len();
    out.append(text);
    if length < width {
        push_spaces(out, width - length);
    }
    assert(out@ =~= old(out)@ + padded_right(text@, width as nat));
}

/// The digits of a number read back as that number.
pub proof fn law_decimal_reads_back(number: nat)
    ensures
        unsigned_value(decimal(number), 10) == Some(number),
        decimal(number).len() > 0,
        forall|i: int|
            0 <= i < decimal(number).len() ==> !is_white_space(#[trigger] decimal(number)[i]),
{
    lemma_decimal_digits(number);
    let digits = decimal(number);
    assert(digit_value(digits[0], 10) is Some);
    assert(without_plus(digits) == digits);
}

proof fn lemma_decimal_digits(number: nat)
    ensures
        decimal(number).len() > 0,
        all_digits(decimal(number), 10),
        digits_value(decimal(number), 10) == number,
        forall|i: int|
            0 <= i < decimal(number).len() ==> 48 <= (#[trigger] decimal(number)[i]) as u32 <= 57,
    decreases number,
{
    let digits = decimal(number);
    if number < 10 {
        assert(digits.drop_last() =~= Seq::<char>::empty());
        assert(digits_value(digits.drop_last(), 10) == 0);
        assert(digit_value(digits.last(), 10) == Some(number));
    } else {
        lemma_decimal_digits(number / 10);
        assert(digits.drop_last() =~= decimal(number / 10));
        assert(digit_value(digits.last(), 10) == Some(number % 10));
    }
}

proof fn lemma_words_run(word: Seq<char>, run: Seq<char>, rest: Seq<char>)
    requires
        forall|i: int| 0 <= i < run.len() ==> !is_white_space(#[trigger] run[i]),
    ensures
        words_from(word, run + rest) == words_from(word + run, rest),
    decreases run.len(),
{
    if run.len() == 0 {
        assert(run + rest =~= rest);
        assert(word + run =~= word);
    } else {
        let tail = run.drop_first();
        assert(!is_white_space(run[0]));
        assert((run + rest)[0] == run[0]);
        assert((run + rest).drop_first() =~= tail + rest);
        assert forall|i: int| 0 <= i < tail.len() implies !is_white_space(#[trigger] tail[i]) by {
            assert(tail[i] == run[i + 1]);
        }
        lemma_words_run(word.push(run[0]), tail, rest);
        assert(word.push(run[0]) + tail =~= word + run);
    }
}

/// Two words with a space between them are these two words.
pub proof fn law_two_words(first: Seq<char>, second: Seq<char>)
    requires
        first.len() > 0,
        second.len() > 0,
        forall|i: int| 0 <= i < first.len() ==> !is_white_space(#[trigger] first[i]),
        forall|i: int| 0 <= i < second.len() ==> !is_white_space(#[trigger] second[i]),
    ensures
        words(first + seq![' '] + second) == seq![first, second],
{
    let none = Seq::<char>::empty();
    let rest = seq![' '] + second;
    assert(first + seq![' '] + second =~= first + rest);
    lemma_words_run(none, first, rest);
    assert(none + first =~= first);
    assert(rest[0] == ' ');
    assert(rest.drop_first() =~= second);
    lemma_words_run(none, second, none);
    assert(second + none =~= second);
    assert(none + second =~= second);
    assert(words_from(first, rest) =~= seq![first, second]);
}

/// Every character of a text is white space.
pub open spec fn all_white(chars: Seq<char>) -> bool {
    forall|i: int| 0 <= i < chars.len() ==> is_white_space(#[trigger] chars[i])
}

/// The white space is taken off at both ends, all of it and nothing else: what is left begins
/// and ends with other characters, unless nothing is left.
pub proof fn law_trimming_takes_the_outer_white_space(
    before: Seq<char>,
    inner: Seq<char>,
    after: Seq<char>,
)
    requires
        all_white(before),
        all_white(after),
        inner.len() > 0 ==> !is_white_space(inner[0]) && !is_white_space(inner[inner.len() - 1]),
    ensures
        trimmed(before + inner + after) == inner,
{
    lemma_trimmed_start(before, inner + after);
    assert(before + inner + after =~= before + (inner + after));
    if inner.len() > 0 {
        assert((inner + after)[0] == inner[0]);
        lemma_trimmed_end(inner, after);
    } else {
        let none = Seq::<char>::empty();
        assert(inner + after =~= after);
        assert(after + none =~= after);
        lemma_trimmed_start(after, none);
        assert(trimmed(before + inner + after) =~= inner);
    }
}

proof fn lemma_trimmed_start(before: Seq<char>, rest: Seq<char>)
    requires
        all_white(before),
    ensures
        trimmed_start(before + rest) == trimmed_start(rest),
    decreases before.len(),
{
    if before.len() == 0 {
        assert(before + rest =~= rest);
    } else {
        assert((before + rest)[0] == before[0]);
        assert((before + rest).drop_first() =~= before.drop_first() + rest);
        lemma_trimmed_start(before.drop_first(), rest);
    }
}

proof fn lemma_trimmed_end(inner: Seq<char>, after: Seq<char>)
    requires
        all_white(after),
        inner.len() > 0,
        !is_white_space(inner.last()),
    ensures
        trimmed_end(inner + after) == inner,
    decreases after.len(),
{
    if after.len() == 0 {
        assert(inner + after =~= inner);
    } else {
        assert((inner + after).last() == after.last());
        assert(is_white_space(after[after.len() - 1]));
        assert((inner + after).drop_last() =~= inner + after.drop_last());
        lemma_trimmed_end(inner, after.drop_last());
    }
}

/// White space divides words: those before it and those after it are the words of the whole, and
/// a text without any is one word, or none where it is empty.
pub proof fn law_white_space_divides_words(before: Seq<char>, ch: char, after: Seq<char>)
    ensures
        is_white_space(ch) ==> words(before + seq![ch] + after) == words(before) + words(after),
        before.len() == 0 ==> words(before) == Seq::<Seq<char>>::empty(),
        before.len() > 0 && (forall|i: int|
            0 <= i < before.len() ==> !is_white_space(#[trigger] before[i])) ==> words(before)
            == seq![before],
{
    let none = Seq::<char>::empty();
    if is_white_space(ch) {
        assert(before + seq![ch] + after =~= before + (seq![ch] + after));
        lemma_words_divide(none, before, ch, after);
    }
    if before.len() > 0 && (forall|i: int|
        0 <= i < before.len() ==> !is_white_space(#[trigger] before[i])) {
        lemma_words_run(none, before, none);
        assert(before + none =~= before);
        assert(none + before =~= before);
    }
}

proof fn lemma_words_divide(word: Seq<char>, before: Seq<char>, ch: char, after: Seq<char>)
    requires
        is_white_space(ch),
    ensures
        words_from(word, before + (seq![ch] + after)) == words_from(word, before) + words(after),
    decreases before.len(),
{
    let rest = seq![ch] + after;
    let whole = before + rest;
    if before.len() == 0 {
        assert(whole =~= rest);
        assert(whole.drop_first() =~= after);
    } else {
        assert(whole[0] == before[0]);
        assert(whole.drop_first() =~= before.drop_first() + rest);
        if is_white_space(before[0]) {
            lemma_words_divide(Seq::empty(), before.drop_first(), ch, after);
            assert(words_from(word, whole) =~= words_from(word, before) + words(after));
        } else {
            lemma_words_divide(word.push(before[0]), before.drop_first(), ch, after);
        }
    }
}

/// A number is written in the ten digits, the higher places first and without leading zeros.
pub proof fn law_decimal_writes_the_higher_places_first(number: nat, digit: nat)
    requires
        digit < 10,
    ensures
        decimal(digit) == seq!["0123456789"@[digit as int]],
        number > 0 ==> decimal(10 * number + digit) == decimal(number).push(
            "0123456789"@[digit as int],
        ),
        signed_decimal(number as int) == decimal(number),
        number > 0 ==> signed_decimal(-number) == seq!['-'] + decimal(number),
{
    reveal_strlit("0123456789");
    assert((10 * number + digit) / 10 == number && (10 * number + digit) % 10 == digit);
    assert("0123456789"@[digit as int] == digit_char(digit));
}

/// Hexadecimal digits are the ten and the small letters up to `f`, the higher places first, and
/// as many as are asked for.
pub proof fn law_hex_writes_the_higher_places_first(number: nat, digit: nat, width: nat)
    requires
        digit < 16,
    ensures
        hex(number, width).len() == width,
        hex(16 * number + digit, width + 1) == hex(number, width).push(
            "0123456789abcdef"@[digit as int],
        ),
    decreases width,
{
    reveal_strlit("0123456789abcdef");
    assert((16 * number + digit) / 16 == number && (16 * number + digit) % 16 == digit);
    assert("0123456789abcdef"@[digit as int] == hex_char(digit));
    if width > 0 {
        law_hex_writes_the_higher_places_first(number / 16, digit, (width - 1) as nat);
    }
}

/// Texts are ordered by the first character in which they differ, and one that another begins
/// with comes before it.
pub proof fn law_text_order_is_that_of_the_first_difference(
    common: Seq<char>,
    left: Seq<char>,
    right: Seq<char>,
)
    ensures
        left.len() > 0 && right.len() > 0 && left[0] != right[0] ==> text_before(
            common + left,
            common + right,
        ) == (left[0] < right[0]),
        right.len() > 0 ==> text_before(common, common + right) && !text_before(
            common + right,
            common,
        ),
        !text_before(common, common),
    decreases common.len(),
{
    if common.len() == 0 {
        assert(common + left =~= left);
        assert(common + right =~= right);
    } else {
        let tail = common.drop_first();
        law_text_order_is_that_of_the_first_difference(tail, left, right);
        assert((common + left).drop_first() =~= tail + left);
        assert((common + right).drop_first() =~= tail + right);
        assert((common + left)[0] == common[0]);
        assert((common + right)[0] == common[0]);
    }
}

/// Filling up adds spaces on one side, as many as are missing, and takes nothing away.
pub proof fn law_filling_up_adds_spaces(chars: Seq<char>, width: nat)
    ensures
        ({
            let left = padded_left(chars, width);
            let right = padded_right(chars, width);
            let length = if chars.len() < width {
                width
            } else {
                chars.len()
            };
            &&& left.len() == length
            &&& right.len() == length
            &&& left.skip(length - chars.len()) == chars
            &&& right.take(chars.len() as int) == chars
            &&& forall|i: int| 0 <= i < length - chars.len() ==> #[trigger] left[i] == ' '
            &&& forall|i: int| chars.len() <= i < length ==> #[trigger] right[i] == ' '
        }),
{
    let length = if chars.len() < width {
        width
    } else {
        chars.len()
    };
    assert(padded_left(chars, width).skip(length - chars.len()) =~= chars);
    assert(padded_right(chars, width).take(chars.len() as int) =~= chars);
}

/// The blank, the tabulator and the line breaks are white space, and so are the other blanks of
/// Unicode: the narrow and the wide ones and those that hold lines together. Of ASCII nothing
/// else is, and past U+3000 nothing.
pub proof fn law_blanks_are_white_space(ch: char)
    ensures
        is_white_space(' ') && is_white_space('\t') && is_white_space('\n') && is_white_space(
            '\r',
        ) && is_white_space('\u{b}') && is_white_space('\u{c}'),
        is_white_space('\u{85}') && is_white_space('\u{a0}') && is_white_space('\u{1680}')
            && is_white_space('\u{2028}') && is_white_space('\u{2029}') && is_white_space(
            '\u{202f}',
        ) && is_white_space('\u{205f}') && is_white_space('\u{3000}'),
        '\u{2000}' <= ch <= '\u{200a}' ==> is_white_space(ch),
        ch <= '\u{7f}' && is_white_space(ch) ==> ch == ' ' || '\t' <= ch <= '\r',
        ch > '\u{3000}' ==> !is_white_space(ch),
        '\u{200a}' < ch < '\u{3000}' && is_white_space(ch) ==> '\u{2028}' <= ch <= '\u{2029}'
            || ch == '\u{202f}' || ch == '\u{205f}',
        '\u{a0}' < ch < '\u{2000}' && is_white_space(ch) ==> ch == '\u{1680}',
        '\u{7f}' < ch < '\u{a0}' && is_white_space(ch) ==> ch == '\u{85}',
{
    char_is_scalar(ch);
}

/// A number is read from its digits, each weighing its place, after a plus sign or not; a text
/// that is empty, or holds anything else, is no number.
pub proof fn law_numbers_are_read_from_digits(digits: Seq<char>, digit: nat, ch: char)
    requires
        digits.len() > 0,
        unsigned_value(digits, 10) is Some,
        digits[0] != '+',
        digit < 10,
    ensures
        unsigned_value(seq!["0123456789"@[digit as int]], 10) == Some(digit),
        unsigned_value(digits.push("0123456789"@[digit as int]), 10) == Some(
            (10 * unsigned_value(digits, 10)->0 + digit) as nat,
        ),
        unsigned_value(seq!['+'] + digits, 10) == unsigned_value(digits, 10),
        !('0' <= ch <= '9') ==> unsigned_value(digits.push(ch), 10) is None,
        unsigned_value(seq![], 10) is None,
        unsigned_value(seq!['+'], 10) is None,
{
    reveal_strlit("0123456789");
    let next = "0123456789"@[digit as int];
    assert(digit_value(next, 10) == Some(digit));
    assert(next != '+');
    let one = seq![next];
    let none = Seq::<char>::empty();
    assert(one.drop_last() =~= none);
    assert(digits_value(none, 10) == 0);
    assert(one.last() == next);
    assert(without_plus(one) == one);
    assert(all_digits(one, 10));
    let longer = digits.push(next);
    assert(longer[0] == digits[0]);
    assert(longer.drop_last() =~= digits);
    assert forall|i: int| 0 <= i < longer.len() implies digit_value(
        #[trigger] longer[i],
        10,
    ) is Some by {
        if i < digits.len() {
            assert(longer[i] == digits[i]);
        }
    }
    let marked = seq!['+'] + digits;
    assert(marked[0] == '+');
    assert(marked.drop_first() =~= digits);
    if !('0' <= ch <= '9') {
        let wrong = digits.push(ch);
        char_is_scalar(ch);
        assert(wrong[0] == digits[0]);
        assert(wrong[wrong.len() - 1] == ch);
        assert(digit_value(ch, 10) is None);
        assert(!all_digits(wrong, 10));
    }
    assert(seq!['+'].drop_first() =~= none);
}

}
