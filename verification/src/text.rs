//! Characters, decimal numbers and floating-point texts, and JSON strings.

use vstd::prelude::*;

verus! {

/// `String::push` appends one character to the end of the string.
pub assume_specification[ String::push ](s: &mut String, ch: char)
    ensures
        final(s)@ == old(s)@.push(ch),
;

/// The characters of `s`, in order.
pub fn chars_of(s: &str) -> (out: Vec<char>)
    ensures
        out@ == s@,
{
    let mut out: Vec<char> = Vec::new();
    for c in it: s.chars()
        invariant
            it.seq() == s@,
            out@ == it.seq().take(it.index() as int),
    {
        out.push(c);
    }
    out
}

/// The text made of the characters `chars[from..to]`.
pub fn text_between(chars: &Vec<char>, from: usize, to: usize) -> (out: String)
    requires
        from <= to <= chars.len(),
    ensures
        out@ == chars@.subrange(from as int, to as int),
{
    let mut out = String::new();
    let mut i: usize = from;
    while i < to
        invariant
            from <= i <= to <= chars.len(),
            out@ == chars@.subrange(from as int, i as int),
        decreases to - i,
    {
        out.push(chars[i]);
        assert(chars@.subrange(from as int, i + 1) =~= chars@.subrange(from as int, i as int).push(
            chars@[i as int],
        ));
        i += 1;
    }
    out
}

/// Whether `c` is one of the ten ASCII digits.
pub open spec fn is_digit(c: char) -> bool {
    '0' <= c <= '9'
}

/// The number that the digit `c` stands for.
pub open spec fn digit_value(c: char) -> nat
    recommends
        is_digit(c),
{
    (c as nat - '0' as nat) as nat
}

/// The digit that stands for `d`.
pub open spec fn digit_char(d: nat) -> char
    recommends
        d < 10,
{
    ('0' as nat + d) as char
}

/// Whether every character of `s` is a digit.
pub open spec fn all_digits(s: Seq<char>) -> bool {
    forall|i: int| 0 <= i < s.len() ==> is_digit(#[trigger] s[i])
}

/// The number written by the digits `s`, most significant first.
pub open spec fn decimal_value(s: Seq<char>) -> nat
    decreases s.len(),
{
    if s.len() == 0 {
        0
    } else {
        decimal_value(s.drop_last()) * 10 + digit_value(s.last())
    }
}

/// The shortest decimal writing of `n`.
pub open spec fn decimal_text(n: nat) -> Seq<char>
    decreases n,
{
    if n < 10 {
        seq![digit_char(n)]
    } else {
        decimal_text(n / 10).push(digit_char(n % 10))
    }
}

pub fn is_digit_char(c: char) -> (out: bool)
    ensures
        out == is_digit(c),
{
    '0' <= c && c <= '9'
}

/// The digits of an unsigned number's text: the text without a leading `+`.
pub open spec fn unsigned_digits(s: Seq<char>) -> Seq<char> {
    if s.len() > 0 && s[0] == '+' {
        s.skip(1)
    } else {
        s
    }
}

/// Whether `s` writes an unsigned number that is at most `max`: an optional
/// `+`, then one or more digits and nothing else.
pub open spec fn is_unsigned_text(s: Seq<char>, max: nat) -> bool {
    let digits = unsigned_digits(s);
    digits.len() > 0 && all_digits(digits) && decimal_value(digits) <= max
}

/// The number that the unsigned text `s` writes.
pub open spec fn unsigned_value(s: Seq<char>) -> nat {
    decimal_value(unsigned_digits(s))
}

/// A longer run of digits writes no smaller a number than any of its prefixes.
pub proof fn lemma_decimal_value_prefix(s: Seq<char>, k: int)
    requires
        0 <= k <= s.len(),
    ensures
        decimal_value(s.take(k)) <= decimal_value(s),
    decreases s.len(),
{
    if k == s.len() {
        assert(s.take(k) =~= s);
    } else {
        assert(s.drop_last().take(k) =~= s.take(k));
        lemma_decimal_value_prefix(s.drop_last(), k);
    }
}

/// Reads an unsigned decimal number that is at most `max`.
pub fn parse_unsigned(chars: &Vec<char>, max: u64) -> (out: Option<u64>)
    ensures
        out is Some <==> is_unsigned_text(chars@, max as nat),
        out matches Some(value) ==> value as nat == unsigned_value(chars@),
{
    let n = chars.len();
    let start: usize = if n > 0 && chars[0] == '+' { 1 } else { 0 };
    if start == n {
        return None;
    }
    let ghost digits = unsigned_digits(chars@);
    assert(digits =~= chars@.skip(start as int));
    let mut value: u64 = 0;
    let mut i: usize = start;
    while i < n
        invariant
            start <= i <= n,
            n == chars.len(),
            digits == chars@.skip(start as int),
            digits == unsigned_digits(chars@),
            all_digits(digits.take(i - start)),
            value as nat == decimal_value(digits.take(i - start)),
            value <= max,
        decreases n - i,
    {
        let c = chars[i];
        let ghost seen = digits.take(i - start + 1);
        assert(seen.drop_last() =~= digits.take(i - start));
        assert(seen.last() == c);
        if !is_digit_char(c) {
            assert(!is_digit(digits[i - start]));
            return None;
        }
        let digit: u64 = (c as u8 - 48) as u64;
        let next: u128 = value as u128 * 10 + digit as u128;
        assert(next as nat == decimal_value(seen));
        if next > max as u128 {
            proof {
                lemma_decimal_value_prefix(digits, i - start + 1);
            }
            return None;
        }
        value = next as u64;
        i += 1;
    }
    assert(digits.take(n - start) =~= digits);
    Some(value)
}

/// Reads an unsigned 64-bit number, as `u64`'s own parser does: an optional
/// `+`, then digits; anything else, or a number too large, is refused.
pub fn parse_u64(s: &str) -> (out: Option<u64>)
    ensures
        out is Some <==> is_unsigned_text(s@, u64::MAX as nat),
        out matches Some(value) ==> value as nat == unsigned_value(s@),
{
    let chars = chars_of(s);
    parse_unsigned(&chars, u64::MAX)
}

/// Reads an unsigned 32-bit number, as `u32`'s own parser does.
pub fn parse_u32(s: &str) -> (out: Option<u32>)
    ensures
        out is Some <==> is_unsigned_text(s@, u32::MAX as nat),
        out matches Some(value) ==> value as nat == unsigned_value(s@),
{
    let chars = chars_of(s);
    match parse_unsigned(&chars, 0xffff_ffff) {
        Some(value) => Some(value as u32),
        None => None,
    }
}

/// Appends the decimal writing of `n` to `out`.
pub fn push_decimal(out: &mut String, n: u64)
    ensures
        final(out)@ == old(out)@ + decimal_text(n as nat),
    decreases n,
{
    if n >= 10 {
        push_decimal(out, n / 10);
    }
    let digit: u8 = (n % 10) as u8;
    out.push((48 + digit) as char);
    assert(final(out)@ =~= old(out)@ + decimal_text(n as nat));
}

/// The decimal writing of `n`.
pub fn u64_text(n: u64) -> (out: String)
    ensures
        out@ == decimal_text(n as nat),
{
    let mut out = String::new();
    push_decimal(&mut out, n);
    assert(out@ =~= decimal_text(n as nat));
    out
}

/// Reading what was written gives the number back: the decimal writing of `n`
/// is made of digits only, and its value is `n`.
pub proof fn lemma_decimal_round_trip(n: nat)
    ensures
        decimal_text(n).len() > 0,
        all_digits(decimal_text(n)),
        decimal_value(decimal_text(n)) == n,
        unsigned_digits(decimal_text(n)) == decimal_text(n),
    decreases n,
{
    let text = decimal_text(n);
    if n < 10 {
        assert(text.drop_last() =~= Seq::<char>::empty());
        assert(decimal_value(text.drop_last()) == 0);
    } else {
        lemma_decimal_round_trip(n / 10);
        assert(text.drop_last() =~= decimal_text(n / 10));
        assert(text.last() == digit_char(n % 10));
        assert forall|i: int| 0 <= i < text.len() implies is_digit(#[trigger] text[i]) by {
            if i < text.len() - 1 {
                assert(text[i] == decimal_text(n / 10)[i]);
            }
        }
    }
    assert(is_digit(text[0]));
}

/// Whether `c` is a plus or a minus sign.
pub open spec fn is_sign(c: char) -> bool {
    c == '+' || c == '-'
}

/// The end of the run of digits that starts at `from`.
pub open spec fn digits_end(s: Seq<char>, from: int) -> int
    decreases s.len() - from,
{
    if 0 <= from < s.len() && is_digit(s[from]) {
        digits_end(s, from + 1)
    } else {
        from
    }
}

/// Whether `s[at..]` is an exponent: `e` or `E`, an optional sign, then one
/// or more digits up to the end of `s`.
pub open spec fn is_exponent_at(s: Seq<char>, at: int) -> bool {
    let digits = if at + 1 < s.len() && is_sign(s[at + 1]) {
        at + 2
    } else {
        at + 1
    };
    &&& 0 <= at < s.len()
    &&& (s[at] == 'e' || s[at] == 'E')
    &&& digits < s.len()
    &&& digits_end(s, digits) == s.len()
}

/// Whether `s[from..]` is a decimal number: digits with at most one point
/// among them and at least one digit, then an optional exponent.
pub open spec fn is_number_at(s: Seq<char>, from: int) -> bool {
    let whole_end = digits_end(s, from);
    let has_point = whole_end < s.len() && s[whole_end] == '.';
    let end = if has_point {
        digits_end(s, whole_end + 1)
    } else {
        whole_end
    };
    let digit_count = if has_point {
        end - from - 1
    } else {
        end - from
    };
    digit_count > 0 && (end == s.len() || is_exponent_at(s, end))
}

/// The lower-case form of an ASCII capital; any other character is itself.
pub open spec fn lower_case(c: char) -> char {
    if 'A' <= c <= 'Z' {
        (c as nat + 32) as char
    } else {
        c
    }
}

/// Whether `s[from..]` is `word`, whatever the case of its ASCII letters.
/// `word` is written in lower case.
pub open spec fn spells_at(s: Seq<char>, from: int, word: Seq<char>) -> bool {
    &&& s.len() - from == word.len()
    &&& forall|i: int| 0 <= i < word.len() ==> lower_case(#[trigger] s[from + i]) == word[i]
}

/// Whether `s[from..]` names an infinity or a not-a-number.
pub open spec fn is_named_float_at(s: Seq<char>, from: int) -> bool {
    ||| spells_at(s, from, seq!['i', 'n', 'f'])
    ||| spells_at(s, from, seq!['i', 'n', 'f', 'i', 'n', 'i', 't', 'y'])
    ||| spells_at(s, from, seq!['n', 'a', 'n'])
}

/// Whether `s` writes a floating-point number: an optional sign, then
/// either a decimal number or one of the names `inf`, `infinity` and `nan`.
pub open spec fn is_float_text(s: Seq<char>) -> bool {
    let from: int = if s.len() > 0 && is_sign(s[0]) {
        1
    } else {
        0
    };
    is_number_at(s, from) || is_named_float_at(s, from)
}

fn lower_case_of(c: char) -> (out: char)
    ensures
        out == lower_case(c),
{
    if 'A' <= c && c <= 'Z' {
        (c as u8 + 32) as char
    } else {
        c
    }
}

fn scan_digits(chars: &Vec<char>, from: usize) -> (end: usize)
    requires
        from <= chars.len(),
    ensures
        from <= end <= chars.len(),
        end == digits_end(chars@, from as int),
{
    let mut i: usize = from;
    while i < chars.len() && is_digit_char(chars[i])
        invariant
            from <= i <= chars.len(),
            digits_end(chars@, from as int) == digits_end(chars@, i as int),
        decreases chars.len() - i,
    {
        i += 1;
    }
    i
}

fn exponent_at(chars: &Vec<char>, at: usize) -> (out: bool)
    requires
        at < chars.len(),
    ensures
        out == is_exponent_at(chars@, at as int),
{
    let n = chars.len();
    if chars[at] != 'e' && chars[at] != 'E' {
        return false;
    }
    let digits: usize = if at + 1 < n && (chars[at + 1] == '+' || chars[at + 1] == '-') {
        at + 2
    } else {
        at + 1
    };
    if digits >= n {
        return false;
    }
    scan_digits(chars, digits) == n
}

fn number_at(chars: &Vec<char>, from: usize) -> (out: bool)
    requires
        from <= chars.len(),
    ensures
        out == is_number_at(chars@, from as int),
{
    let n = chars.len();
    let whole_end = scan_digits(chars, from);
    let has_point = whole_end < n && chars[whole_end] == '.';
    let end: usize = if has_point {
        scan_digits(chars, whole_end + 1)
    } else {
        whole_end
    };
    let digit_count: usize = if has_point {
        end - from - 1
    } else {
        end - from
    };
    if digit_count == 0 {
        return false;
    }
    end == n || exponent_at(chars, end)
}

fn spells(chars: &Vec<char>, from: usize, word: &Vec<char>) -> (out: bool)
    requires
        from <= chars.len(),
    ensures
        out == spells_at(chars@, from as int, word@),
{
    if chars.len() - from != word.len() {
        return false;
    }
    let mut i: usize = 0;
    while i < word.len()
        invariant
            i <= word.len(),
            from <= chars.len(),
            chars.len() - from == word.len(),
            forall|k: int| 0 <= k < i ==> lower_case(#[trigger] chars@[from + k]) == word@[k],
        decreases word.len() - i,
    {
        if lower_case_of(chars[from + i]) != word[i] {
            return false;
        }
        i += 1;
    }
    true
}

/// Whether `s` is accepted as a floating-point number.
pub fn is_float(s: &str) -> (out: bool)
    ensures
        out == is_float_text(s@),
{
    let chars = chars_of(s);
    let from: usize = if chars.len() > 0 && (chars[0] == '+' || chars[0] == '-') {
        1
    } else {
        0
    };
    if number_at(&chars, from) {
        return true;
    }
    let inf: Vec<char> = vec!['i', 'n', 'f'];
    let infinity: Vec<char> = vec!['i', 'n', 'f', 'i', 'n', 'i', 't', 'y'];
    let nan: Vec<char> = vec!['n', 'a', 'n'];
    assert(inf@ =~= seq!['i', 'n', 'f']);
    assert(infinity@ =~= seq!['i', 'n', 'f', 'i', 'n', 'i', 't', 'y']);
    assert(nan@ =~= seq!['n', 'a', 'n']);
    spells(&chars, from, &inf) || spells(&chars, from, &infinity) || spells(&chars, from, &nan)
}

/// Whether two texts are made of the same characters.
pub fn same_text(a: &str, b: &str) -> (out: bool)
    ensures
        out == (a@ == b@),
{
    let left = chars_of(a);
    let right = chars_of(b);
    if left.len() != right.len() {
        return false;
    }
    let mut i: usize = 0;
    while i < left.len()
        invariant
            i <= left.len(),
            left.len() == right.len(),
            left@ == a@,
            right@ == b@,
            forall|k: int| 0 <= k < i ==> left@[k] == right@[k],
        decreases left.len() - i,
    {
        if left[i] != right[i] {
            return false;
        }
        i += 1;
    }
    assert(a@ =~= b@);
    true
}

/// The first position at or after `from` that holds `c`; the length of `s`
/// if there is none.
pub open spec fn position_of(s: Seq<char>, c: char, from: int) -> int
    decreases s.len() - from,
{
    if 0 <= from < s.len() && s[from] != c {
        position_of(s, c, from + 1)
    } else if from < s.len() {
        from
    } else {
        s.len() as int
    }
}

/// The first position of `chars` that holds `c`; the length of `chars` if
/// there is none.
pub fn find_char(chars: &Vec<char>, c: char) -> (at: usize)
    ensures
        at <= chars.len(),
        at == position_of(chars@, c, 0),
{
    let mut i: usize = 0;
    while i < chars.len() && chars[i] != c
        invariant
            i <= chars.len(),
            position_of(chars@, c, 0) == position_of(chars@, c, i as int),
        decreases chars.len() - i,
    {
        i += 1;
    }
    i
}

/// The hexadecimal digit, in lower case, that stands for `value`.
pub open spec fn hex_digit(value: nat) -> char
    recommends
        value < 16,
{
    if value < 10 {
        ('0' as nat + value) as char
    } else {
        ('a' as nat + value - 10) as char
    }
}

/// How one character is written inside a JSON string: the quotation mark and
/// the backslash behind a backslash, the control characters below the space
/// by their short names or their code, any other character as it is.
pub open spec fn json_escaped(c: char) -> Seq<char> {
    if c == '"' {
        seq!['\\', '"']
    } else if c == '\\' {
        seq!['\\', '\\']
    } else if c == '\u{8}' {
        seq!['\\', 'b']
    } else if c == '\t' {
        seq!['\\', 't']
    } else if c == '\n' {
        seq!['\\', 'n']
    } else if c == '\u{c}' {
        seq!['\\', 'f']
    } else if c == '\r' {
        seq!['\\', 'r']
    } else if (c as nat) < 32 {
        seq!['\\', 'u', '0', '0', hex_digit(c as nat / 16), hex_digit(c as nat % 16)]
    } else {
        seq![c]
    }
}

/// The characters of `text`, each as it is written inside a JSON string.
pub open spec fn json_escaped_text(text: Seq<char>) -> Seq<char>
    decreases text.len(),
{
    if text.len() == 0 {
        Seq::empty()
    } else {
        json_escaped(text.first()) + json_escaped_text(text.drop_first())
    }
}

/// `text` as a JSON string: between quotation marks, its characters escaped.
pub open spec fn json_quoted(text: Seq<char>) -> Seq<char> {
    seq!['"'] + json_escaped_text(text) + seq!['"']
}

/// Writes `text` as a JSON string with `json::stringify`, which puts it
/// between quotation marks and escapes the quotation mark, the backslash and
/// the control characters below the space.
#[verifier::external_body]
pub(crate) fn json_string(text: &str) -> (out: String)
    ensures
        out@ == json_quoted(text@),
{
    json::stringify(text)
}

/// Characters that are written alike inside a JSON string are the same
/// character: if two texts begin with the writing of `c` and of `d` and are
/// equal, then `c` is `d`, and what follows is equal too.
pub proof fn lemma_json_escaped_cancels(c: char, d: char, u: Seq<char>, v: Seq<char>)
    requires
        json_escaped(c) + u == json_escaped(d) + v,
    ensures
        c == d,
        u == v,
{
    let a = json_escaped(c);
    let b = json_escaped(d);
    let s = a + u;
    let t = b + v;
    assert(s[0] == a[0] && t[0] == b[0]);
    if a.len() >= 2 {
        assert(s[1] == a[1]);
    }
    if b.len() >= 2 {
        assert(t[1] == b[1]);
    }
    if a.len() == 6 {
        assert(s[4] == a[4] && s[5] == a[5]);
    }
    if b.len() == 6 {
        assert(t[4] == b[4] && t[5] == b[5]);
    }
    if a.len() == 6 && b.len() == 6 {
        let (ch, cl) = (c as nat / 16, c as nat % 16);
        let (dh, dl) = (d as nat / 16, d as nat % 16);
        assert(hex_digit(ch) == hex_digit(dh));
        assert(hex_digit(cl) == hex_digit(dl));
        assert(ch == dh && cl == dl);
        assert(c as nat == d as nat);
    }
    assert(c == d);
    assert(u =~= s.skip(a.len() as int));
    assert(v =~= t.skip(b.len() as int));
}

/// The end of a JSON string is found without doubt: if two texts begin with
/// the escaped characters of `a` and of `b`, each followed by a quotation
/// mark, and are equal, then `a` is `b`, and what follows the quotation
/// marks is equal too.
pub proof fn lemma_json_escaped_text_cancels(
    a: Seq<char>,
    b: Seq<char>,
    x: Seq<char>,
    y: Seq<char>,
)
    requires
        json_escaped_text(a) + seq!['"'] + x == json_escaped_text(b) + seq!['"'] + y,
    ensures
        a == b,
        x == y,
    decreases a.len(),
{
    let quote = seq!['"'];
    let s = json_escaped_text(a) + quote + x;
    let t = json_escaped_text(b) + quote + y;
    if a.len() == 0 || b.len() == 0 {
        if a.len() > 0 {
            assert(s[0] == json_escaped(a.first())[0]);
            assert(t[0] == '"');
        }
        if b.len() > 0 {
            assert(t[0] == json_escaped(b.first())[0]);
            assert(s[0] == '"');
        }
        assert(a =~= b);
        assert(x =~= s.skip(1));
        assert(y =~= t.skip(1));
    } else {
        let u = json_escaped_text(a.drop_first()) + quote + x;
        let v = json_escaped_text(b.drop_first()) + quote + y;
        assert(s =~= json_escaped(a.first()) + u);
        assert(t =~= json_escaped(b.first()) + v);
        lemma_json_escaped_cancels(a.first(), b.first(), u, v);
        lemma_json_escaped_text_cancels(a.drop_first(), b.drop_first(), x, y);
        assert(a =~= seq![a.first()] + a.drop_first());
        assert(b =~= seq![b.first()] + b.drop_first());
    }
}

/// A JSON string reads back as the text it was written from: if two texts
/// begin with `a` and with `b` written as JSON strings and are equal, then
/// `a` is `b`, and what follows the strings is equal too.
pub proof fn lemma_json_quoted_cancels(a: Seq<char>, b: Seq<char>, x: Seq<char>, y: Seq<char>)
    requires
        json_quoted(a) + x == json_quoted(b) + y,
    ensures
        a == b,
        x == y,
{
    let quote = seq!['"'];
    let s = json_quoted(a) + x;
    let t = json_quoted(b) + y;
    let u = json_escaped_text(a) + quote + x;
    let v = json_escaped_text(b) + quote + y;
    assert(s =~= quote + u);
    assert(t =~= quote + v);
    assert(u =~= s.skip(1));
    assert(v =~= t.skip(1));
    lemma_json_escaped_text_cancels(a, b, x, y);
}


} // verus!
