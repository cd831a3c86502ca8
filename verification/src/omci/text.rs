//! Text building blocks: decimal and hexadecimal numbers, JSON strings.
use vstd::prelude::*;
use vstd::string::StringExecFns;

use super::config::{
    ascii_bytes, char_is_whitespace, is_whitespace, spec_decode_hex, spec_hex_nibble, spec_hex_value, str_chars, HexError,
};

verus! {

/// `String::push`.
#[verifier::external_body]
pub fn push_char(text: &mut String, c: char)
    ensures
        final(text)@ == old(text)@.push(c),
{
    text.push(c)
}

/// Appends `tail` to `text`.
pub fn push_text(text: &mut String, tail: &str)
    ensures
        final(text)@ == old(text)@ + tail@,
{
    text.append(tail);
}

pub open spec fn hex_digits() -> Seq<char> {
    seq!['0', '1', '2', '3', '4', '5', '6', '7', '8', '9', 'a', 'b', 'c', 'd', 'e', 'f']
}

/// The digits of `n` in decimal, without leading zeros ("0" for zero).
pub open spec fn spec_decimal(n: nat) -> Seq<char>
    decreases n,
{
    if n < 10 {
        seq![hex_digits()[n as int]]
    } else {
        spec_decimal(n / 10).push(hex_digits()[(n % 10) as int])
    }
}

/// The low `width` hexadecimal digits of `n`, lower case, most significant first.
pub open spec fn spec_hex(n: nat, width: nat) -> Seq<char>
    decreases width,
{
    if width == 0 {
        Seq::empty()
    } else {
        spec_hex(n / 16, (width - 1) as nat).push(hex_digits()[(n % 16) as int])
    }
}

/// `true` or `false`.
pub open spec fn spec_bool(value: bool) -> Seq<char> {
    if value { "true"@ } else { "false"@ }
}

/// A byte string as two lower-case hexadecimal digits a byte.
pub open spec fn spec_hex_bytes(bytes: Seq<u8>) -> Seq<char>
    decreases bytes.len(),
{
    if bytes.len() == 0 {
        Seq::empty()
    } else {
        spec_hex_bytes(bytes.drop_last()) + spec_hex(bytes.last() as nat, 2)
    }
}

/// The control characters (general category Cc): U+0000..=U+001F and U+007F..=U+009F.
pub open spec fn is_control(c: char) -> bool {
    (c as u32) <= 0x1f || (0x7f <= (c as u32) && (c as u32) <= 0x9f)
}

/// One character as it stands inside a JSON string.
pub open spec fn json_char(c: char) -> Seq<char> {
    if c == '"' {
        seq!['\\', '"']
    } else if c == '\\' {
        seq!['\\', '\\']
    } else if c == '\n' {
        seq!['\\', 'n']
    } else if c == '\r' {
        seq!['\\', 'r']
    } else if c == '\t' {
        seq!['\\', 't']
    } else if is_control(c) {
        seq!['\\', 'u'] + spec_hex((c as u32) as nat, 4)
    } else {
        seq![c]
    }
}

pub open spec fn json_escape(s: Seq<char>) -> Seq<char>
    decreases s.len(),
{
    if s.len() == 0 {
        Seq::empty()
    } else {
        json_escape(s.drop_last()) + json_char(s.last())
    }
}

/// `s` as a quoted JSON string.
pub open spec fn spec_json_string(s: Seq<char>) -> Seq<char> {
    seq!['"'] + json_escape(s) + seq!['"']
}

fn digit(d: u8) -> (c: char)
    requires
        d < 16,
    ensures
        c == hex_digits()[d as int],
{
    match d {
        0 => '0',
        1 => '1',
        2 => '2',
        3 => '3',
        4 => '4',
        5 => '5',
        6 => '6',
        7 => '7',
        8 => '8',
        9 => '9',
        10 => 'a',
        11 => 'b',
        12 => 'c',
        13 => 'd',
        14 => 'e',
        _ => 'f',
    }
}

/// Appends `n` in decimal.
pub fn push_decimal(text: &mut String, n: u128)
    ensures
        final(text)@ == old(text)@ + spec_decimal(n as nat),
    decreases n,
{
    if n >= 10 {
        push_decimal(text, n / 10);
    }
    push_char(text, digit((n % 10) as u8));
    proof {
        if n < 10 {
            assert(old(text)@ + spec_decimal(n as nat) =~= old(text)@.push(hex_digits()[n as int]));
        } else {
            assert(old(text)@ + spec_decimal(n as nat) =~= (old(text)@ + spec_decimal((n / 10) as nat)).push(
                hex_digits()[(n % 10) as int],
            ));
        }
    }
}

/// Appends the low `width` hexadecimal digits of `n`.
pub fn push_hex(text: &mut String, n: u128, width: usize)
    ensures
        final(text)@ == old(text)@ + spec_hex(n as nat, width as nat),
    decreases width,
{
    if width == 0 {
        assert(old(text)@ + spec_hex(n as nat, 0) =~= old(text)@);
        return;
    }
    push_hex(text, n / 16, width - 1);
    push_char(text, digit((n % 16) as u8));
    assert(old(text)@ + spec_hex(n as nat, width as nat) =~= (old(text)@ + spec_hex((n / 16) as nat, (width - 1) as nat)).push(
        hex_digits()[(n % 16) as int],
    ));
}

/// `n` in decimal.
pub fn decimal(n: u128) -> (text: String)
    ensures
        text@ == spec_decimal(n as nat),
{
    let mut text = String::new();
    push_decimal(&mut text, n);
    assert(text@ =~= spec_decimal(n as nat));
    text
}

/// Appends `true` or `false`.
pub fn push_bool(text: &mut String, value: bool)
    ensures
        final(text)@ == old(text)@ + spec_bool(value),
{
    if value {
        push_text(text, "true");
    } else {
        push_text(text, "false");
    }
}

/// A byte string as lower-case hexadecimal, two digits a byte.
pub fn hex_bytes(bytes: &[u8]) -> (text: String)
    ensures
        text@ == spec_hex_bytes(bytes@),
{
    let mut text = String::new();
    let mut i: usize = 0;
    while i < bytes.len()
        invariant
            i <= bytes.len(),
            text@ == spec_hex_bytes(bytes@.take(i as int)),
        decreases bytes.len() - i,
    {
        push_hex(&mut text, bytes[i] as u128, 2);
        assert(bytes@.take(i + 1).drop_last() =~= bytes@.take(i as int));
        i += 1;
    }
    assert(bytes@.take(bytes.len() as int) =~= bytes@);
    text
}

pub fn char_is_control(c: char) -> (control: bool)
    ensures
        control == is_control(c),
{
    let code = c as u32;
    code <= 0x1f || (0x7f <= code && code <= 0x9f)
}

/// Appends `value` as a quoted JSON string.
pub fn push_json_string(text: &mut String, value: &str)
    ensures
        final(text)@ == old(text)@ + spec_json_string(value@),
{
    let chars = str_chars(value);
    push_char(text, '"');
    let ghost start = text@;
    let mut i: usize = 0;
    while i < chars.len()
        invariant
            i <= chars@.len(),
            chars@ == value@,
            text@ == start + json_escape(chars@.take(i as int)),
        decreases chars@.len() - i,
    {
        let c = chars[i];
        let ghost before = text@;
        if c == '"' {
            push_text(text, "\\\"");
        } else if c == '\\' {
            push_text(text, "\\\\");
        } else if c == '\n' {
            push_text(text, "\\n");
        } else if c == '\r' {
            push_text(text, "\\r");
        } else if c == '\t' {
            push_text(text, "\\t");
        } else if char_is_control(c) {
            push_text(text, "\\u");
            let code = c as u32;
            push_hex(text, code as u128, 4);
        } else {
            push_char(text, c);
        }
        proof {
            reveal_strlit("\\\"");
            reveal_strlit("\\\\");
            reveal_strlit("\\n");
            reveal_strlit("\\r");
            reveal_strlit("\\t");
            reveal_strlit("\\u");
            assert(chars@.take(i + 1).drop_last() =~= chars@.take(i as int));
            assert(chars@.take(i + 1).last() == c);
            assert(text@ =~= before + json_char(c));
        }
        i += 1;
    }
    push_char(text, '"');
    assert(chars@.take(chars@.len() as int) =~= chars@);
    assert(text@ =~= old(text)@ + spec_json_string(value@));
}

/// `value` as a quoted JSON string.
pub fn json_string(value: &str) -> (text: String)
    ensures
        text@ == spec_json_string(value@),
{
    let mut text = String::new();
    push_json_string(&mut text, value);
    assert(text@ =~= spec_json_string(value@));
    text
}

pub open spec fn word_views(words: Seq<Vec<char>>) -> Seq<Seq<char>> {
    words.map_values(|w: Vec<char>| w@)
}

/// The words of `s` after the word in progress, `current`.
pub open spec fn words_from(s: Seq<char>, current: Seq<char>) -> Seq<Seq<char>>
    decreases s.len(),
{
    if s.len() == 0 {
        if current.len() > 0 { seq![current] } else { Seq::empty() }
    } else if is_whitespace(s[0]) {
        (if current.len() > 0 { seq![current] } else { Seq::empty() }) + words_from(s.drop_first(), Seq::empty())
    } else {
        words_from(s.drop_first(), current.push(s[0]))
    }
}

/// The words of `s`: its longest runs of characters other than white space.
pub open spec fn spec_words(s: Seq<char>) -> Seq<Seq<char>> {
    words_from(s, Seq::empty())
}

/// Splits text at white space, as `str::split_whitespace` does.
pub fn words(chars: &Vec<char>) -> (words: Vec<Vec<char>>)
    ensures
        word_views(words@) == spec_words(chars@),
{
    let mut words: Vec<Vec<char>> = Vec::new();
    let mut current: Vec<char> = Vec::new();
    let mut i: usize = 0;
    assert(chars@.skip(0) =~= chars@);
    assert(word_views(words@) + words_from(chars@.skip(0), current@) =~= spec_words(chars@));
    while i < chars.len()
        invariant
            i <= chars@.len(),
            word_views(words@) + words_from(chars@.skip(i as int), current@) == spec_words(chars@),
        decreases chars@.len() - i,
    {
        let c = chars[i];
        let ghost rest = chars@.skip(i as int);
        let ghost before = word_views(words@);
        let ghost cur = current@;
        assert(rest[0] == c);
        assert(rest.drop_first() =~= chars@.skip(i + 1));
        if char_is_whitespace(c) {
            assert(words_from(rest, cur) == (if cur.len() > 0 { seq![cur] } else { Seq::<Seq<char>>::empty() })
                + words_from(chars@.skip(i + 1), Seq::empty()));
            if current.len() > 0 {
                words.push(current);
                current = Vec::new();
                assert(word_views(words@) =~= before + seq![cur]);
            } else {
                assert(cur =~= Seq::<char>::empty());
            }
            assert(word_views(words@) + words_from(chars@.skip(i + 1), current@) =~= before + words_from(rest, cur));
        } else {
            current.push(c);
        }
        i += 1;
    }
    let ghost before = word_views(words@);
    let ghost cur = current@;
    assert(chars@.skip(i as int).len() == 0);
    if current.len() > 0 {
        words.push(current);
        assert(word_views(words@) =~= before + seq![cur]);
    } else {
        assert(word_views(words@) =~= before + Seq::<Seq<char>>::empty());
    }
    words
}

/// The pieces of `s` after the piece in progress, `current`, split at `sep`.
pub open spec fn split_from(s: Seq<char>, sep: char, current: Seq<char>) -> Seq<Seq<char>>
    decreases s.len(),
{
    if s.len() == 0 {
        seq![current]
    } else if s[0] == sep {
        seq![current] + split_from(s.drop_first(), sep, Seq::empty())
    } else {
        split_from(s.drop_first(), sep, current.push(s[0]))
    }
}

/// The pieces of `s` between occurrences of `sep`, empty pieces included.
pub open spec fn spec_split(s: Seq<char>, sep: char) -> Seq<Seq<char>> {
    split_from(s, sep, Seq::empty())
}

proof fn lemma_split_nonempty(s: Seq<char>, sep: char, current: Seq<char>)
    ensures
        split_from(s, sep, current).len() >= 1,
    decreases s.len(),
{
    if s.len() > 0 {
        if s[0] == sep {
            lemma_split_nonempty(s.drop_first(), sep, Seq::empty());
        } else {
            lemma_split_nonempty(s.drop_first(), sep, current.push(s[0]));
        }
    }
}

/// Splits `chars[start..]` at `sep`, as `str::split` does.
pub fn split(chars: &Vec<char>, start: usize, sep: char) -> (pieces: Vec<Vec<char>>)
    requires
        start <= chars@.len(),
    ensures
        word_views(pieces@) == spec_split(chars@.skip(start as int), sep),
        pieces@.len() >= 1,
{
    let ghost s = chars@.skip(start as int);
    let mut pieces: Vec<Vec<char>> = Vec::new();
    let mut current: Vec<char> = Vec::new();
    let mut i: usize = start;
    assert(chars@.skip(start as int) =~= s);
    assert(word_views(pieces@) + split_from(chars@.skip(i as int), sep, current@) =~= spec_split(s, sep));
    while i < chars.len()
        invariant
            start <= i <= chars@.len(),
            s == chars@.skip(start as int),
            word_views(pieces@) + split_from(chars@.skip(i as int), sep, current@) == spec_split(s, sep),
        decreases chars@.len() - i,
    {
        let c = chars[i];
        let ghost rest = chars@.skip(i as int);
        let ghost before = word_views(pieces@);
        let ghost cur = current@;
        assert(rest[0] == c);
        assert(rest.drop_first() =~= chars@.skip(i + 1));
        if c == sep {
            pieces.push(current);
            current = Vec::new();
            assert(word_views(pieces@) =~= before + seq![cur]);
            assert(word_views(pieces@) + split_from(chars@.skip(i + 1), sep, current@) =~= before + split_from(rest, sep, cur));
        } else {
            current.push(c);
        }
        i += 1;
    }
    let ghost before = word_views(pieces@);
    let ghost cur = current@;
    assert(chars@.skip(i as int).len() == 0);
    pieces.push(current);
    assert(word_views(pieces@) =~= before + seq![cur]);
    proof {
        lemma_split_nonempty(s, sep, Seq::empty());
    }
    pieces
}

/// The position of the first `sep` in `s`.
pub open spec fn first_index(s: Seq<char>, sep: char) -> Option<int>
    decreases s.len(),
{
    if s.len() == 0 {
        None
    } else if s[0] == sep {
        Some(0)
    } else {
        match first_index(s.drop_first(), sep) {
            Some(i) => Some(i + 1),
            None => None,
        }
    }
}

proof fn lemma_first_index(s: Seq<char>, sep: char, i: int)
    requires
        0 <= i <= s.len(),
        forall|k: int| 0 <= k < i ==> s[k] != sep,
    ensures
        i < s.len() && s[i] == sep ==> first_index(s, sep) == Some(i),
        i == s.len() ==> first_index(s, sep) is None,
    decreases i,
{
    if i > 0 {
        lemma_first_index(s.drop_first(), sep, i - 1);
    }
}

/// The text before and after the first `sep`, as `str::split_once` gives it.
pub open spec fn spec_split_once(s: Seq<char>, sep: char) -> Option<(Seq<char>, Seq<char>)> {
    match first_index(s, sep) {
        Some(i) => Some((s.take(i), s.skip(i + 1))),
        None => None,
    }
}

/// Where the first `sep` of `chars` stands.
pub fn find_char(chars: &Vec<char>, sep: char) -> (position: Option<usize>)
    ensures
        match position {
            Some(i) => first_index(chars@, sep) == Some(i as int) && i < chars@.len() && chars@[i as int] == sep,
            None => first_index(chars@, sep) is None,
        },
{
    let mut i: usize = 0;
    while i < chars.len()
        invariant
            i <= chars@.len(),
            forall|k: int| 0 <= k < i ==> chars@[k] != sep,
        decreases chars@.len() - i,
    {
        if chars[i] == sep {
            proof {
                lemma_first_index(chars@, sep, i as int);
            }
            return Some(i);
        }
        i += 1;
    }
    proof {
        lemma_first_index(chars@, sep, i as int);
    }
    None
}

/// The value of digit `c` in base `radix` (up to 36), as `char::to_digit` gives it.
pub open spec fn digit_value(c: char, radix: nat) -> Option<nat> {
    let n = c as u32;
    let d: int = if 48 <= n <= 57 {
        n - 48
    } else if 97 <= n <= 122 {
        n - 87
    } else if 65 <= n <= 90 {
        n - 55
    } else {
        36
    };
    if d < radix { Some(d as nat) } else { None }
}

/// The number the digits `s` spell in base `radix`, if all are digits.
pub open spec fn digits_value(s: Seq<char>, radix: nat) -> Option<nat>
    decreases s.len(),
{
    if s.len() == 0 {
        Some(0)
    } else {
        match (digits_value(s.drop_last(), radix), digit_value(s.last(), radix)) {
            (Some(v), Some(d)) => Some(v * radix + d),
            _ => None,
        }
    }
}

/// An unsigned number in base `radix` no larger than `max`, as `from_str_radix`
/// reads it: an optional `+`, then at least one digit.
pub open spec fn spec_parse_unsigned(s: Seq<char>, radix: nat, max: nat) -> Option<nat> {
    let digits = if s.len() > 0 && s[0] == '+' { s.drop_first() } else { s };
    if digits.len() == 0 {
        None
    } else {
        match digits_value(digits, radix) {
            Some(v) => if v <= max { Some(v) } else { None },
            None => None,
        }
    }
}

fn char_digit(c: char, radix: u32) -> (d: Option<u32>)
    requires
        2 <= radix <= 36,
    ensures
        match d {
            Some(v) => digit_value(c, radix as nat) == Some(v as nat),
            None => digit_value(c, radix as nat) is None,
        },
{
    let n = c as u32;
    let d: u32 = if 48 <= n && n <= 57 {
        n - 48
    } else if 97 <= n && n <= 122 {
        n - 87
    } else if 65 <= n && n <= 90 {
        n - 55
    } else {
        36
    };
    if d < radix { Some(d) } else { None }
}

/// Reads an unsigned number in base `radix` no larger than `max`.
pub fn parse_unsigned(s: &Vec<char>, radix: u32, max: u128) -> (value: Option<u128>)
    requires
        2 <= radix <= 36,
        max <= 0xffff_ffff_ffff_ffff,
    ensures
        match value {
            Some(v) => spec_parse_unsigned(s@, radix as nat, max as nat) == Some(v as nat),
            None => spec_parse_unsigned(s@, radix as nat, max as nat) is None,
        },
{
    let start: usize = if s.len() > 0 && s[0] == '+' { 1 } else { 0 };
    let ghost digits = if s@.len() > 0 && s@[0] == '+' { s@.drop_first() } else { s@ };
    assert(digits =~= s@.skip(start as int));
    if start == s.len() {
        return None;
    }
    let mut valid = true;
    let mut capped: u128 = 0;
    let mut i: usize = start;
    assert(s@.subrange(start as int, start as int) =~= Seq::<char>::empty());
    while i < s.len()
        invariant
            start <= i <= s@.len(),
            2 <= radix <= 36,
            max <= 0xffff_ffff_ffff_ffff,
            valid == digits_value(s@.subrange(start as int, i as int), radix as nat) is Some,
            valid ==> capped <= max + 1,
            valid ==> capped as int == if digits_value(s@.subrange(start as int, i as int), radix as nat).unwrap() <= max {
                digits_value(s@.subrange(start as int, i as int), radix as nat).unwrap() as int
            } else {
                max + 1
            },
        decreases s@.len() - i,
    {
        let ghost prefix = s@.subrange(start as int, i as int);
        let ghost next = s@.subrange(start as int, i + 1);
        assert(next.drop_last() =~= prefix);
        assert(next.last() == s@[i as int]);
        match char_digit(s[i], radix) {
            Some(d) => {
                if valid {
                    let ghost v = digits_value(prefix, radix as nat).unwrap();
                    proof {
                        assert(capped * (radix as u128) <= (max + 1) * 36) by (nonlinear_arith)
                            requires capped <= max + 1, radix <= 36;
                        if v > max {
                            assert(v * radix + d >= v) by (nonlinear_arith)
                                requires radix >= 2, v >= 0, d >= 0;
                            assert((max + 1) * radix + d >= max + 1) by (nonlinear_arith)
                                requires radix >= 2, max >= 0, d >= 0;
                        }
                    }
                    let stepped = capped * (radix as u128) + (d as u128);
                    capped = if stepped > max { max + 1 } else { stepped };
                }
            },
            None => {
                valid = false;
            },
        }
        i += 1;
    }
    assert(s@.subrange(start as int, s@.len() as int) =~= digits);
    if valid && capped <= max {
        Some(capped)
    } else {
        None
    }
}

/// Whether the characters of `chars` are those of `text`.
pub fn chars_equal(chars: &Vec<char>, text: &str) -> (equal: bool)
    ensures
        equal == (chars@ == text@),
{
    let expected = str_chars(text);
    if chars.len() != expected.len() {
        return false;
    }
    let mut i: usize = 0;
    while i < chars.len()
        invariant
            i <= chars@.len(),
            chars@.len() == expected@.len(),
            expected@ == text@,
            forall|k: int| 0 <= k < i ==> chars@[k] == expected@[k],
        decreases chars@.len() - i,
    {
        if chars[i] != expected[i] {
            return false;
        }
        i += 1;
    }
    assert(chars@ =~= expected@);
    true
}

/// Whether `chars` begins with the characters of `prefix`.
pub fn starts_with(chars: &Vec<char>, prefix: &str) -> (starts: bool)
    ensures
        starts == (prefix@.len() <= chars@.len() && chars@.take(prefix@.len() as int) == prefix@),
{
    let expected = str_chars(prefix);
    if chars.len() < expected.len() {
        return false;
    }
    let mut i: usize = 0;
    while i < expected.len()
        invariant
            i <= expected@.len() <= chars@.len(),
            expected@ == prefix@,
            forall|k: int| 0 <= k < i ==> chars@[k] == expected@[k],
        decreases expected@.len() - i,
    {
        if chars[i] != expected[i] {
            assert(chars@.take(expected@.len() as int)[i as int] != prefix@[i as int]);
            return false;
        }
        i += 1;
    }
    assert(chars@.take(expected@.len() as int) =~= expected@);
    true
}

/// Each digit character reads back as its value.
pub proof fn lemma_digit_value(k: nat, radix: nat)
    requires
        k < 16,
        k < radix <= 36,
    ensures
        digit_value(hex_digits()[k as int], radix) == Some(k),
        hex_digits()[k as int] != ':',
        hex_digits()[k as int] != '+',
        !is_whitespace(hex_digits()[k as int]),
{
    let c = hex_digits()[k as int];
    if k == 0 { assert(c == '0'); } else if k == 1 { assert(c == '1'); } else if k == 2 { assert(c == '2'); }
    else if k == 3 { assert(c == '3'); } else if k == 4 { assert(c == '4'); } else if k == 5 { assert(c == '5'); }
    else if k == 6 { assert(c == '6'); } else if k == 7 { assert(c == '7'); } else if k == 8 { assert(c == '8'); }
    else if k == 9 { assert(c == '9'); } else if k == 10 { assert(c == 'a'); } else if k == 11 { assert(c == 'b'); }
    else if k == 12 { assert(c == 'c'); } else if k == 13 { assert(c == 'd'); } else if k == 14 { assert(c == 'e'); }
    else { assert(c == 'f'); }
}

/// Decimal digits read back as the number they print.
pub proof fn lemma_decimal_reads_back(n: nat)
    ensures
        digits_value(spec_decimal(n), 10) == Some(n),
        spec_decimal(n).len() > 0,
        forall|i: int| 0 <= i < spec_decimal(n).len() ==> {
            let c = #[trigger] spec_decimal(n)[i];
            &&& c != ':'
            &&& c != '+'
            &&& !is_whitespace(c)
        },
    decreases n,
{
    let s = spec_decimal(n);
    if n < 10 {
        lemma_digit_value(n, 10);
        assert(s.drop_last() =~= Seq::<char>::empty());
        assert(digits_value(Seq::<char>::empty(), 10) == Some(0nat));
        assert(s.last() == hex_digits()[n as int]);
        assert(digits_value(s, 10) == Some(0 * 10 + n));
    } else {
        lemma_decimal_reads_back(n / 10);
        lemma_digit_value(n % 10, 10);
        let head = spec_decimal(n / 10);
        assert(s.drop_last() =~= head);
        assert(s.last() == hex_digits()[(n % 10) as int]);
        assert(digits_value(s, 10) == Some((n / 10) * 10 + n % 10));
        assert forall|i: int| 0 <= i < s.len() implies {
            let c = #[trigger] s[i];
            &&& c != ':'
            &&& c != '+'
            &&& !is_whitespace(c)
        } by {
            if i < head.len() {
                assert(s[i] == head[i]);
            }
        }
    }
}

/// Two hexadecimal digits read back as the byte they print.
pub proof fn lemma_hex_byte_reads_back(n: nat)
    requires
        n < 256,
    ensures
        digits_value(spec_hex(n, 2), 16) == Some(n),
        spec_hex(n, 2).len() == 2,
        forall|i: int| 0 <= i < 2 ==> {
            let c = #[trigger] spec_hex(n, 2)[i];
            &&& c != ':'
            &&& c != '+'
            &&& !is_whitespace(c)
        },
{
    let high = (n / 16) % 16;
    let low = n % 16;
    lemma_digit_value(high, 16);
    lemma_digit_value(low, 16);
    let s = spec_hex(n, 2);
    assert(spec_hex(n / 16 / 16, 0) =~= Seq::<char>::empty());
    assert(spec_hex(n / 16, 1) =~= seq![hex_digits()[high as int]]);
    assert(s =~= seq![hex_digits()[high as int], hex_digits()[low as int]]);
    assert(s.drop_last() =~= seq![hex_digits()[high as int]]);
    assert(s.drop_last().drop_last() =~= Seq::<char>::empty());
    assert(digits_value(Seq::<char>::empty(), 16) == Some(0nat));
    assert(digits_value(s.drop_last(), 16) == Some(0 * 16 + high));
    assert(digits_value(s, 16) == Some((0 * 16 + high) * 16 + low));
    assert(high * 16 + low == n);
}

/// Splitting at a separator ends the piece in progress with the text before it.
pub proof fn lemma_split_piece(x: Seq<char>, rest: Seq<char>, sep: char, current: Seq<char>)
    requires
        forall|i: int| 0 <= i < x.len() ==> x[i] != sep,
    ensures
        split_from(x + seq![sep] + rest, sep, current) == seq![current + x] + split_from(rest, sep, Seq::empty()),
    decreases x.len(),
{
    let t = x + seq![sep] + rest;
    if x.len() == 0 {
        assert(t[0] == sep);
        assert(t.drop_first() =~= rest);
        assert(current + x =~= current);
    } else {
        assert(t[0] == x[0]);
        assert(t.drop_first() =~= x.drop_first() + seq![sep] + rest);
        lemma_split_piece(x.drop_first(), rest, sep, current.push(x[0]));
        assert(current.push(x[0]) + x.drop_first() =~= current + x);
    }
}

/// Text without the separator is the last piece.
pub proof fn lemma_split_end(x: Seq<char>, sep: char, current: Seq<char>)
    requires
        forall|i: int| 0 <= i < x.len() ==> x[i] != sep,
    ensures
        split_from(x, sep, current) == seq![current + x],
    decreases x.len(),
{
    if x.len() == 0 {
        assert(current + x =~= current);
    } else {
        lemma_split_end(x.drop_first(), sep, current.push(x[0]));
        assert(current.push(x[0]) + x.drop_first() =~= current + x);
    }
}

/// Each digit character is the ASCII digit of its value.
proof fn lemma_digit_nibble(k: nat)
    requires
        k < 16,
    ensures
        spec_hex_nibble(hex_digits()[k as int] as u8) == Some(k as u8),
{
    lemma_digit_value(k, 16);
    let c = hex_digits()[k as int];
    if k == 0 { assert(c == '0'); } else if k == 1 { assert(c == '1'); } else if k == 2 { assert(c == '2'); }
    else if k == 3 { assert(c == '3'); } else if k == 4 { assert(c == '4'); } else if k == 5 { assert(c == '5'); }
    else if k == 6 { assert(c == '6'); } else if k == 7 { assert(c == '7'); } else if k == 8 { assert(c == '8'); }
    else if k == 9 { assert(c == '9'); } else if k == 10 { assert(c == 'a'); } else if k == 11 { assert(c == 'b'); }
    else if k == 12 { assert(c == 'c'); } else if k == 13 { assert(c == 'd'); } else if k == 14 { assert(c == 'e'); }
    else { assert(c == 'f'); }
}

proof fn lemma_hex_bytes_layout(b: Seq<u8>)
    ensures
        spec_hex_bytes(b).len() == 2 * b.len(),
        forall|i: int| 0 <= i < b.len() ==> #[trigger] spec_hex_bytes(b)[2 * i] == hex_digits()[(b[i] / 16) as int],
        forall|i: int| 0 <= i < b.len() ==> #[trigger] spec_hex_bytes(b)[2 * i + 1] == hex_digits()[(b[i] % 16) as int],
    decreases b.len(),
{
    if b.len() > 0 {
        let rest = b.drop_last();
        lemma_hex_bytes_layout(rest);
        let n = b.last() as nat;
        assert(spec_hex((n / 16) / 16, 0) =~= Seq::<char>::empty());
        assert(spec_hex(n / 16, 1) =~= seq![hex_digits()[((n / 16) % 16) as int]]);
        let pair = spec_hex(n, 2);
        assert(pair =~= seq![hex_digits()[((n / 16) % 16) as int], hex_digits()[(n % 16) as int]]);
        assert((n / 16) % 16 == n / 16);
        let t = spec_hex_bytes(b);
        let u = spec_hex_bytes(rest);
        assert(t == u + pair);
        assert forall|i: int| 0 <= i < b.len() implies #[trigger] t[2 * i] == hex_digits()[(b[i] / 16) as int] by {
            if i < rest.len() {
                assert(t[2 * i] == u[2 * i]);
                assert(b[i] == rest[i]);
            } else {
                assert(t[2 * i] == pair[0]);
            }
        }
        assert forall|i: int| 0 <= i < b.len() implies #[trigger] t[2 * i + 1] == hex_digits()[(b[i] % 16) as int] by {
            if i < rest.len() {
                assert(t[2 * i + 1] == u[2 * i + 1]);
                assert(b[i] == rest[i]);
            } else {
                assert(t[2 * i + 1] == pair[1]);
            }
        }
    }
}

/// `decode_hex` reads back the digits `hex_bytes` writes.
pub proof fn lemma_hex_reads_back(b: Seq<u8>)
    ensures
        spec_decode_hex(ascii_bytes(spec_hex_bytes(b))) == Ok::<Seq<u8>, HexError>(b),
{
    lemma_hex_bytes_layout(b);
    let t = spec_hex_bytes(b);
    let bytes = ascii_bytes(t);
    assert(bytes.len() == 2 * b.len());
    assert forall|j: int| 0 <= j < bytes.len() implies (#[trigger] spec_hex_nibble(bytes[j])) is Some by {
        let i = j / 2;
        assert(0 <= i < b.len());
        assert(bytes[j] == t[j] as u8);
        if j == 2 * i {
            assert(t[2 * i] == hex_digits()[(b[i] / 16) as int]);
            lemma_digit_nibble((b[i] / 16) as nat);
        } else {
            assert(j == 2 * i + 1);
            assert(t[2 * i + 1] == hex_digits()[(b[i] % 16) as int]);
            lemma_digit_nibble((b[i] % 16) as nat);
        }
    }
    assert forall|i: int| 0 <= i < b.len() implies #[trigger] spec_hex_value(bytes)[i] == b[i] by {
        lemma_digit_nibble((b[i] / 16) as nat);
        lemma_digit_nibble((b[i] % 16) as nat);
        assert(bytes[2 * i] == t[2 * i] as u8);
        assert(bytes[2 * i + 1] == t[2 * i + 1] as u8);
        assert(t[2 * i] == hex_digits()[(b[i] / 16) as int]);
        assert(t[2 * i + 1] == hex_digits()[(b[i] % 16) as int]);
        assert((b[i] / 16) * 16 + b[i] % 16 == b[i]);
    }
    assert(spec_hex_value(bytes) =~= b);
}

} // verus!
