//! Reading one row of a map text: white space, tokens and cell values.
//!
//! A row is a sequence of tokens separated by Unicode white space. A token
//! that is a decimal number of at most 255, with an optional leading `+`,
//! has that number as its value; any other token has the value zero.

use vstd::prelude::*;

verus! {

broadcast use vstd::string::group_string_axioms;

/// The characters with the Unicode property `White_Space`.
pub open spec fn is_space(c: char) -> bool {
    let n = c as u32;
    ||| 0x09 <= n <= 0x0D
    ||| n == 0x20
    ||| n == 0x85
    ||| n == 0xA0
    ||| n == 0x1680
    ||| 0x2000 <= n <= 0x200A
    ||| n == 0x2028
    ||| n == 0x2029
    ||| n == 0x202F
    ||| n == 0x205F
    ||| n == 0x3000
}

/// First position at or after `i` that holds no white space, or the length.
pub open spec fn spaces_end(s: Seq<char>, i: int) -> int
    decreases s.len() - i,
{
    if 0 <= i < s.len() && is_space(s[i]) {
        spaces_end(s, i + 1)
    } else {
        i
    }
}

/// First position at or after `i` that holds white space, or the length.
pub open spec fn word_end(s: Seq<char>, i: int) -> int
    decreases s.len() - i,
{
    if 0 <= i < s.len() && !is_space(s[i]) {
        word_end(s, i + 1)
    } else {
        i
    }
}

/// Neither scan moves backwards, and neither leaves the row.
pub proof fn lemma_scan_forward(s: Seq<char>, i: int)
    ensures
        i <= spaces_end(s, i),
        i <= word_end(s, i),
        i <= s.len() ==> spaces_end(s, i) <= s.len() && word_end(s, i) <= s.len(),
    decreases s.len() - i,
{
    if 0 <= i < s.len() {
        lemma_scan_forward(s, i + 1);
    }
}

/// The tokens of `s` that start at or after position `i`: the maximal runs
/// of characters that are not white space.
pub open spec fn tokens_from(s: Seq<char>, i: int) -> Seq<Seq<char>>
    decreases s.len() - i,
{
    let a = spaces_end(s, i);
    let b = word_end(s, a + 1);
    if 0 <= i && a < s.len() {
        proof {
            lemma_scan_forward(s, i);
            lemma_scan_forward(s, a + 1);
        }
        seq![s.subrange(a, b)] + tokens_from(s, b)
    } else {
        Seq::empty()
    }
}

/// The tokens of a row.
pub open spec fn tokens(s: Seq<char>) -> Seq<Seq<char>> {
    tokens_from(s, 0)
}

/// `c` is one of the ten decimal digits.
pub open spec fn is_digit(c: char) -> bool {
    0x30 <= c as u32 <= 0x39
}

/// Every character of `s` is a decimal digit.
pub open spec fn all_digits(s: Seq<char>) -> bool {
    forall|i: int| 0 <= i < s.len() ==> is_digit(#[trigger] s[i])
}

/// The number that a decimal digit denotes.
pub open spec fn digit_value(c: char) -> nat {
    if is_digit(c) {
        (c as u32 - 0x30) as nat
    } else {
        0
    }
}

/// The number that a string of decimal digits denotes.
pub open spec fn decimal(s: Seq<char>) -> nat
    decreases s.len(),
{
    if s.len() == 0 {
        0
    } else {
        decimal(s.drop_last()) * 10 + digit_value(s.last())
    }
}

/// A token without its optional leading `+`.
pub open spec fn unsigned_part(t: Seq<char>) -> Seq<char> {
    if t.len() > 0 && t[0] == '+' {
        t.drop_first()
    } else {
        t
    }
}

/// The value of a token: the number it denotes where that is a decimal
/// number of at most 255, zero otherwise.
pub open spec fn token_value(t: Seq<char>) -> u8 {
    let body = unsigned_part(t);
    if body.len() > 0 && all_digits(body) && decimal(body) <= 255 {
        decimal(body) as u8
    } else {
        0
    }
}

/// The cell values of a row, one per token.
pub open spec fn row_values(s: Seq<char>) -> Seq<u8> {
    tokens(s).map_values(|t: Seq<char>| token_value(t))
}

/// A row is blank when it holds no token.
pub open spec fn is_blank(s: Seq<char>) -> bool {
    tokens(s).len() == 0
}

/// A row holds at most as many tokens as characters.
pub proof fn lemma_tokens_len(s: Seq<char>, i: int)
    requires
        0 <= i <= s.len(),
    ensures
        tokens_from(s, i).len() <= s.len() - i,
    decreases s.len() - i,
{
    let a = spaces_end(s, i);
    let b = word_end(s, a + 1);
    lemma_scan_forward(s, i);
    lemma_scan_forward(s, a + 1);
    if a < s.len() {
        lemma_tokens_len(s, b);
    }
}

/// The number denoted by a prefix of a digit string is at most the number
/// denoted by the whole.
pub proof fn lemma_decimal_prefix(s: Seq<char>, k: int)
    requires
        0 <= k <= s.len(),
    ensures
        decimal(s.take(k)) <= decimal(s),
    decreases s.len(),
{
    if k == s.len() {
        assert(s.take(k) =~= s);
    } else {
        lemma_decimal_prefix(s.drop_last(), k);
        assert(s.drop_last().take(k) =~= s.take(k));
    }
}

/// Whether `c` is white space.
pub fn is_space_char(c: char) -> (b: bool)
    ensures
        b == is_space(c),
{
    let n: u32 = c as u32;
    (0x09 <= n && n <= 0x0D) || n == 0x20 || n == 0x85 || n == 0xA0 || n == 0x1680 || (0x2000 <= n
        && n <= 0x200A) || n == 0x2028 || n == 0x2029 || n == 0x202F || n == 0x205F || n == 0x3000
}

/// The characters of a string slice, in order.
pub fn chars_of(s: &str) -> (v: Vec<char>)
    ensures
        v@ == s@,
{
    let mut v: Vec<char> = Vec::new();
    for c in it: s.chars()
        invariant
            it.seq() == s@,
            v@ == s@.take(it.index() as int),
    {
        v.push(c);
    }
    v
}

/// The value of the token that occupies positions `start..end` of `chars`.
pub fn parse_cell(chars: &Vec<char>, start: usize, end: usize) -> (v: u8)
    requires
        start < end <= chars.len(),
    ensures
        v == token_value(chars@.subrange(start as int, end as int)),
{
    let ghost token = chars@.subrange(start as int, end as int);
    let mut i: usize = start;
    if chars[i] == '+' {
        i += 1;
    }
    let first: usize = i;
    let ghost body = chars@.subrange(first as int, end as int);
    assert(body =~= unsigned_part(token));
    if i == end {
        return 0;
    }
    let mut acc: u32 = 0;
    while i < end
        invariant
            first <= i <= end <= chars.len(),
            body == chars@.subrange(first as int, end as int),
            body == unsigned_part(token),
            token == chars@.subrange(start as int, end as int),
            all_digits(body.take(i - first)),
            acc == decimal(body.take(i - first)),
            acc <= 255,
        decreases end - i,
    {
        let c: char = chars[i];
        let n: u32 = c as u32;
        if n < 0x30 || n > 0x39 {
            assert(!is_digit(body[i - first]));
            return 0;
        }
        let ghost before = body.take(i - first);
        let ghost after = body.take(i - first + 1);
        assert(after.drop_last() =~= before);
        assert(after.last() == c);
        assert(all_digits(after)) by {
            assert forall|j: int| 0 <= j < after.len() implies is_digit(#[trigger] after[j]) by {
                if j < before.len() {
                    assert(after[j] == before[j]);
                }
            }
        }
        acc = acc * 10 + (n - 0x30);
        if acc > 255 {
            proof {
                lemma_decimal_prefix(body, i - first + 1);
            }
            return 0;
        }
        i += 1;
    }
    assert(body.take(i - first) =~= body);
    acc as u8
}

/// The cell values of the row `line`.
pub fn row_values_of(line: &str) -> (values: Vec<u8>)
    ensures
        values@ == row_values(line@),
{
    let chars = chars_of(line);
    let n: usize = chars.len();
    let mut values: Vec<u8> = Vec::new();
    let mut i: usize = 0;
    while i < n
        invariant
            i <= n == chars.len(),
            chars@ == line@,
            row_values(line@) == values@ + tokens_from(chars@, i as int).map_values(
                |t: Seq<char>| token_value(t),
            ),
        decreases n - i,
    {
        let ghost rest = tokens_from(chars@, i as int);
        if is_space_char(chars[i]) {
            assert(tokens_from(chars@, i as int + 1) == rest);
            i += 1;
        } else {
            let start: usize = i;
            i += 1;
            while i < n && !is_space_char(chars[i])
                invariant
                    start < i <= n == chars.len(),
                    word_end(chars@, i as int) == word_end(chars@, start as int + 1),
                decreases n - i,
            {
                i += 1;
            }
            let v = parse_cell(&chars, start, i);
            let ghost token = chars@.subrange(start as int, i as int);
            assert(rest == seq![token] + tokens_from(chars@, i as int));
            assert(rest.map_values(|t: Seq<char>| token_value(t)) =~= seq![v] + tokens_from(
                chars@,
                i as int,
            ).map_values(|t: Seq<char>| token_value(t)));
            values.push(v);
        }
    }
    assert(tokens_from(chars@, n as int) =~= Seq::<Seq<char>>::empty());
    values
}

} // verus!
