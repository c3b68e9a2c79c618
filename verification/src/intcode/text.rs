//! Program text: signed decimal integers set apart by commas and
//! whitespace.

use vstd::prelude::*;
use crate::decimal::{chars_of, digits_value, is_number, parse_magnitude};

verus! {

/// Whether `c` is white space, as Unicode defines it.
pub open spec fn is_space(c: char) -> bool {
    let n = c as u32;
    ||| 0x09 <= n <= 0x0D
    ||| n == 0x20
    ||| n == 0x85
    ||| n == 0xA0
    ||| n == 0x1680
    ||| 0x2000 <= n <= 0x200A
    ||| n == 0x2028
    ||| n == 0x2029
    ||| n == 0x202F
    ||| n == 0x205F
    ||| n == 0x3000
}

/// Whether `c` ends a token of program text: a comma or white space.
pub open spec fn is_separator(c: char) -> bool {
    c == ',' || is_space(c)
}

/// The integer that a digit string writes under a sign, if the string is
/// a number and the integer fits in a cell.
pub open spec fn number_value(body: Seq<char>, negative: bool) -> Option<isize> {
    if !is_number(body) {
        None
    } else if negative {
        if -digits_value(body) >= isize::MIN {
            Some((-digits_value(body)) as isize)
        } else {
            None
        }
    } else {
        if digits_value(body) <= isize::MAX {
            Some(digits_value(body) as isize)
        } else {
            None
        }
    }
}

/// The integer that a token writes, if it writes one that fits in a
/// cell: an optional `+` or `-`, then one or more decimal digits.
pub open spec fn token_value(s: Seq<char>) -> Option<isize> {
    if s.len() > 0 && s[0] == '-' {
        number_value(s.subrange(1, s.len() as int), true)
    } else if s.len() > 0 && s[0] == '+' {
        number_value(s.subrange(1, s.len() as int), false)
    } else {
        number_value(s, false)
    }
}

/// Where the token that starts at `from` ends: the position of the first
/// separator at or after `from`, or the length of `s` if there is none.
pub open spec fn token_end(s: Seq<char>, from: int) -> int
    decreases s.len() - from,
{
    if 0 <= from < s.len() && !is_separator(s[from]) {
        token_end(s, from + 1)
    } else {
        from
    }
}

/// The integers written in `s` from position `from` on, in order: the
/// text is cut at every separator, and each piece that writes an integer
/// contributes it. Pieces that write none, empty ones among them, are
/// passed over.
pub open spec fn values_from(s: Seq<char>, from: int) -> Seq<isize>
    decreases s.len() - from,
{
    let end = token_end(s, from);
    let head = match token_value(s.subrange(from, end)) {
        Some(value) => seq![value],
        None => Seq::<isize>::empty(),
    };
    if from <= end < s.len() {
        head + values_from(s, end + 1)
    } else {
        head
    }
}

/// The program that a text writes.
pub open spec fn program_values(s: Seq<char>) -> Seq<isize> {
    values_from(s, 0)
}

/// Whether the token of `s` from `from` up to `end` is one that a reader
/// takes note of: any token that is not empty, and an empty one only
/// where a comma stands right before or right after it. White space
/// alone makes no token.
pub open spec fn is_noted(s: Seq<char>, from: int, end: int) -> bool {
    ||| from < end
    ||| (0 < from <= s.len() && s[from - 1] == ',')
    ||| (0 <= end < s.len() && s[end] == ',')
}

/// The token of `s` from `from` up to `end`, if it is taken note of and
/// writes no integer; else nothing.
pub open spec fn rejection(s: Seq<char>, from: int, end: int) -> Seq<Seq<char>> {
    if is_noted(s, from, end) && token_value(s.subrange(from, end)) is None {
        seq![s.subrange(from, end)]
    } else {
        Seq::<Seq<char>>::empty()
    }
}

/// The tokens of `s` from position `from` on that are taken note of and
/// write no integer, in order.
pub open spec fn rejected_from(s: Seq<char>, from: int) -> Seq<Seq<char>>
    decreases s.len() - from,
{
    let end = token_end(s, from);
    if from <= end < s.len() {
        rejection(s, from, end) + rejected_from(s, end + 1)
    } else {
        rejection(s, from, end)
    }
}

/// The tokens of a program text that are left out of the program.
pub open spec fn rejected_values(s: Seq<char>) -> Seq<Seq<char>> {
    rejected_from(s, 0)
}

/// The views of the elements of `tokens`.
pub open spec fn token_views(tokens: Seq<Vec<char>>) -> Seq<Seq<char>> {
    Seq::new(tokens.len(), |i: int| tokens[i]@)
}

/// Where the white space that starts at `from` ends.
pub open spec fn space_end(s: Seq<char>, from: int) -> int
    decreases s.len() - from,
{
    if 0 <= from < s.len() && is_space(s[from]) {
        space_end(s, from + 1)
    } else {
        from
    }
}

/// Where the word that starts at `from` ends: the position of the first
/// white space at or after `from`, or the length of `s`.
pub open spec fn word_end(s: Seq<char>, from: int) -> int
    decreases s.len() - from,
{
    if 0 <= from < s.len() && !is_space(s[from]) {
        word_end(s, from + 1)
    } else {
        from
    }
}

/// What a line of input supplies.
#[derive(Debug, Clone, Copy, PartialEq, Eq, Structural)]
pub enum Supplied {
    /// The line's first word writes this integer.
    Value(isize),
    /// The line holds no word: no value is available.
    Nothing,
    /// The line's first word writes no integer that fits in a cell.
    Unreadable,
}

/// What a line of input supplies: the integer its first word writes, or
/// the reason why it supplies none.
pub open spec fn input_reading(line: Seq<char>) -> Supplied {
    let start = space_end(line, 0);
    let end = word_end(line, start);
    if start >= end {
        Supplied::Nothing
    } else {
        match token_value(line.subrange(start, end)) {
            Some(value) => Supplied::Value(value),
            None => Supplied::Unreadable,
        }
    }
}

/// The integer that a line of input supplies, if it supplies one.
pub open spec fn input_value(line: Seq<char>) -> Option<isize> {
    match input_reading(line) {
        Supplied::Value(value) => Some(value),
        _ => None,
    }
}

/// A token ends at or after its start and within the text.
pub proof fn lemma_token_end_bounds(s: Seq<char>, from: int)
    requires
        0 <= from <= s.len(),
    ensures
        from <= token_end(s, from) <= s.len(),
        token_end(s, from) < s.len() ==> is_separator(s[token_end(s, from)]),
        forall|i: int| from <= i < token_end(s, from) ==> !is_separator(#[trigger] s[i]),
    decreases s.len() - from,
{
    if from < s.len() && !is_separator(s[from]) {
        lemma_token_end_bounds(s, from + 1);
    }
}

/// Decides `is_space`.
pub fn is_whitespace(c: char) -> (yes: bool)
    ensures
        yes == is_space(c),
{
    let n: u32 = c as u32;
    (0x09 <= n && n <= 0x0D) || n == 0x20 || n == 0x85 || n == 0xA0 || n == 0x1680 || (0x2000 <= n
        && n <= 0x200A) || n == 0x2028 || n == 0x2029 || n == 0x202F || n == 0x205F || n == 0x3000
}

/// Decides `is_separator`.
pub fn is_delimiter(c: char) -> (yes: bool)
    ensures
        yes == is_separator(c),
{
    c == ',' || is_whitespace(c)
}

/// Reads the digit string that `chars` holds from `from` up to `to` as a
/// number of the given sign.
pub fn parse_digits(chars: &Vec<char>, from: usize, to: usize, negative: bool) -> (value: Option<
    isize,
>)
    requires
        from <= to <= chars.len(),
    ensures
        value == number_value(chars@.subrange(from as int, to as int), negative),
{
    let limit: u64 = isize::MAX as u64;
    match parse_magnitude(chars, from, to) {
        None => None,
        Some(magnitude) => {
            if magnitude <= limit {
                if negative {
                    Some(-(magnitude as isize))
                } else {
                    Some(magnitude as isize)
                }
            } else if negative && magnitude - 1 == limit {
                Some(isize::MIN)
            } else {
                None
            }
        },
    }
}

/// Reads the token that `chars` holds from `from` up to `to`.
pub fn parse_token(chars: &Vec<char>, from: usize, to: usize) -> (value: Option<isize>)
    requires
        from <= to <= chars.len(),
    ensures
        value == token_value(chars@.subrange(from as int, to as int)),
{
    let ghost token = chars@.subrange(from as int, to as int);
    if from < to && chars[from] == '-' {
        assert(token.subrange(1, token.len() as int) =~= chars@.subrange(from + 1, to as int));
        parse_digits(chars, from + 1, to, true)
    } else if from < to && chars[from] == '+' {
        assert(token.subrange(1, token.len() as int) =~= chars@.subrange(from + 1, to as int));
        parse_digits(chars, from + 1, to, false)
    } else {
        parse_digits(chars, from, to, false)
    }
}

/// Reads `token` as an integer: an optional sign, then decimal digits.
pub fn parse_integer(token: &str) -> (value: Option<isize>)
    ensures
        value == token_value(token@),
{
    let chars: Vec<char> = chars_of(token);
    proof {
        assert(chars@.subrange(0, chars@.len() as int) =~= chars@);
    }
    parse_token(&chars, 0, chars.len())
}

/// Reads a program from text: the integers it writes, in order, with
/// every token that writes none left out.
pub fn parse_bytecode_string(src: &str) -> (program: Vec<isize>)
    ensures
        program@ == program_values(src@),
{
    let chars: Vec<char> = chars_of(src);
    let mut program: Vec<isize> = Vec::new();
    let mut start: usize = 0;
    let mut i: usize = 0;
    while i < chars.len()
        invariant
            start <= i <= chars.len(),
            chars@ == src@,
            token_end(chars@, start as int) == token_end(chars@, i as int),
            program@ + values_from(chars@, start as int) == program_values(chars@),
        decreases chars.len() - i,
    {
        if is_delimiter(chars[i]) {
            match parse_token(&chars, start, i) {
                Some(value) => {
                    program.push(value);
                },
                None => {},
            }
            start = i + 1;
        }
        i += 1;
    }
    match parse_token(&chars, start, i) {
        Some(value) => {
            program.push(value);
        },
        None => {},
    }
    program
}

/// A copy of the characters that `chars` holds from `from` up to `to`.
pub fn copy_range(chars: &Vec<char>, from: usize, to: usize) -> (piece: Vec<char>)
    requires
        from <= to <= chars.len(),
    ensures
        piece@ == chars@.subrange(from as int, to as int),
{
    let mut piece: Vec<char> = Vec::new();
    let mut i: usize = from;
    while i < to
        invariant
            from <= i <= to <= chars.len(),
            piece@ == chars@.subrange(from as int, i as int),
        decreases to - i,
    {
        piece.push(chars[i]);
        i += 1;
    }
    piece
}

/// Appends to `rejected` the token that `chars` holds from `from` up to
/// `to`, if it is one that is taken note of and writes no integer.
fn note_token(chars: &Vec<char>, from: usize, to: usize, rejected: &mut Vec<Vec<char>>)
    requires
        from <= to <= chars.len(),
    ensures
        token_views(final(rejected)@) == token_views(old(rejected)@) + rejection(
            chars@,
            from as int,
            to as int,
        ),
{
    let noted: bool = from < to || (from > 0 && chars[from - 1] == ',') || (to < chars.len()
        && chars[to] == ',');
    if noted && parse_token(chars, from, to).is_none() {
        let piece: Vec<char> = copy_range(chars, from, to);
        rejected.push(piece);
    }
}

/// The tokens of a program text that `parse_bytecode_string` leaves out,
/// in order, for whoever wants to report them.
pub fn rejected_tokens(src: &str) -> (rejected: Vec<Vec<char>>)
    ensures
        token_views(rejected@) == rejected_values(src@),
{
    let chars: Vec<char> = chars_of(src);
    let mut rejected: Vec<Vec<char>> = Vec::new();
    let mut start: usize = 0;
    let mut i: usize = 0;
    while i < chars.len()
        invariant
            start <= i <= chars.len(),
            chars@ == src@,
            token_end(chars@, start as int) == token_end(chars@, i as int),
            token_views(rejected@) + rejected_from(chars@, start as int) == rejected_values(
                chars@,
            ),
        decreases chars.len() - i,
    {
        if is_delimiter(chars[i]) {
            note_token(&chars, start, i, &mut rejected);
            start = i + 1;
        }
        i += 1;
    }
    note_token(&chars, start, i, &mut rejected);
    rejected
}

/// Reads what a line of input supplies.
pub fn read_input_line(line: &str) -> (reading: Supplied)
    ensures
        reading == input_reading(line@),
{
    let chars: Vec<char> = chars_of(line);
    let mut start: usize = 0;
    while start < chars.len() && is_whitespace(chars[start])
        invariant
            start <= chars.len(),
            space_end(chars@, 0) == space_end(chars@, start as int),
        decreases chars.len() - start,
    {
        start += 1;
    }
    let mut end: usize = start;
    while end < chars.len() && !is_whitespace(chars[end])
        invariant
            start <= end <= chars.len(),
            word_end(chars@, start as int) == word_end(chars@, end as int),
        decreases chars.len() - end,
    {
        end += 1;
    }
    if start == end {
        Supplied::Nothing
    } else {
        match parse_token(&chars, start, end) {
            Some(value) => Supplied::Value(value),
            None => Supplied::Unreadable,
        }
    }
}

/// Reads the integer that a line of input supplies, if it supplies one.
pub fn parse_input_line(line: &str) -> (value: Option<isize>)
    ensures
        value == input_value(line@),
{
    match read_input_line(line) {
        Supplied::Value(value) => Some(value),
        _ => None,
    }
}

} // verus!
