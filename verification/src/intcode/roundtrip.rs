//! Writing a program as text, and why reading the text gives it back.

use vstd::prelude::*;
use crate::decimal::{digits_of, is_digit, lemma_digits_of};
use crate::intcode::text::{
    is_separator,
    lemma_token_end_bounds,
    program_values,
    token_end,
    token_value,
    values_from,
};

verus! {

/// The decimal representation of `v`: a `-` if it is negative, then the
/// digits of its magnitude.
pub open spec fn decimal(v: int) -> Seq<char> {
    if v < 0 {
        seq!['-'] + digits_of((-v) as nat)
    } else {
        digits_of(v as nat)
    }
}

/// The decimal representations of the cells of `tape`, in order, with
/// `sep` between each two neighbours.
pub open spec fn joined(tape: Seq<isize>, sep: Seq<char>) -> Seq<char>
    decreases tape.len(),
{
    if tape.len() == 0 {
        Seq::<char>::empty()
    } else if tape.len() == 1 {
        decimal(tape[0] as int)
    } else {
        decimal(tape[0] as int) + sep + joined(tape.drop_first(), sep)
    }
}

/// Whether `sep` can stand between two tokens: one or more separators.
pub open spec fn is_gap(sep: Seq<char>) -> bool {
    sep.len() > 0 && forall|i: int| 0 <= i < sep.len() ==> is_separator(#[trigger] sep[i])
}

/// Whether `s` holds no separator.
pub open spec fn is_solid(s: Seq<char>) -> bool {
    forall|i: int| 0 <= i < s.len() ==> !is_separator(#[trigger] s[i])
}

/// The decimal representation of a cell is one token, and the token
/// writes the cell.
pub proof fn lemma_decimal_reads_back(v: isize)
    ensures
        decimal(v as int).len() > 0,
        is_solid(decimal(v as int)),
        token_value(decimal(v as int)) == Some(v),
{
    let s = decimal(v as int);
    if v < 0 {
        let n = (-v) as nat;
        lemma_digits_of(n);
        assert(s.subrange(1, s.len() as int) =~= digits_of(n));
    } else {
        lemma_digits_of(v as nat);
    }
}

/// A token that starts in text without separators runs to its end.
pub proof fn lemma_token_end_solid(s: Seq<char>, from: int)
    requires
        0 <= from <= s.len(),
        is_solid(s),
    ensures
        token_end(s, from) == s.len(),
    decreases s.len() - from,
{
    if from < s.len() {
        lemma_token_end_solid(s, from + 1);
    }
}

/// Where a token ends depends only on the text from its start on.
pub proof fn lemma_token_end_skip(s: Seq<char>, k: int, from: int)
    requires
        0 <= k <= from <= s.len(),
    ensures
        token_end(s.skip(k), from - k) == token_end(s, from) - k,
    decreases s.len() - from,
{
    if from < s.len() && !is_separator(s[from]) {
        lemma_token_end_skip(s, k, from + 1);
    }
}

/// The integers read from a position on depend only on the text from
/// that position on.
pub proof fn lemma_values_from_skip(s: Seq<char>, k: int, from: int)
    requires
        0 <= k <= from <= s.len(),
    ensures
        values_from(s.skip(k), from - k) == values_from(s, from),
    decreases s.len() - from,
{
    let end = token_end(s, from);
    lemma_token_end_bounds(s, from);
    lemma_token_end_skip(s, k, from);
    assert(s.skip(k).subrange(from - k, end - k) =~= s.subrange(from, end));
    if end < s.len() {
        lemma_values_from_skip(s, k, end + 1);
    }
}

/// A token of `a` ends at the same place when a separator and more text
/// follow `a`.
pub proof fn lemma_token_end_before_separator(a: Seq<char>, c: char, b: Seq<char>, from: int)
    requires
        0 <= from <= a.len(),
        is_separator(c),
    ensures
        token_end(a.push(c) + b, from) == token_end(a, from),
    decreases a.len() - from,
{
    if from < a.len() && !is_separator(a[from]) {
        lemma_token_end_before_separator(a, c, b, from + 1);
    }
}

/// Reading `a`, a separator, and `b` from a position in `a` on gives what
/// is read from `a` from there on, followed by what `b` writes.
pub proof fn lemma_values_from_concat(a: Seq<char>, c: char, b: Seq<char>, from: int)
    requires
        0 <= from <= a.len(),
        is_separator(c),
    ensures
        values_from(a.push(c) + b, from) == values_from(a, from) + program_values(b),
    decreases a.len() - from,
{
    let s = a.push(c) + b;
    let end = token_end(a, from);
    lemma_token_end_bounds(a, from);
    lemma_token_end_before_separator(a, c, b, from);
    assert(s.subrange(from, end) =~= a.subrange(from, end));
    if end < a.len() {
        lemma_values_from_concat(a, c, b, end + 1);
    } else {
        lemma_values_from_skip(s, end + 1, end + 1);
        assert(s.skip(end + 1) =~= b);
    }
}

/// A separator splits a text: what the whole writes is what the part
/// before the separator writes, followed by what the part after it
/// writes.
pub proof fn lemma_separator_splits(a: Seq<char>, c: char, b: Seq<char>)
    requires
        is_separator(c),
    ensures
        program_values(a.push(c) + b) == program_values(a) + program_values(b),
{
    lemma_values_from_concat(a, c, b, 0);
}

/// Separators at the end of a text add nothing to what it writes.
pub proof fn lemma_trailing_separators(a: Seq<char>, sep: Seq<char>)
    requires
        forall|i: int| 0 <= i < sep.len() ==> is_separator(#[trigger] sep[i]),
    ensures
        program_values(a + sep) == program_values(a),
    decreases sep.len(),
{
    if sep.len() > 0 {
        let front = sep.drop_last();
        let c = sep.last();
        lemma_trailing_separators(a, front);
        lemma_separator_splits(a + front, c, Seq::<char>::empty());
        assert((a + front).push(c) + Seq::<char>::empty() =~= a + sep);
    }
}

/// Separators at the start of a text add nothing to what it writes.
pub proof fn lemma_leading_separators(sep: Seq<char>, b: Seq<char>)
    requires
        forall|i: int| 0 <= i < sep.len() ==> is_separator(#[trigger] sep[i]),
    ensures
        program_values(sep + b) == program_values(b),
{
    if sep.len() > 0 {
        let front = sep.drop_last();
        lemma_separator_splits(front, sep.last(), b);
        assert(front.push(sep.last()) + b =~= sep + b);
        lemma_trailing_separators(Seq::<char>::empty(), front);
        assert(Seq::<char>::empty() + front =~= front);
        assert(program_values(Seq::<char>::empty()) =~= Seq::<isize>::empty());
    } else {
        assert(sep + b =~= b);
    }
}

/// One or more separators between two texts split them, however many
/// they are and whether commas or white space: adding white space around
/// a separator changes nothing of what a text writes.
pub proof fn lemma_gap_splits(a: Seq<char>, sep: Seq<char>, b: Seq<char>)
    requires
        is_gap(sep),
    ensures
        program_values(a + sep + b) == program_values(a) + program_values(b),
{
    let front = sep.drop_last();
    let c = sep.last();
    lemma_separator_splits(a + front, c, b);
    assert((a + front).push(c) + b =~= a + sep + b);
    lemma_trailing_separators(a, front);
}

/// A text that is one cell's decimal representation writes that cell
/// and nothing else.
pub proof fn lemma_decimal_is_one_value(v: isize)
    ensures
        program_values(decimal(v as int)) == seq![v],
{
    let s = decimal(v as int);
    lemma_decimal_reads_back(v);
    lemma_token_end_solid(s, 0);
    assert(s.subrange(0, s.len() as int) =~= s);
}

/// Writing a tape as decimal numbers with any gap of commas and white
/// space between them, and reading that text, gives the tape back.
pub proof fn lemma_joined_reads_back(tape: Seq<isize>, sep: Seq<char>)
    requires
        is_gap(sep),
    ensures
        program_values(joined(tape, sep)) == tape,
    decreases tape.len(),
{
    if tape.len() == 1 {
        lemma_decimal_is_one_value(tape[0]);
    } else if tape.len() > 1 {
        let rest = tape.drop_first();
        lemma_joined_reads_back(rest, sep);
        lemma_decimal_is_one_value(tape[0]);
        lemma_gap_splits(decimal(tape[0] as int), sep, joined(rest, sep));
    }
}

/// Writing a tape as comma-joined decimal numbers and reading that text
/// gives the tape back.
pub proof fn lemma_comma_joined_reads_back(tape: Seq<isize>)
    ensures
        program_values(joined(tape, seq![','])) == tape,
{
    lemma_joined_reads_back(tape, seq![',']);
}

} // verus!
