//! Two wires laid out on a grid from a common origin: their moves, the
//! segments they trace, and the crossing that is cheapest to reach.

use vstd::math::abs;
use vstd::prelude::*;
use crate::decimal::{chars_of, digits_value, is_number, parse_magnitude};

verus! {

/// A point of the grid, or a move across it: `(x, y)`.
pub type Vector = (i32, i32);

/// A straight piece of wire: where it starts and where it ends.
pub type LineSegment = (Vector, Vector);

/// The move up by `dy`, with `dy` taken as a signed 32-bit number.
pub open spec fn up_by(dy: u32) -> Vector {
    (0i32, dy as i32)
}

/// The move right by `dx`, with `dx` taken as a signed 32-bit number.
pub open spec fn right_by(dx: u32) -> Vector {
    (dx as i32, 0i32)
}

/// The move down by `dy`: the opposite of the move up.
pub open spec fn down_by(dy: u32) -> Vector {
    (0i32, (-(dy as i32)) as i32)
}

/// The move left by `dx`: the opposite of the move right.
pub open spec fn left_by(dx: u32) -> Vector {
    ((-(dx as i32)) as i32, 0i32)
}

/// Whether the move by `d` has an opposite: the one amount that has
/// none is the magnitude of the least signed 32-bit number.
pub open spec fn has_opposite(d: u32) -> bool {
    d != 0x8000_0000u32
}

/// The amount that the tail of a move writes: an optional `+`, then a
/// number that fits in 32 bits.
pub open spec fn amount_of(s: Seq<char>) -> Option<u32> {
    let body = if s.len() > 0 && s[0] == '+' {
        s.subrange(1, s.len() as int)
    } else {
        s
    };
    if is_number(body) && digits_value(body) <= u32::MAX {
        Some(digits_value(body) as u32)
    } else {
        None
    }
}

/// The move that one chunk of wire text writes: a letter `U`, `R`, `D`
/// or `L`, then an amount. No other text is a move, nor is a move down or
/// left by the one amount that has no opposite.
pub open spec fn move_of(chunk: Seq<char>) -> Option<Vector> {
    if chunk.len() == 0 {
        None
    } else {
        match amount_of(chunk.subrange(1, chunk.len() as int)) {
            None => None,
            Some(d) => if chunk[0] == 'U' {
                Some(up_by(d))
            } else if chunk[0] == 'R' {
                Some(right_by(d))
            } else if chunk[0] == 'D' && has_opposite(d) {
                Some(down_by(d))
            } else if chunk[0] == 'L' && has_opposite(d) {
                Some(left_by(d))
            } else {
                None
            },
        }
    }
}

/// Where the chunk that starts at `from` ends: the position of the first
/// comma at or after `from`, or the length of `s`.
pub open spec fn chunk_end(s: Seq<char>, from: int) -> int
    decreases s.len() - from,
{
    if 0 <= from < s.len() && s[from] != ',' {
        chunk_end(s, from + 1)
    } else {
        from
    }
}

/// The moves written in `s` from position `from` on: the text is cut at
/// every comma and every chunk must be a move.
pub open spec fn moves_from(s: Seq<char>, from: int) -> Option<Seq<Vector>>
    decreases s.len() - from,
{
    let end = chunk_end(s, from);
    match move_of(s.subrange(from, end)) {
        None => None,
        Some(first) => if from <= end < s.len() {
            match moves_from(s, end + 1) {
                None => None,
                Some(rest) => Some(seq![first] + rest),
            }
        } else {
            Some(seq![first])
        },
    }
}

/// The moves that a wire's text writes, if the text is well formed.
pub open spec fn wire_moves(s: Seq<char>) -> Option<Seq<Vector>> {
    moves_from(s, 0)
}

/// The move up by `dy`.
pub fn up(dy: u32) -> (v: Vector)
    ensures
        v == up_by(dy),
{
    (0, #[verifier::truncate] (dy as i32))
}

/// The move right by `dx`.
pub fn right(dx: u32) -> (v: Vector)
    ensures
        v == right_by(dx),
{
    (#[verifier::truncate] (dx as i32), 0)
}

/// The move down by `dy`.
pub fn down(dy: u32) -> (v: Vector)
    requires
        has_opposite(dy),
    ensures
        v == down_by(dy),
{
    let y: i32 = #[verifier::truncate] (dy as i32);
    assert(y != i32::MIN) by {
        lemma_least_has_one_magnitude(dy);
    }
    (0, -y)
}

/// The move left by `dx`.
pub fn left(dx: u32) -> (v: Vector)
    requires
        has_opposite(dx),
    ensures
        v == left_by(dx),
{
    let x: i32 = #[verifier::truncate] (dx as i32);
    assert(x != i32::MIN) by {
        lemma_least_has_one_magnitude(dx);
    }
    (-x, 0)
}

/// Only one 32-bit amount reads as the least signed 32-bit number.
pub proof fn lemma_least_has_one_magnitude(d: u32)
    ensures
        d as i32 == i32::MIN <==> d == 0x8000_0000u32,
{
    assert(d as i32 == i32::MIN <==> d == 0x8000_0000u32) by (bit_vector);
}

/// What follows `done` once `rest` is read: nothing, if `rest` is not
/// well formed.
spec fn followed_by(done: Seq<Vector>, rest: Option<Seq<Vector>>) -> Option<Seq<Vector>> {
    match rest {
        None => None,
        Some(more) => Some(done + more),
    }
}

/// Reads the move that `chars` holds from `from` up to `to`.
pub fn parse_move(chars: &Vec<char>, from: usize, to: usize) -> (step: Option<Vector>)
    requires
        from <= to <= chars.len(),
    ensures
        step == move_of(chars@.subrange(from as int, to as int)),
{
    let ghost chunk = chars@.subrange(from as int, to as int);
    if from == to {
        return None;
    }
    let ghost tail = chunk.subrange(1, chunk.len() as int);
    assert(tail =~= chars@.subrange(from + 1, to as int));
    let start: usize = if from + 1 < to && chars[from + 1] == '+' {
        assert(tail.subrange(1, tail.len() as int) =~= chars@.subrange(from + 2, to as int));
        from + 2
    } else {
        from + 1
    };
    let dir: char = chars[from];
    match parse_magnitude(chars, start, to) {
        None => None,
        Some(magnitude) => {
            if magnitude > u32::MAX as u64 {
                None
            } else {
                let delta: u32 = magnitude as u32;
                if dir == 'U' {
                    Some(up(delta))
                } else if dir == 'R' {
                    Some(right(delta))
                } else if dir == 'D' && delta != 0x8000_0000u32 {
                    Some(down(delta))
                } else if dir == 'L' && delta != 0x8000_0000u32 {
                    Some(left(delta))
                } else {
                    None
                }
            }
        },
    }
}

/// Reads a wire's text: its moves in order, or nothing if any chunk of
/// the text is not a move.
pub fn try_parse_input(input: &str) -> (moves: Option<Vec<Vector>>)
    ensures
        moves is Some <==> wire_moves(input@) is Some,
        moves is Some ==> moves->Some_0@ == wire_moves(input@)->Some_0,
{
    let chars: Vec<char> = chars_of(input);
    let mut moves: Vec<Vector> = Vec::new();
    let mut start: usize = 0;
    let mut i: usize = 0;
    while i < chars.len()
        invariant
            start <= i <= chars.len(),
            chars@ == input@,
            chunk_end(chars@, start as int) == chunk_end(chars@, i as int),
            wire_moves(chars@) == followed_by(moves@, moves_from(chars@, start as int)),
        decreases chars.len() - i,
    {
        if chars[i] == ',' {
            match parse_move(&chars, start, i) {
                None => {
                    return None;
                },
                Some(step) => {
                    moves.push(step);
                },
            }
            start = i + 1;
        }
        i += 1;
    }
    match parse_move(&chars, start, i) {
        None => None,
        Some(step) => {
            moves.push(step);
            Some(moves)
        },
    }
}

/// Reads a wire's text that is known to be well formed.
pub fn parse_input(input: &str) -> (moves: Vec<Vector>)
    requires
        wire_moves(input@) is Some,
    ensures
        moves@ == wire_moves(input@)->Some_0,
{
    match try_parse_input(input) {
        Some(moves) => moves,
        None => Vec::new(),
    }
}

/// The number of grid steps between two points.
pub open spec fn displacement(a: Vector, b: Vector) -> nat {
    abs(a.0 - b.0) + abs(a.1 - b.1)
}

/// The corner a wire has reached after its first `k` moves.
pub open spec fn corner(dirs: Seq<Vector>, k: int) -> (int, int)
    decreases k,
{
    if k <= 0 {
        (0, 0)
    } else {
        let prev = corner(dirs, k - 1);
        (prev.0 + dirs[k - 1].0, prev.1 + dirs[k - 1].1)
    }
}

/// Whether a point with whole-number coordinates is a point of the grid.
pub open spec fn on_grid(p: (int, int)) -> bool {
    i32::MIN <= p.0 <= i32::MAX && i32::MIN <= p.1 <= i32::MAX
}

/// The point reached from `start` by the move `delta`.
pub fn next_point(start: &Vector, delta: &Vector) -> (end: Vector)
    requires
        on_grid((start.0 + delta.0, start.1 + delta.1)),
    ensures
        end.0 == start.0 + delta.0,
        end.1 == start.1 + delta.1,
{
    return (start.0 + delta.0, start.1 + delta.1);
}

/// The number of grid steps between `a` and `b`.
pub fn manhattan_distance(a: &Vector, b: &Vector) -> (steps: u32)
    requires
        displacement(*a, *b) <= i32::MAX,
    ensures
        steps == displacement(*a, *b),
{
    let across: i32 = if a.0 >= b.0 {
        a.0 - b.0
    } else {
        b.0 - a.0
    };
    let along: i32 = if a.1 >= b.1 {
        a.1 - b.1
    } else {
        b.1 - a.1
    };
    (across + along) as u32
}

/// Whether a wire with these moves stays on the grid: every corner it
/// reaches is a point of the grid.
pub open spec fn stays_on_grid(dirs: Seq<Vector>) -> bool {
    forall|k: int| 0 <= k <= dirs.len() ==> on_grid(#[trigger] corner(dirs, k))
}

/// Decides `stays_on_grid`.
pub fn wire_stays_on_grid(dirs: &Vec<Vector>) -> (stays: bool)
    ensures
        stays == stays_on_grid(dirs@),
{
    let mut x: i64 = 0;
    let mut y: i64 = 0;
    let mut i: usize = 0;
    while i < dirs.len()
        invariant
            i <= dirs.len(),
            x == corner(dirs@, i as int).0,
            y == corner(dirs@, i as int).1,
            forall|k: int| 0 <= k <= i ==> on_grid(#[trigger] corner(dirs@, k)),
        decreases dirs.len() - i,
    {
        let delta: Vector = dirs[i];
        x = x + delta.0 as i64;
        y = y + delta.1 as i64;
        if x < i32::MIN as i64 || x > i32::MAX as i64 || y < i32::MIN as i64 || y > i32::MAX as i64 {
            assert(!on_grid(corner(dirs@, i + 1)));
            return false;
        }
        i += 1;
    }
    true
}

/// The segments a wire traces from the origin: segment `k` runs from the
/// corner before move `k` to the corner after it.
pub fn gen_lines(dirs: &Vec<Vector>) -> (lines: Vec<LineSegment>)
    requires
        stays_on_grid(dirs@),
    ensures
        lines.len() == dirs.len(),
        forall|k: int|
            0 <= k < dirs.len() ==> {
                &&& (#[trigger] lines[k]).0.0 == corner(dirs@, k).0
                &&& lines[k].0.1 == corner(dirs@, k).1
                &&& lines[k].1.0 == corner(dirs@, k + 1).0
                &&& lines[k].1.1 == corner(dirs@, k + 1).1
            },
{
    let mut lines: Vec<LineSegment> = Vec::new();
    let mut prev: Vector = (0, 0);
    let mut i: usize = 0;
    while i < dirs.len()
        invariant
            i <= dirs.len(),
            lines.len() == i,
            prev.0 == corner(dirs@, i as int).0,
            prev.1 == corner(dirs@, i as int).1,
            stays_on_grid(dirs@),
            forall|k: int|
                0 <= k < i ==> {
                    &&& (#[trigger] lines[k]).0.0 == corner(dirs@, k).0
                    &&& lines[k].0.1 == corner(dirs@, k).1
                    &&& lines[k].1.0 == corner(dirs@, k + 1).0
                    &&& lines[k].1.1 == corner(dirs@, k + 1).1
                },
        decreases dirs.len() - i,
    {
        assert(on_grid(corner(dirs@, i + 1)));
        let next: Vector = next_point(&prev, &dirs[i]);
        lines.push((prev, next));
        prev = next;
        i += 1;
    }
    lines
}

/// The length of wire laid by the first `k` segments.
pub open spec fn walked(wire: Seq<LineSegment>, k: int) -> nat
    decreases k,
{
    if k <= 0 {
        0
    } else {
        walked(wire, k - 1) + displacement(wire[k - 1].0, wire[k - 1].1)
    }
}

/// Whether `crossings` is a table for the wires `a` and `b`: one row for
/// each segment of `a`, one entry in each row for each segment of `b`.
/// Entry `j` of row `i` is the point where segment `i` of `a` meets
/// segment `j` of `b`, if they meet.
pub open spec fn is_table(
    crossings: Seq<Vec<Option<Vector>>>,
    a: Seq<LineSegment>,
    b: Seq<LineSegment>,
) -> bool {
    crossings.len() == a.len() && forall|i: int|
        0 <= i < a.len() ==> (#[trigger] crossings[i]).len() == b.len()
}

/// Whether `(i, j)` comes before `(k, l)` when a table is read row by
/// row.
pub open spec fn comes_before(i: int, j: int, k: int, l: int) -> bool {
    i < k || (i == k && j < l)
}

/// The combined length of wire from the origin to the point `p` where
/// segment `i` of `a` meets segment `j` of `b`: along `a` to the start of
/// its segment and on to `p`, and the same along `b`.
pub open spec fn steps_to(
    a: Seq<LineSegment>,
    b: Seq<LineSegment>,
    i: int,
    j: int,
    p: Vector,
) -> nat {
    walked(a, i) + displacement(a[i].0, p) + walked(b, j) + displacement(b[j].0, p)
}

/// The combined length of wire to the crossing in entry `(i, j)`.
pub open spec fn cost_by_steps(
    crossings: Seq<Vec<Option<Vector>>>,
    a: Seq<LineSegment>,
    b: Seq<LineSegment>,
    i: int,
    j: int,
) -> nat {
    steps_to(a, b, i, j, crossings[i]@[j]->Some_0)
}

/// The distance from the origin of the crossing in entry `(i, j)`.
pub open spec fn cost_by_distance(crossings: Seq<Vec<Option<Vector>>>, i: int, j: int) -> nat {
    displacement(crossings[i]@[j]->Some_0, (0i32, 0i32))
}

/// Whether the lengths of a wire fit their machine types: each segment
/// in a signed 32-bit number, the whole wire in an unsigned one.
pub open spec fn trace_fits(wire: Seq<LineSegment>) -> bool {
    &&& walked(wire, wire.len() as int) <= u32::MAX
    &&& forall|k: int|
        0 <= k < wire.len() ==> displacement((#[trigger] wire[k]).0, wire[k].1) <= i32::MAX
}

/// Whether the lengths to the crossing in entry `(i, j)` fit their
/// machine types: the way to it along each of the two segments in a
/// signed 32-bit number, the combined length in an unsigned one.
pub open spec fn crossing_fits(
    crossings: Seq<Vec<Option<Vector>>>,
    a: Seq<LineSegment>,
    b: Seq<LineSegment>,
    i: int,
    j: int,
) -> bool {
    &&& displacement(a[i].0, crossings[i]@[j]->Some_0) <= i32::MAX
    &&& displacement(b[j].0, crossings[i]@[j]->Some_0) <= i32::MAX
    &&& cost_by_steps(crossings, a, b, i, j) <= u32::MAX
}

/// Whether every length that the search by combined steps adds up fits
/// its machine type. The second wire is only walked if the first has a
/// segment.
pub open spec fn steps_fit(
    crossings: Seq<Vec<Option<Vector>>>,
    a: Seq<LineSegment>,
    b: Seq<LineSegment>,
) -> bool {
    &&& trace_fits(a)
    &&& a.len() > 0 ==> trace_fits(b)
    &&& forall|i: int, j: int|
        0 <= i < a.len() && 0 <= j < b.len() && (#[trigger] crossings[i]@[j]) is Some
            ==> crossing_fits(crossings, a, b, i, j)
}

/// Whether the distance from the origin of every crossing in the table
/// fits a signed 32-bit number.
pub open spec fn distances_fit(crossings: Seq<Vec<Option<Vector>>>) -> bool {
    forall|i: int, j: int|
        0 <= i < crossings.len() && 0 <= j < crossings[i].len() && (
        #[trigger] crossings[i]@[j]) is Some ==> cost_by_distance(crossings, i, j) <= i32::MAX
}

/// Whether the table holds no crossing.
pub open spec fn no_crossing(crossings: Seq<Vec<Option<Vector>>>) -> bool {
    forall|i: int, j: int|
        0 <= i < crossings.len() && 0 <= j < crossings[i].len() ==> (
        #[trigger] crossings[i]@[j]) is None
}

/// Whether entry `(i, j)` holds the crossing that a search settles on
/// under `cost`: no crossing costs less, and every crossing met before
/// it, reading row by row, costs more.
pub open spec fn is_first_cheapest(
    crossings: Seq<Vec<Option<Vector>>>,
    cost: spec_fn(int, int) -> nat,
    i: int,
    j: int,
) -> bool {
    &&& 0 <= i < crossings.len()
    &&& 0 <= j < crossings[i].len()
    &&& crossings[i]@[j] is Some
    &&& forall|k: int, l: int|
        0 <= k < crossings.len() && 0 <= l < crossings[k].len() && (
        #[trigger] crossings[k]@[l]) is Some ==> cost(i, j) <= cost(k, l) && (comes_before(
            k,
            l,
            i,
            j,
        ) ==> cost(i, j) < cost(k, l))
}

/// Whether `found` is what a search of the table under `cost` settles
/// on: nothing if the table holds no crossing, else the point and cost
/// of the first cheapest crossing.
pub open spec fn is_search_result(
    crossings: Seq<Vec<Option<Vector>>>,
    cost: spec_fn(int, int) -> nat,
    found: Option<(Vector, u32)>,
) -> bool {
    match found {
        None => no_crossing(crossings),
        Some((point, steps)) => exists|i: int, j: int|
            #![trigger crossings[i]@[j]]
            is_first_cheapest(crossings, cost, i, j) && crossings[i]@[j] == Some(point) && steps
                == cost(i, j),
    }
}

/// What the search has settled on after the entries before `(i, j)`.
spec fn is_search_state(
    crossings: Seq<Vec<Option<Vector>>>,
    cost: spec_fn(int, int) -> nat,
    found: Option<(Vector, u32)>,
    at: (int, int),
    i: int,
    j: int,
) -> bool {
    match found {
        None => forall|k: int, l: int|
            0 <= k < crossings.len() && 0 <= l < crossings[k].len() && comes_before(k, l, i, j) ==> (
            #[trigger] crossings[k]@[l]) is None,
        Some((point, steps)) => {
            &&& 0 <= at.0 < crossings.len()
            &&& 0 <= at.1 < crossings[at.0].len()
            &&& comes_before(at.0, at.1, i, j)
            &&& crossings[at.0]@[at.1] == Some(point)
            &&& steps == cost(at.0, at.1)
            &&& forall|k: int, l: int|
                0 <= k < crossings.len() && 0 <= l < crossings[k].len() && comes_before(k, l, i, j)
                    && (#[trigger] crossings[k]@[l]) is Some ==> steps <= cost(k, l) && (
                comes_before(k, l, at.0, at.1) ==> steps < cost(k, l))
        },
    }
}

/// The length of wire laid grows with every segment.
pub proof fn lemma_walked_grows(wire: Seq<LineSegment>, k: int, n: int)
    requires
        0 <= k <= n,
    ensures
        walked(wire, k) <= walked(wire, n),
    decreases n - k,
{
    if k < n {
        lemma_walked_grows(wire, k, n - 1);
    }
}

/// The number of grid steps between `a` and `b`, in a type wide enough
/// for any two points of the grid.
pub fn wide_distance(a: &Vector, b: &Vector) -> (steps: u64)
    ensures
        steps == displacement(*a, *b),
{
    let across: i64 = if a.0 >= b.0 {
        a.0 as i64 - b.0 as i64
    } else {
        b.0 as i64 - a.0 as i64
    };
    let along: i64 = if a.1 >= b.1 {
        a.1 as i64 - b.1 as i64
    } else {
        b.1 as i64 - a.1 as i64
    };
    (across + along) as u64
}

/// Decides `trace_fits`.
pub fn wire_fits(wire: &Vec<LineSegment>) -> (fits: bool)
    ensures
        fits == trace_fits(wire@),
{
    let mut length: u64 = 0;
    let mut k: usize = 0;
    while k < wire.len()
        invariant
            k <= wire.len(),
            length == walked(wire@, k as int),
            length <= u32::MAX,
            forall|n: int|
                0 <= n < k ==> displacement((#[trigger] wire@[n]).0, wire@[n].1) <= i32::MAX,
        decreases wire.len() - k,
    {
        let segment: &LineSegment = &wire[k];
        let piece: u64 = wide_distance(&segment.0, &segment.1);
        proof {
            lemma_walked_grows(wire@, k + 1, wire@.len() as int);
        }
        if piece > i32::MAX as u64 {
            return false;
        }
        length = length + piece;
        if length > u32::MAX as u64 {
            return false;
        }
        k += 1;
    }
    true
}

/// Decides `is_table`.
pub fn table_fits(
    crossings: &Vec<Vec<Option<Vector>>>,
    wire_a: &Vec<LineSegment>,
    wire_b: &Vec<LineSegment>,
) -> (fits: bool)
    ensures
        fits == is_table(crossings@, wire_a@, wire_b@),
{
    if crossings.len() != wire_a.len() {
        return false;
    }
    let mut i: usize = 0;
    while i < crossings.len()
        invariant
            i <= crossings.len(),
            crossings.len() == wire_a.len(),
            forall|k: int| 0 <= k < i ==> (#[trigger] crossings@[k]).len() == wire_b.len(),
        decreases crossings.len() - i,
    {
        if crossings[i].len() != wire_b.len() {
            return false;
        }
        i += 1;
    }
    true
}

/// Decides whether the search by combined steps can be made: whether
/// `crossings` is a table for the two wires and every length the search
/// adds up fits its machine type.
pub fn can_search_by_steps(
    wire_a: &Vec<LineSegment>,
    wire_b: &Vec<LineSegment>,
    crossings: &Vec<Vec<Option<Vector>>>,
) -> (can: bool)
    ensures
        can == (is_table(crossings@, wire_a@, wire_b@) && steps_fit(crossings@, wire_a@, wire_b@)),
{
    if !table_fits(crossings, wire_a, wire_b) || !wire_fits(wire_a) {
        return false;
    }
    if wire_a.len() > 0 && !wire_fits(wire_b) {
        return false;
    }
    let mut distance_a: u64 = 0;
    let mut i: usize = 0;
    while i < wire_a.len()
        invariant
            i <= wire_a.len(),
            is_table(crossings@, wire_a@, wire_b@),
            trace_fits(wire_a@),
            wire_a.len() > 0 ==> trace_fits(wire_b@),
            distance_a == walked(wire_a@, i as int),
            forall|k: int, l: int|
                0 <= k < i && 0 <= l < wire_b.len() && (#[trigger] crossings@[k]@[l]) is Some
                    ==> crossing_fits(crossings@, wire_a@, wire_b@, k, l),
        decreases wire_a.len() - i,
    {
        let segment_a: &LineSegment = &wire_a[i];
        let row: &Vec<Option<Vector>> = &crossings[i];
        let mut distance_b: u64 = 0;
        let mut j: usize = 0;
        proof {
            lemma_walked_grows(wire_a@, i as int, wire_a@.len() as int);
        }
        while j < wire_b.len()
            invariant
                i < wire_a.len(),
                j <= wire_b.len(),
                is_table(crossings@, wire_a@, wire_b@),
                trace_fits(wire_a@),
                trace_fits(wire_b@),
                *segment_a == wire_a@[i as int],
                *row == crossings@[i as int],
                distance_a == walked(wire_a@, i as int),
                distance_a <= u32::MAX,
                distance_b == walked(wire_b@, j as int),
                forall|k: int, l: int|
                    0 <= k < wire_a.len() && 0 <= l < wire_b.len() && comes_before(
                        k,
                        l,
                        i as int,
                        j as int,
                    ) && (#[trigger] crossings@[k]@[l]) is Some ==> crossing_fits(
                        crossings@,
                        wire_a@,
                        wire_b@,
                        k,
                        l,
                    ),
            decreases wire_b.len() - j,
        {
            let segment_b: &LineSegment = &wire_b[j];
            proof {
                lemma_walked_grows(wire_b@, j as int, wire_b@.len() as int);
                lemma_walked_grows(wire_b@, j + 1, wire_b@.len() as int);
            }
            match row[j] {
                Some(point) => {
                    let to_a: u64 = wide_distance(&segment_a.0, &point);
                    let to_b: u64 = wide_distance(&segment_b.0, &point);
                    if to_a > i32::MAX as u64 || to_b > i32::MAX as u64 || distance_a + to_a
                        + distance_b + to_b > u32::MAX as u64 {
                        return false;
                    }
                },
                None => (),
            }
            distance_b = distance_b + wide_distance(&segment_b.0, &segment_b.1);
            j += 1;
        }
        proof {
            lemma_walked_grows(wire_a@, i + 1, wire_a@.len() as int);
        }
        distance_a = distance_a + wide_distance(&segment_a.0, &segment_a.1);
        i += 1;
    }
    true
}

/// Decides whether the search by distance can be made: whether
/// `crossings` is a table for the two wires and the distance of every
/// crossing from the origin fits its machine type.
pub fn can_search_by_distance(
    a: &Vec<LineSegment>,
    b: &Vec<LineSegment>,
    crossings: &Vec<Vec<Option<Vector>>>,
) -> (can: bool)
    ensures
        can == (is_table(crossings@, a@, b@) && distances_fit(crossings@)),
{
    if !table_fits(crossings, a, b) {
        return false;
    }
    let mut i: usize = 0;
    while i < a.len()
        invariant
            i <= a.len(),
            is_table(crossings@, a@, b@),
            forall|k: int, l: int|
                0 <= k < i && 0 <= l < b.len() && (#[trigger] crossings@[k]@[l]) is Some
                    ==> cost_by_distance(crossings@, k, l) <= i32::MAX,
        decreases a.len() - i,
    {
        let row: &Vec<Option<Vector>> = &crossings[i];
        let mut j: usize = 0;
        while j < b.len()
            invariant
                i < a.len(),
                j <= b.len(),
                is_table(crossings@, a@, b@),
                *row == crossings@[i as int],
                forall|k: int, l: int|
                    0 <= k < a.len() && 0 <= l < b.len() && comes_before(k, l, i as int, j as int)
                        && (#[trigger] crossings@[k]@[l]) is Some ==> cost_by_distance(
                        crossings@,
                        k,
                        l,
                    ) <= i32::MAX,
            decreases b.len() - j,
        {
            match row[j] {
                Some(point) => {
                    let origin: Vector = (0, 0);
                    if wide_distance(&point, &origin) > i32::MAX as u64 {
                        return false;
                    }
                },
                None => (),
            }
            j += 1;
        }
        i += 1;
    }
    true
}

/// Among the crossings in the table, finds the one with the least
/// combined length of wire from the origin, and that length. Of several
/// such, it is the one met first when the table is read row by row.
pub fn find_intersection_point_pt_2(
    wire_a: &Vec<LineSegment>,
    wire_b: &Vec<LineSegment>,
    crossings: &Vec<Vec<Option<Vector>>>,
) -> (min: Option<(Vector, u32)>)
    requires
        is_table(crossings@, wire_a@, wire_b@),
        steps_fit(crossings@, wire_a@, wire_b@),
    ensures
        is_search_result(
            crossings@,
            |i: int, j: int| cost_by_steps(crossings@, wire_a@, wire_b@, i, j),
            min,
        ),
{
    let ghost cost = |i: int, j: int| cost_by_steps(crossings@, wire_a@, wire_b@, i, j);
    let mut min: Option<(Vector, u32)> = None;
    let ghost mut at: (int, int) = (0, 0);
    let mut distance_a: u32 = 0;
    let mut i: usize = 0;
    while i < wire_a.len()
        invariant
            i <= wire_a.len(),
            is_table(crossings@, wire_a@, wire_b@),
            steps_fit(crossings@, wire_a@, wire_b@),
            cost == |i: int, j: int| cost_by_steps(crossings@, wire_a@, wire_b@, i, j),
            distance_a == walked(wire_a@, i as int),
            is_search_state(crossings@, cost, min, at, i as int, 0),
        decreases wire_a.len() - i,
    {
        let segment_a: &LineSegment = &wire_a[i];
        let row: &Vec<Option<Vector>> = &crossings[i];
        let mut distance_b: u32 = 0;
        let mut j: usize = 0;
        while j < wire_b.len()
            invariant
                i < wire_a.len(),
                j <= wire_b.len(),
                is_table(crossings@, wire_a@, wire_b@),
                steps_fit(crossings@, wire_a@, wire_b@),
                cost == |i: int, j: int| cost_by_steps(crossings@, wire_a@, wire_b@, i, j),
                *segment_a == wire_a@[i as int],
                *row == crossings@[i as int],
                distance_a == walked(wire_a@, i as int),
                distance_b == walked(wire_b@, j as int),
                is_search_state(crossings@, cost, min, at, i as int, j as int),
            decreases wire_b.len() - j,
        {
            let segment_b: &LineSegment = &wire_b[j];
            match row[j] {
                Some(point) => {
                    let dist: u32 = distance_a + manhattan_distance(&segment_a.0, &point)
                        + distance_b + manhattan_distance(&segment_b.0, &point);
                    match min {
                        Some((_, min_so_far)) => {
                            if dist < min_so_far {
                                min = Some((point, dist));
                                proof {
                                    at = (i as int, j as int);
                                }
                            }
                        },
                        None => {
                            min = Some((point, dist));
                            proof {
                                at = (i as int, j as int);
                            }
                        },
                    }
                },
                None => (),
            }
            proof {
                lemma_walked_grows(wire_b@, j + 1, wire_b@.len() as int);
            }
            distance_b = distance_b + manhattan_distance(&segment_b.0, &segment_b.1);
            j += 1;
        }
        proof {
            lemma_walked_grows(wire_a@, i + 1, wire_a@.len() as int);
        }
        distance_a = distance_a + manhattan_distance(&segment_a.0, &segment_a.1);
        i += 1;
    }
    min
}

/// Among the crossings in the table, finds the one nearest the origin,
/// and its distance. Of several such, it is the one met first when the
/// table is read row by row.
pub fn find_intersection_point_pt_1(
    a: &Vec<LineSegment>,
    b: &Vec<LineSegment>,
    crossings: &Vec<Vec<Option<Vector>>>,
) -> (min_point: Option<(Vector, u32)>)
    requires
        is_table(crossings@, a@, b@),
        distances_fit(crossings@),
    ensures
        is_search_result(crossings@, |i: int, j: int| cost_by_distance(crossings@, i, j), min_point),
{
    let ghost cost = |i: int, j: int| cost_by_distance(crossings@, i, j);
    let mut min_point: Option<(Vector, u32)> = None;
    let ghost mut at: (int, int) = (0, 0);
    let mut i: usize = 0;
    while i < a.len()
        invariant
            i <= a.len(),
            is_table(crossings@, a@, b@),
            distances_fit(crossings@),
            cost == |i: int, j: int| cost_by_distance(crossings@, i, j),
            is_search_state(crossings@, cost, min_point, at, i as int, 0),
        decreases a.len() - i,
    {
        let row: &Vec<Option<Vector>> = &crossings[i];
        let mut j: usize = 0;
        while j < b.len()
            invariant
                i < a.len(),
                j <= b.len(),
                is_table(crossings@, a@, b@),
                distances_fit(crossings@),
                cost == |i: int, j: int| cost_by_distance(crossings@, i, j),
                *row == crossings@[i as int],
                is_search_state(crossings@, cost, min_point, at, i as int, j as int),
            decreases b.len() - j,
        {
            match row[j] {
                Some(point) => {
                    let origin: Vector = (0, 0);
                    let dist: u32 = manhattan_distance(&point, &origin);
                    match min_point {
                        Some((_, min_dist)) => {
                            if dist < min_dist {
                                min_point = Some((point, dist));
                                proof {
                                    at = (i as int, j as int);
                                }
                            }
                        },
                        None => {
                            min_point = Some((point, dist));
                            proof {
                                at = (i as int, j as int);
                            }
                        },
                    }
                },
                None => (),
            }
            j += 1;
        }
        i += 1;
    }
    min_point
}

/// The least combined length of wire from the origin to a crossing of
/// the two wires, if they cross.
pub fn run(
    wire_a: &Vec<LineSegment>,
    wire_b: &Vec<LineSegment>,
    crossings: &Vec<Vec<Option<Vector>>>,
) -> (fewest: Option<u32>)
    requires
        is_table(crossings@, wire_a@, wire_b@),
        steps_fit(crossings@, wire_a@, wire_b@),
    ensures
        fewest is None <==> no_crossing(crossings@),
        fewest matches Some(steps) ==> exists|i: int, j: int|
            #![trigger crossings@[i]@[j]]
            is_first_cheapest(
                crossings@,
                |i: int, j: int| cost_by_steps(crossings@, wire_a@, wire_b@, i, j),
                i,
                j,
            ) && steps == cost_by_steps(crossings@, wire_a@, wire_b@, i, j),
{
    match find_intersection_point_pt_2(wire_a, wire_b, crossings) {
        Some((_, dist)) => Some(dist),
        None => None,
    }
}

} // verus!
