//! Counting the numbers in a range whose decimal digits obey two rules:
//! they never decrease from left to right, and some digit stands exactly
//! twice in a row.
//!
//! The three searches are tail recursions. Each is run on a trampoline,
//! so that its depth never shows on the stack.

use vstd::prelude::*;
use tramp::{tramp, BorrowRec, Rec, Thunk};

verus! {

/// The decimal digits of `n` from the units up, none for zero.
pub open spec fn upper_digits(n: nat) -> Seq<nat>
    decreases n,
{
    if n == 0 {
        Seq::<nat>::empty()
    } else {
        seq![n % 10] + upper_digits(n / 10)
    }
}

/// The decimal digits of `n` from the units up; zero has the one digit 0.
pub open spec fn numeral(n: nat) -> Seq<nat> {
    seq![n % 10] + upper_digits(n / 10)
}

/// Whether, reading a number from left to right, no digit is less than
/// the one before it. `d` holds the digits from the units up.
pub open spec fn never_decreases(d: Seq<nat>) -> bool {
    forall|i: int| 0 <= i && i + 1 < d.len() ==> d[i + 1] <= #[trigger] d[i]
}

/// Whether the digits at `i` and `i + 1` are equal and both their
/// neighbours, where there are any, differ from them.
pub open spec fn is_exact_pair(d: Seq<nat>, i: int) -> bool {
    &&& 0 <= i && i + 1 < d.len()
    &&& d[i] == d[i + 1]
    &&& (i == 0 || d[i - 1] != d[i])
    &&& (i + 2 == d.len() || d[i + 2] != d[i])
}

/// Whether some digit stands exactly twice in a row.
pub open spec fn has_exact_pair(d: Seq<nat>) -> bool {
    exists|i: int| is_exact_pair(d, i)
}

/// Whether `n` obeys both rules.
pub open spec fn is_candidate(n: nat) -> bool {
    has_exact_pair(numeral(n)) && never_decreases(numeral(n))
}

/// The number of candidates from `lo` to `hi`, both included.
pub open spec fn candidates_between(lo: nat, hi: nat) -> nat
    decreases hi + 1 - lo,
{
    if lo > hi {
        0
    } else if is_candidate(lo) {
        1 + candidates_between(lo + 1, hi)
    } else {
        candidates_between(lo + 1, hi)
    }
}

/// The candidates of a range are those of its lower part and those of
/// its upper part, wherever the range is cut.
pub proof fn lemma_candidates_split(lo: nat, mid: nat, hi: nat)
    requires
        lo <= mid + 1 <= hi + 1,
    ensures
        candidates_between(lo, hi) == candidates_between(lo, mid) + candidates_between(mid + 1, hi),
    decreases mid + 1 - lo,
{
    if lo <= mid {
        lemma_candidates_split(lo + 1, mid, hi);
    }
}

/// A range holds no more candidates than numbers.
pub proof fn lemma_candidates_bounded(lo: nat, hi: nat)
    ensures
        lo <= hi + 1 ==> candidates_between(lo, hi) <= hi + 1 - lo,
        lo > hi ==> candidates_between(lo, hi) == 0,
    decreases hi + 1 - lo,
{
    if lo <= hi {
        lemma_candidates_bounded(lo + 1, hi);
    }
}

/// What a scan for an exact pair finds in the digits `rest`, when the
/// digit before them is `prev` and ends a run of `cnt` equal digits that
/// cannot be extended downward: a run of exactly two, this one or a later
/// one.
pub open spec fn run_scan(rest: Seq<nat>, prev: nat, cnt: nat) -> bool
    decreases rest.len(),
{
    if rest.len() == 0 {
        cnt == 2
    } else if rest[0] == prev {
        run_scan(rest.skip(1), prev, cnt + 1)
    } else if cnt == 2 {
        true
    } else {
        run_scan(rest.skip(1), rest[0], 1)
    }
}

/// Whether the digits of `d` below position `k` end in a run of `cnt`
/// equal digits that cannot be extended downward, with no exact pair
/// starting below that run.
pub open spec fn is_scan_state(d: Seq<nat>, k: int, cnt: nat) -> bool {
    &&& 1 <= cnt <= k <= d.len()
    &&& forall|i: int| k - cnt <= i < k ==> #[trigger] d[i] == d[k - 1]
    &&& (k - cnt == 0 || d[k - cnt - 1] != d[k - 1])
    &&& forall|i: int| is_exact_pair(d, i) ==> k - cnt <= i
}

/// A scan that has reached position `k` of `d` finds an exact pair just
/// when `d` has one.
pub proof fn lemma_run_scan(d: Seq<nat>, k: int, cnt: nat)
    requires
        is_scan_state(d, k, cnt),
    ensures
        run_scan(d.skip(k), d[k - 1], cnt) == has_exact_pair(d),
    decreases d.len() - k,
{
    if k == d.len() {
        if cnt == 2 {
            assert(is_exact_pair(d, k - 2));
        }
    } else {
        assert(d.skip(k).skip(1) =~= d.skip(k + 1));
        if d[k] == d[k - 1] {
            assert(is_scan_state(d, k + 1, cnt + 1));
            lemma_run_scan(d, k + 1, cnt + 1);
        } else if cnt == 2 {
            assert(is_exact_pair(d, k - 2));
        } else {
            assert(is_scan_state(d, k + 1, 1));
            lemma_run_scan(d, k + 1, 1);
        }
    }
}

/// A scan that starts behind the units digit of `n` finds an exact pair
/// just when `n` has one.
pub proof fn lemma_run_scan_whole(n: nat)
    ensures
        run_scan(upper_digits(n / 10), n % 10, 1) == has_exact_pair(numeral(n)),
{
    let d = numeral(n);
    assert(d.skip(1) =~= upper_digits(n / 10));
    lemma_run_scan(d, 1, 1);
}

/// From ten on, a number's digits are its units digit and then the
/// digits of its tenth.
pub proof fn lemma_numeral_unfold(n: nat)
    requires
        n >= 10,
    ensures
        numeral(n) == seq![n % 10] + numeral(n / 10),
{
}

/// From ten on, a number's digits never decrease just when its last two
/// do not and those of its tenth never do.
pub proof fn lemma_never_decreases_unfold(n: nat)
    requires
        n >= 10,
    ensures
        never_decreases(numeral(n)) <==> (n / 10) % 10 <= n % 10 && never_decreases(
            numeral(n / 10),
        ),
{
    lemma_numeral_unfold(n);
    let d = numeral(n);
    let e = numeral(n / 10);
    if never_decreases(d) {
        assert(d[1] <= d[0]);
        assert forall|i: int| 0 <= i && i + 1 < e.len() implies e[i + 1] <= #[trigger] e[i] by {
            assert(d[i + 1] == e[i]);
        }
    }
}

/// The outside type `tramp::BorrowRec`, of which `tramp::Rec` is the
/// form without borrows: one stop of a trampolined recursion, either a
/// finished value or a delayed call that yields the next stop. Nothing of
/// its inside is visible to the proofs here.
#[verifier::external_type_specification]
#[verifier::external_body]
#[verifier::reject_recursive_types(T)]
pub struct ExBorrowRec<'a, T>(BorrowRec<'a, T>);

/// The number that `tramp::tramp` returns when it is started on `rec`,
/// a stop of a recursion that counts. It stands for the outcome of the
/// trampoline's loop and is given no definition here: all that is known
/// of it is what the items below say.
pub uninterp spec fn landing_count(rec: Rec<u32>) -> u32;

/// The answer that `tramp::tramp` returns when it is started on `rec`,
/// a stop of a recursion that decides. Like `landing_count`, it is given
/// no definition here.
pub uninterp spec fn landing_verdict(rec: Rec<bool>) -> bool;

/// Calls `tramp::tramp` on a stop of a counting recursion. Not proved:
/// that the value returned is the one `landing_count` names, which is
/// how that name is meant.
#[verifier::external_body]
fn bounce_count(rec: Rec<u32>) -> (total: u32)
    ensures
        total == landing_count(rec),
{
    tramp(rec)
}

/// Calls `tramp::tramp` on a stop of a deciding recursion. Not proved:
/// that the value returned is the one `landing_verdict` names, which is
/// how that name is meant.
#[verifier::external_body]
fn bounce_verdict(rec: Rec<bool>) -> (verdict: bool)
    ensures
        verdict == landing_verdict(rec),
{
    tramp(rec)
}

/// Builds `tramp::BorrowRec::Ret`, the stop that ends a counting
/// recursion. Not proved: that the trampoline, started on this stop,
/// returns the value the stop carries. Its loop returns at once on `Ret`.
#[verifier::external_body]
fn finish_count(total: u32) -> (rec: Rec<u32>)
    ensures
        landing_count(rec) == total,
{
    BorrowRec::Ret(total)
}

/// Builds `tramp::BorrowRec::Ret`, the stop that ends a deciding
/// recursion. Not proved: that the trampoline, started on this stop,
/// returns the value the stop carries. Its loop returns at once on `Ret`.
#[verifier::external_body]
fn finish_verdict(verdict: bool) -> (rec: Rec<bool>)
    ensures
        landing_verdict(rec) == verdict,
{
    BorrowRec::Ret(verdict)
}

/// Builds `tramp::BorrowRec::Call` over `tramp::Thunk::new`, the stop
/// that delays the call `count_from(n, hi, cnt)`. Not proved: that the
/// trampoline, started on this stop, returns what it returns when started
/// on the stop which that call yields. Its loop replaces a `Call` by the
/// result of the delayed call and goes on. What the call yields is stated
/// by `count_from`, whose own proof in turn leans on this item for the
/// calls it delays; the chain is finite because every delayed call has a
/// larger `n` and none is delayed past `hi + 1`.
#[verifier::external_body]
fn delay_count_from(n: u32, hi: u32, cnt: u32) -> (rec: Rec<u32>)
    requires
        hi < u32::MAX,
        cnt <= n <= hi + 1,
    ensures
        landing_count(rec) == cnt + candidates_between(n as nat, hi as nat),
{
    BorrowRec::Call(Thunk::new(move || count_from(n, hi, cnt)))
}

/// Builds `tramp::BorrowRec::Call` over `tramp::Thunk::new`, the stop
/// that delays the call `scan_from(n, prev_digit, cnt)`. Not proved: that
/// the trampoline, started on this stop, returns what it returns when
/// started on the stop which that call yields, as stated by `scan_from`.
/// The chain of delayed calls is finite because each has a smaller `n`.
#[verifier::external_body]
fn delay_scan_from(n: u32, prev_digit: u32, cnt: u32) -> (rec: Rec<bool>)
    requires
        n + cnt <= u32::MAX,
    ensures
        landing_verdict(rec) == run_scan(upper_digits(n as nat), prev_digit as nat, cnt as nat),
{
    BorrowRec::Call(Thunk::new(move || scan_from(n, prev_digit, cnt)))
}

/// Builds `tramp::BorrowRec::Call` over `tramp::Thunk::new`, the stop
/// that delays the call `climb_from(n)`. Not proved: that the trampoline,
/// started on this stop, returns what it returns when started on the stop
/// which that call yields, as stated by `climb_from`. The chain of
/// delayed calls is finite because each has a smaller `n`.
#[verifier::external_body]
fn delay_climb_from(n: u32) -> (rec: Rec<bool>)
    ensures
        landing_verdict(rec) == never_decreases(numeral(n as nat)),
{
    BorrowRec::Call(Thunk::new(move || climb_from(n)))
}

/// One stop of the count: done past `hi`, else on to `n + 1` with the
/// count raised if `n` is a candidate.
fn count_from(n: u32, hi: u32, cnt: u32) -> (rec: Rec<u32>)
    requires
        hi < u32::MAX,
        cnt <= n <= hi + 1,
    ensures
        landing_count(rec) == cnt + candidates_between(n as nat, hi as nat),
{
    if n > hi {
        return finish_count(cnt);
    }
    if rule_duplicate_digit(n) && rule_increasing_digits(n) {
        delay_count_from(n + 1, hi, cnt + 1)
    } else {
        delay_count_from(n + 1, hi, cnt)
    }
}

/// One stop of the scan for an exact pair: `n` holds the digits not yet
/// seen, `prev_digit` the last one seen, `cnt` the length of the run it
/// ends.
fn scan_from(n: u32, prev_digit: u32, cnt: u32) -> (rec: Rec<bool>)
    requires
        n + cnt <= u32::MAX,
    ensures
        landing_verdict(rec) == run_scan(upper_digits(n as nat), prev_digit as nat, cnt as nat),
{
    if n == 0 {
        return finish_verdict(cnt == 2);
    }
    proof {
        assert(upper_digits(n as nat).skip(1) =~= upper_digits(n as nat / 10));
    }
    let digit: u32 = n % 10;
    if digit == prev_digit {
        delay_scan_from(n / 10, digit, cnt + 1)
    } else if cnt == 2 {
        finish_verdict(true)
    } else {
        delay_scan_from(n / 10, digit, 1)
    }
}

/// One stop of the climb through the digits of `n` from the units up:
/// done at a single digit or at the first digit that exceeds its lower
/// neighbour.
fn climb_from(n: u32) -> (rec: Rec<bool>)
    ensures
        landing_verdict(rec) == never_decreases(numeral(n as nat)),
{
    if n < 10 {
        return finish_verdict(true);
    }
    proof {
        lemma_never_decreases_unfold(n as nat);
    }
    let digit_hi: u32 = n % 10;
    let digit_lo: u32 = (n / 10) % 10;
    if digit_lo > digit_hi {
        return finish_verdict(false);
    }
    delay_climb_from(n / 10)
}

/// The number of candidates from `lo` to `hi`, both included.
pub fn brute_force(lo: u32, hi: u32) -> (count: u32)
    requires
        hi < u32::MAX,
    ensures
        count == candidates_between(lo as nat, hi as nat),
{
    if lo > hi {
        return 0;
    }
    bounce_count(count_from(lo, hi, 0))
}

/// Whether some digit of `n` stands exactly twice in a row.
pub fn rule_duplicate_digit(n: u32) -> (holds: bool)
    ensures
        holds == has_exact_pair(numeral(n as nat)),
{
    proof {
        lemma_run_scan_whole(n as nat);
    }
    bounce_verdict(scan_from(n / 10, n % 10, 1))
}

/// Whether the digits of `n` never decrease from left to right.
pub fn rule_increasing_digits(n: u32) -> (holds: bool)
    ensures
        holds == never_decreases(numeral(n as nat)),
{
    bounce_verdict(climb_from(n))
}

} // verus!
