//! Drawing a number as a row of digits.
//!
//! A number is shown with a fixed count of digits, the most significant
//! first. Digits above the count are dropped, so the display wraps round
//! when the number outgrows it.

use vstd::prelude::*;
use vstd::arithmetic::div_mod::lemma_div_denominator;
use vstd::arithmetic::div_mod::lemma_fundamental_div_mod;
use vstd::arithmetic::div_mod::lemma_hoist_over_denominator;
use vstd::arithmetic::div_mod::lemma_mod_multiples_vanish;
use vstd::arithmetic::div_mod::lemma_mod_pos_bound;
use crate::geometry::Point;
use crate::run::lemma_failed_run_of_prefix;
use crate::run::lemma_runs_compose;
use crate::run::ran_fail_fast;
use crate::segments::anchor_in_range;
use crate::segments::digit_fills;
use crate::segments::digit_plan;
use crate::segments::SEGMENTS;
use crate::surface::Attempt;
use crate::surface::Canvas;
use crate::surface::Fill;
use crate::surface::FillRect;

verus! {

/// Ten to the power of `place`.
pub open spec fn pow10(place: nat) -> nat
    decreases place,
{
    if place == 0 {
        1
    } else {
        10 * pow10((place - 1) as nat)
    }
}

/// The decimal digit of `value` at `place`, where place 0 is the ones.
pub open spec fn digit_at(value: u32, place: nat) -> u8 {
    ((value as nat / pow10(place)) % 10) as u8
}

/// The `count` lowest decimal digits of `value`, the most significant first.
pub open spec fn low_digits(value: u32, count: nat) -> Seq<u8> {
    Seq::new(count, |i: int| digit_at(value, (count - 1 - i) as nat))
}

/// The column of the anchor of the digit at `index` in a row that starts at
/// `base` and steps by `stride`.
pub open spec fn anchor_x(base: Point, stride: i32, index: int) -> int {
    base.x + index * stride
}

/// The anchor of the digit at `index` in a row that starts at `base` and
/// steps by `stride`: the digits stand side by side on one line.
pub open spec fn anchor_at(base: Point, stride: i32, index: int) -> Point {
    Point { x: anchor_x(base, stride, index) as i32, y: base.y }
}

/// Whether a row of `count` glyphs that starts at `base` and steps by
/// `stride` has all its segments start inside the coordinate space.
pub open spec fn row_in_range(count: nat, base: Point, stride: i32) -> bool {
    forall|i: int|
        0 <= i < count ==> {
            &&& i32::MIN <= #[trigger] anchor_x(base, stride, i) <= i32::MAX
            &&& anchor_in_range(anchor_at(base, stride, i))
        }
}

/// The fills that draw the `count` lowest digits of `value` in a row: the
/// plan of the most significant digit first, then that of the next, each at
/// its own anchor.
pub open spec fn number_plan(value: u32, count: nat, base: Point, stride: i32) -> Seq<Fill> {
    Seq::new(
        SEGMENTS as nat * count,
        |j: int|
            digit_plan(
                digit_at(value, (count - 1 - j / SEGMENTS as int) as nat),
                anchor_at(base, stride, j / SEGMENTS as int),
            )[j % SEGMENTS as int],
    )
}

/// The fills of a number fall into groups of seven, one group for each
/// digit: the group at `index` is the plan of the digit at `index`, drawn at
/// the anchor at `index`.
pub proof fn lemma_number_plan_groups(
    value: u32,
    count: nat,
    base: Point,
    stride: i32,
    index: int,
)
    requires
        0 <= index < count,
    ensures
        number_plan(value, count, base, stride).len() == SEGMENTS * count,
        number_plan(value, count, base, stride).subrange(
            SEGMENTS * index,
            SEGMENTS * index + SEGMENTS,
        ) == digit_plan(low_digits(value, count)[index], anchor_at(base, stride, index)),
{
    let plan = number_plan(value, count, base, stride);
    let group = plan.subrange(SEGMENTS * index, SEGMENTS * index + SEGMENTS);
    let part = digit_plan(low_digits(value, count)[index], anchor_at(base, stride, index));
    assert forall|m: int| 0 <= m < SEGMENTS implies group[m] == part[m] by {
        let j = SEGMENTS * index + m;
        assert(j / SEGMENTS as int == index);
        assert(j % SEGMENTS as int == m);
        assert(group[m] == plan[j]);
    }
    assert(group =~= part);
}

/// A power of ten is positive.
pub proof fn lemma_pow10_positive(place: nat)
    ensures
        pow10(place) > 0,
    decreases place,
{
    if place > 0 {
        lemma_pow10_positive((place - 1) as nat);
    }
}

/// Powers of ten multiply as their exponents add.
pub proof fn lemma_pow10_adds(a: nat, b: nat)
    ensures
        pow10(a + b) == pow10(a) * pow10(b),
    decreases a,
{
    if a == 0 {
        assert(pow10(0) == 1);
    } else {
        let rest = (a - 1) as nat;
        lemma_pow10_adds(rest, b);
        assert(pow10(a + b) == 10 * pow10(rest + b));
        assert(10 * (pow10(rest) * pow10(b)) == (10 * pow10(rest)) * pow10(b))
            by (nonlinear_arith);
    }
}

/// A digit below place `count` is a digit of the remainder by ten to the
/// power of `count`.
pub proof fn lemma_digit_of_remainder(value: nat, count: nat, place: nat)
    requires
        place < count,
    ensures
        (value / pow10(place)) % 10 == ((value % pow10(count)) / pow10(place)) % 10,
{
    let unit = pow10(place) as int;
    let above = pow10((count - place - 1) as nat) as int;
    let modulus = pow10(count) as int;
    lemma_pow10_positive(place);
    lemma_pow10_positive(count);
    lemma_pow10_adds(place, (count - place) as nat);
    assert(pow10((count - place) as nat) == 10 * pow10((count - place - 1) as nat));
    assert(modulus == unit * (10 * above));
    let q = value as int / modulus;
    let r = value as int % modulus;
    lemma_fundamental_div_mod(value as int, modulus);
    lemma_mod_pos_bound(value as int, modulus);
    assert(value as int == r + ((10 * above) * q) * unit) by (nonlinear_arith)
        requires
            value as int == modulus * q + r,
            modulus == unit * (10 * above),
    ;
    lemma_hoist_over_denominator(r, (10 * above) * q, unit as nat);
    assert(value as int / unit == r / unit + (10 * above) * q);
    assert((10 * above) * q == 10 * (above * q)) by (nonlinear_arith);
    lemma_mod_multiples_vanish(above * q, r / unit, 10);
}

/// The display wraps round: a number shows the same `count` digits as its
/// remainder by ten to the power of `count`.
pub proof fn lemma_digits_wrap(value: u32, count: nat)
    ensures
        value as nat % pow10(count) <= value,
        low_digits(value, count) == low_digits((value as nat % pow10(count)) as u32, count),
{
    lemma_pow10_positive(count);
    lemma_mod_pos_bound(value as int, pow10(count) as int);
    lemma_fundamental_div_mod(value as int, pow10(count) as int);
    let wrapped = value as nat % pow10(count);
    assert(wrapped <= value) by (nonlinear_arith)
        requires
            value as int == (pow10(count) as int) * (value as int / pow10(count) as int)
                + wrapped,
            value as int / pow10(count) as int >= 0,
            pow10(count) > 0,
    ;
    assert forall|i: int| 0 <= i < count implies low_digits(value, count)[i] == low_digits(
        wrapped as u32,
        count,
    )[i] by {
        lemma_digit_of_remainder(value as nat, count, (count - 1 - i) as nat);
    }
    assert(low_digits(value, count) =~= low_digits(wrapped as u32, count));
}

/// Splits `value` into its `count` lowest decimal digits, the most
/// significant first. Higher digits of `value` are dropped.
pub fn decimal_digits(value: u32, count: usize) -> (digits: Vec<u8>)
    ensures
        digits@ == low_digits(value, count as nat),
        forall|i: int| 0 <= i < digits.len() ==> #[trigger] digits[i] <= 9,
{
    let mut digits: Vec<u8> = Vec::new();
    let mut filled: usize = 0;
    while filled < count
        invariant
            filled <= count,
            digits.len() == filled,
        decreases count - filled,
    {
        digits.push(0);
        filled += 1;
    }
    let mut rest: u32 = value;
    let mut k: usize = count;
    assert(value as nat / pow10((count - k) as nat) == value as nat) by {
        assert(pow10(0) == 1);
        assert(value as nat / 1 == value as nat);
    }
    while k > 0
        invariant
            k <= count,
            digits.len() == count,
            rest as nat == value as nat / pow10((count - k) as nat),
            forall|i: int|
                k <= i < count ==> #[trigger] digits[i] == digit_at(
                    value,
                    (count - 1 - i) as nat,
                ),
        decreases k,
    {
        let ghost place = (count - k) as nat;
        k -= 1;
        let digit = (rest % 10) as u8;
        digits[k] = digit;
        proof {
            lemma_pow10_positive(place);
            lemma_div_denominator(value as int, pow10(place) as int, 10);
            assert(pow10(place + 1) == 10 * pow10(place));
            assert(pow10(place) * 10 == 10 * pow10(place));
        }
        rest = rest / 10;
    }
    assert(digits@ =~= low_digits(value, count as nat));
    digits
}

/// The anchors of a row lie between its first and its last.
proof fn lemma_anchor_between(base: Point, stride: i32, last: int, i: int)
    requires
        0 <= i <= last,
    ensures
        stride >= 0 ==> base.x <= anchor_x(base, stride, i) <= anchor_x(base, stride, last),
        stride < 0 ==> anchor_x(base, stride, last) <= anchor_x(base, stride, i) <= base.x,
{
    assert(stride >= 0 ==> 0 <= i * stride <= last * stride) by (nonlinear_arith)
        requires
            0 <= i <= last,
    ;
    assert(stride < 0 ==> last * stride <= i * stride <= 0) by (nonlinear_arith)
        requires
            0 <= i <= last,
    ;
}

/// Whether a row of `count` glyphs can start at `base` and step by `stride`.
pub fn row_fits(count: usize, base: Point, stride: i32) -> (fits: bool)
    ensures
        fits == row_in_range(count as nat, base, stride),
{
    if count == 0 {
        return true;
    }
    let limit: i128 = i32::MAX as i128 - 18;
    let floor: i128 = i32::MIN as i128;
    let first: i128 = base.x as i128;
    let steps: i128 = (count - 1) as i128;
    assert(-0x8000_0000_0000_0000_0000_0000 <= steps * (stride as i128)
        <= 0x8000_0000_0000_0000_0000_0000) by (nonlinear_arith)
        requires
            0 <= steps <= 0xffff_ffff_ffff_ffff,
            -0x8000_0000 <= stride <= 0x7fff_ffff,
    ;
    let last: i128 = first + steps * (stride as i128);
    let fits = base.y <= i32::MAX - 40 && first <= limit && floor <= last && last <= limit;
    proof {
        assert(anchor_x(base, stride, 0) == base.x);
        assert(last == anchor_x(base, stride, count - 1));
        if fits {
            assert forall|i: int| 0 <= i < count implies {
                &&& i32::MIN <= #[trigger] anchor_x(base, stride, i) <= i32::MAX
                &&& anchor_in_range(anchor_at(base, stride, i))
            } by {
                lemma_anchor_between(base, stride, count - 1, i);
            }
        } else {
            assert(anchor_at(base, stride, 0) == base);
        }
    }
    fits
}

/// Draws the `count` lowest decimal digits of `value` side by side, the most
/// significant at `base` and each next one `stride` pixels further along.
///
/// The digits are drawn in that order, each as `render_digit` draws it, and
/// the first fill that fails ends the drawing with its error. Digits already
/// drawn stay drawn.
pub fn render_number<S: FillRect>(
    value: u32,
    count: usize,
    base: Point,
    stride: i32,
    canvas: &mut Canvas<S>,
) -> (result: Result<(), S::Error>)
    requires
        row_in_range(count as nat, base, stride),
    ensures
        ran_fail_fast(
            old(canvas).attempts(),
            final(canvas).attempts(),
            number_plan(value, count as nat, base, stride),
            result,
        ),
{
    let digits = decimal_digits(value, count);
    let ghost before = canvas.attempts();
    let ghost plan = number_plan(value, count as nat, base, stride);
    let mut i: usize = 0;
    let mut x: i32 = base.x;
    proof {
        assert(plan.take(0) =~= Seq::<Fill>::empty());
        assert(canvas.attempts().skip(before.len() as int) =~= Seq::<
            Attempt<S::Error>,
        >::empty());
    }
    while i < count
        invariant
            i <= count,
            digits@ == low_digits(value, count as nat),
            row_in_range(count as nat, base, stride),
            before == old(canvas).attempts(),
            plan == number_plan(value, count as nat, base, stride),
            i < count ==> x == anchor_x(base, stride, i as int),
            ran_fail_fast(before, canvas.attempts(), plan.take(SEGMENTS * i), Ok(())),
        decreases count - i,
    {
        let ghost mid = canvas.attempts();
        let anchor = Point::new(x, base.y);
        let digit = digits[i];
        let fills = digit_fills(digit, anchor);
        let outcome = canvas.fill_all(&fills);
        proof {
            let part = digit_plan(digit, anchor);
            assert(anchor == anchor_at(base, stride, i as int));
            lemma_number_plan_groups(value, count as nat, base, stride, i as int);
            assert(plan.take(SEGMENTS * i) + part =~= plan.take(SEGMENTS * (i + 1)));
            lemma_runs_compose(
                before,
                mid,
                canvas.attempts(),
                plan.take(SEGMENTS * i),
                part,
                outcome,
            );
        }
        match outcome {
            Ok(()) => {},
            Err(e) => {
                proof {
                    lemma_failed_run_of_prefix(
                        before,
                        canvas.attempts(),
                        plan,
                        SEGMENTS * (i + 1),
                        outcome,
                    );
                }
                return Err(e);
            },
        }
        i += 1;
        if i < count {
            assert(anchor_x(base, stride, i as int) == anchor_x(base, stride, i - 1) + stride)
                by (nonlinear_arith);
            x = x + stride;
        }
    }
    proof {
        assert(plan.take(SEGMENTS * count) =~= plan);
    }
    Ok(())
}

} // verus!
