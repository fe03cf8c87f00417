//! Numeric and character range generators: a `Range` steps from a start value
//! towards an end bound, exclusive, by a fixed step; builders pick the step,
//! and extension traits give the `start.to(end)` notation.

use vstd::prelude::*;

verus! {

/// The unit value of a numeric type.
pub trait One: Sized {
    fn one() -> Self;
}

impl One for i8 {
    fn one() -> i8 {
        1
    }
}

impl One for i16 {
    fn one() -> i16 {
        1
    }
}

impl One for i32 {
    fn one() -> i32 {
        1
    }
}

impl One for i64 {
    fn one() -> i64 {
        1
    }
}

impl One for isize {
    fn one() -> isize {
        1
    }
}

impl One for u8 {
    fn one() -> u8 {
        1
    }
}

impl One for u16 {
    fn one() -> u16 {
        1
    }
}

impl One for u32 {
    fn one() -> u32 {
        1
    }
}

impl One for u64 {
    fn one() -> u64 {
        1
    }
}

impl One for usize {
    fn one() -> usize {
        1
    }
}

/// A numeric range: yields `current`, then advances by `step`, while
/// `current` is on the start side of `end` (exclusive).
#[derive(Clone, Copy)]
pub struct Range {
    pub current: i64,
    pub end: i64,
    pub step: i64,
}

impl Range {
    /// Advancing never overflows: the end bound leaves room for one step
    /// beyond it.
    pub open spec fn wf(&self) -> bool {
        &&& (self.step > 0 ==> self.end as int + self.step as int <= i64::MAX as int + 1)
        &&& (self.step < 0 ==> self.end as int + self.step as int >= i64::MIN as int - 1)
    }

    /// Whether a value is still to be yielded.
    pub open spec fn live(&self) -> bool {
        (self.step > 0 && self.current < self.end) || (self.step < 0 && self.current > self.end)
    }

    pub fn new(start: i64, end: i64, step: i64) -> (r: Range)
        requires
            step > 0 ==> end as int + step as int <= i64::MAX as int + 1,
            step < 0 ==> end as int + step as int >= i64::MIN as int - 1,
        ensures
            r.current == start,
            r.end == end,
            r.step == step,
            r.wf(),
    {
        Range { current: start, end, step }
    }

    /// The next value: the current one, advancing by the step; `None` once
    /// the end bound is passed (or the step is zero).
    pub fn next(&mut self) -> (r: Option<i64>)
        requires
            old(self).wf(),
        ensures
            final (self).wf(),
            final (self).end == old(self).end,
            final (self).step == old(self).step,
            match r {
                Some(v) => old(self).live() && v == old(self).current && final (self).current
                    == old(self).current + old(self).step,
                None => !old(self).live() && *final (self) == *old(self),
            },
    {
        let current = self.current;
        if (self.step > 0 && current < self.end) || (self.step < 0 && current > self.end) {
            self.current = current + self.step;
            Some(current)
        } else {
            None
        }
    }

    /// All remaining values, in order.
    pub fn collect(&mut self) -> (r: Vec<i64>)
        requires
            old(self).wf(),
        ensures
            final (self).wf(),
            !final (self).live(),
            forall|i: int|
                0 <= i < r@.len() ==> (#[trigger] r@[i]) as int == old(self).current as int + i
                    * (old(self).step as int),
    {
        let mut r: Vec<i64> = Vec::new();
        let ghost pre = *self;
        proof {
            assert(r@.len() == 0);
            assert((r@.len() as int) * (pre.step as int) == 0);
            assert(self.current as int == pre.current as int + (r@.len() as int) * (
            pre.step as int));
        }
        loop
            invariant
                self.wf(),
                self.end == pre.end,
                self.step == pre.step,
                self.current as int == pre.current as int + (r@.len() as int) * (
                pre.step as int),
                forall|i: int|
                    0 <= i < r@.len() ==> (#[trigger] r@[i]) as int == pre.current as int + i * (
                    pre.step as int),
            ensures
                self.wf(),
                !self.live(),
                forall|i: int|
                    0 <= i < r@.len() ==> (#[trigger] r@[i]) as int == pre.current as int + i * (
                    pre.step as int),
            decreases (if self.step > 0 && self.current < self.end {
                self.end as int - self.current as int
            } else if self.step < 0 && self.current > self.end {
                self.current as int - self.end as int
            } else {
                0int
            }),
        {
            let ghost len0 = r@.len() as int;
            let ghost cur0 = self.current as int;
            match self.next() {
                Some(v) => {
                    r.push(v);
                    proof {
                        assert((len0 + 1) * (pre.step as int) == len0 * (pre.step as int)
                            + pre.step as int) by (nonlinear_arith);
                    }
                },
                None => {
                    break ;
                },
            }
        }
        r
    }
}

/// A range under construction: start and end chosen, step still open.
#[derive(Clone, Copy)]
pub struct Builder {
    pub start: i64,
    pub end: i64,
}

impl Builder {
    pub fn new(start: i64, end: i64) -> (b: Builder)
        ensures
            b.start == start,
            b.end == end,
    {
        Builder { start, end }
    }

    /// The range stepping by `step`.
    pub fn step_by(self, step: i64) -> (r: Range)
        requires
            step > 0 ==> self.end as int + step as int <= i64::MAX as int + 1,
            step < 0 ==> self.end as int + step as int >= i64::MIN as int - 1,
        ensures
            r.current == self.start,
            r.end == self.end,
            r.step == step,
            r.wf(),
    {
        Range::new(self.start, self.end, step)
    }

    /// The range stepping by one towards the end: upwards when the start does
    /// not exceed the end, downwards otherwise.
    pub fn into_range(self) -> (r: Range)
        ensures
            r.current == self.start,
            r.end == self.end,
            r.step == (if self.start <= self.end {
                1int
            } else {
                -1int
            }),
            r.wf(),
    {
        Range::new(self.start, self.end, if self.start <= self.end { 1 } else { -1 })
    }
}

/// `start.to(end)` notation for numeric ranges.
pub trait RangeExt: Sized {
    fn to(self, end: Self) -> Builder;
}

impl RangeExt for i64 {
    fn to(self, end: i64) -> (b: Builder)
        ensures
            b.start == self,
            b.end == end,
    {
        Builder::new(self, end)
    }
}

/// A character range: steps through code points, skipping nothing — the walk
/// stops at the first step that lands outside the Unicode scalar values.
#[derive(Clone, Copy)]
pub struct CharRange {
    pub current: char,
    pub end: char,
    pub step: i32,
}

/// The code point one step from `c`.
pub open spec fn char_step_target(c: char, step: i32) -> int {
    c as int + step as int
}

/// Whether a code point is a Unicode scalar value.
pub open spec fn is_scalar_value(t: int) -> bool {
    (0 <= t && t < 0xD800) || (0xE000 <= t && t <= 0x10FFFF)
}

impl CharRange {
    /// Whether a value is still to be yielded.
    pub open spec fn live(&self) -> bool {
        (self.step > 0 && (self.current as int) < (self.end as int)) || (self.step < 0 && (
        self.current as int) > (self.end as int))
    }

    pub fn new(start: char, end: char, step: i32) -> (r: CharRange)
        ensures
            r.current == start,
            r.end == end,
            r.step == step,
    {
        CharRange { current: start, end, step }
    }

    /// The next character: the current one, advancing by the step; `None`
    /// once the end bound is passed, the step is zero, or the step would land
    /// outside the Unicode scalar values.
    pub fn next(&mut self) -> (r: Option<char>)
        ensures
            final (self).end == old(self).end,
            final (self).step == old(self).step,
            match r {
                Some(v) => old(self).live() && is_scalar_value(
                    char_step_target(old(self).current, old(self).step),
                ) && v == old(self).current && final (self).current as int == char_step_target(
                    old(self).current,
                    old(self).step,
                ),
                None => (!old(self).live() || !is_scalar_value(
                    char_step_target(old(self).current, old(self).step),
                )) && *final (self) == *old(self),
            },
    {
        let current = self.current;
        let c = current as u32;
        let e = self.end as u32;
        if (self.step > 0 && c < e) || (self.step < 0 && c > e) {
            let t: i64 = c as i64 + self.step as i64;
            if 0 <= t && t <= 0x10FFFF {
                match char_from_u32(t as u32) {
                    Some(next) => {
                        self.current = next;
                        Some(current)
                    },
                    None => None,
                }
            } else {
                None
            }
        } else {
            None
        }
    }
}

/// Relies on `char::from_u32`: `Some` exactly on the Unicode scalar values,
/// and the returned character carries that code point.
#[verifier::external_body]
fn char_from_u32(n: u32) -> (r: Option<char>)
    ensures
        r is Some <==> is_scalar_value(n as int),
        r matches Some(c) ==> c as u32 == n,
{
    char::from_u32(n)
}

/// A character range under construction: start and end chosen, step still
/// open.
#[derive(Clone, Copy)]
pub struct CharBuilder {
    pub start: char,
    pub end: char,
}

impl CharBuilder {
    pub fn new(start: char, end: char) -> (b: CharBuilder)
        ensures
            b.start == start,
            b.end == end,
    {
        CharBuilder { start, end }
    }

    /// The character range stepping by `step` code points.
    pub fn step_by(self, step: i32) -> (r: CharRange)
        ensures
            r.current == self.start,
            r.end == self.end,
            r.step == step,
    {
        CharRange::new(self.start, self.end, step)
    }

    /// The character range stepping by one code point towards the end.
    pub fn into_range(self) -> (r: CharRange)
        ensures
            r.current == self.start,
            r.end == self.end,
            r.step == (if self.start as int <= self.end as int {
                1int
            } else {
                -1int
            }),
    {
        CharRange::new(self.start, self.end, if self.start <= self.end { 1 } else { -1 })
    }
}

/// `start.to(end)` notation for character ranges.
pub trait CharRangeExt: Sized {
    fn to(self, end: Self) -> CharBuilder;
}

impl CharRangeExt for char {
    fn to(self, end: char) -> (b: CharBuilder)
        ensures
            b.start == self,
            b.end == end,
    {
        CharBuilder::new(self, end)
    }
}

} // verus!
