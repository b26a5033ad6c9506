use vstd::prelude::*;
use vstd::arithmetic::div_mod::lemma_div_is_ordered;

verus! {

/// Every level strictly after `a`, up to and including `b`, in the direction of travel.
pub open spec fn linear_steps(a: usize, b: usize) -> Seq<usize> {
    if a < b {
        Seq::new((b - a) as nat, |i: int| (a + 1 + i) as usize)
    } else if b < a {
        Seq::new((a - b) as nat, |i: int| (a - 1 - i) as usize)
    } else {
        Seq::empty()
    }
}

/// The 100 evenly spaced levels of `[min, max]`, the upper boundary included.
pub open spec fn percentile_levels(min: usize, max: usize) -> Seq<usize> {
    Seq::new(100, |i: int| (min + (max - min) * (i + 1) / 100) as usize)
}

pub open spec fn clamp(v: int, max: int) -> int {
    if v < 0 {
        0
    } else if v > max {
        max
    } else {
        v
    }
}

/// `p` hundredths of a percent of `max`, rounded to the nearest integer (halves round up).
pub open spec fn percent_of(max: int, p: int) -> int {
    (max * p + 5000) / 10000
}

/// A signed percentage of `max`, `p` in hundredths of a percent: the sign of `p` is kept,
/// the magnitude is rounded.
pub open spec fn signed_percent_of(max: int, p: int) -> int {
    if p >= 0 {
        percent_of(max, p)
    } else {
        -percent_of(max, -p)
    }
}

pub open spec fn abs(p: int) -> int {
    if p >= 0 {
        p
    } else {
        -p
    }
}

/// How many percentile levels a shaped relative move visits at most:
/// the percentage times the exponent, both given in hundredths, rounded down.
pub open spec fn bin_count(percent: int, exponent: int) -> int {
    abs(percent) * exponent / 10000
}

pub open spec fn strictly_increasing(s: Seq<usize>) -> bool {
    forall|i: int, j: int| 0 <= i < j < s.len() ==> s[i] < s[j]
}

pub open spec fn strictly_decreasing(s: Seq<usize>) -> bool {
    forall|i: int, j: int| 0 <= i < j < s.len() ==> s[i] > s[j]
}

pub open spec fn strictly_monotonic(s: Seq<usize>) -> bool {
    strictly_increasing(s) || strictly_decreasing(s)
}

pub open spec fn bounded_by(s: Seq<usize>, max: usize) -> bool {
    forall|i: int| 0 <= i < s.len() ==> s[i] <= max
}

pub open spec fn is_percentile(max: usize, v: usize) -> bool {
    exists|k: int| 0 <= k < 100 && percentile_levels(0, max)[k] == v
}

/// `s` lists, in increasing order, the distinct percentile levels of `[0, max]` above
/// `curr`: all of them when there are fewer than `count`, else the `count` lowest.
pub open spec fn percentile_steps_up(curr: usize, max: usize, count: int, s: Seq<usize>) -> bool {
    &&& strictly_increasing(s)
    &&& s.len() <= count
    &&& forall|i: int| 0 <= i < s.len() ==> curr < s[i] && is_percentile(max, s[i])
    &&& forall|k: int|
        0 <= k < 100 && curr < percentile_levels(0, max)[k] && (s.len() < count || (s.len() > 0
            && percentile_levels(0, max)[k] <= s.last())) ==> s.contains(
            percentile_levels(0, max)[k],
        )
}

/// `s` lists, in decreasing order, the distinct percentile levels of `[0, max]` below
/// `curr`: all of them when there are fewer than `count`, else the `count` highest.
pub open spec fn percentile_steps_down(curr: usize, max: usize, count: int, s: Seq<usize>) -> bool {
    &&& strictly_decreasing(s)
    &&& s.len() <= count
    &&& forall|i: int| 0 <= i < s.len() ==> s[i] < curr && is_percentile(max, s[i])
    &&& forall|k: int|
        0 <= k < 100 && percentile_levels(0, max)[k] < curr && (s.len() < count || (s.len() > 0
            && percentile_levels(0, max)[k] >= s.last())) ==> s.contains(
            percentile_levels(0, max)[k],
        )
}

/// The percentile remap of a relative move of `percent` from `curr`.
pub open spec fn percentile_steps(curr: usize, max: usize, percent: int, count: int, s: Seq<usize>) -> bool {
    if percent >= 0 {
        percentile_steps_up(curr, max, count, s)
    } else {
        percentile_steps_down(curr, max, count, s)
    }
}

proof fn lemma_share_bounded(d: int, k: int)
    requires
        0 <= d,
        0 <= k <= 100,
    ensures
        0 <= d * k <= d * 100,
        0 <= d * k / 100 <= d,
{
    assert(0 <= d * k <= d * 100) by (nonlinear_arith)
        requires
            0 <= d,
            0 <= k <= 100,
    ;
    lemma_div_is_ordered(d * k, d * 100, 100);
    assert(d * 100 / 100 == d) by (nonlinear_arith);
    assert(0 <= d * k / 100) by (nonlinear_arith)
        requires
            0 <= d * k,
    ;
}

proof fn lemma_levels_ordered(max: usize, a: int, b: int)
    requires
        0 <= a <= b < 100,
    ensures
        percentile_levels(0, max)[a] <= percentile_levels(0, max)[b] <= max,
{
    let d = max as int;
    lemma_share_bounded(d, a + 1);
    lemma_share_bounded(d, b + 1);
    assert(d * (a + 1) <= d * (b + 1)) by (nonlinear_arith)
        requires
            0 <= d,
            a <= b,
    ;
    lemma_div_is_ordered(d * (a + 1), d * (b + 1), 100);
}

/// A range of brightness levels starting at `curr`, bounded by `max`.
pub struct Range {
    pub curr: usize,
    pub max: usize,
}

impl Range {
    pub open spec fn well_formed(&self) -> bool {
        self.curr <= self.max
    }

    /// The levels strictly after `a` up to and including `b`, in the direction of travel.
    pub fn from_a_to_b(a: usize, b: usize) -> (r: Vec<usize>)
        ensures
            r@ == linear_steps(a, b),
    {
        let mut v: Vec<usize> = Vec::new();
        if a < b {
            let mut x: usize = a;
            while x < b
                invariant
                    a <= x <= b,
                    v@.len() == x - a,
                    forall|i: int| 0 <= i < v@.len() ==> v@[i] == a + 1 + i,
                decreases b - x,
            {
                x = x + 1;
                v.push(x);
            }
            assert(v@ =~= linear_steps(a, b));
        } else if b < a {
            let mut x: usize = a;
            while x > b
                invariant
                    b <= x <= a,
                    v@.len() == a - x,
                    forall|i: int| 0 <= i < v@.len() ==> v@[i] == a - 1 - i,
                decreases x - b,
            {
                x = x - 1;
                v.push(x);
            }
            assert(v@ =~= linear_steps(a, b));
        } else {
            assert(v@ =~= linear_steps(a, b));
        }
        v
    }

    /// Partitions `[min, max]` into 100 bins and returns the upper boundary of each.
    pub fn normalized(min: usize, max: usize) -> (r: Vec<usize>)
        requires
            min <= max,
        ensures
            r@ == percentile_levels(min, max),
            r@.len() == 100,
            r@[99] == max,
    {
        let mut v: Vec<usize> = Vec::new();
        let diff: u128 = (max - min) as u128;
        let mut k: u128 = 1;
        while k <= 100
            invariant
                1 <= k <= 101,
                diff == max - min,
                min <= max,
                v@.len() == k - 1,
                forall|i: int| 0 <= i < v@.len() ==> v@[i] == percentile_levels(min, max)[i],
            decreases 101 - k,
        {
            proof {
                lemma_share_bounded(diff as int, k as int);
            }
            let share = (diff * k / 100) as usize;
            v.push(min + share);
            k = k + 1;
        }
        assert(v@ =~= percentile_levels(min, max));
        proof {
            lemma_share_bounded(diff as int, 100);
        }
        v
    }

    /// The distinct percentile levels of `[0, max]` above `curr`, lowest first, at most `count`.
    fn percentile_up(curr: usize, max: usize, count: u128) -> (r: Vec<usize>)
        ensures
            percentile_steps_up(curr, max, count as int, r@),
    {
        let levels = Range::normalized(0, max);
        let ghost n = percentile_levels(0, max);
        let mut v: Vec<usize> = Vec::new();
        let mut k: usize = 0;
        while k < 100
            invariant
                levels@ == n,
                n == percentile_levels(0, max),
                0 <= k <= 100,
                strictly_increasing(v@),
                v@.len() <= count,
                forall|i: int|
                    0 <= i < v@.len() ==> curr < v@[i] && exists|kk: int|
                        0 <= kk < k && n[kk] == v@[i],
                forall|kk: int|
                    0 <= kk < k && curr < n[kk] && (v@.len() < count || (v@.len() > 0 && n[kk]
                        <= v@.last())) ==> v@.contains(n[kk]),
            decreases 100 - k,
        {
            let x = levels[k];
            if curr < x && (v.len() as u128) < count && (v.len() == 0 || v[v.len() - 1] < x) {
                let ghost old_v = v@;
                v.push(x);
                assert forall|kk: int|
                    0 <= kk < k + 1 && curr < n[kk] && (v@.len() < count || (v@.len() > 0
                        && n[kk] <= v@.last())) implies v@.contains(n[kk]) by {
                    if kk < k {
                        let j = choose|j: int| 0 <= j < old_v.len() && old_v[j] == n[kk];
                        assert(v@[j] == n[kk]);
                    } else {
                        assert(v@[old_v.len() as int] == n[kk]);
                    }
                }
                assert forall|i: int|
                    0 <= i < v@.len() implies curr < v@[i] && exists|kk: int|
                        0 <= kk < k + 1 && n[kk] == v@[i] by {
                    if i < old_v.len() {
                        assert(old_v[i] == v@[i]);
                    } else {
                        assert(n[k as int] == v@[i]);
                    }
                }
            } else {
                assert forall|kk: int|
                    0 <= kk < k + 1 && curr < n[kk] && (v@.len() < count || (v@.len() > 0
                        && n[kk] <= v@.last())) implies v@.contains(n[kk]) by {
                    if kk == k && v@.len() > 0 {
                        let j = choose|j: int| 0 <= j < k && n[j] == v@.last();
                        lemma_levels_ordered(max, j, kk);
                        assert(v@[v@.len() - 1] == n[kk]);
                    }
                }
            }
            k = k + 1;
        }
        assert forall|i: int| 0 <= i < v@.len() implies curr < v@[i] && is_percentile(max, v@[i]) by {
            let kk = choose|kk: int| 0 <= kk < 100 && n[kk] == v@[i];
        }
        v
    }

    /// The distinct percentile levels of `[0, max]` below `curr`, highest first, at most `count`.
    fn percentile_down(curr: usize, max: usize, count: u128) -> (r: Vec<usize>)
        ensures
            percentile_steps_down(curr, max, count as int, r@),
    {
        let levels = Range::normalized(0, max);
        let ghost n = percentile_levels(0, max);
        let mut v: Vec<usize> = Vec::new();
        let mut k: usize = 100;
        while k > 0
            invariant
                levels@ == n,
                n == percentile_levels(0, max),
                0 <= k <= 100,
                strictly_decreasing(v@),
                v@.len() <= count,
                forall|i: int|
                    0 <= i < v@.len() ==> v@[i] < curr && exists|kk: int|
                        k <= kk < 100 && n[kk] == v@[i],
                forall|kk: int|
                    k <= kk < 100 && n[kk] < curr && (v@.len() < count || (v@.len() > 0 && n[kk]
                        >= v@.last())) ==> v@.contains(n[kk]),
            decreases k,
        {
            k = k - 1;
            let x = levels[k];
            if x < curr && (v.len() as u128) < count && (v.len() == 0 || x < v[v.len() - 1]) {
                let ghost old_v = v@;
                v.push(x);
                assert forall|kk: int|
                    k <= kk < 100 && n[kk] < curr && (v@.len() < count || (v@.len() > 0
                        && n[kk] >= v@.last())) implies v@.contains(n[kk]) by {
                    if kk > k {
                        let j = choose|j: int| 0 <= j < old_v.len() && old_v[j] == n[kk];
                        assert(v@[j] == n[kk]);
                    } else {
                        assert(v@[old_v.len() as int] == n[kk]);
                    }
                }
                assert forall|i: int|
                    0 <= i < v@.len() implies v@[i] < curr && exists|kk: int|
                        k <= kk < 100 && n[kk] == v@[i] by {
                    if i < old_v.len() {
                        assert(old_v[i] == v@[i]);
                    } else {
                        assert(n[k as int] == v@[i]);
                    }
                }
            } else {
                assert forall|kk: int|
                    k <= kk < 100 && n[kk] < curr && (v@.len() < count || (v@.len() > 0
                        && n[kk] >= v@.last())) implies v@.contains(n[kk]) by {
                    if kk == k && v@.len() > 0 {
                        let j = choose|j: int| k < j < 100 && n[j] == v@.last();
                        lemma_levels_ordered(max, kk, j);
                        assert(v@[v@.len() - 1] == n[kk]);
                    }
                }
            }
        }
        assert forall|i: int| 0 <= i < v@.len() implies v@[i] < curr && is_percentile(max, v@[i]) by {
            let kk = choose|kk: int| 0 <= kk < 100 && n[kk] == v@[i];
        }
        v
    }
}

/// Whether a range is left as a destination or as a distance from its start.
pub enum Step {
    To(Range),
    By(Range),
}

/// A requested move: an absolute amount of levels, or a signed percentage of the maximum
/// in hundredths of a percent (`250` stands for 2.5%).
pub enum Value {
    Absolute(isize, Step),
    Relative(isize, Step),
}

/// A requested move shaped by an exponent, given in hundredths (`400` stands for 4.0).
pub struct Exponential {
    pub value: Value,
    pub exponent: u32,
}

pub open spec fn step_range(step: Step) -> Range {
    match step {
        Step::To(r) => r,
        Step::By(r) => r,
    }
}

pub open spec fn value_range(value: Value) -> Range {
    match value {
        Value::Absolute(_, s) => step_range(s),
        Value::Relative(_, s) => step_range(s),
    }
}

/// Where a move ends, clamped to `[0, max]`.
pub open spec fn target_of(value: Value) -> int {
    match value {
        Value::Absolute(v, Step::To(r)) => clamp(v as int, r.max as int),
        Value::Absolute(v, Step::By(r)) => clamp(r.curr + v, r.max as int),
        Value::Relative(p, Step::To(r)) => clamp(signed_percent_of(r.max as int, p as int), r.max as int),
        Value::Relative(p, Step::By(r)) => clamp(
            r.curr + signed_percent_of(r.max as int, p as int),
            r.max as int,
        ),
    }
}

/// Produces the ordered levels that a move passes through.
pub trait RangeBuilder {
    spec fn well_formed(&self) -> bool;

    /// `steps` is the sequence of levels that this move passes through.
    spec fn yields(&self, steps: Seq<usize>) -> bool;

    fn build(&self) -> (r: Vec<usize>)
        requires
            self.well_formed(),
        ensures
            self.yields(r@),
    ;
}

impl Range {
    pub fn new(curr: usize, max: usize) -> (r: Self)
        ensures
            r.curr == curr,
            r.max == max,
    {
        Self { curr, max }
    }

    pub fn to(self) -> (r: Step)
        ensures
            r == Step::To(self),
    {
        Step::To(self)
    }

    pub fn by<>(self) -> (r: Step)
        ensures
            r == Step::By(self),
    {
        Step::By(self)
    }
}

impl Step {
    pub fn absolute(self, v: isize) -> (r: Value)
        ensures
            r == Value::Absolute(v, self),
    {
        Value::Absolute(v, self)
    }

    pub fn relative(self, percent: isize) -> (r: Value)
        ensures
            r == Value::Relative(percent, self),
    {
        Value::Relative(percent, self)
    }
}

fn clamp_to(v: i128, max: usize) -> (r: usize)
    ensures
        r == clamp(v as int, max as int),
{
    if v < 0 {
        0
    } else if v > max as i128 {
        max
    } else {
        v as usize
    }
}

fn magnitude(p: isize) -> (r: u128)
    ensures
        r == abs(p as int),
{
    if p >= 0 {
        p as u128
    } else {
        (-(p as i128)) as u128
    }
}

fn signed_percent(max: usize, p: isize) -> (r: i128)
    ensures
        r == signed_percent_of(max as int, p as int),
        abs(r as int) <= 0x0200_0000_0000_0000_0000_0000_0000_0000,
{
    let m = magnitude(p);
    let ghost mi = m as int;
    let ghost maxi = max as int;
    proof {
        assert(0 <= maxi * mi <= 0x1_0000_0000_0000_0000 * 0x8000_0000_0000_0000) by (nonlinear_arith)
            requires
                0 <= maxi < 0x1_0000_0000_0000_0000,
                0 <= mi <= 0x8000_0000_0000_0000,
        ;
        lemma_div_is_ordered(0, maxi * mi + 5000, 10000);
        let bound: int = 0x0200_0000_0000_0000_0000_0000_0000_0000;
        lemma_div_is_ordered(maxi * mi + 5000, bound * 10000, 10000);
        assert(bound * 10000 / 10000 == bound);
    }
    let share = ((max as u128) * m + 5000) / 10000;
    if p >= 0 {
        share as i128
    } else {
        -(share as i128)
    }
}

impl Value {
    pub fn exp(self, exponent: u32) -> (r: Exponential)
        ensures
            r == (Exponential { value: self, exponent }),
    {
        Exponential { value: self, exponent }
    }

    /// Where this move ends.
    pub fn target(&self) -> (r: usize)
        ensures
            r == target_of(*self),
    {
        match self {
            Value::Absolute(v, Step::To(r)) => clamp_to(*v as i128, r.max),
            Value::Absolute(v, Step::By(r)) => clamp_to(r.curr as i128 + *v as i128, r.max),
            Value::Relative(p, Step::To(r)) => clamp_to(signed_percent(r.max, *p), r.max),
            Value::Relative(p, Step::By(r)) => clamp_to(
                r.curr as i128 + signed_percent(r.max, *p),
                r.max,
            ),
        }
    }

    pub fn start(&self) -> (r: usize)
        ensures
            r == value_range(*self).curr,
    {
        match self {
            Value::Absolute(_, Step::To(r)) => r.curr,
            Value::Absolute(_, Step::By(r)) => r.curr,
            Value::Relative(_, Step::To(r)) => r.curr,
            Value::Relative(_, Step::By(r)) => r.curr,
        }
    }
}

impl RangeBuilder for Value {
    open spec fn well_formed(&self) -> bool {
        value_range(*self).well_formed()
    }

    /// Without shaping, a move visits every level between its start and its target.
    open spec fn yields(&self, steps: Seq<usize>) -> bool {
        steps == linear_steps(value_range(*self).curr, target_of(*self) as usize)
    }

    fn build(&self) -> (r: Vec<usize>) {
        let target = self.target();
        Range::from_a_to_b(self.start(), target)
    }
}

impl RangeBuilder for Exponential {
    open spec fn well_formed(&self) -> bool {
        value_range(self.value).well_formed()
    }

    /// A shaped relative move visits percentile levels; any other move is left linear.
    open spec fn yields(&self, steps: Seq<usize>) -> bool {
        match self.value {
            Value::Relative(p, Step::By(r)) => percentile_steps(
                r.curr,
                r.max,
                p as int,
                bin_count(p as int, self.exponent as int),
                steps,
            ),
            _ => self.value.yields(steps),
        }
    }

    fn build(&self) -> (r: Vec<usize>) {
        match &self.value {
            Value::Relative(p, Step::By(r)) => Range::by_percent(r.curr, r.max, *p, self.exponent),
            _ => self.value.build(),
        }
    }
}

impl Range {
    /// The percentile remap of a relative move of `percent` from `curr`, shaped by `exponent`;
    /// both are given in hundredths.
    pub fn by_percent(curr: usize, max: usize, percent: isize, exponent: u32) -> (r: Vec<usize>)
        ensures
            percentile_steps(curr, max, percent as int, bin_count(percent as int, exponent as int), r@),
    {
        let m = magnitude(percent);
        let ghost mi = m as int;
        let ghost ei = exponent as int;
        proof {
            assert(0 <= mi * ei <= 0x8000_0000_0000_0000 * 0x1_0000_0000) by (nonlinear_arith)
                requires
                    0 <= mi <= 0x8000_0000_0000_0000,
                    0 <= ei < 0x1_0000_0000,
            ;
        }
        let count = m * (exponent as u128) / 10000;
        if percent >= 0 {
            Range::percentile_up(curr, max, count)
        } else {
            Range::percentile_down(curr, max, count)
        }
    }
}

/// Moving by nothing, or to the level already held, visits no level at all.
pub proof fn lemma_no_op_is_empty(curr: usize, max: usize, steps: Seq<usize>)
    requires
        curr <= max,
    ensures
        linear_steps(curr, curr).len() == 0,
        Value::Absolute(0, Step::By(Range { curr, max })).yields(steps) ==> steps.len() == 0,
        curr <= isize::MAX && Value::Absolute(curr as isize, Step::To(Range { curr, max })).yields(
            steps,
        ) ==> steps.len() == 0,
{
}

/// Without shaping, going up to `target` visits each level of `(curr, target]` once,
/// in increasing order.
pub proof fn lemma_ascending_steps(curr: usize, target: usize, max: usize, steps: Seq<usize>)
    requires
        curr < target <= max,
        target <= isize::MAX,
        Value::Absolute(target as isize, Step::To(Range { curr, max })).yields(steps),
    ensures
        steps.len() == target - curr,
        forall|i: int| 0 <= i < steps.len() ==> steps[i] == curr + 1 + i,
        strictly_increasing(steps),
        steps.last() == target,
{
}

/// Without shaping, going down to `target` visits each level of `[target, curr)` once,
/// in decreasing order.
pub proof fn lemma_descending_steps(curr: usize, target: usize, max: usize, steps: Seq<usize>)
    requires
        target < curr <= max,
        target <= isize::MAX,
        Value::Absolute(target as isize, Step::To(Range { curr, max })).yields(steps),
    ensures
        steps.len() == curr - target,
        forall|i: int| 0 <= i < steps.len() ==> steps[i] == curr - 1 - i,
        strictly_decreasing(steps),
        steps.last() == target,
{
}

/// Partitioning any `[0, max]` into 100 bins gives exactly 100 levels, the last being `max`.
pub proof fn lemma_percentile_levels_count(max: usize)
    ensures
        percentile_levels(0, max).len() == 100,
        percentile_levels(0, max)[99] == max,
{
    lemma_share_bounded(max as int, 100);
}

proof fn lemma_linear_steps_shape(a: usize, b: usize, max: usize)
    requires
        a <= max,
        b <= max,
    ensures
        strictly_monotonic(linear_steps(a, b)),
        bounded_by(linear_steps(a, b), max),
{
    if a >= b {
        assert(strictly_decreasing(linear_steps(a, b)));
    } else {
        assert(strictly_increasing(linear_steps(a, b)));
    }
}

/// Every shaped sequence, for any exponent, is strictly monotonic (so no two adjacent
/// levels are equal) and stays within `[0, max]`.
pub proof fn lemma_shaped_steps_monotonic(e: Exponential, steps: Seq<usize>)
    requires
        e.well_formed(),
        e.yields(steps),
    ensures
        strictly_monotonic(steps),
        bounded_by(steps, value_range(e.value).max),
{
    let r = value_range(e.value);
    match e.value {
        Value::Relative(p, Step::By(_)) => {
            assert forall|i: int| 0 <= i < steps.len() implies steps[i] <= r.max by {
                assert(is_percentile(r.max, steps[i]));
                let k = choose|k: int| 0 <= k < 100 && percentile_levels(0, r.max)[k] == steps[i];
                lemma_levels_ordered(r.max, k, 99);
            }
        },
        _ => {
            lemma_linear_steps_shape(r.curr, target_of(e.value) as usize, r.max);
        },
    }
}

proof fn lemma_up_agree_at(curr: usize, max: usize, count: int, s1: Seq<usize>, s2: Seq<usize>, i: int)
    requires
        percentile_steps_up(curr, max, count, s1),
        percentile_steps_up(curr, max, count, s2),
        0 <= i < s1.len(),
        i < s2.len(),
        forall|j: int| 0 <= j < i ==> s1[j] == s2[j],
    ensures
        s1[i] == s2[i],
{
    let n = percentile_levels(0, max);
    if s1[i] < s2[i] {
        assert(is_percentile(max, s1[i]));
        let k = choose|k: int| 0 <= k < 100 && n[k] == s1[i];
        assert(n[k] <= s2.last());
        let j = choose|j: int| 0 <= j < s2.len() && s2[j] == n[k];
        assert(false);
    } else if s2[i] < s1[i] {
        assert(is_percentile(max, s2[i]));
        let k = choose|k: int| 0 <= k < 100 && n[k] == s2[i];
        assert(n[k] <= s1.last());
        let j = choose|j: int| 0 <= j < s1.len() && s1[j] == n[k];
        assert(false);
    }
}

proof fn lemma_up_agree_upto(curr: usize, max: usize, count: int, s1: Seq<usize>, s2: Seq<usize>, i: int)
    requires
        percentile_steps_up(curr, max, count, s1),
        percentile_steps_up(curr, max, count, s2),
        0 <= i <= s1.len(),
        i <= s2.len(),
    ensures
        forall|j: int| 0 <= j < i ==> s1[j] == s2[j],
    decreases i,
{
    if i > 0 {
        lemma_up_agree_upto(curr, max, count, s1, s2, i - 1);
        lemma_up_agree_at(curr, max, count, s1, s2, i - 1);
    }
}

proof fn lemma_up_not_shorter(curr: usize, max: usize, count: int, s1: Seq<usize>, s2: Seq<usize>)
    requires
        percentile_steps_up(curr, max, count, s1),
        percentile_steps_up(curr, max, count, s2),
    ensures
        s1.len() >= s2.len(),
{
    if s1.len() < s2.len() {
        lemma_up_agree_upto(curr, max, count, s1, s2, s1.len() as int);
        let n = percentile_levels(0, max);
        let x = s2[s1.len() as int];
        assert(is_percentile(max, x));
        let k = choose|k: int| 0 <= k < 100 && n[k] == x;
        let j = choose|j: int| 0 <= j < s1.len() && s1[j] == n[k];
        assert(s2[j] < x);
    }
}

proof fn lemma_down_agree_at(curr: usize, max: usize, count: int, s1: Seq<usize>, s2: Seq<usize>, i: int)
    requires
        percentile_steps_down(curr, max, count, s1),
        percentile_steps_down(curr, max, count, s2),
        0 <= i < s1.len(),
        i < s2.len(),
        forall|j: int| 0 <= j < i ==> s1[j] == s2[j],
    ensures
        s1[i] == s2[i],
{
    let n = percentile_levels(0, max);
    if s1[i] > s2[i] {
        assert(is_percentile(max, s1[i]));
        let k = choose|k: int| 0 <= k < 100 && n[k] == s1[i];
        assert(n[k] >= s2.last());
        let j = choose|j: int| 0 <= j < s2.len() && s2[j] == n[k];
        assert(false);
    } else if s2[i] > s1[i] {
        assert(is_percentile(max, s2[i]));
        let k = choose|k: int| 0 <= k < 100 && n[k] == s2[i];
        assert(n[k] >= s1.last());
        let j = choose|j: int| 0 <= j < s1.len() && s1[j] == n[k];
        assert(false);
    }
}

proof fn lemma_down_agree_upto(curr: usize, max: usize, count: int, s1: Seq<usize>, s2: Seq<usize>, i: int)
    requires
        percentile_steps_down(curr, max, count, s1),
        percentile_steps_down(curr, max, count, s2),
        0 <= i <= s1.len(),
        i <= s2.len(),
    ensures
        forall|j: int| 0 <= j < i ==> s1[j] == s2[j],
    decreases i,
{
    if i > 0 {
        lemma_down_agree_upto(curr, max, count, s1, s2, i - 1);
        lemma_down_agree_at(curr, max, count, s1, s2, i - 1);
    }
}

proof fn lemma_down_not_shorter(curr: usize, max: usize, count: int, s1: Seq<usize>, s2: Seq<usize>)
    requires
        percentile_steps_down(curr, max, count, s1),
        percentile_steps_down(curr, max, count, s2),
    ensures
        s1.len() >= s2.len(),
{
    if s1.len() < s2.len() {
        lemma_down_agree_upto(curr, max, count, s1, s2, s1.len() as int);
        let n = percentile_levels(0, max);
        let x = s2[s1.len() as int];
        assert(is_percentile(max, x));
        let k = choose|k: int| 0 <= k < 100 && n[k] == x;
        let j = choose|j: int| 0 <= j < s1.len() && s1[j] == n[k];
        assert(s2[j] > x);
    }
}

/// The percentile remap leaves no choice: two sequences that both fit it are equal.
pub proof fn lemma_percentile_steps_unique(
    curr: usize,
    max: usize,
    percent: int,
    count: int,
    s1: Seq<usize>,
    s2: Seq<usize>,
)
    requires
        percentile_steps(curr, max, percent, count, s1),
        percentile_steps(curr, max, percent, count, s2),
    ensures
        s1 == s2,
{
    if percent >= 0 {
        lemma_up_not_shorter(curr, max, count, s1, s2);
        lemma_up_not_shorter(curr, max, count, s2, s1);
        lemma_up_agree_upto(curr, max, count, s1, s2, s1.len() as int);
    } else {
        lemma_down_not_shorter(curr, max, count, s1, s2);
        lemma_down_not_shorter(curr, max, count, s2, s1);
        lemma_down_agree_upto(curr, max, count, s1, s2, s1.len() as int);
    }
    assert(s1 =~= s2);
}

} // verus!
