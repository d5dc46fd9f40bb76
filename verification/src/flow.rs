//! The arithmetic of one line of children: how the main axis of a container
//! is divided among them and where each one starts.
//!
//! Every function here speaks of one axis only.  Lengths are whole logical
//! units.  A child is *fixed* if it has a size of its own, *growing* if it
//! has none and a positive weight, and *soft* if it has none and weight zero.
//! A soft child has the default length and gives way when space is short; a
//! growing child starts from nothing and takes its share of what is free.
//!
//! A wrapping line does not shrink: a child that does not fit behind its
//! predecessors starts a new line, so no child has to give way for it.

use vstd::prelude::*;
use crate::element::Element;
use crate::geometry::{clamp_authored, clamp_length};
use crate::layout::JustifyContent;

verus! {

/// The length of a child that has neither a size nor a weight.
pub const DEFAULT_LENGTH: u32 = 100;

/// What a run of children adds up to on the main axis.
pub struct Sums {
    /// The lengths of the fixed and the soft children.
    pub base: int,
    /// The weights of the growing children.
    pub weight: int,
    /// The number of soft children.
    pub soft: int,
}

/// The executable form of [`Sums`].
#[derive(Clone, Copy, Debug)]
pub struct Tally {
    pub base: u128,
    pub weight: u128,
    pub soft: u128,
}

impl View for Tally {
    type V = Sums;

    open spec fn view(&self) -> Sums {
        Sums { base: self.base as int, weight: self.weight as int, soft: self.soft as int }
    }
}

/// The size that the author gave the child on the main axis, if any.
pub open spec fn authored_main(e: Element, row: bool) -> Option<int> {
    match e.size {
        Some(v) => Some(clamp_length(if row { v.x as int } else { v.y as int })),
        None => None,
    }
}

/// The size that the author gave the child on the cross axis, if any.
pub open spec fn authored_cross(e: Element, row: bool) -> Option<int> {
    match e.size {
        Some(v) => Some(clamp_length(if row { v.y as int } else { v.x as int })),
        None => None,
    }
}

/// The child takes a share of the free space.
pub open spec fn grows(e: Element) -> bool {
    e.size is None && e.layout_weight > 0
}

/// The child has the default length and gives way when space is short.
pub open spec fn is_soft(e: Element) -> bool {
    e.size is None && e.layout_weight == 0
}

/// The length from which the child starts.
pub open spec fn base_length(e: Element, row: bool) -> int {
    match authored_main(e, row) {
        Some(v) => v,
        None => if e.layout_weight == 0 { DEFAULT_LENGTH as int } else { 0 },
    }
}

/// What one child adds to the sums of its line.
pub open spec fn share(e: Element, row: bool) -> Sums {
    Sums {
        base: base_length(e, row),
        weight: if grows(e) { e.layout_weight as int } else { 0 },
        soft: if is_soft(e) { 1 } else { 0 },
    }
}

/// The sums over the first `upto` children.
pub open spec fn sums(cs: Seq<Element>, row: bool, upto: int) -> Sums
    decreases upto,
{
    if upto <= 0 {
        Sums { base: 0, weight: 0, soft: 0 }
    } else {
        let before = sums(cs, row, upto - 1);
        let one = share(cs[upto - 1], row);
        Sums {
            base: before.base + one.base,
            weight: before.weight + one.weight,
            soft: before.soft + one.soft,
        }
    }
}

/// The space that `n` children spend on the gaps between them.
pub open spec fn gaps(gap: int, n: int) -> int {
    if n > 0 {
        gap * (n - 1)
    } else {
        0
    }
}

/// What is left of `length` once the gaps and the base lengths are taken
/// out.  Negative when the children do not fit.
pub open spec fn free_space(total: Sums, length: int, gap: int, n: int) -> int {
    length - gaps(gap, n) - total.base
}

/// The growth handed out to the children before a given one, whose
/// predecessors have the sums `before`: the free space in proportion to
/// their weights, rounded down.
pub open spec fn grown(total: Sums, free: int, before: Sums) -> int {
    if free > 0 && total.weight > 0 {
        (free * before.weight) / total.weight
    } else {
        0
    }
}

/// The length that the soft children give up together: what is missing,
/// but no more than they have.
pub open spec fn deficit(total: Sums, free: int) -> int {
    if -free <= DEFAULT_LENGTH * total.soft {
        -free
    } else {
        DEFAULT_LENGTH * total.soft
    }
}

/// The length given up by the soft children before a given one, whose
/// predecessors have the sums `before`.  Each soft child gives up the same
/// amount; where the deficit does not divide evenly, the first ones give up
/// one unit more.  A wrapping line does not shrink.
pub open spec fn shrunk(total: Sums, free: int, wrap: bool, before: Sums) -> int {
    if !wrap && free < 0 && total.soft > 0 {
        let d = deficit(total, free);
        let rest = d % total.soft;
        (d / total.soft) * before.soft + if before.soft <= rest { before.soft } else { rest }
    } else {
        0
    }
}

/// Where a child starts when the line is packed at its head: after the
/// lengths of its `i` predecessors and the gaps between them.
pub open spec fn packed_start(
    total: Sums,
    free: int,
    gap: int,
    wrap: bool,
    before: Sums,
    i: int,
) -> int {
    before.base + grown(total, free, before) - shrunk(total, free, wrap, before) + gap * i
}

/// One line of children on its main axis.
pub struct Line {
    pub children: Seq<Element>,
    /// The main axis is horizontal.
    pub row: bool,
    /// The main-axis length of the content box.
    pub length: int,
    pub gap: int,
    pub wrap: bool,
}

impl Line {
    pub open spec fn n(self) -> int {
        self.children.len() as int
    }

    pub open spec fn total(self) -> Sums {
        sums(self.children, self.row, self.n())
    }

    pub open spec fn free(self) -> int {
        free_space(self.total(), self.length, self.gap, self.n())
    }

    /// Where child `i` starts when the line is packed at its head.
    pub open spec fn start(self, i: int) -> int {
        packed_start(
            self.total(),
            self.free(),
            self.gap,
            self.wrap,
            sums(self.children, self.row, i),
            i,
        )
    }

    /// The main-axis length of child `i`.
    pub open spec fn main_length(self, i: int) -> int {
        self.start(i + 1) - self.start(i) - self.gap
    }

    /// The length that the children and their gaps take together.
    pub open spec fn used(self) -> int {
        if self.n() > 0 {
            self.start(self.n()) - self.gap
        } else {
            0
        }
    }

    /// The part of the main axis that no child and no gap takes.
    pub open spec fn leftover(self) -> int {
        if self.used() < self.length {
            self.length - self.used()
        } else {
            0
        }
    }

    /// The children take up the main axis exactly: either some child grows
    /// into the free space, or the soft children can give up what is missing.
    pub open spec fn fills(self) -> bool {
        &&& self.free() > 0 ==> self.total().weight > 0
        &&& self.free() < 0 ==> !self.wrap && -self.free() <= DEFAULT_LENGTH * self.total().soft
    }
}

/// How far child `i` of `n` is moved towards the tail to distribute the
/// `leftover` of its line.
pub open spec fn justify_shift(justify: JustifyContent, leftover: int, n: int, i: int) -> int {
    match justify {
        JustifyContent::Start => 0,
        JustifyContent::End => leftover,
        JustifyContent::Center => leftover / 2,
        JustifyContent::SpaceBetween => if n >= 2 {
            (leftover * i) / (n - 1)
        } else {
            0
        },
        JustifyContent::SpaceAround => if n >= 1 {
            (leftover * (2 * i + 1)) / (2 * n)
        } else {
            0
        },
        JustifyContent::SpaceEvenly => (leftover * (i + 1)) / (n + 1),
    }
}

/// The largest base length of a child.
pub open spec fn max_base() -> int {
    0x7fff_ffff
}

/// Sums grow with every child, by no more than one child can add.
pub proof fn lemma_sums_step(cs: Seq<Element>, row: bool, upto: int)
    requires
        0 <= upto,
    ensures
        0 <= sums(cs, row, upto).base <= sums(cs, row, upto + 1).base <= sums(cs, row, upto).base
            + max_base(),
        0 <= sums(cs, row, upto).weight <= sums(cs, row, upto + 1).weight <= sums(
            cs,
            row,
            upto,
        ).weight + u32::MAX,
        0 <= sums(cs, row, upto).soft <= sums(cs, row, upto + 1).soft <= sums(cs, row, upto).soft
            + 1,
        sums(cs, row, upto).base <= upto * max_base(),
        sums(cs, row, upto).weight <= upto * u32::MAX,
        sums(cs, row, upto).soft <= upto,
    decreases upto,
{
    if upto > 0 {
        lemma_sums_step(cs, row, upto - 1);
    }
}

/// Sums over a shorter run are no larger.
pub proof fn lemma_sums_monotone(cs: Seq<Element>, row: bool, a: int, b: int)
    requires
        0 <= a <= b,
    ensures
        sums(cs, row, a).base <= sums(cs, row, b).base,
        sums(cs, row, a).weight <= sums(cs, row, b).weight,
        sums(cs, row, a).soft <= sums(cs, row, b).soft,
        0 <= sums(cs, row, a).base,
        0 <= sums(cs, row, a).weight,
        0 <= sums(cs, row, a).soft,
    decreases b - a,
{
    lemma_sums_step(cs, row, a);
    if a < b {
        lemma_sums_monotone(cs, row, a + 1, b);
    }
}

/// A share of the free space: never negative, never more than all of it,
/// and no smaller for a larger weight.
pub proof fn lemma_share_bounds(free: int, a: int, b: int, w: int)
    requires
        0 <= free,
        0 <= a <= b <= w,
        0 < w,
    ensures
        0 <= (free * a) / w <= (free * b) / w <= free,
        (free * w) / w == free,
{
    assert(0 <= free * a <= free * b <= free * w) by (nonlinear_arith)
        requires
            0 <= free,
            0 <= a <= b <= w,
    ;
    vstd::arithmetic::div_mod::lemma_div_is_ordered(0, free * a, w);
    vstd::arithmetic::div_mod::lemma_div_is_ordered(free * a, free * b, w);
    vstd::arithmetic::div_mod::lemma_div_is_ordered(free * b, free * w, w);
    vstd::arithmetic::div_mod::lemma_div_by_multiple(free, w);
}

/// What the soft children give up: nothing before the first, all of the
/// deficit after the last, and at most the default length each.
pub proof fn lemma_shrunk_bounds(d: int, k: int, j: int)
    requires
        0 <= d <= DEFAULT_LENGTH * k,
        0 <= j < k,
    ensures
        0 <= d / k <= DEFAULT_LENGTH,
        0 <= d % k < k,
        d / k == DEFAULT_LENGTH ==> d % k == 0,
        (d / k) * k + d % k == d,
        (d / k) * j <= (d / k) * (j + 1) == (d / k) * j + d / k,
        0 <= (d / k) * j <= DEFAULT_LENGTH * j,
{
    vstd::arithmetic::div_mod::lemma_fundamental_div_mod(d, k);
    vstd::arithmetic::div_mod::lemma_mod_bound(d, k);
    let q = d / k;
    let r = d % k;
    assert(q * k == k * q) by (nonlinear_arith);
    assert(0 <= q) by (nonlinear_arith)
        requires
            d == k * q + r,
            0 <= r < k,
            0 <= d,
            0 < k,
    ;
    assert(q <= DEFAULT_LENGTH && (q == DEFAULT_LENGTH ==> r == 0)) by (nonlinear_arith)
        requires
            d == k * q + r,
            0 <= r < k,
            d <= DEFAULT_LENGTH * k,
            0 < k,
    ;
    assert(q * (j + 1) == q * j + q && 0 <= q * j <= DEFAULT_LENGTH * j) by (nonlinear_arith)
        requires
            0 <= q <= DEFAULT_LENGTH,
            0 <= j,
    ;
}

/// Soft children account for the default length each, and what they give
/// up together never exceeds it.
pub proof fn lemma_soft_base(cs: Seq<Element>, row: bool, upto: int)
    requires
        0 <= upto,
    ensures
        DEFAULT_LENGTH * sums(cs, row, upto).soft <= sums(cs, row, upto).base,
    decreases upto,
{
    if upto > 0 {
        lemma_soft_base(cs, row, upto - 1);
    }
}

/// The sums of a run and of the child after it, added up.
pub open spec fn plus(a: Sums, b: Sums) -> Sums {
    Sums { base: a.base + b.base, weight: a.weight + b.weight, soft: a.soft + b.soft }
}

/// `one` is what a single child can add to the sums.
pub open spec fn is_share(one: Sums) -> bool {
    &&& 0 <= one.base <= max_base()
    &&& 0 <= one.weight <= u32::MAX
    &&& 0 <= one.soft <= 1
    &&& one.weight > 0 ==> one.base == 0 && one.soft == 0
    &&& one.soft == 1 ==> one.base == DEFAULT_LENGTH && one.weight == 0
}

/// `before` can be the sums of a run of children inside a line with the sums `total`.
pub open spec fn is_prefix(before: Sums, total: Sums) -> bool {
    &&& 0 <= before.base <= total.base
    &&& 0 <= before.weight <= total.weight
    &&& 0 <= before.soft <= total.soft
    &&& DEFAULT_LENGTH * before.soft <= before.base
}

/// What the soft children before a given one give up is covered by their
/// base lengths.
pub proof fn lemma_shrunk_covered(total: Sums, free: int, wrap: bool, before: Sums)
    requires
        is_prefix(before, total),
    ensures
        0 <= shrunk(total, free, wrap, before) <= DEFAULT_LENGTH * before.soft,
        before.soft == total.soft && !wrap && free < 0 && total.soft > 0 ==> shrunk(
            total,
            free,
            wrap,
            before,
        ) == deficit(total, free),
{
    if !wrap && free < 0 && total.soft > 0 {
        let d = deficit(total, free);
        let k = total.soft;
        let j = before.soft;
        let q = d / k;
        lemma_shrunk_bounds(d, k, 0);
        assert(0 <= q * j <= DEFAULT_LENGTH * j && (q < DEFAULT_LENGTH ==> q * j + j
            <= DEFAULT_LENGTH * j)) by (nonlinear_arith)
            requires
                0 <= q <= DEFAULT_LENGTH,
                0 <= j,
        ;
    }
}

/// The growth handed out before a child lies between nothing and all of the
/// free space.
pub proof fn lemma_grown_bounds(total: Sums, free: int, before: Sums)
    requires
        is_prefix(before, total),
    ensures
        0 <= grown(total, free, before),
        free > 0 ==> grown(total, free, before) <= free,
        free <= 0 ==> grown(total, free, before) == 0,
        free > 0 && total.weight > 0 && before.weight == total.weight ==> grown(
            total,
            free,
            before,
        ) == free,
{
    if free > 0 && total.weight > 0 {
        lemma_share_bounds(free, before.weight, before.weight, total.weight);
    }
}

/// The length of one child: what lies between its packed start and that of
/// its successor, less the gap.  It is never negative and fits in 32 bits.
pub proof fn lemma_length_bounds(
    total: Sums,
    free: int,
    gap: int,
    wrap: bool,
    before: Sums,
    one: Sums,
    i: int,
)
    requires
        is_share(one),
        is_prefix(before, total),
        is_prefix(plus(before, one), total),
        free <= u32::MAX,
    ensures
        packed_start(total, free, gap, wrap, plus(before, one), i + 1) - packed_start(
            total,
            free,
            gap,
            wrap,
            before,
            i,
        ) - gap == one.base + (grown(total, free, plus(before, one)) - grown(total, free, before))
            - (shrunk(total, free, wrap, plus(before, one)) - shrunk(total, free, wrap, before)),
        0 <= packed_start(total, free, gap, wrap, plus(before, one), i + 1) - packed_start(
            total,
            free,
            gap,
            wrap,
            before,
            i,
        ) - gap <= u32::MAX,
        one.weight == 0 ==> grown(total, free, plus(before, one)) == grown(total, free, before),
        one.soft == 0 ==> shrunk(total, free, wrap, plus(before, one)) == shrunk(
            total,
            free,
            wrap,
            before,
        ),
{
    let after = plus(before, one);
    assert(gap * (i + 1) == gap * i + gap) by (nonlinear_arith);
    lemma_grown_bounds(total, free, before);
    lemma_grown_bounds(total, free, after);
    if free > 0 && total.weight > 0 {
        lemma_share_bounds(free, before.weight, after.weight, total.weight);
    }
    lemma_shrunk_covered(total, free, wrap, before);
    lemma_shrunk_covered(total, free, wrap, after);
    if !wrap && free < 0 && total.soft > 0 && one.soft == 1 {
        let d = deficit(total, free);
        let k = total.soft;
        let j = before.soft;
        lemma_shrunk_bounds(d, k, j);
    }
}

/// What one child adds to the sums of its line.
pub fn measure(e: &Element, row: bool) -> (t: Tally)
    ensures
        t@ == share(*e, row),
        is_share(t@),
{
    match e.size {
        Some(v) => Tally {
            base: clamp_authored(if row { v.x } else { v.y }) as u128,
            weight: 0,
            soft: 0,
        },
        None => if e.layout_weight == 0 {
            Tally { base: DEFAULT_LENGTH as u128, weight: 0, soft: 1 }
        } else {
            Tally { base: 0, weight: e.layout_weight as u128, soft: 0 }
        },
    }
}

/// The sums over all children of a line.
pub fn tally(children: &Vec<Element>, row: bool) -> (t: Tally)
    ensures
        t@ == sums(children@, row, children.len() as int),
{
    let mut t = Tally { base: 0, weight: 0, soft: 0 };
    let mut i: usize = 0;
    while i < children.len()
        invariant
            i <= children.len(),
            t@ == sums(children@, row, i as int),
            t.base <= i * max_base(),
            t.weight <= i * u32::MAX,
            t.soft <= i,
        decreases children.len() - i,
    {
        let one = measure(&children[i], row);
        t = Tally { base: t.base + one.base, weight: t.weight + one.weight, soft: t.soft + one.soft };
        i += 1;
    }
    t
}


/// The sums are those of a line that a vector can hold.
pub open spec fn is_total(total: Sums) -> bool {
    &&& 0 <= total.base <= 0xffff_ffff_ffff_ffff * max_base()
    &&& 0 <= total.weight <= 0xffff_ffff_ffff_ffff * u32::MAX
    &&& 0 <= total.soft <= 0xffff_ffff_ffff_ffff
}

/// The line that a container with these children and this content length forms.
pub open spec fn line_of(children: Seq<Element>, row: bool, length: u32, gap: u32, wrap: bool) -> Line {
    Line { children, row, length: length as int, gap: gap as int, wrap }
}

/// The place of one child on the main axis of its line.
#[derive(Clone, Copy, Debug)]
pub struct Span {
    /// Where the child starts when the line is packed at its head.
    pub start: u128,
    pub length: u32,
}

/// A main axis divided among the children of a line.
#[derive(Debug)]
pub struct Division {
    /// One span for each child, in order.
    pub spans: Vec<Span>,
    /// The part of the axis that no child and no gap takes.
    pub leftover: u32,
}

/// See [`packed_start`].
fn start_of(total: &Tally, free: i128, gap: u32, wrap: bool, before: &Tally, i: usize) -> (r: u128)
    requires
        is_total(total@),
        is_prefix(before@, total@),
        -0x1_0000_0000_0000_0000_0000_0000_0000 < free <= u32::MAX,
    ensures
        r == packed_start(total@, free as int, gap as int, wrap, before@, i as int),
{
    proof {
        lemma_grown_bounds(total@, free as int, before@);
        lemma_shrunk_covered(total@, free as int, wrap, before@);
    }
    let grown_part: u128 = if free > 0 && total.weight > 0 {
        let f: u128 = free as u128;
        assert(f * before.weight <= 0xffff_ffff * (0xffff_ffff_ffff_ffff * 0xffff_ffff))
            by (nonlinear_arith)
            requires
                f <= 0xffff_ffff,
                before.weight <= 0xffff_ffff_ffff_ffff * 0xffff_ffff,
        ;
        (f * before.weight) / total.weight
    } else {
        0
    };
    let shrunk_part: u128 = if !wrap && free < 0 && total.soft > 0 {
        let limit: u128 = (DEFAULT_LENGTH as u128) * total.soft;
        let missing: u128 = (-free) as u128;
        let d: u128 = if missing <= limit {
            missing
        } else {
            limit
        };
        let q: u128 = d / total.soft;
        let rest: u128 = d % total.soft;
        proof {
            lemma_shrunk_bounds(d as int, total.soft as int, 0);
            assert(q * before.soft <= 100 * 0xffff_ffff_ffff_ffff) by (nonlinear_arith)
                requires
                    q <= 100,
                    before.soft <= 0xffff_ffff_ffff_ffff,
            ;
        }
        q * before.soft + if before.soft <= rest {
            before.soft
        } else {
            rest
        }
    } else {
        0
    };
    assert(gap * i <= 0xffff_ffff * 0xffff_ffff_ffff_ffff) by (nonlinear_arith)
        requires
            gap <= 0xffff_ffff,
            i <= 0xffff_ffff_ffff_ffff,
    ;
    before.base + grown_part - shrunk_part + (gap as u128) * (i as u128)
}

/// Divides a main axis of the given length among the children: each child
/// gets its packed start and its length, and what no child takes is left over.
pub fn distribute(children: &Vec<Element>, row: bool, length: u32, gap: u32, wrap: bool) -> (d:
    Division)
    ensures
        d.spans@.len() == children@.len(),
        forall|i: int|
            0 <= i < children@.len() ==> (#[trigger] d.spans@[i]).start == line_of(
                children@,
                row,
                length,
                gap,
                wrap,
            ).start(i) && d.spans@[i].length == line_of(children@, row, length, gap, wrap).main_length(
                i,
            ),
        d.leftover == line_of(children@, row, length, gap, wrap).leftover(),
{
    let ghost line = line_of(children@, row, length, gap, wrap);
    let n: usize = children.len();
    let total = tally(children, row);
    proof {
        lemma_sums_step(children@, row, n as int);
        lemma_soft_base(children@, row, n as int);
    }
    assert(gap * n <= 0xffff_ffff * 0xffff_ffff_ffff_ffff) by (nonlinear_arith)
        requires
            gap <= 0xffff_ffff,
            n <= 0xffff_ffff_ffff_ffff,
    ;
    let between: u128 = if n > 0 {
        assert(gap * (n - 1) <= gap * n) by (nonlinear_arith)
            requires
                0 <= gap,
                n > 0,
        ;
        (gap as u128) * ((n - 1) as u128)
    } else {
        0
    };
    let free: i128 = (length as i128) - (between as i128) - (total.base as i128);
    assert(free == line.free());
    let mut spans: Vec<Span> = Vec::new();
    let mut before = Tally { base: 0, weight: 0, soft: 0 };
    let mut start: u128 = 0;
    let mut i: usize = 0;
    proof {
        lemma_grown_bounds(total@, free as int, before@);
        lemma_shrunk_covered(total@, free as int, wrap, before@);
        assert(gap * 0 == 0) by (nonlinear_arith);
    }
    while i < n
        invariant
            n == children.len(),
            i <= n,
            line == line_of(children@, row, length, gap, wrap),
            total@ == line.total(),
            is_total(total@),
            free == line.free(),
            -0x1_0000_0000_0000_0000_0000_0000_0000 < free <= u32::MAX,
            before@ == sums(children@, row, i as int),
            is_prefix(before@, total@),
            start == line.start(i as int),
            i > 0 ==> start >= gap,
            spans@.len() == i,
            forall|j: int|
                0 <= j < i ==> (#[trigger] spans@[j]).start == line.start(j) && spans@[j].length
                    == line.main_length(j),
        decreases n - i,
    {
        let one = measure(&children[i], row);
        proof {
            lemma_sums_monotone(children@, row, i + 1, n as int);
            lemma_soft_base(children@, row, i + 1);
            lemma_length_bounds(
                total@,
                free as int,
                gap as int,
                wrap,
                before@,
                one@,
                i as int,
            );
        }
        let after = Tally {
            base: before.base + one.base,
            weight: before.weight + one.weight,
            soft: before.soft + one.soft,
        };
        assert(after@ == plus(before@, one@));
        assert(after@ == sums(children@, row, i + 1));
        let next: u128 = start_of(&total, free, gap, wrap, &after, i + 1);
        let len: u128 = next - start - (gap as u128);
        spans.push(Span { start, length: len as u32 });
        before = after;
        start = next;
        i += 1;
    }
    let used: u128 = if n > 0 {
        start - (gap as u128)
    } else {
        0
    };
    let leftover: u32 = if used < length as u128 {
        (length as u128 - used) as u32
    } else {
        0
    };
    Division { spans, leftover }
}


/// The main-axis lengths of the first `upto` children, added up.
pub open spec fn lengths_sum(line: Line, upto: int) -> int
    decreases upto,
{
    if upto <= 0 {
        0
    } else {
        lengths_sum(line, upto - 1) + line.main_length(upto - 1)
    }
}

/// The sums of a run of children of a line are a prefix of its total.
pub proof fn lemma_prefix(line: Line, i: int)
    requires
        0 <= i <= line.n(),
    ensures
        is_prefix(sums(line.children, line.row, i), line.total()),
{
    lemma_sums_monotone(line.children, line.row, i, line.n());
    lemma_soft_base(line.children, line.row, i);
}

/// The first child of a packed line starts at the head.
pub proof fn lemma_start_at_head(line: Line)
    ensures
        line.start(0) == 0,
{
    let total = line.total();
    let none = sums(line.children, line.row, 0);
    assert(line.gap * 0 == 0) by (nonlinear_arith);
    assert(line.free() * 0 == 0) by (nonlinear_arith);
    if total.soft > 0 {
        let d = deficit(total, line.free());
        vstd::arithmetic::div_mod::lemma_mod_bound(d, total.soft);
        assert((d / total.soft) * 0 == 0) by (nonlinear_arith);
    }
}

/// The length of every child is at least zero and fits in 32 bits.
pub proof fn lemma_main_length_bounds(line: Line, i: int)
    requires
        0 <= i < line.n(),
        line.length <= u32::MAX,
        0 <= line.gap,
    ensures
        0 <= line.main_length(i) <= u32::MAX,
{
    lemma_prefix(line, i);
    lemma_prefix(line, i + 1);
    assert(line.gap * (line.n() - 1) >= 0) by (nonlinear_arith)
        requires
            0 <= line.gap,
            0 < line.n(),
    ;
    lemma_length_bounds(
        line.total(),
        line.free(),
        line.gap,
        line.wrap,
        sums(line.children, line.row, i),
        share(line.children[i], line.row),
        i,
    );
}

/// The lengths of the first children add up to the packed start of the next
/// one, less the gaps before it.
pub proof fn lemma_lengths_sum(line: Line, upto: int)
    requires
        0 <= upto,
    ensures
        lengths_sum(line, upto) == line.start(upto) - line.gap * upto,
    decreases upto,
{
    if upto == 0 {
        lemma_start_at_head(line);
        assert(line.gap * 0 == 0) by (nonlinear_arith);
    } else {
        lemma_lengths_sum(line, upto - 1);
        assert(line.gap * upto == line.gap * (upto - 1) + line.gap) by (nonlinear_arith);
    }
}

/// In a row or a column whose children can take up the main axis, the
/// lengths of the children and the gaps between them add up to the length of
/// the content box exactly.
pub proof fn lemma_line_is_filled(line: Line)
    requires
        line.fills(),
    ensures
        lengths_sum(line, line.n()) + gaps(line.gap, line.n()) == line.length,
{
    let n = line.n();
    let total = line.total();
    let free = line.free();
    lemma_lengths_sum(line, n);
    lemma_prefix(line, n);
    lemma_grown_bounds(total, free, total);
    lemma_shrunk_covered(total, free, line.wrap, total);
    assert(line.gap * n == line.gap * (n - 1) + line.gap) by (nonlinear_arith);
    if n == 0 {
        assert(line.gap * 0 == 0) by (nonlinear_arith);
    }
    if free < 0 {
        assert(total.soft > 0) by (nonlinear_arith)
            requires
                0 < -free <= DEFAULT_LENGTH * total.soft,
        ;
    }
}


} // verus!
