//! Rules and rule contexts: a rule inspects one cell's neighborhood in the
//! frozen source field and may yield a `Change`; an ordered rule context
//! applies the first rule that matches. The tick discipline is
//! double-buffered: every read goes to the source generation, every write to
//! a separate target, so no cell's update can observe another cell's
//! already-updated value.

use vstd::prelude::*;
use vstd::arithmetic::div_mod::lemma_small_mod;

use crate::field::{Cell, Field};
use crate::pos::Pos;
use crate::shape::{Shape, MAX_RADIUS};

verus! {

/// The effect of a matched rule: either set the cell to an explicit value,
/// or copy whatever the *source* field currently holds at an absolute
/// position (never the in-progress target).
#[derive(Clone, Copy)]
pub enum Change<T> {
    SetTo(T),
    CloneFrom(Pos),
}

/// The value a change writes, as a function of the frozen source field.
pub open spec fn change_value<T>(c: Change<T>, src: Field<T>) -> T {
    match c {
        Change::SetTo(v) => v,
        Change::CloneFrom(p) => src.at(p.x as int, p.y as int),
    }
}

/// A declarative rule: one expected cell value per neighborhood slot, in the
/// shape's canonical slot order, plus the change to apply on a match.
#[derive(Clone)]
pub struct PatternRule<T> {
    pub shape: Shape,
    pub expected: Vec<T>,
    pub change: Change<T>,
}

/// A procedural counting rule: count the neighborhood cells equal to `live`
/// (the cell itself, when live, is not counted), then decide the next value
/// by a survival threshold for live cells and a birth threshold for dead
/// ones. It always yields a change, so it matches every cell.
#[derive(Clone)]
pub struct ThresholdRule<T> {
    pub shape: Shape,
    pub live: T,
    pub dead: T,
    pub survive: Vec<bool>,
    pub birth: Vec<bool>,
}

/// A single conditional transition, in one of its two equivalent forms.
#[derive(Clone)]
pub enum Rule<T> {
    Pattern(PatternRule<T>),
    Threshold(ThresholdRule<T>),
}

/// The source cell seen through slot `i` of a shape window anchored at
/// `(x, y)`: the cell at the anchor plus the slot's offset, with the field's
/// toroidal wraparound.
pub open spec fn cell_at_slot<T>(shape: Shape, src: Field<T>, x: int, y: int, i: int) -> T {
    src.at(x + shape.offset_at(i).x as int, y + shape.offset_at(i).y as int)
}

/// Whether a declarative pattern matches the source neighborhood anchored at
/// `(x, y)`: every slot's live cell equals the expected value.
pub open spec fn pattern_matches<T>(p: PatternRule<T>, src: Field<T>, x: int, y: int) -> bool {
    forall|i: int|
        0 <= i < p.shape.size() ==> #[trigger] cell_at_slot(p.shape, src, x, y, i)
            == p.expected@[i]
}

/// Number of cells equal to `live` among the first `n` slots of the shape
/// window anchored at `(x, y)`.
pub open spec fn count_matching<T>(
    shape: Shape,
    src: Field<T>,
    x: int,
    y: int,
    live: T,
    n: int,
) -> int
    decreases n,
{
    if n <= 0 {
        0
    } else {
        count_matching(shape, src, x, y, live, n - 1) + (if cell_at_slot(shape, src, x, y, n - 1)
            == live {
            1int
        } else {
            0int
        })
    }
}

/// The next value a threshold rule assigns to the cell at `(x, y)`.
pub open spec fn threshold_next<T>(t: ThresholdRule<T>, src: Field<T>, x: int, y: int) -> T {
    let total = count_matching(t.shape, src, x, y, t.live, t.shape.size());
    if src.at(x, y) == t.live {
        if t.survive@[total - 1] {
            t.live
        } else {
            t.dead
        }
    } else {
        if t.birth@[total] {
            t.live
        } else {
            t.dead
        }
    }
}

impl<T> PatternRule<T> {
    /// A pattern rule is well formed when its shape is and it expects
    /// exactly one value per slot.
    pub open spec fn wf(self) -> bool {
        &&& self.shape.wf()
        &&& self.expected@.len() == self.shape.size()
    }
}

impl<T> ThresholdRule<T> {
    /// A threshold rule is well formed when its shape is and both threshold
    /// tables cover every possible count.
    pub open spec fn wf(self) -> bool {
        &&& self.shape.wf()
        &&& self.survive@.len() == self.shape.size()
        &&& self.birth@.len() == self.shape.size()
    }
}

impl<T> Rule<T> {
    pub open spec fn wf(self) -> bool {
        match self {
            Rule::Pattern(p) => p.wf(),
            Rule::Threshold(t) => t.wf(),
        }
    }

    /// What the rule decides for the cell at `(x, y)` of the source field:
    /// `None` when it does not match, otherwise the change to apply.
    pub open spec fn decide(self, src: Field<T>, x: int, y: int) -> Option<Change<T>> {
        match self {
            Rule::Pattern(p) => if pattern_matches(p, src, x, y) {
                Some(p.change)
            } else {
                None
            },
            Rule::Threshold(t) => Some(Change::SetTo(threshold_next(t, src, x, y))),
        }
    }
}

/// The count over `n` slots never exceeds `n` and is never negative.
pub proof fn lemma_count_bounds<T>(shape: Shape, src: Field<T>, x: int, y: int, live: T, n: int)
    ensures
        0 <= count_matching(shape, src, x, y, live, n) <= (if n >= 0 {
            n
        } else {
            0
        }),
    decreases n,
{
    if n > 0 {
        lemma_count_bounds(shape, src, x, y, live, n - 1);
    }
}

/// If some slot below `n` holds a live cell, the count over `n` slots is at
/// least one.
pub proof fn lemma_count_at_least_one<T>(
    shape: Shape,
    src: Field<T>,
    x: int,
    y: int,
    live: T,
    n: int,
    i: int,
)
    requires
        0 <= i < n,
        cell_at_slot(shape, src, x, y, i) == live,
    ensures
        count_matching(shape, src, x, y, live, n) >= 1,
    decreases n,
{
    lemma_count_bounds(shape, src, x, y, live, n - 1);
    if i < n - 1 {
        lemma_count_at_least_one(shape, src, x, y, live, n - 1, i);
    }
}

/// If some slot below `n` holds a cell that is not live, the count over `n`
/// slots is at most `n - 1`.
pub proof fn lemma_count_missing_one<T>(
    shape: Shape,
    src: Field<T>,
    x: int,
    y: int,
    live: T,
    n: int,
    i: int,
)
    requires
        0 <= i < n,
        cell_at_slot(shape, src, x, y, i) != live,
    ensures
        count_matching(shape, src, x, y, live, n) <= n - 1,
    decreases n,
{
    lemma_count_bounds(shape, src, x, y, live, n - 1);
    if i < n - 1 {
        lemma_count_missing_one(shape, src, x, y, live, n - 1, i);
    }
}

/// The window's center offset `(0, 0)` always lies in a well-formed shape,
/// and its slot sees the anchor cell itself.
pub proof fn lemma_center_slot<T>(shape: Shape, src: Field<T>, x: int, y: int)
    requires
        shape.wf(),
    ensures
        0 <= shape.slot_of((Pos { x: 0, y: 0 })) < shape.size(),
        cell_at_slot(shape, src, x, y, shape.slot_of((Pos { x: 0, y: 0 }))) == src.at(x, y),
{
    let center = Pos { x: 0, y: 0 };
    shape.lemma_index_of_offset(center);
}

impl<T: Cell> Rule<T> {
    /// Evaluates the rule against the frozen source field at one position,
    /// returning exactly what the rule decides there.
    pub fn evaluate(&self, source: &Field<T>, pos: Pos) -> (r: Option<Change<T>>)
        requires
            self.wf(),
            source.wf(),
        ensures
            r == self.decide(*source, pos.x as int, pos.y as int),
    {
        let ghost gx = pos.x as int;
        let ghost gy = pos.y as int;
        match self {
            Rule::Pattern(p) => {
                let n = p.shape.neighborhood_size();
                let mut i: usize = 0;
                while i < n
                    invariant
                        i <= n,
                        n == p.shape.size(),
                        *self == Rule::Pattern(*p),
                        p.shape.wf(),
                        source.wf(),
                        p.expected@.len() == n,
                        gx == pos.x as int,
                        gy == pos.y as int,
                        forall|k: int|
                            0 <= k < i ==> #[trigger] cell_at_slot(p.shape, *source, gx, gy, k)
                                == p.expected@[k],
                    decreases n - i,
                {
                    let off = p.shape.offset_at_checked(i);
                    let c = source.get_wide(pos.x as i64 + off.x as i64, pos.y as i64 + off.y as i64);
                    proof {
                        assert(c == cell_at_slot(p.shape, *source, gx, gy, i as int));
                    }
                    if !c.cell_eq(&p.expected[i]) {
                        proof {
                            assert(!pattern_matches(*p, *source, gx, gy));
                        }
                        return None;
                    }
                    i = i + 1;
                }
                Some(p.change)
            },
            Rule::Threshold(t) => {
                let n = t.shape.neighborhood_size();
                let mut count: usize = 0;
                let mut i: usize = 0;
                while i < n
                    invariant
                        i <= n,
                        n == t.shape.size(),
                        t.shape.wf(),
                        source.wf(),
                        gx == pos.x as int,
                        gy == pos.y as int,
                        count <= i,
                        count == count_matching(t.shape, *source, gx, gy, t.live, i as int),
                    decreases n - i,
                {
                    let off = t.shape.offset_at_checked(i);
                    let c = source.get_wide(pos.x as i64 + off.x as i64, pos.y as i64 + off.y as i64);
                    proof {
                        assert(c == cell_at_slot(t.shape, *source, gx, gy, i as int));
                    }
                    if c.cell_eq(&t.live) {
                        count = count + 1;
                    }
                    i = i + 1;
                }
                let slf = source.get(pos.x, pos.y);
                let next: T;
                if slf.cell_eq(&t.live) {
                    proof {
                        lemma_center_slot(t.shape, *source, gx, gy);
                        lemma_count_at_least_one(
                            t.shape,
                            *source,
                            gx,
                            gy,
                            t.live,
                            n as int,
                            t.shape.slot_of((Pos { x: 0, y: 0 })),
                        );
                    }
                    next = if t.survive[count - 1] {
                        t.live
                    } else {
                        t.dead
                    };
                } else {
                    proof {
                        lemma_center_slot(t.shape, *source, gx, gy);
                        lemma_count_missing_one(
                            t.shape,
                            *source,
                            gx,
                            gy,
                            t.live,
                            n as int,
                            t.shape.slot_of((Pos { x: 0, y: 0 })),
                        );
                    }
                    next = if t.birth[count] {
                        t.live
                    } else {
                        t.dead
                    };
                }
                Some(Change::SetTo(next))
            },
        }
    }
}

impl<T: Copy> Change<T> {
    /// Applies the change for the cell at `pos`: the write goes to the
    /// target field, and a positional copy reads the source field, never the
    /// in-progress target.
    pub fn apply(&self, source: &Field<T>, target: &mut Field<T>, pos: Pos)
        requires
            source.wf(),
            old(target).wf(),
        ensures
            final(target).wf(),
            final(target).width() == old(target).width(),
            final(target).height() == old(target).height(),
            forall|i: int, j: int|
                old(target).in_range(i, j) && !(i == pos.x as int % old(target).width() && j
                    == pos.y as int % old(target).height()) ==> #[trigger] final(target).at(i, j)
                    == old(target).at(i, j),
            final(target).at(pos.x as int, pos.y as int) == change_value(*self, *source),
    {
        match self {
            Change::SetTo(v) => {
                let val = *v;
                target.set(pos.x, pos.y, val);
            },
            Change::CloneFrom(p) => {
                let val = source.get(p.x, p.y);
                target.set(pos.x, pos.y, val);
            },
        }
        proof {
            target.lemma_at_wrap(pos.x as int, pos.y as int);
        }
    }
}

/// An ordered, append-only collection of rules, evaluated first to last
/// against one cell position; the first rule that matches decides, and a
/// cell no rule matches keeps its prior target value.
pub struct RuleContext<T> {
    pub rules: Vec<Rule<T>>,
}

/// The value the target cell holds after one context evaluation, given the
/// value `prior` it held before: the first matching rule's change applied
/// against the source, or `prior` when no rule matches.
pub open spec fn applied_value<T>(
    ctx: RuleContext<T>,
    src: Field<T>,
    prior: T,
    x: int,
    y: int,
) -> T {
    match ctx.decide(src, x, y) {
        Some(c) => change_value(c, src),
        None => prior,
    }
}

impl<T> RuleContext<T> {
    pub open spec fn wf(self) -> bool {
        forall|k: int| 0 <= k < self.rules@.len() ==> (#[trigger] self.rules@[k]).wf()
    }

    /// The decision of the rules from index `i` on: the first of them that
    /// matches at `(x, y)` decides.
    pub open spec fn decide_from(self, src: Field<T>, x: int, y: int, i: int) -> Option<Change<T>>
        decreases self.rules@.len() - i,
    {
        if i < 0 || i >= self.rules@.len() {
            None
        } else if self.rules@[i].decide(src, x, y) is Some {
            self.rules@[i].decide(src, x, y)
        } else {
            self.decide_from(src, x, y, i + 1)
        }
    }

    /// The whole context's decision: first-match-wins over all rules in
    /// registration order.
    pub open spec fn decide(self, src: Field<T>, x: int, y: int) -> Option<Change<T>> {
        self.decide_from(src, x, y, 0)
    }

    /// The next generation's value at `(x, y)`: the first matching rule's
    /// change applied against the frozen source, or the source value carried
    /// forward when no rule matches.
    pub open spec fn next_value(self, src: Field<T>, x: int, y: int) -> T {
        applied_value(self, src, src.at(x, y), x, y)
    }

    /// If none of the rules in `[i, j)` matches, the decision of the rule
    /// tail from `i` equals the decision from `j`.
    pub proof fn lemma_decide_skip(self, src: Field<T>, x: int, y: int, i: int, j: int)
        requires
            0 <= i <= j <= self.rules@.len(),
            forall|m: int| i <= m < j ==> (#[trigger] self.rules@[m]).decide(src, x, y) is None,
        ensures
            self.decide_from(src, x, y, i) == self.decide_from(src, x, y, j),
        decreases j - i,
    {
        if i < j {
            self.lemma_decide_skip(src, x, y, i + 1, j);
        }
    }

    /// First-match-wins: when the front rule matches, the whole context
    /// decides exactly what that rule decides, whatever the later rules
    /// would have said.
    pub proof fn lemma_first_match_wins(self, src: Field<T>, x: int, y: int)
        requires
            self.rules@.len() >= 1,
            self.rules@[0].decide(src, x, y) is Some,
        ensures
            self.decide(src, x, y) == self.rules@[0].decide(src, x, y),
    {
    }
}

impl<T: Cell> RuleContext<T> {
    /// An empty context: no rule ever matches, so a tick carries every cell
    /// forward unchanged.
    pub fn new() -> (r: RuleContext<T>)
        ensures
            r.rules@.len() == 0,
            r.wf(),
    {
        RuleContext { rules: Vec::new() }
    }

    /// An empty context with storage reserved for the given number of
    /// rules.
    pub fn with_capacity(capacity: usize) -> (r: RuleContext<T>)
        ensures
            r.rules@.len() == 0,
            r.wf(),
    {
        RuleContext { rules: Vec::with_capacity(capacity) }
    }

    /// Appends a rule; registration order is evaluation order.
    pub fn with(&mut self, rule: Rule<T>)
        requires
            old(self).wf(),
            rule.wf(),
        ensures
            final(self).rules@ == old(self).rules@.push(rule),
            final(self).wf(),
    {
        self.rules.push(rule);
    }

    /// Evaluates the rules in order at one position against the frozen
    /// source and applies the first match's change to the target; a cell no
    /// rule matches keeps its prior target value.
    pub fn apply(&self, source: &Field<T>, target: &mut Field<T>, pos: Pos)
        requires
            self.wf(),
            source.wf(),
            old(target).wf(),
        ensures
            final(target).wf(),
            final(target).width() == old(target).width(),
            final(target).height() == old(target).height(),
            forall|i: int, j: int|
                old(target).in_range(i, j) && !(i == pos.x as int % old(target).width() && j
                    == pos.y as int % old(target).height()) ==> #[trigger] final(target).at(i, j)
                    == old(target).at(i, j),
            final(target).at(pos.x as int, pos.y as int) == applied_value(
                *self,
                *source,
                old(target).at(pos.x as int, pos.y as int),
                pos.x as int,
                pos.y as int,
            ),
    {
        let ghost gx = pos.x as int;
        let ghost gy = pos.y as int;
        let n = self.rules.len();
        let mut j: usize = 0;
        while j < n
            invariant
                j <= n,
                n == self.rules@.len(),
                self.wf(),
                source.wf(),
                old(target).wf(),
                *target == *old(target),
                gx == pos.x as int,
                gy == pos.y as int,
                self.decide(*source, gx, gy) == self.decide_from(*source, gx, gy, j as int),
            decreases n - j,
        {
            if let Some(change) = self.rules[j].evaluate(source, pos) {
                change.apply(source, target, pos);
                return ;
            }
            j = j + 1;
        }
        proof {
            target.lemma_at_wrap(gx, gy);
        }
    }
}

impl<T: Cell> Field<T> {
    /// Advances the field one synchronous generation: every coordinate is
    /// decided against the frozen pre-tick contents and written into a
    /// separate target buffer, which then replaces the field's storage in a
    /// single swap. No cell's update can observe another cell's
    /// already-updated value.
    pub fn tick(&mut self, context: &RuleContext<T>)
        requires
            old(self).wf(),
            context.wf(),
        ensures
            final(self).wf(),
            final(self).width() == old(self).width(),
            final(self).height() == old(self).height(),
            forall|x: int, y: int|
                old(self).in_range(x, y) ==> #[trigger] final(self).at(x, y)
                    == context.next_value(*old(self), x, y),
    {
        proof {
            old(self).lemma_wf_bounds();
        }
        let (w, h) = self.dims();
        let mut target = self.duplicate();
        let mut x: usize = 0;
        while x < w
            invariant
                x <= w,
                w <= 0x4000,
                h <= 0x4000,
                w == self.width(),
                h == self.height(),
                *self == *old(self),
                self.wf(),
                context.wf(),
                target.wf(),
                target.width() == w,
                target.height() == h,
                forall|i: int, j: int|
                    0 <= i < x && 0 <= j < h ==> #[trigger] target.at(i, j) == context.next_value(
                        *self,
                        i,
                        j,
                    ),
                forall|i: int, j: int|
                    x <= i < w && 0 <= j < h ==> #[trigger] target.at(i, j) == self.at(i, j),
            decreases w - x,
        {
            let mut y: usize = 0;
            while y < h
                invariant
                    y <= h,
                    x < w,
                    w <= 0x4000,
                    h <= 0x4000,
                    w == self.width(),
                    h == self.height(),
                    *self == *old(self),
                    self.wf(),
                    context.wf(),
                    target.wf(),
                    target.width() == w,
                    target.height() == h,
                    forall|i: int, j: int|
                        0 <= i < x && 0 <= j < h ==> #[trigger] target.at(i, j)
                            == context.next_value(*self, i, j),
                    forall|j: int|
                        0 <= j < y ==> #[trigger] target.at(x as int, j) == context.next_value(
                            *self,
                            x as int,
                            j,
                        ),
                    forall|j: int|
                        y <= j < h ==> #[trigger] target.at(x as int, j) == self.at(x as int, j),
                    forall|i: int, j: int|
                        x < i < w && 0 <= j < h ==> #[trigger] target.at(i, j) == self.at(i, j),
                decreases h - y,
            {
                proof {
                    lemma_small_mod(x as nat, w as nat);
                    lemma_small_mod(y as nat, h as nat);
                }
                context.apply(self, &mut target, Pos { x: x as i32, y: y as i32 });
                y = y + 1;
            }
            x = x + 1;
        }
        *self = target;
    }
}

/// Congruent sources give the same neighbor count.
proof fn lemma_count_congruent<T>(
    shape: Shape,
    a: Field<T>,
    b: Field<T>,
    x: int,
    y: int,
    live: T,
    n: int,
)
    requires
        a.wf(),
        b.wf(),
        a.congruent(b),
    ensures
        count_matching(shape, a, x, y, live, n) == count_matching(shape, b, x, y, live, n),
    decreases n,
{
    if n > 0 {
        lemma_count_congruent(shape, a, b, x, y, live, n - 1);
        a.lemma_congruent_at(
            b,
            x + shape.offset_at(n - 1).x as int,
            y + shape.offset_at(n - 1).y as int,
        );
    }
}

/// Congruent sources make the same patterns match.
proof fn lemma_pattern_congruent<T>(p: PatternRule<T>, a: Field<T>, b: Field<T>, x: int, y: int)
    requires
        a.wf(),
        b.wf(),
        a.congruent(b),
    ensures
        pattern_matches(p, a, x, y) == pattern_matches(p, b, x, y),
{
    assert forall|i: int| 0 <= i < p.shape.size() implies #[trigger] cell_at_slot(p.shape, a, x, y, i)
        == cell_at_slot(p.shape, b, x, y, i) by {
        a.lemma_congruent_at(
            b,
            x + p.shape.offset_at(i).x as int,
            y + p.shape.offset_at(i).y as int,
        );
    }
    if pattern_matches(p, a, x, y) {
        assert forall|i: int| 0 <= i < p.shape.size() implies #[trigger] cell_at_slot(
            p.shape,
            b,
            x,
            y,
            i,
        ) == p.expected@[i] by {
            assert(cell_at_slot(p.shape, a, x, y, i) == p.expected@[i]);
        }
    }
    if pattern_matches(p, b, x, y) {
        assert forall|i: int| 0 <= i < p.shape.size() implies #[trigger] cell_at_slot(
            p.shape,
            a,
            x,
            y,
            i,
        ) == p.expected@[i] by {
            assert(cell_at_slot(p.shape, b, x, y, i) == p.expected@[i]);
        }
    }
}

/// Congruent sources give every rule the same decision.
proof fn lemma_rule_congruent<T>(r: Rule<T>, a: Field<T>, b: Field<T>, x: int, y: int)
    requires
        a.wf(),
        b.wf(),
        a.congruent(b),
    ensures
        r.decide(a, x, y) == r.decide(b, x, y),
{
    match r {
        Rule::Pattern(p) => {
            lemma_pattern_congruent(p, a, b, x, y);
        },
        Rule::Threshold(t) => {
            lemma_count_congruent(t.shape, a, b, x, y, t.live, t.shape.size());
            a.lemma_congruent_at(b, x, y);
        },
    }
}

impl<T> RuleContext<T> {
    /// Congruent sources give the rule tail from any index the same
    /// decision.
    proof fn lemma_decide_from_congruent(self, a: Field<T>, b: Field<T>, x: int, y: int, i: int)
        requires
            a.wf(),
            b.wf(),
            a.congruent(b),
        ensures
            self.decide_from(a, x, y, i) == self.decide_from(b, x, y, i),
        decreases self.rules@.len() - i,
    {
        if 0 <= i < self.rules@.len() {
            lemma_rule_congruent(self.rules@[i], a, b, x, y);
            self.lemma_decide_from_congruent(a, b, x, y, i + 1);
        }
    }

    /// Tick determinism: the next generation is a pure function of the
    /// source contents and the rule list. Two fields with the same
    /// dimensions and the same contents are sent to the same next value at
    /// every coordinate, so ticking the same starting contents twice yields
    /// identical results; there is no hidden state.
    pub proof fn lemma_next_value_deterministic(self, a: Field<T>, b: Field<T>, x: int, y: int)
        requires
            a.wf(),
            b.wf(),
            a.congruent(b),
        ensures
            self.next_value(a, x, y) == self.next_value(b, x, y),
    {
        self.lemma_decide_from_congruent(a, b, x, y, 0);
        match self.decide(a, x, y) {
            Some(c) => match c {
                Change::SetTo(v) => {},
                Change::CloneFrom(p) => {
                    a.lemma_congruent_at(b, p.x as int, p.y as int);
                },
            },
            None => {
                a.lemma_congruent_at(b, x, y);
            },
        }
    }
}

impl<T: Cell> PatternRule<T> {
    /// Builds a declarative rule, rejecting a malformed shape or a pattern
    /// buffer that does not hold exactly one expected value per slot. This
    /// is the fail-fast check that keeps every later slot lookup during a
    /// tick total.
    pub fn new(shape: Shape, expected: Vec<T>, change: Change<T>) -> (r: Option<PatternRule<T>>)
        ensures
            r is Some <==> (shape.wf() && expected@.len() == shape.size()),
            r is Some ==> r.unwrap() == (PatternRule { shape, expected, change }),
            r is Some ==> r.unwrap().wf(),
    {
        if shape.radius < 1 || shape.radius > MAX_RADIUS {
            return None;
        }
        if expected.len() != shape.neighborhood_size() {
            return None;
        }
        Some(PatternRule { shape, expected, change })
    }
}

impl<T: Cell> ThresholdRule<T> {
    /// Builds a counting rule, rejecting a malformed shape or threshold
    /// tables that do not cover every possible neighbor count.
    pub fn new(shape: Shape, live: T, dead: T, survive: Vec<bool>, birth: Vec<bool>) -> (r:
        Option<ThresholdRule<T>>)
        ensures
            r is Some <==> (shape.wf() && survive@.len() == shape.size() && birth@.len()
                == shape.size()),
            r is Some ==> r.unwrap() == (ThresholdRule { shape, live, dead, survive, birth }),
            r is Some ==> r.unwrap().wf(),
    {
        if shape.radius < 1 || shape.radius > MAX_RADIUS {
            return None;
        }
        let n = shape.neighborhood_size();
        if survive.len() != n || birth.len() != n {
            return None;
        }
        Some(ThresholdRule { shape, live, dead, survive, birth })
    }
}

} // verus!
