//! The classic life automaton on a toroidal boolean field: a live cell with
//! two or three live neighbors survives, a dead cell with exactly three live
//! neighbors is born, every other cell is (or stays) dead. The automaton is
//! given in both rule forms the engine supports: one procedural counting
//! rule, and an exhaustive declarative table with one pattern per possible
//! 3x3 neighborhood.

use vstd::prelude::*;

use crate::field::{Field, MAX_DIM};
use crate::pos::Pos;
use crate::rule::{
    cell_at_slot, count_matching, lemma_center_slot, lemma_count_at_least_one, lemma_count_bounds,
    lemma_count_missing_one, pattern_matches, Change, PatternRule, Rule, RuleContext,
    ThresholdRule,
};
use crate::shape::Shape;

verus! {

/// A toroidal grid of live/dead cells.
pub type LifeField = Field<bool>;

/// The 3x3 window the life automaton reads.
pub open spec fn life_shape() -> Shape {
    Shape { radius: 2 }
}

/// Whether a live cell with `n` live neighbors survives.
pub open spec fn survives(n: int) -> bool {
    n == 2 || n == 3
}

/// Whether a dead cell with `n` live neighbors is born.
pub open spec fn born(n: int) -> bool {
    n == 3
}

/// Number of live neighbors of `(x, y)`: live cells in the 3x3 window,
/// not counting the cell itself.
pub open spec fn live_neighbors(src: Field<bool>, x: int, y: int) -> int {
    count_matching(life_shape(), src, x, y, true, 9) - (if src.at(x, y) {
        1int
    } else {
        0int
    })
}

/// The life automaton's next value at `(x, y)`.
pub open spec fn life_next(src: Field<bool>, x: int, y: int) -> bool {
    if src.at(x, y) {
        survives(live_neighbors(src, x, y))
    } else {
        born(live_neighbors(src, x, y))
    }
}

/// Recognizes the procedural life rule: a threshold rule over the 3x3
/// window whose tables say exactly "survive on 2 or 3, birth on 3".
pub open spec fn is_life_rule(r: Rule<bool>) -> bool {
    match r {
        Rule::Threshold(t) => {
            &&& t.shape == life_shape()
            &&& t.live == true
            &&& t.dead == false
            &&& t.survive@.len() == 9
            &&& t.birth@.len() == 9
            &&& forall|k: int| 0 <= k < 9 ==> (#[trigger] t.survive@[k]) == survives(k)
            &&& forall|k: int| 0 <= k < 9 ==> (#[trigger] t.birth@[k]) == born(k)
        },
        _ => false,
    }
}

/// The procedural life rule decides the classic life output at every cell
/// of every field.
pub proof fn lemma_life_rule_decide(r: Rule<bool>, src: Field<bool>, x: int, y: int)
    requires
        is_life_rule(r),
    ensures
        r.decide(src, x, y) == Some(Change::SetTo(life_next(src, x, y))),
{
    let shape = life_shape();
    let center = shape.slot_of((Pos { x: 0, y: 0 }));
    assert(shape.side() == 3);
    assert(shape.size() == 9) by (nonlinear_arith)
        requires
            shape.side() == 3,
            shape.size() == shape.side() * shape.side(),
    ;
    assert(center == 4);
    lemma_center_slot(shape, src, x, y);
    lemma_count_bounds(shape, src, x, y, true, 9);
    if src.at(x, y) {
        lemma_count_at_least_one(shape, src, x, y, true, 9, center);
    } else {
        lemma_count_missing_one(shape, src, x, y, true, 9, center);
    }
}

/// Builds the procedural life rule.
pub fn life_rule() -> (r: Rule<bool>)
    ensures
        r.wf(),
        is_life_rule(r),
{
    let shape = Shape { radius: 2 };
    let mut survive: Vec<bool> = Vec::new();
    let mut k: usize = 0;
    while k < 9
        invariant
            k <= 9,
            survive@.len() == k,
            forall|m: int| 0 <= m < k ==> (#[trigger] survive@[m]) == survives(m),
        decreases 9 - k,
    {
        survive.push(k == 2 || k == 3);
        k = k + 1;
    }
    let mut birth: Vec<bool> = Vec::new();
    let mut k: usize = 0;
    while k < 9
        invariant
            k <= 9,
            birth@.len() == k,
            forall|m: int| 0 <= m < k ==> (#[trigger] birth@[m]) == born(m),
        decreases 9 - k,
    {
        birth.push(k == 3);
        k = k + 1;
    }
    proof {
        assert(shape.side() == 3);
        assert(shape.size() == 9) by (nonlinear_arith)
            requires
                shape.side() == 3,
                shape.size() == shape.side() * shape.side(),
        ;
    }
    Rule::Threshold(ThresholdRule { shape, live: true, dead: false, survive, birth })
}

/// Builds the one-rule context that runs the life automaton procedurally.
pub fn gen_life_context() -> (r: RuleContext<bool>)
    ensures
        r.wf(),
        r.rules@.len() == 1,
        is_life_rule(r.rules@[0]),
{
    let mut ctx = RuleContext::with_capacity(1);
    ctx.with(life_rule());
    ctx
}

/// With a life context, the next generation at every coordinate is the
/// classic rule's output.
pub proof fn lemma_life_context_next(ctx: RuleContext<bool>, src: Field<bool>, x: int, y: int)
    requires
        ctx.rules@.len() == 1,
        is_life_rule(ctx.rules@[0]),
    ensures
        ctx.next_value(src, x, y) == life_next(src, x, y),
{
    lemma_life_rule_decide(ctx.rules@[0], src, x, y);
    ctx.lemma_first_match_wins(src, x, y);
}

/// The procedural life rule as a standalone function: reads the
/// neighborhood of `pos` in the frozen source and always yields the cell's
/// next value.
pub fn life(accessor: &Field<bool>, pos: Pos) -> (r: Option<Change<bool>>)
    requires
        accessor.wf(),
    ensures
        r == Some(Change::SetTo(life_next(*accessor, pos.x as int, pos.y as int))),
{
    let rule = life_rule();
    proof {
        lemma_life_rule_decide(rule, *accessor, pos.x as int, pos.y as int);
    }
    rule.evaluate(accessor, pos)
}

/// Whether `(x, y)` is one of the five seed cells the glider starts from.
pub open spec fn glider_seed(x: int, y: int) -> bool {
    ||| (x == 8 && y == 8)
    ||| (x == 9 && y == 8)
    ||| (x == 10 && y == 8)
    ||| (x == 10 && y == 9)
    ||| (x == 9 && y == 10)
}

/// Builds the starting field of the visualizer: all cells dead except the
/// five-cell glider seed.
pub fn glider_field(width: usize, height: usize) -> (f: Field<bool>)
    requires
        11 <= width <= MAX_DIM,
        11 <= height <= MAX_DIM,
    ensures
        f.wf(),
        f.width() == width,
        f.height() == height,
        forall|i: int, j: int| f.in_range(i, j) ==> #[trigger] f.at(i, j) == glider_seed(i, j),
{
    let mut f = Field::new(width, height, false);
    f.set(8, 8, true);
    f.set(9, 8, true);
    f.set(10, 8, true);
    f.set(10, 9, true);
    f.set(9, 10, true);
    proof {
        vstd::arithmetic::div_mod::lemma_small_mod(8nat, width as nat);
        vstd::arithmetic::div_mod::lemma_small_mod(9nat, width as nat);
        vstd::arithmetic::div_mod::lemma_small_mod(10nat, width as nat);
        vstd::arithmetic::div_mod::lemma_small_mod(8nat, height as nat);
        vstd::arithmetic::div_mod::lemma_small_mod(9nat, height as nat);
        vstd::arithmetic::div_mod::lemma_small_mod(10nat, height as nat);
    }
    f
}

/// The life shape is well formed, with side 3 and nine slots, and its
/// center offset sits at slot 4.
pub proof fn lemma_life_shape_size()
    ensures
        life_shape().wf(),
        life_shape().side() == 3,
        life_shape().size() == 9,
        life_shape().slot_of((Pos { x: 0, y: 0 })) == 4,
{
    let shape = life_shape();
    assert(shape.side() == 3);
    assert(shape.size() == 9) by (nonlinear_arith)
        requires
            shape.side() == 3,
            shape.size() == shape.side() * shape.side(),
    ;
}

/// Bit `i` of a 9-bit neighborhood pattern number.
pub open spec fn bit_of(n: u32, i: int) -> bool {
    (n >> (i as u32)) & 1 == 1
}

/// Number of set bits among the first `k` of a pattern number's bits.
pub open spec fn bit_count(n: u32, k: int) -> int
    decreases k,
{
    if k <= 0 {
        0
    } else {
        bit_count(n, k - 1) + (if bit_of(n, k - 1) {
            1int
        } else {
            0int
        })
    }
}

/// Slot `i` of the 3x3 neighborhood anchored at `(x, y)`, read as a bit.
pub open spec fn cell_bit(src: Field<bool>, x: int, y: int, i: int) -> u32 {
    if cell_at_slot(life_shape(), src, x, y, i) {
        1u32
    } else {
        0u32
    }
}

/// The 3x3 neighborhood anchored at `(x, y)` as a 9-bit pattern number,
/// slot `i` at bit `i`.
pub open spec fn encode_neighborhood(src: Field<bool>, x: int, y: int) -> u32 {
    cell_bit(src, x, y, 0) | (cell_bit(src, x, y, 1) << 1u32) | (cell_bit(src, x, y, 2) << 2u32)
        | (cell_bit(src, x, y, 3) << 3u32) | (cell_bit(src, x, y, 4) << 4u32) | (cell_bit(
        src,
        x,
        y,
        5,
    ) << 5u32) | (cell_bit(src, x, y, 6) << 6u32) | (cell_bit(src, x, y, 7) << 7u32) | (cell_bit(
        src,
        x,
        y,
        8,
    ) << 8u32)
}

/// The life output for the full 3x3 neighborhood written in a pattern
/// number: bit 4 is the cell itself, the remaining bits its neighbors.
pub open spec fn life_pattern_out(n: u32) -> bool {
    if bit_of(n, 4) {
        survives(bit_count(n, 9) - 1)
    } else {
        born(bit_count(n, 9))
    }
}

/// Recognizes rule `n` of the exhaustive declarative life table: the
/// pattern expecting exactly neighborhood `n`, changing the cell to the
/// life output for `n`.
pub open spec fn is_life_pattern_rule(r: Rule<bool>, n: u32) -> bool {
    match r {
        Rule::Pattern(p) => {
            &&& p.shape == life_shape()
            &&& p.expected@.len() == 9
            &&& (forall|i: int| 0 <= i < 9 ==> (#[trigger] p.expected@[i]) == bit_of(n, i))
            &&& p.change == Change::SetTo(life_pattern_out(n))
        },
        _ => false,
    }
}

/// Builds the exhaustive declarative life context: one pattern rule for
/// each of the 512 possible 3x3 boolean neighborhoods, in numeric order,
/// each mapping its neighborhood to the classic life output.
pub fn gen_exhaustive_life_context() -> (r: RuleContext<bool>)
    ensures
        r.wf(),
        r.rules@.len() == 512,
        forall|n: int| 0 <= n < 512 ==> is_life_pattern_rule(#[trigger] r.rules@[n], n as u32),
{
    let shape = Shape { radius: 2 };
    proof {
        lemma_life_shape_size();
    }
    let mut ctx = RuleContext::<bool>::with_capacity(512);
    let mut n: u32 = 0;
    while n < 512
        invariant
            n <= 512,
            ctx.wf(),
            ctx.rules@.len() == n,
            shape == life_shape(),
            shape.wf(),
            shape.size() == 9,
            forall|m: int| 0 <= m < n ==> is_life_pattern_rule(#[trigger] ctx.rules@[m], m as u32),
        decreases 512 - n,
    {
        let mut expected: Vec<bool> = Vec::new();
        let mut ones: u32 = 0;
        let mut i: usize = 0;
        while i < 9
            invariant
                i <= 9,
                n < 512,
                expected@.len() == i,
                ones <= i,
                ones == bit_count(n, i as int),
                forall|k: int| 0 <= k < i ==> (#[trigger] expected@[k]) == bit_of(n, k),
            decreases 9 - i,
        {
            let b = (n >> (i as u32)) & 1 == 1;
            proof {
                assert(b == bit_of(n, i as int));
            }
            expected.push(b);
            if b {
                ones = ones + 1;
            }
            i = i + 1;
        }
        let center = (n >> 4) & 1 == 1;
        let out = if center {
            ones == 3 || ones == 4
        } else {
            ones == 3
        };
        proof {
            assert(center == bit_of(n, 4));
            assert(out == life_pattern_out(n));
        }
        let rule = PatternRule { shape, expected, change: Change::SetTo(out) };
        proof {
            assert(is_life_pattern_rule(Rule::Pattern(rule), n));
        }
        ctx.with(Rule::Pattern(rule));
        n = n + 1;
    }
    ctx
}

/// The encoding reads back: the pattern number of a neighborhood is below
/// 512 and its bits are exactly the neighborhood's cells.
proof fn lemma_encode_bits(src: Field<bool>, x: int, y: int)
    ensures
        encode_neighborhood(src, x, y) < 512,
        forall|i: int| 0 <= i < 9 ==> #[trigger] bit_of(encode_neighborhood(src, x, y), i)
            == cell_at_slot(life_shape(), src, x, y, i),
{
    let c0 = cell_bit(src, x, y, 0);
    let c1 = cell_bit(src, x, y, 1);
    let c2 = cell_bit(src, x, y, 2);
    let c3 = cell_bit(src, x, y, 3);
    let c4 = cell_bit(src, x, y, 4);
    let c5 = cell_bit(src, x, y, 5);
    let c6 = cell_bit(src, x, y, 6);
    let c7 = cell_bit(src, x, y, 7);
    let c8 = cell_bit(src, x, y, 8);
    let e = encode_neighborhood(src, x, y);
    assert((c0 <= 1 && c1 <= 1 && c2 <= 1 && c3 <= 1 && c4 <= 1 && c5 <= 1 && c6 <= 1 && c7 <= 1
        && c8 <= 1 && e == (c0 | (c1 << 1u32) | (c2 << 2u32) | (c3 << 3u32) | (c4 << 4u32) | (c5
        << 5u32) | (c6 << 6u32) | (c7 << 7u32) | (c8 << 8u32))) ==> (e < 512 && ((e >> 0u32) & 1
        == c0) && ((e >> 1u32) & 1 == c1) && ((e >> 2u32) & 1 == c2) && ((e >> 3u32) & 1 == c3)
        && ((e >> 4u32) & 1 == c4) && ((e >> 5u32) & 1 == c5) && ((e >> 6u32) & 1 == c6) && ((e
        >> 7u32) & 1 == c7) && ((e >> 8u32) & 1 == c8))) by (bit_vector);
    assert forall|i: int| 0 <= i < 9 implies #[trigger] bit_of(e, i) == cell_at_slot(
        life_shape(),
        src,
        x,
        y,
        i,
    ) by {
        if i == 0 {
            assert(bit_of(e, 0) == ((e >> 0u32) & 1 == 1));
        } else if i == 1 {
            assert(bit_of(e, 1) == ((e >> 1u32) & 1 == 1));
        } else if i == 2 {
            assert(bit_of(e, 2) == ((e >> 2u32) & 1 == 1));
        } else if i == 3 {
            assert(bit_of(e, 3) == ((e >> 3u32) & 1 == 1));
        } else if i == 4 {
            assert(bit_of(e, 4) == ((e >> 4u32) & 1 == 1));
        } else if i == 5 {
            assert(bit_of(e, 5) == ((e >> 5u32) & 1 == 1));
        } else if i == 6 {
            assert(bit_of(e, 6) == ((e >> 6u32) & 1 == 1));
        } else if i == 7 {
            assert(bit_of(e, 7) == ((e >> 7u32) & 1 == 1));
        } else {
            assert(bit_of(e, 8) == ((e >> 8u32) & 1 == 1));
        }
    }
}

/// Two 9-bit numbers with the same nine bits are equal.
proof fn lemma_nine_bits_unique(a: u32, b: u32)
    requires
        a < 512,
        b < 512,
        forall|i: int| 0 <= i < 9 ==> #[trigger] bit_of(a, i) == bit_of(b, i),
    ensures
        a == b,
{
    assert(((a >> 0u32) & 1 == 1) == ((b >> 0u32) & 1 == 1)) by {
        assert(bit_of(a, 0) == bit_of(b, 0));
    }
    assert(((a >> 1u32) & 1 == 1) == ((b >> 1u32) & 1 == 1)) by {
        assert(bit_of(a, 1) == bit_of(b, 1));
    }
    assert(((a >> 2u32) & 1 == 1) == ((b >> 2u32) & 1 == 1)) by {
        assert(bit_of(a, 2) == bit_of(b, 2));
    }
    assert(((a >> 3u32) & 1 == 1) == ((b >> 3u32) & 1 == 1)) by {
        assert(bit_of(a, 3) == bit_of(b, 3));
    }
    assert(((a >> 4u32) & 1 == 1) == ((b >> 4u32) & 1 == 1)) by {
        assert(bit_of(a, 4) == bit_of(b, 4));
    }
    assert(((a >> 5u32) & 1 == 1) == ((b >> 5u32) & 1 == 1)) by {
        assert(bit_of(a, 5) == bit_of(b, 5));
    }
    assert(((a >> 6u32) & 1 == 1) == ((b >> 6u32) & 1 == 1)) by {
        assert(bit_of(a, 6) == bit_of(b, 6));
    }
    assert(((a >> 7u32) & 1 == 1) == ((b >> 7u32) & 1 == 1)) by {
        assert(bit_of(a, 7) == bit_of(b, 7));
    }
    assert(((a >> 8u32) & 1 == 1) == ((b >> 8u32) & 1 == 1)) by {
        assert(bit_of(a, 8) == bit_of(b, 8));
    }
    assert((a < 512 && b < 512 && (((a >> 0u32) & 1 == 1) == ((b >> 0u32) & 1 == 1)) && (((a
        >> 1u32) & 1 == 1) == ((b >> 1u32) & 1 == 1)) && (((a >> 2u32) & 1 == 1) == ((b >> 2u32)
        & 1 == 1)) && (((a >> 3u32) & 1 == 1) == ((b >> 3u32) & 1 == 1)) && (((a >> 4u32) & 1
        == 1) == ((b >> 4u32) & 1 == 1)) && (((a >> 5u32) & 1 == 1) == ((b >> 5u32) & 1 == 1))
        && (((a >> 6u32) & 1 == 1) == ((b >> 6u32) & 1 == 1)) && (((a >> 7u32) & 1 == 1) == ((b
        >> 7u32) & 1 == 1)) && (((a >> 8u32) & 1 == 1) == ((b >> 8u32) & 1 == 1))) ==> a == b)
        by (bit_vector);
}

/// Exhaustive rule set completeness: at any position of any source field,
/// exactly one rule of the exhaustive declarative table matches, namely the
/// rule indexed by the neighborhood's own pattern number; no coordinate
/// ever falls through unmatched.
pub proof fn lemma_exhaustive_exactly_one(
    ctx: RuleContext<bool>,
    src: Field<bool>,
    x: int,
    y: int,
)
    requires
        ctx.rules@.len() == 512,
        forall|n: int| 0 <= n < 512 ==> is_life_pattern_rule(#[trigger] ctx.rules@[n], n as u32),
    ensures
        0 <= encode_neighborhood(src, x, y) < 512,
        ctx.rules@[encode_neighborhood(src, x, y) as int].decide(src, x, y) is Some,
        forall|m: int|
            0 <= m < 512 && m != encode_neighborhood(src, x, y) as int ==> (
            #[trigger] ctx.rules@[m]).decide(src, x, y) is None,
{
    lemma_life_shape_size();
    lemma_encode_bits(src, x, y);
    let eu = encode_neighborhood(src, x, y);
    let e = eu as int;
    assert(is_life_pattern_rule(ctx.rules@[e], e as u32));
    match ctx.rules@[e] {
        Rule::Pattern(pe) => {
            assert forall|i: int| 0 <= i < pe.shape.size() implies #[trigger] cell_at_slot(
                pe.shape,
                src,
                x,
                y,
                i,
            ) == pe.expected@[i] by {
                assert(bit_of(eu, i) == cell_at_slot(life_shape(), src, x, y, i));
            }
            assert(pattern_matches(pe, src, x, y));
        },
        _ => {},
    }
    assert forall|m: int| 0 <= m < 512 && m != e implies (#[trigger] ctx.rules@[m]).decide(
        src,
        x,
        y,
    ) is None by {
        assert(is_life_pattern_rule(ctx.rules@[m], m as u32));
        match ctx.rules@[m] {
            Rule::Pattern(pm) => {
                if pattern_matches(pm, src, x, y) {
                    assert forall|i: int| 0 <= i < 9 implies #[trigger] bit_of(m as u32, i)
                        == bit_of(eu, i) by {
                        assert(cell_at_slot(pm.shape, src, x, y, i) == pm.expected@[i]);
                        assert(bit_of(eu, i) == cell_at_slot(life_shape(), src, x, y, i));
                    }
                    lemma_nine_bits_unique(m as u32, eu);
                    assert(false);
                }
            },
            _ => {},
        }
    }
}

/// A neighborhood's bit count equals its live-cell count, prefix by
/// prefix, once the bits are known to read back the cells.
proof fn lemma_bit_count_eq_count(src: Field<bool>, x: int, y: int, e: u32, k: int)
    requires
        0 <= k <= 9,
        forall|i: int| 0 <= i < 9 ==> #[trigger] bit_of(e, i) == cell_at_slot(
            life_shape(),
            src,
            x,
            y,
            i,
        ),
    ensures
        bit_count(e, k) == count_matching(life_shape(), src, x, y, true, k),
    decreases k,
{
    if k > 0 {
        lemma_bit_count_eq_count(src, x, y, e, k - 1);
    }
}

/// The declarative exhaustive table and the procedural counting rule have
/// identical observable tick behavior: at every coordinate of every source
/// field, the table's next value is the classic life output.
pub proof fn lemma_exhaustive_context_next(
    ctx: RuleContext<bool>,
    src: Field<bool>,
    x: int,
    y: int,
)
    requires
        ctx.rules@.len() == 512,
        forall|n: int| 0 <= n < 512 ==> is_life_pattern_rule(#[trigger] ctx.rules@[n], n as u32),
    ensures
        ctx.next_value(src, x, y) == life_next(src, x, y),
{
    lemma_life_shape_size();
    lemma_exhaustive_exactly_one(ctx, src, x, y);
    lemma_encode_bits(src, x, y);
    let eu = encode_neighborhood(src, x, y);
    let e = eu as int;
    ctx.lemma_decide_skip(src, x, y, 0, e);
    lemma_bit_count_eq_count(src, x, y, eu, 9);
    lemma_center_slot(life_shape(), src, x, y);
    assert(bit_of(eu, 4) == src.at(x, y));
    assert(ctx.decide(src, x, y) == ctx.rules@[e].decide(src, x, y));
}

} // verus!
