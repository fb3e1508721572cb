use automata::field::Field;
use automata::life::{gen_exhaustive_life_context, gen_life_context, glider_field, life};
use automata::pos::Pos;
use automata::rule::Change;

fn live_cells(f: &Field<bool>) -> Vec<(i32, i32)> {
    let (w, h) = f.dims();
    let mut out = Vec::new();
    for x in 0..w as i32 {
        for y in 0..h as i32 {
            if f.get(x, y) {
                out.push((x, y));
            }
        }
    }
    out
}

#[test]
fn glider_seed_cells() {
    let f = glider_field(16, 16);
    assert_eq!(f.dims(), (16, 16));
    assert_eq!(
        live_cells(&f),
        vec![(8, 8), (9, 8), (9, 10), (10, 8), (10, 9)]
    );
}

#[test]
fn glider_first_generation() {
    let mut f = glider_field(16, 16);
    let ctx = gen_life_context();
    f.tick(&ctx);
    assert_eq!(
        live_cells(&f),
        vec![(8, 9), (9, 7), (9, 8), (10, 8), (10, 9)]
    );
}

#[test]
fn glider_travels_one_diagonal_step_in_four_ticks() {
    let mut f = glider_field(16, 16);
    let ctx = gen_life_context();
    for _ in 0..4 {
        f.tick(&ctx);
    }
    // After one full period the glider is the seed translated by (+1, -1).
    let moved: Vec<(i32, i32)> = {
        let mut v: Vec<(i32, i32)> = [(8, 8), (9, 8), (10, 8), (10, 9), (9, 10)]
            .iter()
            .map(|&(x, y)| (x + 1, y - 1))
            .collect();
        v.sort();
        v
    };
    assert_eq!(live_cells(&f), moved);
}

#[test]
fn glider_wraps_around_the_torus() {
    // Sixty-four ticks move the glider sixteen diagonal steps: a full lap
    // around the 16x16 torus, back onto the seed cells.
    let mut f = glider_field(16, 16);
    let ctx = gen_life_context();
    for _ in 0..64 {
        f.tick(&ctx);
    }
    assert_eq!(
        live_cells(&f),
        vec![(8, 8), (9, 8), (9, 10), (10, 8), (10, 9)]
    );
}

#[test]
fn tick_is_deterministic() {
    let ctx_a = gen_life_context();
    let ctx_b = gen_life_context();
    let mut a = glider_field(16, 16);
    let mut b = glider_field(16, 16);
    for _ in 0..5 {
        a.tick(&ctx_a);
        b.tick(&ctx_b);
        assert_eq!(live_cells(&a), live_cells(&b));
    }
}

#[test]
fn life_function_agrees_with_context() {
    let f = glider_field(16, 16);
    let mut g = f.duplicate();
    let ctx = gen_life_context();
    g.tick(&ctx);
    for x in 0..16 {
        for y in 0..16 {
            match life(&f, Pos::new(x, y)) {
                Some(Change::SetTo(v)) => assert_eq!(v, g.get(x, y)),
                _ => panic!("the life rule always yields an explicit value"),
            }
        }
    }
}

#[test]
fn exhaustive_context_has_512_rules() {
    let ctx = gen_exhaustive_life_context();
    assert_eq!(ctx.rules.len(), 512);
}

#[test]
fn exhaustive_context_matches_exactly_one_rule() {
    let ctx = gen_exhaustive_life_context();
    let mut f = Field::new(5, 5, false);
    f.set(1, 1, true);
    f.set(2, 1, true);
    f.set(2, 2, true);
    for x in 0..5 {
        for y in 0..5 {
            let mut matches = 0;
            for rule in &ctx.rules {
                if rule.evaluate(&f, Pos::new(x, y)).is_some() {
                    matches += 1;
                }
            }
            assert_eq!(matches, 1, "exactly one pattern covers ({x}, {y})");
        }
    }
}

#[test]
fn exhaustive_and_procedural_contexts_agree() {
    let declarative = gen_exhaustive_life_context();
    let procedural = gen_life_context();
    let mut a = glider_field(16, 16);
    let mut b = glider_field(16, 16);
    for _ in 0..4 {
        a.tick(&declarative);
        b.tick(&procedural);
        assert_eq!(live_cells(&a), live_cells(&b));
    }
}

#[test]
fn still_life_and_oscillator() {
    let ctx = gen_life_context();
    // Block: a 2x2 still life.
    let mut block = Field::new(8, 8, false);
    block.set(1, 1, true);
    block.set(1, 2, true);
    block.set(2, 1, true);
    block.set(2, 2, true);
    let before = live_cells(&block);
    block.tick(&ctx);
    assert_eq!(live_cells(&block), before);

    // Blinker: a period-2 oscillator.
    let mut blinker = Field::new(8, 8, false);
    blinker.set(2, 1, true);
    blinker.set(2, 2, true);
    blinker.set(2, 3, true);
    blinker.tick(&ctx);
    assert_eq!(live_cells(&blinker), vec![(1, 2), (2, 2), (3, 2)]);
    blinker.tick(&ctx);
    assert_eq!(live_cells(&blinker), vec![(2, 1), (2, 2), (2, 3)]);
}
