use automata::color::gen_test;
use automata::field::Field;
use automata::material::{Material, MaterialField};
use automata::pos::Pos;
use automata::rule::{Change, PatternRule, Rule, RuleContext, ThresholdRule};
use automata::shape::Shape;

#[test]
fn shape_new_rejects_zero_radius() {
    assert!(Shape::new(0).is_none());
    assert!(Shape::new(1).is_some());
    assert!(Shape::new(2).is_some());
    assert!(Shape::new(usize::MAX).is_none());
}

#[test]
fn shape_sizes() {
    assert_eq!(Shape::new(1).unwrap().neighborhood_size(), 1);
    assert_eq!(Shape::new(2).unwrap().neighborhood_size(), 9);
    assert_eq!(Shape::new(3).unwrap().neighborhood_size(), 25);
}

#[test]
fn shape_bijection_roundtrip_indices() {
    for radius in 1..=3usize {
        let shape = Shape::new(radius).unwrap();
        let n = shape.neighborhood_size();
        for i in 0..n {
            let off = shape.offset_of(i).expect("valid index has an offset");
            let back = shape.index_of(off).expect("recovered offset is in window");
            assert_eq!(back, i);
        }
        assert!(shape.offset_of(n).is_none());
    }
}

#[test]
fn shape_bijection_roundtrip_offsets() {
    for radius in 1..=3usize {
        let shape = Shape::new(radius).unwrap();
        let r = radius as i32;
        for x in -(r - 1)..=(r - 1) {
            for y in -(r - 1)..=(r - 1) {
                let p = Pos::new(x, y);
                let i = shape.index_of(p).expect("in-window offset has an index");
                assert!(i < shape.neighborhood_size());
                assert_eq!(shape.offset_of(i), Some(p));
            }
        }
        assert!(shape.index_of(Pos::new(r, 0)).is_none());
        assert!(shape.index_of(Pos::new(0, -r)).is_none());
    }
}

#[test]
fn shape_square_slot_order() {
    // Radius 2: row-major enumeration of the 3x3 square, top-left first.
    let shape = Shape::new(2).unwrap();
    assert_eq!(shape.offset_of(0), Some(Pos::new(-1, -1)));
    assert_eq!(shape.offset_of(1), Some(Pos::new(0, -1)));
    assert_eq!(shape.offset_of(2), Some(Pos::new(1, -1)));
    assert_eq!(shape.offset_of(4), Some(Pos::new(0, 0)));
    assert_eq!(shape.offset_of(8), Some(Pos::new(1, 1)));
    assert_eq!(shape.index_of(Pos::new(1, 0)), Some(5));
}

fn small_field() -> Field<u8> {
    // 4 columns, 3 rows; cell (x, y) holds 10*x + y.
    let mut cells = Vec::new();
    for x in 0..4u8 {
        for y in 0..3u8 {
            cells.push(10 * x + y);
        }
    }
    Field::from_cells(4, 3, cells).unwrap()
}

#[test]
fn from_cells_rejects_bad_sizes() {
    assert!(Field::from_cells(4, 3, vec![0u8; 11]).is_none());
    assert!(Field::from_cells(4, 3, vec![0u8; 13]).is_none());
    assert!(Field::from_cells(0, 3, vec![0u8; 0]).is_none());
    assert!(Field::from_cells(4, 3, vec![0u8; 12]).is_some());
}

#[test]
fn get_reads_column_major_seed() {
    let f = small_field();
    assert_eq!(f.dims(), (4, 3));
    for x in 0..4 {
        for y in 0..3 {
            assert_eq!(f.get(x, y), (10 * x + y) as u8);
        }
    }
}

#[test]
fn wraparound_totality() {
    let f = small_field();
    for x in 0..4i32 {
        for y in 0..3i32 {
            for k in -3..=3i32 {
                for m in -3..=3i32 {
                    assert_eq!(f.get(x + 4 * k, y + 3 * m), f.get(x, y));
                }
            }
        }
    }
}

#[test]
fn set_wraps_negative_coordinates() {
    let mut f = small_field();
    f.set(-1, -1, 99);
    assert_eq!(f.get(3, 2), 99);
    f.set(4, 3, 77);
    assert_eq!(f.get(0, 0), 77);
}

#[test]
fn duplicate_is_equal_and_independent() {
    let f = small_field();
    let mut g = f.duplicate();
    assert_eq!(g.get(2, 1), f.get(2, 1));
    g.set(2, 1, 55);
    assert_eq!(g.get(2, 1), 55);
    assert_eq!(f.get(2, 1), 21);
}

#[test]
fn render_exact_bytes() {
    let mut f = Field::new(2, 2, false);
    f.set(0, 0, true);
    let bytes = f.render();
    assert_eq!(
        bytes,
        vec![
            0xFF, 0xFF, 0xFF, 0xFF, // (0, 0) live
            0x00, 0x00, 0x00, 0xFF, // (0, 1) dead
            0x00, 0x00, 0x00, 0xFF, // (1, 0) dead
            0x00, 0x00, 0x00, 0xFF, // (1, 1) dead
        ]
    );
}

#[test]
fn gen_test_gradient_bytes() {
    let card = gen_test();
    assert_eq!(card.dims(), (16, 16));
    assert_eq!(card.get(3, 2), [48, 32, 0, 0xFF]);
    let bytes = card.to_bytes();
    assert_eq!(bytes.len(), 16 * 16 * 4);
    let base = 4 * (3 * 16 + 2);
    assert_eq!(&bytes[base..base + 4], &[48, 32, 0, 0xFF]);
    assert_eq!(&bytes[0..4], &[0, 0, 0, 0xFF]);
}

#[test]
fn pattern_rule_new_rejects_wrong_length() {
    let shape = Shape::new(2).unwrap();
    assert!(PatternRule::new(shape, vec![false; 8], Change::SetTo(true)).is_none());
    assert!(PatternRule::new(shape, vec![false; 9], Change::SetTo(true)).is_some());
    let bad = Shape { radius: 0 };
    assert!(PatternRule::new(bad, vec![false; 0], Change::SetTo(true)).is_none());
}

#[test]
fn threshold_rule_new_rejects_short_tables() {
    let shape = Shape::new(2).unwrap();
    assert!(ThresholdRule::new(shape, true, false, vec![false; 9], vec![false; 8]).is_none());
    assert!(ThresholdRule::new(shape, true, false, vec![false; 9], vec![false; 9]).is_some());
}

#[test]
fn empty_context_carries_everything_forward() {
    let mut f = small_field();
    let ctx = RuleContext::new();
    f.tick(&ctx);
    for x in 0..4 {
        for y in 0..3 {
            assert_eq!(f.get(x, y), (10 * x + y) as u8);
        }
    }
}

#[test]
fn unmatched_cells_keep_their_value() {
    // The one-slot pattern matches only live cells and kills them; dead
    // cells fall through unmatched and are carried forward.
    let mut f = Field::new(3, 1, false);
    f.set(1, 0, true);
    let shape = Shape::new(1).unwrap();
    let kill = PatternRule::new(shape, vec![true], Change::SetTo(false)).unwrap();
    let mut ctx = RuleContext::new();
    ctx.with(Rule::Pattern(kill));
    f.tick(&ctx);
    assert_eq!(
        (f.get(0, 0), f.get(1, 0), f.get(2, 0)),
        (false, false, false)
    );
}

#[test]
fn first_match_wins() {
    // A catch-all counting rule that turns every cell dead stands before a
    // pattern rule that would turn every dead cell live: the second rule
    // must never fire.
    let shape = Shape::new(2).unwrap();
    let all_dead =
        ThresholdRule::new(shape, true, false, vec![false; 9], vec![false; 9]).unwrap();
    let one = Shape::new(1).unwrap();
    let raise = PatternRule::new(one, vec![false], Change::SetTo(true)).unwrap();

    let mut f = Field::new(4, 4, false);
    f.set(1, 1, true);
    let mut catch_all_first = RuleContext::new();
    catch_all_first.with(Rule::Threshold(all_dead.clone()));
    catch_all_first.with(Rule::Pattern(raise.clone()));
    f.tick(&catch_all_first);
    for x in 0..4 {
        for y in 0..4 {
            assert!(!f.get(x, y));
        }
    }

    // Reversed order: the raising rule fires on the dead cells.
    let mut g = Field::new(4, 4, false);
    g.set(1, 1, true);
    let mut specific_first = RuleContext::new();
    specific_first.with(Rule::Pattern(raise));
    specific_first.with(Rule::Threshold(all_dead));
    g.tick(&specific_first);
    assert!(g.get(0, 0));
    assert!(!g.get(1, 1));
}

#[test]
fn clone_rule_sees_only_pre_tick_values() {
    // Scan order visits (0, 0) first and kills it; the copy rule at (1, 0)
    // must still read the pre-tick value of (0, 0), never the value already
    // written into the target earlier in the same tick.
    let one = Shape::new(1).unwrap();
    let kill = PatternRule::new(one, vec![true], Change::SetTo(false)).unwrap();
    let copy_origin =
        PatternRule::new(one, vec![false], Change::CloneFrom(Pos::new(0, 0))).unwrap();
    let mut ctx = RuleContext::new();
    ctx.with(Rule::Pattern(kill));
    ctx.with(Rule::Pattern(copy_origin));

    let mut f = Field::new(2, 1, false);
    f.set(0, 0, true);
    f.tick(&ctx);
    assert!(!f.get(0, 0), "the live origin was killed");
    assert!(
        f.get(1, 0),
        "the copy read the frozen source, not the in-progress target"
    );
}

#[test]
fn context_apply_writes_one_cell() {
    let one = Shape::new(1).unwrap();
    let raise = PatternRule::new(one, vec![false], Change::SetTo(true)).unwrap();
    let mut ctx = RuleContext::with_capacity(1);
    ctx.with(Rule::Pattern(raise));
    let source = Field::new(3, 3, false);
    let mut target = source.duplicate();
    ctx.apply(&source, &mut target, Pos::new(-2, 4));
    for x in 0..3 {
        for y in 0..3 {
            assert_eq!(target.get(x, y), x == 1 && y == 1, "only (1, 1) was raised");
        }
    }
}

#[test]
fn material_field_ticks() {
    let stone = Material { id: 1 };
    let air = Material { id: 0 };
    let mut f: MaterialField = Field::new(3, 3, air);
    f.set(1, 1, stone);
    // Every air cell next to exactly one stone cell turns to stone.
    let shape = Shape::new(2).unwrap();
    let mut survive = vec![false; 9];
    survive[0] = true; // lone stone stays (no stone neighbors)
    let mut birth = vec![false; 9];
    birth[1] = true;
    let grow = ThresholdRule::new(shape, stone, air, survive, birth).unwrap();
    let mut ctx = RuleContext::new();
    ctx.with(Rule::Threshold(grow));
    f.tick(&ctx);
    for x in 0..3 {
        for y in 0..3 {
            assert_eq!(f.get(x, y).id, 1, "every cell grew to stone at ({x}, {y})");
        }
    }
}
