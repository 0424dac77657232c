//! The predator: kinematics, steering contributions, eating, lifecycle
//! and the genetic algorithm. Coordinates are steps of 1/1000 plane unit.

use torus_flock::animal::Animal;
use torus_flock::cat::Cat;
use torus_flock::config::Config;
use torus_flock::pvector::PVector;
use torus_flock::rat::Rat;
use torus_flock::rng::{IdGen, RandomSource};
use torus_flock::steering::{calculate_direction, collect_near_pvectors};
use torus_flock::world::{build_cat_tree, build_rat_tree};

const WIDTH: i64 = 640_000;
const HEIGHT: i64 = 480_000;
const ENERGY_MAX: u64 = 1000;
const EAT_ENERGY: u64 = 300;
const MUTATE_ABS: i64 = 10;
const EATEN_RADIOUS: i64 = 1_000;
const CHASE_RADIOUS: i64 = 10_000;
const SEPARATE_RADIOUS: i64 = 5_000;
const ALIGN_RADIOUS: i64 = 10_000;
const COHENSION_RADIOUS: i64 = 15_000;
const CHASE_MAX: i64 = 480;
const SEPARATE_MAX: i64 = 480;
const ALIGN_MAX: i64 = 480;
const COHENSION_MAX: i64 = 480;

fn cfg() -> Config {
    Config::standard()
}

fn make_cat(id: u64, x: i64, y: i64) -> Cat {
    Cat {
        animal: Animal {
            id,
            position: PVector { x, y },
            velocity: PVector { x: 1_000, y: 0 },
            speed: 1_000,
            energy: ENERGY_MAX,
        },
        chase_weight: 5,
        separate_weight: 5,
        align_weight: 5,
        cohension_weight: 5,
        ate: 0,
    }
}

fn make_rat(id: u64, x: i64, y: i64) -> Rat {
    Rat {
        animal: Animal {
            id,
            position: PVector { x, y },
            velocity: PVector { x: 500, y: 0 },
            speed: 500,
            energy: ENERGY_MAX,
        },
    }
}

fn setpos(cat: &mut Cat, p: PVector) {
    cat.animal.position = p;
}

#[test]
fn cat_new_test() {
    let c = cfg();
    let mut rng = RandomSource::new(42);
    let mut ids = IdGen::new();
    for _ in 0..100 {
        let cat = Cat::new(&c, &mut rng, &mut ids);
        assert!(0 <= cat.position().x && cat.position().x < WIDTH);
        assert!(0 <= cat.position().y && cat.position().y < HEIGHT);
        let vel = cat.as_velocity();
        assert!(vel.x.abs() <= 1_000 && vel.y.abs() <= 1_000);
        // the velocity length equals the cruising speed up to integer
        // rounding: 1.0 plane unit per tick, i.e. 1000 steps
        let l2 = vel.x * vel.x + vel.y * vel.y;
        assert!(l2 >= 1_000_000 - 4_000);
        assert!(l2 * 1_000 <= 1_000_000 * 1_002);
        assert!((vel.len() - 1_000).abs() <= 3);
        assert!(0 <= cat.chase_weight && cat.chase_weight < CHASE_MAX);
        assert!(0 <= cat.separate_weight && cat.separate_weight < SEPARATE_MAX);
        assert!(0 <= cat.align_weight && cat.align_weight < ALIGN_MAX);
        assert!(0 <= cat.cohension_weight && cat.cohension_weight < COHENSION_MAX);
        assert_eq!(cat.animal.energy, ENERGY_MAX);
        assert_eq!(cat.ate, 0);
    }
}

#[test]
fn cat_move_self_test() {
    let c = cfg();
    let x = 50_000;
    let y = 100_000;
    let vx = 4_000;
    let vy = 2_000;
    let energy = 100;
    let mut cat = make_cat(1, x, y);
    cat = cat.apply_velocity(&PVector { x: vx, y: vy }, &c);
    cat.animal.energy = energy;

    let moved = cat.move_self(&c);
    assert_eq!(energy - 1, moved.animal.energy);
    // staying inside the plane
    assert_eq!(moved.position(), PVector { x: x + vx, y: y + vy });

    // spilling over the right edge
    cat.animal.position.x = WIDTH - vx + 1_000;
    assert_eq!(1_000, cat.move_self(&c).position().x);

    // spilling over the left edge
    cat.animal.velocity.x = -vx;
    cat.animal.position.x = 1_000;
    assert_eq!(WIDTH - vx + 1_000, cat.move_self(&c).position().x);

    // spilling over the bottom edge
    cat.animal.position.y = HEIGHT - vy + 1_000;
    assert_eq!(1_000, cat.move_self(&c).position().y);

    // spilling over the top edge
    cat.animal.velocity.y = -vy;
    cat.animal.position.y = 1_000;
    assert_eq!(HEIGHT - vy + 1_000, cat.move_self(&c).position().y);
}

#[test]
fn cat_as_velocity_test() {
    let cat = make_cat(1, 10_000, 10_000);
    let vel = cat.as_velocity();
    assert_eq!(cat.animal.velocity.x, vel.x);
    assert_eq!(cat.animal.velocity.y, vel.y);
}

#[test]
fn cat_apply_velocity_test() {
    let c = cfg();
    let vel = PVector { x: 100_000, y: 200_000 };
    let cat = make_cat(1, 10_000, 10_000).apply_velocity(&vel, &c);
    assert_eq!(cat.animal.velocity.x, vel.x);
    assert_eq!(cat.animal.velocity.y, vel.y);
}

#[test]
fn cat_within_test() {
    let c = cfg();
    let cat1 = make_cat(1, 100_000, 100_000);
    let mut cat2 = make_cat(2, 0, 0);
    let diff = 1_000;
    setpos(&mut cat2, PVector { x: 100_000 + diff, y: 100_000 });
    assert!(cat1.is_within(&cat2.animal, diff + 500, &c));
    assert!(!cat1.is_within(&cat2.animal, diff - 500, &c));
}

#[test]
fn cat_offset_test() {
    let c = cfg();
    let cat1 = make_cat(1, 100_000, 100_000);
    let mut cat2 = make_cat(2, 0, 0);
    setpos(&mut cat2, PVector { x: 101_000, y: 102_000 });
    let offset = cat1.offset(&cat2.animal, &c);
    assert_eq!(offset.x, 1_000);
    assert_eq!(offset.y, 2_000);
}

#[test]
fn cat_postion_test() {
    let cat = make_cat(1, 10_000, 20_000);
    let pos = cat.position();
    assert_eq!(cat.position(), pos);
}

#[test]
fn cat_id_test() {
    let cat = make_cat(9, 10_000, 20_000);
    assert_eq!(cat.animal.id, cat.id());
}

#[test]
fn cat_is_same_test() {
    let cat1 = make_cat(1, 10_000, 20_000);
    let cat2 = make_cat(2, 10_000, 20_000);
    assert!(cat1.is_same(&cat1));
    assert!(!cat1.is_same(&cat2));
}

#[test]
fn cat_descendant_test() {
    let c = cfg();
    let mut rng = RandomSource::new(7);
    let mut ids = IdGen::new();
    let mut parent = make_cat(1, 10_000, 20_000);
    parent.chase_weight = 100;
    parent.separate_weight = 200;
    parent.align_weight = 300;
    parent.cohension_weight = 400;
    for _ in 0..100 {
        let child = parent.descendant(&c, &mut rng, &mut ids);
        assert!((parent.chase_weight - child.chase_weight).abs() <= MUTATE_ABS);
        assert!((parent.separate_weight - child.separate_weight).abs() <= MUTATE_ABS);
        assert!((parent.align_weight - child.align_weight).abs() <= MUTATE_ABS);
        assert!((parent.cohension_weight - child.cohension_weight).abs() <= MUTATE_ABS);
        assert_eq!(child.ate, 0);
        assert_eq!(child.animal.energy, ENERGY_MAX);
    }
}

#[test]
fn cat_mutate_bound() {
    let c = cfg();
    let mut rng = RandomSource::new(11);
    for w in [0i64, 3, 240, 475, 480] {
        for _ in 0..100 {
            let r = Cat::mutate(w, 480, c.mutate_abs, &mut rng);
            let lo = if w - MUTATE_ABS > 0 { w - MUTATE_ABS } else { 0 };
            let hi = if w + MUTATE_ABS < 480 { w + MUTATE_ABS } else { 480 };
            assert!(lo <= r && r <= hi);
        }
    }
}

#[test]
fn cat_life_manage_test() {
    let c = cfg();
    let mut rng = RandomSource::new(3);
    let mut ids = IdGen::new();
    // everyone dead: everyone dropped
    let mut dead = make_cat(1, 10_000, 20_000);
    dead.animal.energy = 0;
    let dead_cats: Vec<Cat> = vec![dead; 100];
    let expect_none = Cat::life_manage(&dead_cats, &c, &mut rng, &mut ids);
    assert_eq!(expect_none.len(), 0);

    // everyone alive: descendants appear at a fixed low rate, so the
    // population can only grow
    let mut all_alive: Vec<Cat> = Vec::with_capacity(100000);
    for i in 0..100000u64 {
        all_alive.push(make_cat(i, (i % 600) as i64 * 1_000, (i % 400) as i64 * 1_000));
    }
    let more_than_before = Cat::life_manage(&all_alive, &c, &mut rng, &mut ids);
    assert!(more_than_before.len() > 100000);
}

#[test]
fn cat_calclate_direction_test() {
    let c = cfg();
    let dx = 600;
    let dy = 800;
    let cat = make_cat(1, 100_000, 100_000);
    let other = make_cat(2, 100_000 + dx, 100_000 + dy);
    let arg: Vec<_> = (0..100).map(|_| other.as_snap()).collect();
    let result = calculate_direction(&cat.position(), &arg, &c);
    assert_eq!(dx, result.x);
    assert_eq!(dy, result.y);
}

#[test]
fn cat_collect_near_pvectors_test() {
    let c = cfg();
    let cat = make_cat(1, 100_000, 100_000);
    let diff = 1_000;
    // out of reach: the diagonal distance exceeds the radius
    let mut others = Vec::new();
    for i in 0..100u64 {
        let mut o = make_cat(2 + i, 100_000 + diff, 100_000 + diff);
        o.animal.id = 2 + i;
        others.push(o);
    }
    let tree = build_cat_tree(&others, &c);
    let expect_none = collect_near_pvectors(&tree, cat.id(), &cat.position(), 1_000, &c);
    assert_eq!(expect_none.len(), 0);

    // all within the radius
    let not_dicrease = collect_near_pvectors(&tree, cat.id(), &cat.position(), 2_000, &c);
    assert_eq!(not_dicrease.len(), 100);
}

#[test]
fn add_velocity() {
    let c = cfg();
    let x = 600;
    let y = 800;
    let other = make_cat(2, 100_000, 100_000).apply_velocity(&PVector { x, y }, &c);
    let cats: Vec<_> = (0..100).map(|_| other.as_snap()).collect();
    let ret = torus_flock::steering::add_velocity(&cats, &c);
    assert_eq!(x, ret.x);
    assert_eq!(y, ret.y);
}

#[test]
fn cat_eat_test() {
    let c = cfg();
    let rat = make_rat(1000, 100_000, 100_000);
    let eaten_diff = EATEN_RADIOUS / 2;
    let mut cat = make_cat(1, 100_000 + eaten_diff, 100_000 + eaten_diff);
    let eaten: Vec<Rat> = (0..100)
        .map(|i| {
            let mut r = rat;
            r.animal.id = 1000 + i;
            r
        })
        .collect();
    let tree = build_rat_tree(&eaten, &c);
    let result = cat.eat(&tree, &c);
    assert_eq!(cat.animal.energy + EAT_ENERGY, result.animal.energy);
    assert_eq!(result.ate, 1);

    let not_eat_diff = EATEN_RADIOUS;
    setpos(&mut cat, PVector { x: 100_000 + not_eat_diff, y: 100_000 + not_eat_diff });
    let not_eat = cat.eat(&tree, &c);
    assert_eq!(cat.animal.energy, not_eat.animal.energy);
    assert_eq!(not_eat.ate, 0);
}

#[test]
fn cat_chase_vector_test() {
    let c = cfg();
    let rat = make_rat(1000, 100_000, 100_000);
    let chased_diff = CHASE_RADIOUS / 2;
    let dx = 600;
    let dy = 800;
    // the cat sits so that the offset toward the prey is (0.6, 0.8) of
    // half the chase radius
    let mut cat = make_cat(
        1,
        100_000 - dx * chased_diff / 1_000,
        100_000 - dy * chased_diff / 1_000,
    );
    let chased: Vec<Rat> = (0..100)
        .map(|i| {
            let mut r = rat;
            r.animal.id = 1000 + i;
            r
        })
        .collect();
    let tree = build_rat_tree(&chased, &c);
    let result = cat.chase_vector(&tree, &c);
    assert_eq!(dx * cat.chase_weight, result.x);
    assert_eq!(dy * cat.chase_weight, result.y);

    // at the full chase radius nothing is strictly within it
    let not_chase_diff = CHASE_RADIOUS;
    setpos(
        &mut cat,
        PVector {
            x: 100_000 - 600 * not_chase_diff / 1_000,
            y: 100_000 - 800 * not_chase_diff / 1_000,
        },
    );
    let not_chase = cat.chase_vector(&tree, &c);
    assert_eq!(not_chase.x, 0);
    assert_eq!(not_chase.y, 0);
}

#[test]
fn cat_separate_same_test() {
    let c = cfg();
    let other = make_cat(1000, 100_000, 100_000);
    let separate_diff = SEPARATE_RADIOUS / 2;
    let x = 600;
    let y = 800;
    let mut cat = make_cat(
        1,
        100_000 + x * separate_diff / 1_000,
        100_000 + y * separate_diff / 1_000,
    );
    let others: Vec<Cat> = (0..100)
        .map(|i| {
            let mut o = other;
            o.animal.id = 1000 + i;
            o
        })
        .collect();
    let tree = build_cat_tree(&others, &c);
    let result = cat.separate_same(&tree, &c);
    assert_eq!(x * cat.separate_weight, result.x);
    assert_eq!(y * cat.separate_weight, result.y);

    let not_separate_diff = SEPARATE_RADIOUS;
    setpos(
        &mut cat,
        PVector { x: 100_000 + not_separate_diff, y: 100_000 + not_separate_diff },
    );
    let not_separate = cat.separate_same(&tree, &c);
    assert_eq!(not_separate.x, 0);
    assert_eq!(not_separate.y, 0);
}

#[test]
fn cat_align_test() {
    let c = cfg();
    let align_diff = ALIGN_RADIOUS / 2;
    let x = 600;
    let y = 800;
    let other = make_cat(1000, 100_000, 100_000).apply_velocity(&PVector { x, y }, &c);
    let mut cat = make_cat(1, 100_000 - align_diff, 100_000 - align_diff);
    let others: Vec<Cat> = (0..100)
        .map(|i| {
            let mut o = other;
            o.animal.id = 1000 + i;
            o
        })
        .collect();
    let tree = build_cat_tree(&others, &c);
    let result = cat.align(&tree, &c);
    assert_eq!(x * cat.align_weight, result.x);
    assert_eq!(y * cat.align_weight, result.y);

    let not_align_diff = ALIGN_RADIOUS;
    setpos(&mut cat, PVector { x: 100_000 - not_align_diff, y: 100_000 - not_align_diff });
    let not_align = cat.align(&tree, &c);
    assert_eq!(not_align.x, 0);
    assert_eq!(not_align.y, 0);
}

#[test]
fn cat_cohension_test() {
    let c = cfg();
    let other = make_cat(1000, 100_000, 100_000);
    let cohension_diff = COHENSION_RADIOUS / 2;
    let x = 600;
    let y = 800;
    let mut cat = make_cat(
        1,
        100_000 - x * cohension_diff / 1_000,
        100_000 - y * cohension_diff / 1_000,
    );
    let others: Vec<Cat> = (0..100)
        .map(|i| {
            let mut o = other;
            o.animal.id = 1000 + i;
            o
        })
        .collect();
    let tree = build_cat_tree(&others, &c);
    let result = cat.cohension(&tree, &c);
    assert_eq!(x * cat.cohension_weight, result.x);
    assert_eq!(y * cat.cohension_weight, result.y);

    let not_cohension_diff = COHENSION_RADIOUS;
    setpos(
        &mut cat,
        PVector { x: 100_000 - not_cohension_diff, y: 100_000 - not_cohension_diff },
    );
    let not_cohension = cat.cohension(&tree, &c);
    assert_eq!(not_cohension.x, 0);
    assert_eq!(not_cohension.y, 0);
}

#[test]
fn cat_steering_zero_case() {
    let c = cfg();
    // no neighbors at all: every contribution is exactly zero
    let empty_cats = build_cat_tree(&Vec::new(), &c);
    let empty_rats = build_rat_tree(&Vec::new(), &c);
    let cat = make_cat(1, 100_000, 100_000);
    assert_eq!(cat.chase_vector(&empty_rats, &c), PVector { x: 0, y: 0 });
    assert_eq!(cat.separate_same(&empty_cats, &c), PVector { x: 0, y: 0 });
    assert_eq!(cat.align(&empty_cats, &c), PVector { x: 0, y: 0 });
    assert_eq!(cat.cohension(&empty_cats, &c), PVector { x: 0, y: 0 });

    // a resting agent under no steering pressure stays at rest
    let mut resting = cat;
    resting.animal.velocity = PVector { x: 0, y: 0 };
    let stepped = resting.chase(&empty_cats, &empty_rats, &c);
    assert_eq!(stepped.as_velocity(), PVector { x: 0, y: 0 });
    assert_eq!(stepped.position(), resting.position());
    // the tick still costs one energy
    assert_eq!(stepped.animal.energy, resting.animal.energy - 1);
}

#[test]
fn cat_next_generation_size_and_lineage() {
    let c = cfg();
    let mut rng = RandomSource::new(5);
    let mut ids = IdGen::new();
    // thirty cats with distinct fitness; the top three seed the brood
    let mut cats = Vec::new();
    for i in 0..30u64 {
        let mut cat = make_cat(i, (i as i64) * 10_000, (i as i64) * 10_000);
        cat.ate = i as u32;
        cat.chase_weight = 16 * i as i64;
        cats.push(cat);
    }
    let next = Cat::next_generation(&cats, &c, &mut rng, &mut ids);
    assert_eq!(next.len(), 20);
    for child in &next {
        assert_eq!(child.ate, 0);
        assert_eq!(child.animal.energy, ENERGY_MAX);
        // every child's chase weight is within the mutation band of one
        // of the three best feeders (ate 29, 28, 27)
        let near_survivor = [29i64, 28, 27]
            .iter()
            .any(|i| (child.chase_weight - 16 * i).abs() <= MUTATE_ABS);
        assert!(near_survivor);
    }

    // with no survivors (fewer than ten cats) the brood is empty
    let few: Vec<Cat> = cats.iter().take(9).cloned().collect();
    let empty = Cat::next_generation(&few, &c, &mut rng, &mut ids);
    assert_eq!(empty.len(), 0);
}

#[test]
fn cat_energy_decreases_each_tick() {
    let c = cfg();
    let empty_cats = build_cat_tree(&Vec::new(), &c);
    let empty_rats = build_rat_tree(&Vec::new(), &c);
    let mut cat = make_cat(1, 100_000, 100_000);
    for tick in 1..=5u64 {
        cat = cat.chase(&empty_cats, &empty_rats, &c);
        assert_eq!(cat.animal.energy, ENERGY_MAX - tick);
        assert_eq!(cat.ate, 0);
    }
}
