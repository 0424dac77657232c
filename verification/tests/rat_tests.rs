//! The prey: kinematics, evasion, being eaten, lifecycle. Coordinates are
//! steps of 1/1000 plane unit.

use torus_flock::animal::Animal;
use torus_flock::cat::Cat;
use torus_flock::config::Config;
use torus_flock::pvector::PVector;
use torus_flock::rat::Rat;
use torus_flock::rng::{IdGen, RandomSource};
use torus_flock::steering::{calculate_direction, collect_near_pvectors};
use torus_flock::world::{build_cat_tree, build_rat_tree};

const WIDTH: i64 = 640_000;
const HEIGHT: i64 = 480_000;
const ENERGY_MAX: u64 = 1000;
const EATEN_RADIOUS: i64 = 1_000;
const RUNAWAY_RADIOUS: i64 = 10_000;
const CHASE_RADIOUS: i64 = 10_000;

fn cfg() -> Config {
    Config::standard()
}

fn make_rat(id: u64, x: i64, y: i64) -> Rat {
    Rat {
        animal: Animal {
            id,
            position: PVector { x, y },
            velocity: PVector { x: 500, y: 0 },
            speed: 500,
            energy: ENERGY_MAX,
        },
    }
}

fn make_cat(id: u64, x: i64, y: i64) -> Cat {
    Cat {
        animal: Animal {
            id,
            position: PVector { x, y },
            velocity: PVector { x: 1_000, y: 0 },
            speed: 1_000,
            energy: ENERGY_MAX,
        },
        chase_weight: 5,
        separate_weight: 5,
        align_weight: 5,
        cohension_weight: 5,
        ate: 0,
    }
}

fn setpos(rat: &mut Rat, p: PVector) {
    rat.animal.position = p;
}

#[test]
fn rat_new_test() {
    let c = cfg();
    let mut rng = RandomSource::new(21);
    let mut ids = IdGen::new();
    for _ in 0..100 {
        let rat = Rat::new(&c, &mut rng, &mut ids);
        assert!(0 <= rat.position().x && rat.position().x < WIDTH);
        assert!(0 <= rat.position().y && rat.position().y < HEIGHT);
        let vel = rat.as_velocity();
        assert!(vel.x.abs() <= 500 && vel.y.abs() <= 500);
        // the velocity length equals the cruising speed up to integer
        // rounding: 0.5 plane units per tick, i.e. 500 steps
        let l2 = vel.x * vel.x + vel.y * vel.y;
        assert!(l2 >= 250_000 - 2_000);
        assert!(l2 * 1_000 <= 250_000 * 1_002);
        assert!((vel.len() - 500).abs() <= 3);
        assert_eq!(rat.animal.energy, ENERGY_MAX);
    }
}

#[test]
fn rat_move_self_test() {
    let c = cfg();
    let x = 50_000;
    let y = 100_000;
    let vx = 4_000;
    let vy = 2_000;
    let mut rat = make_rat(1, x, y);
    rat = rat.apply_velocity(&PVector { x: vx, y: vy }, &c);

    let moved = rat.move_self(&c);
    assert_eq!(moved.position(), PVector { x: x + vx, y: y + vy });

    // spilling over the right edge
    rat.animal.position.x = WIDTH - vx + 1_000;
    assert_eq!(1_000, rat.move_self(&c).position().x);

    // spilling over the left edge
    rat.animal.velocity.x = -vx;
    rat.animal.position.x = 1_000;
    assert_eq!(WIDTH - vx + 1_000, rat.move_self(&c).position().x);

    // spilling over the bottom edge
    rat.animal.position.y = HEIGHT - vy + 1_000;
    assert_eq!(1_000, rat.move_self(&c).position().y);

    // spilling over the top edge
    rat.animal.velocity.y = -vy;
    rat.animal.position.y = 1_000;
    assert_eq!(HEIGHT - vy + 1_000, rat.move_self(&c).position().y);
}

#[test]
fn rat_as_velocity_test() {
    let rat = make_rat(1, 10_000, 10_000);
    let vel = rat.as_velocity();
    assert_eq!(rat.animal.velocity.x, vel.x);
    assert_eq!(rat.animal.velocity.y, vel.y);
}

#[test]
fn rat_apply_velocity_test() {
    let c = cfg();
    let vel = PVector { x: 100_000, y: 200_000 };
    let rat = make_rat(1, 10_000, 10_000).apply_velocity(&vel, &c);
    assert_eq!(rat.animal.velocity.x, vel.x);
    assert_eq!(rat.animal.velocity.y, vel.y);
}

#[test]
fn rat_within_test() {
    let c = cfg();
    let rat1 = make_rat(1, 100_000, 100_000);
    let mut rat2 = make_rat(2, 0, 0);
    let diff = 1_000;
    setpos(&mut rat2, PVector { x: 100_000 + diff, y: 100_000 });
    assert!(rat1.is_within(&rat2.animal, diff + 500, &c));
    assert!(!rat1.is_within(&rat2.animal, diff - 500, &c));
}

#[test]
fn rat_offset_test() {
    let c = cfg();
    let rat1 = make_rat(1, 100_000, 100_000);
    let mut rat2 = make_rat(2, 0, 0);
    setpos(&mut rat2, PVector { x: 101_000, y: 102_000 });
    let offset = rat1.offset(&rat2.animal, &c);
    assert_eq!(offset.x, 1_000);
    assert_eq!(offset.y, 2_000);
}

#[test]
fn rat_postion_test() {
    let rat = make_rat(1, 10_000, 20_000);
    let pos = rat.position();
    assert_eq!(pos.x, 10_000);
    assert_eq!(pos.y, 20_000);
}

#[test]
fn rat_id_test() {
    let rat = make_rat(9, 10_000, 20_000);
    assert_eq!(rat.animal.id, rat.id());
}

#[test]
fn rat_is_same_test() {
    let rat1 = make_rat(1, 10_000, 20_000);
    let rat2 = make_rat(2, 10_000, 20_000);
    assert!(rat1.is_same(&rat1));
    assert!(!rat1.is_same(&rat2));
}

#[test]
fn rat_descendant_test() {
    let c = cfg();
    let mut rng = RandomSource::new(17);
    let mut ids = IdGen::new();
    let parent = make_rat(1, 10_000, 20_000);
    let child = parent.descendant(&c, &mut rng, &mut ids);
    assert_eq!(child.animal.energy, ENERGY_MAX);
    assert!(0 <= child.position().x && child.position().x < WIDTH);
    assert!(0 <= child.position().y && child.position().y < HEIGHT);
}

#[test]
fn rat_life_manage_test() {
    let c = cfg();
    let mut rng = RandomSource::new(23);
    let mut ids = IdGen::new();
    // everyone dead: everyone dropped
    let mut dead = make_rat(1, 10_000, 20_000);
    dead.animal.energy = 0;
    let dead_rats: Vec<Rat> = vec![dead; 100];
    let expect_none = Rat::life_manage(&dead_rats, &c, &mut rng, &mut ids);
    assert_eq!(expect_none.len(), 0);

    // everyone alive: the population can only grow
    let mut all_alive: Vec<Rat> = Vec::with_capacity(100000);
    for i in 0..100000u64 {
        all_alive.push(make_rat(i, (i % 600) as i64 * 1_000, (i % 400) as i64 * 1_000));
    }
    let more_than_before = Rat::life_manage(&all_alive, &c, &mut rng, &mut ids);
    assert!(more_than_before.len() > 100000);
}

#[test]
fn rat_calclate_direction_test() {
    let c = cfg();
    let dx = 600;
    let dy = 800;
    let rat = make_rat(1, 100_000, 100_000);
    let other = make_rat(2, 100_000 + dx, 100_000 + dy);
    let arg: Vec<_> = (0..100).map(|_| other.as_snap()).collect();
    let result = calculate_direction(&rat.position(), &arg, &c);
    assert_eq!(dx, result.x);
    assert_eq!(dy, result.y);
}

#[test]
fn rat_collect_near_pvectors_test() {
    let c = cfg();
    let rat = make_rat(1, 100_000, 100_000);
    let diff = 1_000;
    let mut others = Vec::new();
    for i in 0..100u64 {
        others.push(make_rat(2 + i, 100_000 + diff, 100_000 + diff));
    }
    let tree = build_rat_tree(&others, &c);
    let expect_none = collect_near_pvectors(&tree, rat.id(), &rat.position(), 1_000, &c);
    assert_eq!(expect_none.len(), 0);

    let not_dicrease = collect_near_pvectors(&tree, rat.id(), &rat.position(), 2_000, &c);
    assert_eq!(not_dicrease.len(), 100);
}

#[test]
fn rat_runaway_vector_test() {
    let c = cfg();
    let cat = make_cat(1000, 100_000, 100_000);
    let runaway_diff = RUNAWAY_RADIOUS / 2;
    let x = 600;
    let y = 800;
    // the rat sits at (0.6, 0.8) of half the evasion radius past the cat,
    // so the direction away from the cat is exactly (0.6, 0.8)
    let mut rat = make_rat(
        1,
        100_000 + x * runaway_diff / 1_000,
        100_000 + y * runaway_diff / 1_000,
    );
    let cats: Vec<Cat> = (0..100)
        .map(|i| {
            let mut o = cat;
            o.animal.id = 1000 + i;
            o
        })
        .collect();
    let tree = build_cat_tree(&cats, &c);
    let result = rat.run_away_vector(&tree, &c);
    assert_eq!(x, result.x);
    assert_eq!(y, result.y);

    let not_chase_diff = CHASE_RADIOUS;
    setpos(&mut rat, PVector { x: 100_000 + not_chase_diff, y: 100_000 + not_chase_diff });
    let not_chase = rat.run_away_vector(&tree, &c);
    assert_eq!(not_chase.x, 0);
    assert_eq!(not_chase.y, 0);
}

#[test]
fn rat_eaten_test() {
    let c = cfg();
    let cat = make_cat(1000, 100_000, 100_000);
    let tree = build_cat_tree(&vec![cat], &c);
    let not_eaten_diff = EATEN_RADIOUS;
    let mut rat = make_rat(1, 0, 0);
    setpos(&mut rat, PVector { x: 100_000 + not_eaten_diff, y: 100_000 + not_eaten_diff });
    assert!(!rat.eaten(&tree, &c));
}

#[test]
fn rat_delete_eaten_test() {
    let c = cfg();
    let cat = make_cat(1000, 100_000, 100_000);
    let tree = build_cat_tree(&vec![cat], &c);
    let eaten_diff = EATEN_RADIOUS / 2;
    let mut rat = make_rat(1, 100_000 + eaten_diff, 100_000 + eaten_diff);
    let rats: Vec<Rat> = (0..100)
        .map(|i| {
            let mut r = rat;
            r.animal.id = 1 + i;
            r
        })
        .collect();
    assert_eq!(Rat::delete_eaten(&tree, &rats, &c).len(), 0);

    let not_eaten_diff = EATEN_RADIOUS;
    setpos(&mut rat, PVector { x: 100_000 + not_eaten_diff, y: 100_000 + not_eaten_diff });
    let rats: Vec<Rat> = (0..100)
        .map(|i| {
            let mut r = rat;
            r.animal.id = 1 + i;
            r
        })
        .collect();
    assert_eq!(Rat::delete_eaten(&tree, &rats, &c).len(), 100);
}

#[test]
fn rat_runaway_zero_case() {
    let c = cfg();
    let empty_cats = build_cat_tree(&Vec::new(), &c);
    let mut rat = make_rat(1, 100_000, 100_000);
    rat.animal.velocity = PVector { x: 0, y: 0 };
    assert_eq!(rat.run_away_vector(&empty_cats, &c), PVector { x: 0, y: 0 });
    let stepped = rat.run_away(&empty_cats, &c);
    assert_eq!(stepped.as_velocity(), PVector { x: 0, y: 0 });
    assert_eq!(stepped.position(), rat.position());
    assert_eq!(stepped.animal.energy, rat.animal.energy - 1);
}
