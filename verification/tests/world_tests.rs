//! Whole-ecosystem behavior: ticks, generations, summary statistics, and
//! the end-to-end chase-and-eat scenario.

use torus_flock::animal::Animal;
use torus_flock::cat::Cat;
use torus_flock::config::Config;
use torus_flock::pvector::PVector;
use torus_flock::rat::Rat;
use torus_flock::rng::{IdGen, RandomSource};
use torus_flock::world::{build_cat_tree, build_rat_tree, new_cats, new_rats, World};

const ENERGY_MAX: u64 = 1000;
const EAT_ENERGY: u64 = 300;

fn cfg() -> Config {
    Config::standard()
}

fn cat_at(id: u64, x: i64, y: i64, chase_weight: i64) -> Cat {
    Cat {
        animal: Animal {
            id,
            position: PVector { x, y },
            velocity: PVector { x: 1_000, y: 0 },
            speed: 1_000,
            energy: ENERGY_MAX,
        },
        chase_weight,
        separate_weight: 5,
        align_weight: 5,
        cohension_weight: 5,
        ate: 0,
    }
}

fn rat_at(id: u64, x: i64, y: i64) -> Rat {
    Rat {
        animal: Animal {
            id,
            position: PVector { x, y },
            velocity: PVector { x: 0, y: 0 },
            speed: 500,
            energy: ENERGY_MAX,
        },
    }
}

fn staged_world(cats: Vec<Cat>, rats: Vec<Rat>, seed: u64) -> World {
    let c = cfg();
    let cats_tree = build_cat_tree(&cats, &c);
    let rats_tree = build_rat_tree(&rats, &c);
    World {
        cfg: c,
        cats,
        rats,
        cats_tree,
        rats_tree,
        rng: RandomSource::new(seed),
        ids: IdGen { next: 1_000_000 },
    }
}

#[test]
fn world_new_populations() {
    let c = cfg();
    let w = World::new(c, 99);
    assert_eq!(w.cats.len(), 10);
    assert_eq!(w.rats.len(), 200);
    assert!(!w.is_finished());
}

#[test]
fn new_populations_are_full_strength() {
    let c = cfg();
    let mut rng = RandomSource::new(4);
    let mut ids = IdGen::new();
    let cats = new_cats(&c, &mut rng, &mut ids);
    let rats = new_rats(&c, &mut rng, &mut ids);
    assert_eq!(cats.len(), c.cat_count);
    assert_eq!(rats.len(), c.rat_count);
    for cat in &cats {
        assert_eq!(cat.animal.energy, ENERGY_MAX);
        assert_eq!(cat.ate, 0);
    }
    for rat in &rats {
        assert_eq!(rat.animal.energy, ENERGY_MAX);
    }
    // identities never repeat
    let mut seen: Vec<u64> = cats.iter().map(|a| a.id()).chain(rats.iter().map(|r| r.id())).collect();
    seen.sort();
    seen.dedup();
    assert_eq!(seen.len(), c.cat_count + c.rat_count);
}

/// The end-to-end scenario: one predator at (100, 100) with chase weight 5,
/// one prey at (105, 100). The first chase vector points along (1, 0)
/// scaled by the weight; the predator closes in at the speed difference,
/// and once within the eating radius the prey is removed, the counter
/// reads one, and the energy shows the eat bonus.
#[test]
fn chase_and_eat_scenario() {
    let c = cfg();
    let cat = cat_at(1, 100_000, 100_000, 5);
    let rat = rat_at(2, 105_000, 100_000);
    let rats_tree = build_rat_tree(&vec![rat], &c);

    // first-tick chase vector: direction (1, 0) scaled by the weight
    let chase = cat.chase_vector(&rats_tree, &c);
    assert_eq!(chase, PVector { x: 5_000, y: 0 });

    let mut w = staged_world(vec![cat], vec![rat], 424242);
    let mut ticks: u64 = 0;
    let mut finished = false;
    while ticks < 15 && !finished {
        finished = w.update();
        ticks += 1;
    }
    // the gap of 5 units closes by 0.5 per tick; strictly inside the
    // 1-unit eating radius from the tenth tick on
    assert!(finished);
    assert_eq!(ticks, 10);
    assert_eq!(w.cats.len(), 1);
    assert_eq!(w.cats[0].ate, 1);
    assert_eq!(w.cats[0].animal.energy, ENERGY_MAX + EAT_ENERGY - ticks);
    assert!(w.rats.is_empty());
}

#[test]
fn update_keeps_energy_accounting() {
    // a lone predator far from everything: energy falls by exactly one
    // per tick, nothing is eaten
    let cat = cat_at(1, 300_000, 200_000, 5);
    let mut w = staged_world(vec![cat], vec![rat_at(2, 10_000, 10_000)], 7);
    for tick in 1..=5u64 {
        w.update();
        assert_eq!(w.cats.len(), 1);
        assert_eq!(w.cats[0].animal.energy, ENERGY_MAX - tick);
        assert_eq!(w.cats[0].ate, 0);
    }
}

#[test]
fn next_generation_resets_populations() {
    let c = cfg();
    let mut cats = Vec::new();
    for i in 0..30u64 {
        let mut cat = cat_at(i, (i as i64) * 10_000, (i as i64) * 10_000, 16 * i as i64);
        cat.ate = i as u32;
        cat.animal.energy = 500;
        cats.push(cat);
    }
    let mut w = staged_world(cats, Vec::new(), 13);
    assert!(w.is_finished());
    w.next_generation();
    assert_eq!(w.cats.len(), c.breed_count);
    assert_eq!(w.rats.len(), c.rat_count);
    for cat in &w.cats {
        assert_eq!(cat.ate, 0);
        assert_eq!(cat.animal.energy, ENERGY_MAX);
    }
}

#[test]
fn run_generation_stops_when_prey_gone() {
    // one predator right next to the only prey: the generation ends on
    // the first tick
    let cat = cat_at(1, 100_000, 100_000, 5);
    let rat = rat_at(2, 100_500, 100_000);
    let mut w = staged_world(vec![cat], vec![rat], 31);
    let (ticks, frames) = w.run_generation();
    assert_eq!(ticks, 1);
    assert_eq!(frames.len(), 1);
    assert!(frames[0].rats.is_empty());
    assert!(w.is_finished());
}

#[test]
fn summary_statistics_means() {
    let mut cats = Vec::new();
    for i in 0..4u64 {
        let mut cat = cat_at(i, (i as i64) * 10_000, (i as i64) * 10_000, 10 * (i as i64 + 1));
        cat.separate_weight = 7;
        cat.align_weight = 2 * i as i64;
        cat.cohension_weight = 480;
        cats.push(cat);
    }
    let w = staged_world(cats, Vec::new(), 1);
    let stats = w.summary_statistics();
    // chase weights 10, 20, 30, 40
    assert_eq!(stats.chase, 25);
    assert_eq!(stats.separate, 7);
    // align weights 0, 2, 4, 6
    assert_eq!(stats.align, 3);
    assert_eq!(stats.cohension, 480);
}

#[test]
fn custom_plane_config() {
    // a much smaller plane: 20 x 10 units, tighter radii, slower agents
    let c = Config {
        width: 20_000,
        height: 10_000,
        min_cell_width: 2_000,
        chase_radius: 3_000,
        separate_radius: 1_000,
        align_radius: 2_000,
        cohension_radius: 3_000,
        runaway_radius: 3_000,
        eaten_radius: 500,
        energy_max: 50,
        eat_energy: 10,
        mutate_abs: 2,
        chase_max: 40,
        separate_max: 40,
        align_max: 40,
        cohension_max: 40,
        cat_speed: 500,
        rat_speed: 250,
        cat_count: 3,
        rat_count: 5,
        breed_count: 4,
        max_ticks: 200,
    };
    let mut w = World::new(c, 77);
    assert_eq!(w.cats.len(), 3);
    assert_eq!(w.rats.len(), 5);
    for _ in 0..10 {
        w.update();
        for cat in &w.cats {
            let p = cat.position();
            assert!(0 <= p.x && p.x < c.width && 0 <= p.y && p.y < c.height);
        }
        for rat in &w.rats {
            let p = rat.position();
            assert!(0 <= p.x && p.x < c.width && 0 <= p.y && p.y < c.height);
        }
        if w.is_finished() {
            break;
        }
    }
}
