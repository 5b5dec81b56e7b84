use hackagotchi::advancement::{Advancement, AdvancementSet, AdvancementSum};
use hackagotchi::config::ConfigError;
use hackagotchi::fixed::Fixed;
use hackagotchi::hackstead::{HacksteadAdvancementKind, HacksteadAdvancementSum};
use hackagotchi::plant::{PlantAdvancementKind, PlantAdvancementSum};
use hackagotchi::recipe::{Recipe, RecipeMakes};
use hackagotchi::spawn::SpawnRate;

fn plant_tier(xp: u64, kind: PlantAdvancementKind) -> Advancement<PlantAdvancementSum> {
    Advancement {
        kind,
        xp,
        art: "art".to_string(),
        title: "title".to_string(),
        description: "desc".to_string(),
        achiever_title: "achiever".to_string(),
    }
}

fn names(list: &[&str]) -> Vec<String> {
    list.iter().map(|s| s.to_string()).collect()
}

#[test]
fn hackstead_sum_totals() {
    let mk = |xp: u64, pieces: u32| Advancement::<HacksteadAdvancementSum> {
        kind: HacksteadAdvancementKind::Land { pieces },
        xp,
        art: "a".to_string(),
        title: "t".to_string(),
        description: "d".to_string(),
        achiever_title: "at".to_string(),
    };
    let set = AdvancementSet { base: mk(0, 1), rest: vec![mk(3, 2), mk(7, 4)] };
    let sum = set.sum(7, &vec![], &vec![]).expect("account sums never fail");
    assert_eq!(sum.xp, 10);
    assert_eq!(sum.land, 7);
    // Below the second threshold only two tiers count.
    let sum = set.sum(3, &vec![], &vec![]).expect("account sums never fail");
    assert_eq!(sum.land, 3);
}

#[test]
fn multiplier_fold_is_order_independent() {
    // Folding [A, B] yields the same multipliers as [B, A].
    let a = plant_tier(0, PlantAdvancementKind::Xp(Fixed(1500)));
    let b = plant_tier(1, PlantAdvancementKind::Xp(Fixed(1200)));
    let ab = PlantAdvancementSum::new(&vec![&a, &b], &vec![]).unwrap();
    let a2 = plant_tier(0, PlantAdvancementKind::Xp(Fixed(1500)));
    let b2 = plant_tier(1, PlantAdvancementKind::Xp(Fixed(1200)));
    let ba = PlantAdvancementSum::new(&vec![&b2, &a2], &vec![]).unwrap();
    assert_eq!(ab.xp_multiplier, Fixed(1800));
    assert_eq!(ba.xp_multiplier, ab.xp_multiplier);
    assert_eq!(ba.yield_speed_multiplier, ab.yield_speed_multiplier);
    assert_eq!(ba.yield_size_multiplier, ab.yield_size_multiplier);
    assert_eq!(ba.xp, ab.xp);
}

#[test]
fn yield_rescaling_applies_final_multiplier() {
    // Tier 1 grants Yield(guard=1.0, lo=1, hi=1); tier 2 grants
    // YieldSize(2.0): the yield unlocked first must come out scaled by
    // the final multiplier, (lo, hi) = (2, 2).
    let y = plant_tier(
        0,
        PlantAdvancementKind::Yield(vec![(
            SpawnRate(Fixed(1000), (Fixed(1000), Fixed(1000))),
            "corn".to_string(),
        )]),
    );
    let m = plant_tier(1, PlantAdvancementKind::YieldSize(Fixed(2000)));
    let sum = PlantAdvancementSum::new(&vec![&y, &m], &names(&["corn"])).unwrap();
    assert_eq!(sum.yield_size_multiplier, Fixed(2000));
    assert_eq!(sum.yields.len(), 1);
    let (rate, handle) = sum.yields[0];
    assert_eq!(handle, 0);
    assert_eq!(rate.0, Fixed(1000), "guard is capped at one");
    assert_eq!((rate.1).0, Fixed(2000));
    assert_eq!((rate.1).1, Fixed(2000));
}

#[test]
fn neighbor_tiers_apply_via_extras_only() {
    let neighbor = || {
        plant_tier(
            1,
            PlantAdvancementKind::Neighbor(Box::new(PlantAdvancementKind::YieldSpeed(Fixed(
                3000,
            )))),
        )
    };
    let base = plant_tier(0, PlantAdvancementKind::Xp(Fixed(1000)));
    let set = AdvancementSet { base, rest: vec![neighbor()] };
    // Unlocked, but a neighbor tier does not count toward the holder's
    // own stats.
    let own = set.sum(5, &vec![], &vec![]).unwrap();
    assert_eq!(own.yield_speed_multiplier, Fixed(1000));
    // Injected from a neighboring entity it applies as if local.
    let with_extra = set.sum(5, &vec![neighbor()], &vec![]).unwrap();
    assert_eq!(with_extra.yield_speed_multiplier, Fixed(3000));
    // raw_sum ignores the base filter and counts it locally too.
    let raw = set.raw_sum(5, &vec![]).unwrap();
    assert_eq!(raw.yield_speed_multiplier, Fixed(3000));
}

#[test]
fn unknown_yield_name_fails_aggregation() {
    let y = plant_tier(
        0,
        PlantAdvancementKind::Yield(vec![(
            SpawnRate(Fixed(500), (Fixed(1000), Fixed(2000))),
            "mystery".to_string(),
        )]),
    );
    let r = PlantAdvancementSum::new(&vec![&y], &names(&["corn"]));
    match r {
        Err(ConfigError::UnknownArchetypeName(n)) => assert_eq!(n, "mystery"),
        _ => panic!("aggregation must surface the unknown name"),
    }
}

#[test]
fn craft_tiers_resolve_recipes() {
    let recipe = Recipe {
        needs: vec![(2, "corn".to_string())],
        makes: RecipeMakes::Just(1, "bread".to_string()),
        destroys_plant: false,
        time: Fixed(4000),
    };
    let c = plant_tier(0, PlantAdvancementKind::Craft(vec![recipe]));
    let sum = PlantAdvancementSum::new(&vec![&c], &names(&["corn", "bread"])).unwrap();
    assert_eq!(sum.recipes.len(), 1);
    assert_eq!(sum.recipes[0].needs, vec![(2usize, 0usize)]);
    assert!(matches!(sum.recipes[0].makes, RecipeMakes::Just(1, 1)));

    let bad = Recipe {
        needs: vec![(2, "corn".to_string())],
        makes: RecipeMakes::Just(1, "unobtainium".to_string()),
        destroys_plant: false,
        time: Fixed(4000),
    };
    let c = plant_tier(0, PlantAdvancementKind::Craft(vec![bad]));
    let r = PlantAdvancementSum::new(&vec![&c], &names(&["corn"]));
    match r {
        Err(ConfigError::UnknownArchetypeName(n)) => assert_eq!(n, "unobtainium"),
        _ => panic!("the recipe's output name is unknown"),
    }
}

#[test]
fn find_handles_resolves_and_reports_first_unknown() {
    let m = RecipeMakes::OneOf(vec![
        (Fixed(600), "corn".to_string()),
        (Fixed(400), "bread".to_string()),
    ]);
    let resolved = m.find_handles(&names(&["bread", "corn"])).unwrap();
    match resolved {
        RecipeMakes::OneOf(v) => assert_eq!(v, vec![(Fixed(600), 1), (Fixed(400), 0)]),
        _ => panic!("shape preserved"),
    }
    let m = RecipeMakes::AllOf(vec![(1, "corn".to_string()), (1, "gold".to_string())]);
    match m.find_handles(&names(&["corn"])) {
        Err(ConfigError::UnknownArchetypeName(n)) => assert_eq!(n, "gold"),
        _ => panic!("second entry is unknown"),
    }
}

#[test]
fn satisfies_counts_inventory() {
    let recipe = Recipe {
        needs: vec![(2, 7usize), (1, 3usize)],
        makes: RecipeMakes::Just(1, 0usize),
        destroys_plant: true,
        time: Fixed(1000),
    };
    assert!(recipe.satisfies(&vec![7, 3, 7]));
    assert!(!recipe.satisfies(&vec![7, 3]));
    assert!(!recipe.satisfies(&vec![7, 7]));
}

#[test]
fn describe_names_the_error() {
    let e = ConfigError::UnknownArchetypeName("gold".to_string());
    assert_eq!(e.describe(), "no archetype by the name of gold");
    assert_eq!(
        ConfigError::MissingBaseTier.describe(),
        "ladder has no starting tier at zero xp"
    );
    assert_eq!(
        ConfigError::NonMonotonicLadder.describe(),
        "ladder thresholds must strictly increase"
    );
}
