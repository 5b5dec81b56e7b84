use hackagotchi::advancement::{Advancement, AdvancementSet};
use hackagotchi::config::{Config, ProfileArchetype, PlantArchetype};
use hackagotchi::farm::{
    FARM_CYCLE_MILLIS, Notification, Plant, PlantedTile, Profile, advance_checkpoint,
    compute_elapsed, refresh_activity, run_tick,
};
use hackagotchi::fixed::Fixed;
use hackagotchi::hackstead::{HacksteadAdvancementKind, HacksteadAdvancementSum};
use hackagotchi::plant::{PlantAdvancementKind, PlantAdvancementSum};
use hackagotchi::timestamp::{checkpoint_round_trip, format_checkpoint, parse_checkpoint};

fn account_tier(xp: u64, pieces: u32) -> Advancement<HacksteadAdvancementSum> {
    Advancement {
        kind: HacksteadAdvancementKind::Land { pieces },
        xp,
        art: "a".to_string(),
        title: "account tier".to_string(),
        description: "d".to_string(),
        achiever_title: "at".to_string(),
    }
}

fn plant_tier(xp: u64, title: &str) -> Advancement<PlantAdvancementSum> {
    Advancement {
        kind: PlantAdvancementKind::Xp(Fixed(1000)),
        xp,
        art: "a".to_string(),
        title: title.to_string(),
        description: "d".to_string(),
        achiever_title: "at".to_string(),
    }
}

/// One account, one plant species whose ladder has thresholds {0, 1, 2}.
fn catalog() -> Config {
    Config {
        special_users: vec![],
        profile_archetype: ProfileArchetype {
            advancements: AdvancementSet { base: account_tier(0, 1), rest: vec![] },
        },
        plant_archetypes: vec![PlantArchetype {
            name: "bractus".to_string(),
            base_yield_duration: Fixed(4000),
            advancements: AdvancementSet {
                base: plant_tier(0, "sprout"),
                rest: vec![plant_tier(1, "stalk"), plant_tier(2, "colossus")],
            },
        }],
        possession_archetypes: vec![],
    }
}

#[test]
fn three_cycle_catchup_end_to_end() {
    // Active accounts = {A}, three elapsed cycles owed, A's plant ladder
    // thresholds {0, 1, 2}: the plant gains 3 xp, exactly two
    // tier-crossing notifications are queued (at xp 1 and xp 2), and the
    // checkpoint advances by exactly three cycle lengths.
    let config = catalog();
    assert!(config.check_catalog());
    let checkpoint = 1_000_000u64;
    let now = checkpoint + 3 * FARM_CYCLE_MILLIS + 7;
    let elapsed = compute_elapsed(now, checkpoint, FARM_CYCLE_MILLIS);
    assert_eq!(elapsed, 3);

    let mut profiles = vec![Profile { xp: 0, last_active: now }];
    let mut tiles = vec![PlantedTile { steader: 0, plant: Plant { archetype_handle: 0, xp: 0 } }];
    let notes = run_tick(&config, &mut profiles, &mut tiles, elapsed);

    assert_eq!(tiles[0].plant.xp, 3);
    assert_eq!(profiles[0].xp, 3);
    assert_eq!(notes.len(), 2, "one notification per tier crossing");
    match &notes[0] {
        Notification::Plant { steader, tile, plant_name, title, tier_xp, .. } => {
            assert_eq!(*steader, 0);
            assert_eq!(*tile, 0);
            assert_eq!(plant_name, "bractus");
            assert_eq!(title, "stalk");
            assert_eq!(*tier_xp, 1);
        },
        _ => panic!("first crossing is plant-level"),
    }
    match &notes[1] {
        Notification::Plant { title, tier_xp, .. } => {
            assert_eq!(title, "colossus");
            assert_eq!(*tier_xp, 2);
        },
        _ => panic!("second crossing is plant-level"),
    }

    let advanced = advance_checkpoint(checkpoint, elapsed, FARM_CYCLE_MILLIS, true);
    assert_eq!(advanced, checkpoint + 3 * FARM_CYCLE_MILLIS);
}

#[test]
fn failed_write_retry_is_idempotent() {
    // A store-write failure leaves the checkpoint alone; a retry with
    // identical state recomputes byte-identical mutated entities and
    // notifications.
    let config = catalog();
    let checkpoint = 500_000u64;
    let now = checkpoint + 2 * FARM_CYCLE_MILLIS;
    let elapsed = compute_elapsed(now, checkpoint, FARM_CYCLE_MILLIS);

    let profiles0 = vec![Profile { xp: 1, last_active: 0 }];
    let tiles0 = vec![PlantedTile { steader: 0, plant: Plant { archetype_handle: 0, xp: 1 } }];

    let mut profiles1 = profiles0.clone();
    let mut tiles1 = tiles0.clone();
    let notes1 = run_tick(&config, &mut profiles1, &mut tiles1, elapsed);

    // The write fails: the checkpoint must not move.
    let unmoved = advance_checkpoint(checkpoint, elapsed, FARM_CYCLE_MILLIS, false);
    assert_eq!(unmoved, checkpoint);

    // Next tick, same wall clock, same stored state: same cycles owed.
    let retry_elapsed = compute_elapsed(now, unmoved, FARM_CYCLE_MILLIS);
    assert_eq!(retry_elapsed, elapsed);

    let mut profiles2 = profiles0.clone();
    let mut tiles2 = tiles0.clone();
    let notes2 = run_tick(&config, &mut profiles2, &mut tiles2, retry_elapsed);

    assert_eq!(profiles2, profiles1);
    assert_eq!(tiles2, tiles1);
    assert_eq!(notes2, notes1);
}

#[test]
fn account_crossings_carry_the_land_summary() {
    // An account ladder with land grants: crossing a tier reports the
    // land held before the crossing and the pieces gained.
    let mut config = catalog();
    config.profile_archetype.advancements = AdvancementSet {
        base: account_tier(0, 1),
        rest: vec![account_tier(2, 5)],
    };
    assert!(config.check_catalog());
    let mut profiles = vec![Profile { xp: 0, last_active: 0 }];
    let mut tiles = vec![PlantedTile { steader: 0, plant: Plant { archetype_handle: 0, xp: 10 } }];
    let notes = run_tick(&config, &mut profiles, &mut tiles, 2);
    assert_eq!(profiles[0].xp, 2);
    let account_note = notes
        .iter()
        .find_map(|n| match n {
            Notification::Hackstead { land, land_gained, tier_xp, .. } => {
                Some((*land, *land_gained, *tier_xp))
            },
            _ => None,
        })
        .expect("the account crossed its tier at xp 2");
    assert_eq!(account_note, (1, 5, 2));
}

#[test]
fn elapsed_cycles_floor_and_skip() {
    assert_eq!(compute_elapsed(100, 100, FARM_CYCLE_MILLIS), 0);
    assert_eq!(compute_elapsed(99, 100, FARM_CYCLE_MILLIS), 0, "a clock behind the checkpoint owes nothing");
    assert_eq!(compute_elapsed(100 + FARM_CYCLE_MILLIS - 1, 100, FARM_CYCLE_MILLIS), 0);
    assert_eq!(compute_elapsed(100 + FARM_CYCLE_MILLIS, 100, FARM_CYCLE_MILLIS), 1);
    assert_eq!(compute_elapsed(100 + 10 * FARM_CYCLE_MILLIS + 3, 100, FARM_CYCLE_MILLIS), 10);
}

#[test]
fn activity_window_decides_the_active_set() {
    let window = 300_000u64;
    let mut p = Profile { xp: 9, last_active: 1_000_000 };
    // A fresh interaction stamps now and keeps the account.
    assert!(refresh_activity(&mut p, true, 2_000_000, window));
    assert_eq!(p.last_active, 2_000_000);
    assert_eq!(p.xp, 9);
    // Within the window: kept, untouched.
    let mut p = Profile { xp: 9, last_active: 1_000_000 };
    assert!(refresh_activity(&mut p, false, 1_000_000 + window - 1, window));
    assert_eq!(p.last_active, 1_000_000);
    // A full window without interaction: dropped.
    let mut p = Profile { xp: 9, last_active: 1_000_000 };
    assert!(!refresh_activity(&mut p, false, 1_000_000 + window, window));
    // A clock reading behind last_active keeps the account.
    let mut p = Profile { xp: 9, last_active: 1_000_000 };
    assert!(refresh_activity(&mut p, false, 999_999, window));
}

#[test]
fn checkpoint_text_round_trips() {
    assert_eq!(checkpoint_round_trip(0), Some(0));
    assert_eq!(checkpoint_round_trip(1_518_568_087_000), Some(1_518_568_087_000));
    assert_eq!(checkpoint_round_trip(1_518_568_087_123), Some(1_518_568_087_123));
    let s = format_checkpoint(1_518_568_087_000);
    assert_eq!(s, "2018-02-14T00:28:07.000Z");
    assert_eq!(parse_checkpoint("2018-02-14T00:28:07Z"), Some(1_518_568_087_000));
    assert_eq!(parse_checkpoint("not a timestamp"), None);
}
