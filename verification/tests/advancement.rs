use hackagotchi::advancement::{Advancement, AdvancementSet};
use hackagotchi::config::ConfigError;
use hackagotchi::hackstead::{HacksteadAdvancementKind, HacksteadAdvancementSum};

fn tier(xp: u64, pieces: u32, title: &str) -> Advancement<HacksteadAdvancementSum> {
    Advancement {
        kind: HacksteadAdvancementKind::Land { pieces },
        xp,
        art: "art".to_string(),
        title: title.to_string(),
        description: "desc".to_string(),
        achiever_title: "achiever".to_string(),
    }
}

fn ladder(thresholds: &[u64]) -> AdvancementSet<HacksteadAdvancementSum> {
    assert!(thresholds[0] == 0);
    AdvancementSet {
        base: tier(0, 1, "base"),
        rest: thresholds[1..]
            .iter()
            .map(|&t| tier(t, 2, "tier"))
            .collect(),
    }
}

#[test]
fn upgrade_increase() {
    // The current tier never has more xp than the subject: checked over
    // every xp below the last threshold of several ladders.
    for thresholds in [&[0u64, 3, 7][..], &[0, 1, 2], &[0, 5, 10, 20, 100]] {
        let adv = ladder(thresholds);
        let last = adv.rest.last().unwrap();
        for xp in 0..last.xp {
            assert!(
                adv.current(xp).xp <= xp,
                "when xp is {} the current advancement has more xp({})",
                xp,
                adv.current(xp).xp
            );
        }
    }
}

#[test]
fn position_starts_at_base() {
    let adv = ladder(&[0, 3, 7]);
    assert_eq!(adv.current_position(0), 0);
    assert_eq!(adv.base.xp, 0);
}

#[test]
fn position_saturates_past_last_tier() {
    let adv = ladder(&[0, 3, 7]);
    assert_eq!(adv.current_position(6), 1);
    assert_eq!(adv.current_position(7), 2);
    assert_eq!(adv.current_position(1000), 2);
    assert!(adv.next(1000).is_none());
}

#[test]
fn increment_xp_crossings_sweep() {
    // Exhaustive sweep over a small synthetic ladder with thresholds
    // {0, 3, 7}: increment_xp returns Some exactly when the current
    // tier changes.
    let adv = ladder(&[0, 3, 7]);
    for start in 0u64..12 {
        let before = adv.current_position(start);
        let mut xp = start;
        let crossed = adv.increment_xp(&mut xp);
        assert_eq!(xp, start + 1);
        let after = adv.current_position(xp);
        if before != after {
            let c = crossed.expect("crossing must be reported");
            assert_eq!(c.xp, adv.get(after).unwrap().xp);
        } else {
            assert!(crossed.is_none());
        }
    }
    // The two crossings of this ladder happen stepping into 3 and 7.
    let mut xp = 2u64;
    assert!(adv.increment_xp(&mut xp).is_some());
    let mut xp = 6u64;
    assert!(adv.increment_xp(&mut xp).is_some());
    let mut xp = 4u64;
    assert!(adv.increment_xp(&mut xp).is_none());
}

#[test]
fn advance_xp_collects_each_crossing() {
    let adv = ladder(&[0, 3, 7]);
    let mut xp = 0u64;
    let crossed = adv.advance_xp(&mut xp, 10);
    assert_eq!(xp, 10);
    assert_eq!(crossed.len(), 2);
    assert_eq!(crossed[0].xp, 3);
    assert_eq!(crossed[1].xp, 7);
}

#[test]
fn sheet_to_advancement() {
    // Splitting an authored tier list: the zero-xp row becomes the
    // base, the rest keep their order, and a list without a zero-xp row
    // is rejected as missing its base tier.
    let tiers = vec![tier(4, 1, "Title"), tier(0, 1, "Base"), tier(2, 1, "Title2")];
    let set = AdvancementSet::from_tiers(tiers).expect("base tier present");
    assert_eq!(set.base.xp, 0);
    assert_eq!(set.base.title, "Base");
    assert_eq!(set.rest.len(), 2);
    assert_eq!(set.rest[0].title, "Title");
    assert_eq!(set.rest[1].title, "Title2");

    let missing = AdvancementSet::from_tiers(vec![tier(4, 1, "Title")]);
    assert!(matches!(missing, Err(ConfigError::MissingBaseTier)));
}

#[test]
fn check_wf_rejects_non_monotonic_ladders() {
    let good = ladder(&[0, 3, 7]);
    assert!(good.check_wf());

    let mut bad = ladder(&[0, 3, 7]);
    bad.rest[1].xp = 3;
    assert!(!bad.check_wf());

    let mut bad_base = ladder(&[0, 3]);
    bad_base.base.xp = 1;
    assert!(!bad_base.check_wf());
}
