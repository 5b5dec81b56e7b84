use hackagotchi::advancement::AdvancementSet;
use hackagotchi::config::{
    Archetype, ArchetypeKind, Category, Config, ConfigError, GotchiArchetype, KeepsakeArchetype,
    ProfileArchetype, PlantArchetype, SeedArchetype, find_handle,
};
use hackagotchi::fixed::Fixed;
use hackagotchi::hackstead::HacksteadAdvancementKind;
use hackagotchi::plant::PlantAdvancementKind;
use hackagotchi::recipe::{Recipe, RecipeMakes};
use hackagotchi::spawn::SpawnRate;

fn catalog() -> Config {
    let account_base = hackagotchi::advancement::Advancement {
        kind: HacksteadAdvancementKind::Land { pieces: 1 },
        xp: 0,
        art: "a".to_string(),
        title: "t".to_string(),
        description: "d".to_string(),
        achiever_title: "at".to_string(),
    };
    let plant_base = hackagotchi::advancement::Advancement {
        kind: PlantAdvancementKind::Yield(vec![(
            SpawnRate(Fixed(1000), (Fixed(1000), Fixed(2000))),
            "corn".to_string(),
        )]),
        xp: 0,
        art: "a".to_string(),
        title: "t".to_string(),
        description: "d".to_string(),
        achiever_title: "at".to_string(),
    };
    Config {
        special_users: vec!["U123".to_string()],
        profile_archetype: ProfileArchetype {
            advancements: AdvancementSet { base: account_base, rest: vec![] },
        },
        plant_archetypes: vec![PlantArchetype {
            name: "bractus".to_string(),
            base_yield_duration: Fixed(4000),
            advancements: AdvancementSet { base: plant_base, rest: vec![] },
        }],
        possession_archetypes: vec![
            Archetype {
                name: "corn".to_string(),
                description: "a cob".to_string(),
                kind: ArchetypeKind::Keepsake(KeepsakeArchetype {
                    item_application_effect: None,
                    unlocks_land: None,
                    plant_effects: None,
                }),
            },
            Archetype {
                name: "bractus seed".to_string(),
                description: "plant it".to_string(),
                kind: ArchetypeKind::Seed(SeedArchetype { grows_into: "bractus".to_string() }),
            },
            Archetype {
                name: "hackagotchi".to_string(),
                description: "a friend".to_string(),
                kind: ArchetypeKind::Gotchi(GotchiArchetype {
                    base_happiness: 5,
                    plant_effects: None,
                }),
            },
        ],
    }
}

#[test]
fn archetype_name_matches() {
    // Seeds grow into known plants, and every item a yield references
    // is in the catalog: the load-time cross-reference validation.
    let config = catalog();
    for a in config.possession_archetypes.iter() {
        if let ArchetypeKind::Seed(sa) = &a.kind {
            assert!(
                config.find_plant(&sa.grows_into).is_ok(),
                "seed archetype {:?} claims it grows into unknown plant archetype {:?}",
                a.name,
                sa.grows_into,
            );
        }
    }
    for arch in config.plant_archetypes.iter() {
        for adv in arch.advancements.all() {
            if let PlantAdvancementKind::Yield(resources) = &adv.kind {
                for (_, item_name) in resources.iter() {
                    assert!(
                        config.find_possession(item_name).is_ok(),
                        "Yield advancement {:?} for plant {:?} includes unknown resource {:?}",
                        adv.title,
                        arch.name,
                        item_name,
                    );
                }
            }
        }
    }
}

#[test]
fn find_handles_are_first_indices() {
    let config = catalog();
    assert_eq!(config.find_plant_handle(&"bractus".to_string()).unwrap(), 0);
    assert_eq!(config.find_possession_handle(&"corn".to_string()).unwrap(), 0);
    assert_eq!(config.find_possession_handle(&"hackagotchi".to_string()).unwrap(), 2);
    match config.find_possession_handle(&"gold".to_string()) {
        Err(ConfigError::UnknownArchetypeName(n)) => assert_eq!(n, "gold"),
        _ => panic!("gold is not in the catalog"),
    }
    assert!(config.find_plant(&"gold".to_string()).is_err());
    let names = config.possession_name_list();
    assert_eq!(find_handle(&names, &"bractus seed".to_string()), Some(1));
    assert_eq!(find_handle(&names, &"nothing".to_string()), None);
}

#[test]
fn categories_and_keepsakes() {
    let config = catalog();
    assert_eq!(config.possession_archetypes[2].kind.category(), Category::Gotchi);
    assert_eq!(config.possession_archetypes[0].kind.category(), Category::Misc);
    assert!(config.possession_archetypes[0].kind.keepsake().is_some());
    assert!(config.possession_archetypes[1].kind.keepsake().is_none());
}

#[test]
fn lookup_handles_holds_handles_to_the_catalog() {
    let config = catalog();
    let makes = RecipeMakes::OneOf(vec![(Fixed(500), 0usize), (Fixed(500), 2usize)]);
    assert!(makes.lookup_handles(&config).is_some());
    let stale = RecipeMakes::Just(1, 3usize);
    assert!(stale.lookup_handles(&config).is_none());

    let recipe = Recipe {
        needs: vec![(1, 0usize)],
        makes: RecipeMakes::Just(1, 1usize),
        destroys_plant: false,
        time: Fixed(2000),
    };
    assert!(recipe.lookup_handles(&config).is_some());
    let stale = Recipe {
        needs: vec![(1, 9usize)],
        makes: RecipeMakes::Just(1, 1usize),
        destroys_plant: false,
        time: Fixed(2000),
    };
    assert!(stale.lookup_handles(&config).is_none());
}
