//! Building the relational store and querying it.
use recipe_tracker::cache::recipes::Ingredient;
use recipe_tracker::cache::recipes::Recipe;
use recipe_tracker::cache::relics::Relic as RawRelic;
use recipe_tracker::cache::relics::RelicArcane;
use recipe_tracker::cache::relics::Reward;
use recipe_tracker::cache::resources::Resource;
use recipe_tracker::cache::warframes::Warframe;
use recipe_tracker::cache::weapons::Weapon;
use recipe_tracker::cache::worldstate::Invasion;
use recipe_tracker::cache::worldstate::RewardOrEmptyVec;
use recipe_tracker::relic::Rarity;
use recipe_tracker::structures::BuildError;
use recipe_tracker::structures::Data;
use recipe_tracker::structures::types::CommonName;
use recipe_tracker::structures::types::UniqueName;

fn resource(unique_name: &str, name: &str) -> Resource {
    Resource { unique_name: unique_name.to_string(), name: name.to_string() }
}

fn recipe(unique_name: &str, result_type: &str, ingredients: &[(&str, u32)]) -> Recipe {
    Recipe {
        unique_name: unique_name.to_string(),
        result_type: result_type.to_string(),
        ingredients: ingredients
            .iter()
            .map(|(item, count)| Ingredient { item_type: item.to_string(), item_count: *count })
            .collect(),
    }
}

fn relic(unique_name: &str, name: &str, rewards: &[(&str, Rarity)]) -> RawRelic {
    RawRelic {
        unique_name: unique_name.to_string(),
        name: name.to_string(),
        relic_rewards: rewards
            .iter()
            .map(|(reward, rarity)| Reward { reward_name: reward.to_string(), rarity: *rarity })
            .collect(),
    }
}

fn un(s: &str) -> UniqueName {
    UniqueName::new(s.to_string())
}

fn cn(s: &str) -> CommonName {
    CommonName::new(s.to_string())
}

fn sample_store() -> Data {
    let resources = vec![
        resource("/Lotus/Types/Items/Neurode", "Neurode"),
        resource("/Lotus/Types/Items/Morphics", "Morphics"),
        resource("/Lotus/Types/Items/Ferrite", "Ferrite"),
        resource("/Lotus/Types/Recipes/NeuropticsBlueprint", "Neuroptics"),
        resource("/Lotus/Types/Items/BossPart", "Boss Part"),
    ];
    let warframes = vec![Warframe {
        unique_name: "/Lotus/Types/Powersuits/Odonata".to_string(),
        name: "<ARCHWING> Odonata".to_string(),
        product_category: "SpaceSuits".to_string(),
    }];
    let weapons = vec![Weapon {
        unique_name: "/Lotus/Types/Weapons/BratonPrime".to_string(),
        name: "Braton Prime".to_string(),
    }];
    let recipes = vec![recipe(
        "/Lotus/Types/Recipes/NeuropticsRecipe",
        "/Lotus/Types/Recipes/NeuropticsBlueprint",
        &[
            ("/Lotus/Types/Items/Neurode", 5),
            ("/Lotus/Types/Items/Morphics", 2),
            ("/Lotus/Types/Items/Ferrite", 150),
        ],
    )];
    let relics = vec![
        relic(
            "/Lotus/Types/Game/Projections/T1Lith",
            "Lith B1",
            &[("/Lotus/StoreItems/Types/Weapons/BratonPrime", Rarity::Rare)],
        ),
        relic(
            "/Lotus/Types/Game/Projections/T2Meso",
            "Meso B2",
            &[("/Lotus/Types/Weapons/BratonPrime", Rarity::Uncommon)],
        ),
    ];
    let droptable_cells = vec![
        "Lith B1 (Radiant)".to_string(),
        "Rotation A".to_string(),
        "Some other cell".to_string(),
    ];
    let vendor_item_paths = vec![
        "/Lotus/StoreItems/Types/Game/Projections/T2Meso".to_string(),
        "/Lotus/StoreItems/Types/Weapons/SomeGun".to_string(),
    ];
    let invasion_feed = vec![Invasion {
        attacker_reward: RewardOrEmptyVec::Reward(recipe_tracker::cache::worldstate::Reward {
            counted_items: vec![recipe_tracker::cache::worldstate::CountedItem {
                item_type: "/Lotus/Types/Items/BossPart".to_string(),
            }],
        }),
        defender_reward: RewardOrEmptyVec::EmptyVec,
    }];
    Data::from_cache(
        resources,
        warframes,
        weapons,
        recipes,
        relics,
        droptable_cells,
        vendor_item_paths,
        invasion_feed,
    )
    .expect("well-formed snapshot")
}

#[test]
fn requirement_ordering_is_count_then_identity_key() {
    let db = sample_store();
    let reqs = db.requirements(un("/Lotus/Types/Recipes/NeuropticsRecipe"));
    let got: Vec<(String, u32)> =
        reqs.iter().map(|(item, count)| (item.as_str().to_string(), count.to_u32())).collect();
    assert_eq!(
        got,
        vec![
            ("/Lotus/Types/Items/Morphics".to_string(), 2),
            ("/Lotus/Types/Items/Neurode".to_string(), 5),
            ("/Lotus/Types/Items/Ferrite".to_string(), 150),
        ]
    );
}

#[test]
fn requirement_ordering_breaks_count_ties_by_identity_key() {
    let recipes = vec![recipe(
        "/R",
        "/T",
        &[("/X", 5), ("/Z", 1), ("/Y", 1)],
    )];
    let db = Data::from_cache(
        vec![],
        vec![],
        vec![],
        recipes,
        vec![],
        vec![],
        vec![],
        vec![],
    )
    .unwrap();
    let reqs = db.requirements(un("/R"));
    let got: Vec<(String, u32)> =
        reqs.iter().map(|(item, count)| (item.as_str().to_string(), count.to_u32())).collect();
    assert_eq!(
        got,
        vec![("/Y".to_string(), 1), ("/Z".to_string(), 1), ("/X".to_string(), 5)]
    );
}

#[test]
fn lookups_by_both_names() {
    let db = sample_store();
    assert_eq!(
        db.resource_common_name(un("/Lotus/Types/Items/Neurode")).unwrap().as_str(),
        "Neurode"
    );
    // case-insensitive on the identity key
    assert_eq!(
        db.resource_common_name(un("/lotus/types/items/NEURODE")).unwrap().as_str(),
        "Neurode"
    );
    assert_eq!(
        db.resource_unique_name(cn("Morphics")).unwrap().as_str(),
        "/Lotus/Types/Items/Morphics"
    );
    assert!(db.resource_common_name(un("/Lotus/Types/Items/Unknown")).is_none());
}

#[test]
fn archwing_marker_is_stripped_from_warframe_names() {
    let db = sample_store();
    assert_eq!(
        db.resource_common_name(un("/Lotus/Types/Powersuits/Odonata")).unwrap().as_str(),
        "Odonata"
    );
}

#[test]
fn recipe_lookup_directions() {
    let db = sample_store();
    let found = db.recipe(un("/Lotus/Types/Recipes/NeuropticsBlueprint")).unwrap();
    assert_eq!(found.as_str(), "/Lotus/Types/Recipes/NeuropticsRecipe");
    let result = db.recipe_result(un("/Lotus/Types/Recipes/NeuropticsRecipe")).unwrap();
    assert_eq!(result.as_str(), "/Lotus/Types/Recipes/NeuropticsBlueprint");
}

#[test]
fn no_recipe_is_a_normal_outcome() {
    let db = sample_store();
    assert!(db.recipe(un("/Lotus/Types/Items/Neurode")).is_none());
    assert!(db.recipes(un("/Lotus/Types/Items/Neurode")).is_empty());
}

#[test]
fn relic_reward_keys_are_normalized_on_ingestion() {
    let db = sample_store();
    // the reward path carried a StoreItems segment; both relics drop the
    // same normalized component key
    let active = db.active_relics(un("/Lotus/Types/Weapons/BratonPrime")).unwrap();
    assert_eq!(active.len(), 1);
    assert_eq!(active[0].name(), "Lith B1");
    assert_eq!(active[0].rarity, Rarity::Rare);
}

#[test]
fn active_and_resurgence_sources_partition() {
    let db = sample_store();
    let comp = un("/Lotus/Types/Weapons/BratonPrime");
    let active = db.active_relics(comp).unwrap();
    let resurgence = db.resurgence_relics(un("/Lotus/Types/Weapons/BratonPrime")).unwrap();
    // Lith B1 is farmable but not in the vendor rotation: only active
    let active_names: Vec<&str> = active.iter().map(|r| r.name()).collect();
    assert_eq!(active_names, vec!["Lith B1"]);
    // Meso B2 is in the vendor rotation but not farmable: only resurgence
    let resurgence_names: Vec<&str> = resurgence.iter().map(|r| r.name()).collect();
    assert_eq!(resurgence_names, vec!["Meso B2"]);
    assert_eq!(resurgence[0].rarity, Rarity::Uncommon);
}

#[test]
fn unrewarded_item_has_two_empty_source_lists() {
    let db = sample_store();
    let active = db.active_relics(un("/Lotus/Types/Items/Neurode")).unwrap();
    let resurgence = db.resurgence_relics(un("/Lotus/Types/Items/Neurode")).unwrap();
    assert!(active.is_empty());
    assert!(resurgence.is_empty());
}

#[test]
fn invasion_membership_is_a_direct_test() {
    let db = sample_store();
    assert!(db.available_from_invasion(un("/Lotus/Types/Items/BossPart")));
    assert!(!db.available_from_invasion(un("/Lotus/Types/Items/Neurode")));
}

#[test]
fn how_many_needed_reads_one_requirement() {
    let db = sample_store();
    let count = db
        ._how_many_needed(
            un("/Lotus/Types/Recipes/NeuropticsRecipe"),
            un("/Lotus/Types/Items/Ferrite"),
        )
        .unwrap();
    assert_eq!(count.to_u32(), 150);
    assert!(db
        ._how_many_needed(
            un("/Lotus/Types/Recipes/NeuropticsRecipe"),
            un("/Lotus/Types/Items/BossPart"),
        )
        .is_none());
}

#[test]
fn zero_ingredient_count_rejects_the_whole_store() {
    let recipes = vec![recipe("/R", "/T", &[("/X", 0)])];
    let err = Data::from_cache(
        vec![],
        vec![],
        vec![],
        recipes,
        vec![],
        vec![],
        vec![],
        vec![],
    );
    match err {
        Err(BuildError::ZeroCount { recipe, item }) => {
            assert_eq!(recipe, "/R");
            assert_eq!(item, "/X");
        },
        other => panic!("expected a zero-count error, got {:?}", other.is_ok()),
    }
}

#[test]
fn arcane_entries_are_not_relics() {
    let arcane = RelicArcane {
        unique_name: "/Lotus/Types/Game/Arcane".to_string(),
        name: "Arcane Grace".to_string(),
        relic_rewards: None,
    };
    assert_eq!(RawRelic::try_from(arcane).unwrap_err(), "Arcane Grace");
    let real = RelicArcane {
        unique_name: "/Lotus/Types/Game/Projections/T1".to_string(),
        name: "Lith C1".to_string(),
        relic_rewards: Some(vec![]),
    };
    assert!(RawRelic::try_from(real).is_ok());
}

#[test]
fn rarity_parses_exactly_the_three_known_texts() {
    assert_eq!(Rarity::try_from("COMMON").unwrap(), Rarity::Common);
    assert_eq!(Rarity::try_from("UNCOMMON").unwrap(), Rarity::Uncommon);
    assert_eq!(Rarity::try_from("RARE").unwrap(), Rarity::Rare);
    let err = Rarity::try_from("LEGENDARY").unwrap_err();
    assert_eq!(err.text, "LEGENDARY");
    assert_eq!(Rarity::Uncommon.as_str(), "UNCOMMON");
}

#[test]
fn duplicate_display_names_resolve_to_the_first_indexed_match() {
    let resources = vec![
        resource("/Lotus/Types/Items/BoltorA", "Boltor"),
        resource("/Lotus/Types/Items/BoltorB", "Boltor"),
    ];
    let db = Data::from_cache(
        resources,
        vec![],
        vec![],
        vec![],
        vec![],
        vec![],
        vec![],
        vec![],
    )
    .unwrap();
    assert_eq!(
        db.resource_unique_name(cn("Boltor")).unwrap().as_str(),
        "/Lotus/Types/Items/BoltorA"
    );
}

#[test]
fn relic_source_lists_are_deduplicated_and_ordered() {
    let resources = vec![resource("/C", "Comp Prime")];
    let relics = vec![
        relic("/Lotus/Types/Game/Projections/T2", "Meso D2", &[("/C", Rarity::Rare)]),
        relic("/Lotus/Types/Game/Projections/T1", "Lith D1", &[("/C", Rarity::Common), ("/C", Rarity::Common)]),
    ];
    let droptable_cells = vec!["Lith D1".to_string(), "Meso D2".to_string()];
    let db = Data::from_cache(
        resources,
        vec![],
        vec![],
        vec![],
        relics,
        droptable_cells,
        vec![],
        vec![],
    )
    .unwrap();
    let active = db.active_relics(un("/C")).unwrap();
    let got: Vec<(String, Rarity)> =
        active.iter().map(|r| (r.name().to_string(), r.rarity)).collect();
    // the duplicate Common reward collapses; names order ascending
    assert_eq!(
        got,
        vec![("Lith D1".to_string(), Rarity::Common), ("Meso D2".to_string(), Rarity::Rare)]
    );
}

#[test]
fn how_many_needed_takes_the_first_matching_row() {
    // two rows for the same (recipe, ingredient) pair: the first row's
    // count wins
    let recipes = vec![recipe("/R", "/T", &[("/X", 7), ("/X", 3)])];
    let db = Data::from_cache(
        vec![],
        vec![],
        vec![],
        recipes,
        vec![],
        vec![],
        vec![],
        vec![],
    )
    .unwrap();
    let count = db._how_many_needed(un("/R"), un("/X")).unwrap();
    assert_eq!(count.to_u32(), 7);
}
