//! The resolver layer: feed parsers, recipes, requirements, and tracked
//! items.
use recipe_tracker::cache::droptable::active_relics;
use recipe_tracker::cache::droptable::is_relic;
use recipe_tracker::cache::recipes::Ingredient;
use recipe_tracker::cache::recipes::Recipe as RawRecipe;
use recipe_tracker::cache::relics::Relic as RawRelic;
use recipe_tracker::cache::relics::Reward;
use recipe_tracker::cache::resources::Resource;
use recipe_tracker::cache::worldstate::invasions;
use recipe_tracker::cache::worldstate::resurgence_relics;
use recipe_tracker::cache::worldstate::CountedItem;
use recipe_tracker::cache::worldstate::Invasion;
use recipe_tracker::cache::worldstate::RewardOrEmptyVec;
use recipe_tracker::item_view::ItemView;
use recipe_tracker::recipe::Recipe;
use recipe_tracker::recipe::ResolveError;
use recipe_tracker::relic::Rarity;
use recipe_tracker::requirement::Requirement;
use recipe_tracker::structures::types::CommonName;
use recipe_tracker::structures::types::UniqueName;
use recipe_tracker::structures::Data;
use recipe_tracker::tracking::TrackedItem;

fn un(s: &str) -> UniqueName {
    UniqueName::new(s.to_string())
}

fn store() -> Data {
    let resources = vec![
        Resource {
            unique_name: "/Lotus/Types/Items/Neurode".to_string(),
            name: "Neurode".to_string(),
        },
        Resource {
            unique_name: "/Lotus/Types/Items/Morphics".to_string(),
            name: "Morphics".to_string(),
        },
        Resource {
            unique_name: "/Lotus/Types/Items/Ferrite".to_string(),
            name: "Ferrite".to_string(),
        },
        Resource {
            unique_name: "/Lotus/Types/Items/NeuropticsBlueprint".to_string(),
            name: "Neuroptics".to_string(),
        },
        Resource {
            unique_name: "/Lotus/Types/Weapons/BratonPrime".to_string(),
            name: "Braton Prime".to_string(),
        },
    ];
    let recipes = vec![
        RawRecipe {
            unique_name: "/Lotus/Types/Recipes/NeuropticsRecipe".to_string(),
            result_type: "/Lotus/Types/Items/NeuropticsBlueprint".to_string(),
            ingredients: vec![
                Ingredient {
                    item_type: "/Lotus/Types/Items/Neurode".to_string(),
                    item_count: 5,
                },
                Ingredient {
                    item_type: "/Lotus/Types/Items/Morphics".to_string(),
                    item_count: 2,
                },
                Ingredient {
                    item_type: "/Lotus/Types/Items/Ferrite".to_string(),
                    item_count: 150,
                },
            ],
        },
        RawRecipe {
            unique_name: "/Lotus/Types/Recipes/BratonPrimeRecipe".to_string(),
            result_type: "/Lotus/Types/Weapons/BratonPrime".to_string(),
            ingredients: vec![Ingredient {
                item_type: "/Lotus/Types/Items/Ferrite".to_string(),
                item_count: 10,
            }],
        },
    ];
    let relics = vec![RawRelic {
        unique_name: "/Lotus/Types/Game/Projections/T1Lith".to_string(),
        name: "Lith B1".to_string(),
        relic_rewards: vec![Reward {
            reward_name: "/Lotus/StoreItems/Types/Recipes/BratonPrimeRecipe".to_string(),
            rarity: Rarity::Rare,
        }],
    }];
    let droptable_cells = vec!["Lith B1".to_string()];
    Data::from_cache(
        resources,
        vec![],
        vec![],
        recipes,
        relics,
        droptable_cells,
        vec![],
        vec![],
    )
    .unwrap()
}

#[test]
fn craftable_chain_resolves_exactly_and_in_order() {
    let db = store();
    let item = TrackedItem::new(&db, un("/Lotus/Types/Items/NeuropticsBlueprint")).unwrap();
    assert_eq!(item.common_name(), "Neuroptics");
    let recipes = item.recipes();
    assert_eq!(recipes.len(), 1);
    let (recipe, components) = &recipes[0];
    assert_eq!(recipe.common_name().as_str(), "Neuroptics Blueprint");
    let got: Vec<(String, u32)> = components
        .iter()
        .map(|(req, count)| (req.common_name().as_str().to_string(), count.to_u32()))
        .collect();
    assert_eq!(
        got,
        vec![
            ("Morphics".to_string(), 2),
            ("Neurode".to_string(), 5),
            ("Ferrite".to_string(), 150),
        ]
    );
}

#[test]
fn raw_resource_resolves_as_not_craftable_component() {
    let db = store();
    // a raw resource with no recipe row is a normal outcome, not an error
    let req = Requirement::new(un("/Lotus/Types/Items/Neurode"), &db).unwrap();
    assert_eq!(req.common_name().as_str(), "Neurode");
    assert!(req.active_relics().is_empty());
    assert!(!req.available_from_invasion());
    assert!(db.recipe(un("/Lotus/Types/Items/Neurode")).is_none());
}

#[test]
fn tracking_an_uncraftable_item_reports_not_craftable() {
    let db = store();
    match TrackedItem::new(&db, un("/Lotus/Types/Items/Neurode")) {
        Err(ResolveError::NotCraftable { unique_name }) => {
            assert_eq!(unique_name, "/Lotus/Types/Items/Neurode");
        },
        other => panic!("expected not-craftable, got ok={}", other.is_ok()),
    }
}

#[test]
fn tracking_an_unknown_item_reports_missing_name() {
    let db = store();
    assert!(matches!(
        TrackedItem::new(&db, un("/Lotus/Types/Items/Nowhere")),
        Err(ResolveError::CommonNameMissing { .. })
    ));
}

#[test]
fn prime_recipe_carries_its_relic_sources() {
    let db = store();
    let recipe = Recipe::new(&db, un("/Lotus/Types/Recipes/BratonPrimeRecipe")).unwrap();
    assert_eq!(recipe.common_name().as_str(), "Braton Prime Blueprint");
    let active = recipe.active_relics();
    assert_eq!(active.len(), 1);
    assert_eq!(active[0].name(), "Lith B1");
    assert_eq!(active[0].rarity, Rarity::Rare);
    assert!(recipe.resurgence_relics().is_empty());
    assert!(!recipe.available_from_invasion());
}

#[test]
fn normal_recipe_reads_the_invasion_flag() {
    let db = store();
    let recipe = Recipe::with_common_name(
        &db,
        un("/Lotus/Types/Recipes/NeuropticsRecipe"),
        CommonName::new("Neuroptics Blueprint".to_string()),
    );
    assert!(recipe.active_relics().is_empty());
    assert!(!recipe.available_from_invasion());
}

#[test]
fn recipe_for_unknown_key_reports_missing_result() {
    let db = store();
    assert!(matches!(
        Recipe::new(&db, un("/Lotus/Types/Recipes/Nowhere")),
        Err(ResolveError::RecipeResultMissing { .. })
    ));
}

#[test]
fn droptable_cells_filter_to_era_prefixes() {
    assert!(is_relic("Lith A1"));
    assert!(is_relic("Meso C3"));
    assert!(is_relic("Neo N1"));
    assert!(is_relic("Axi V9"));
    assert!(!is_relic("Rotation A"));
    let cells = vec![
        "Axi V9 (Radiant)".to_string(),
        "150 Endo".to_string(),
        "Meso C3".to_string(),
    ];
    let relics = active_relics(&cells);
    assert_eq!(relics, vec!["Axi V9".to_string(), "Meso C3".to_string()]);
}

#[test]
fn vendor_manifest_filters_to_projection_paths() {
    let paths = vec![
        "/Lotus/StoreItems/Types/Game/Projections/T3Neo".to_string(),
        "/Lotus/StoreItems/Types/Weapons/SomeGun".to_string(),
    ];
    let relics = resurgence_relics(&paths);
    assert_eq!(relics, vec!["/Lotus/Types/Game/Projections/T3Neo".to_string()]);
}

#[test]
fn invasion_rewards_flatten_both_sides_and_tolerate_empty_lists() {
    let feed = vec![
        Invasion {
            attacker_reward: RewardOrEmptyVec::Reward(
                recipe_tracker::cache::worldstate::Reward {
                    counted_items: vec![CountedItem { item_type: "/A".to_string() }],
                },
            ),
            defender_reward: RewardOrEmptyVec::EmptyVec,
        },
        Invasion {
            attacker_reward: RewardOrEmptyVec::EmptyVec,
            defender_reward: RewardOrEmptyVec::Reward(
                recipe_tracker::cache::worldstate::Reward {
                    counted_items: vec![
                        CountedItem { item_type: "/B".to_string() },
                        CountedItem { item_type: "/C".to_string() },
                    ],
                },
            ),
        },
    ];
    assert_eq!(invasions(feed), vec!["/A".to_string(), "/B".to_string(), "/C".to_string()]);
}

#[test]
fn empty_reward_variant_yields_no_items() {
    let reward = RewardOrEmptyVec::EmptyVec.into_reward();
    assert!(reward.counted_items.is_empty());
}
