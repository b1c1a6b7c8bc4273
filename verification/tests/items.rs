//! The exact-match item index where the latest row for a key wins.
use recipe_tracker::structures::items::Items;
use recipe_tracker::structures::types::CommonName;
use recipe_tracker::structures::types::UniqueName;

fn un(s: &str) -> UniqueName {
    UniqueName::new(s.to_string())
}

fn cn(s: &str) -> CommonName {
    CommonName::new(s.to_string())
}

#[test]
fn fetch_by_both_names() {
    let mut items = Items::new();
    items.add(un("/Lotus/Types/Items/Neurode"), cn("Neurode"));
    items.add(un("/Lotus/Types/Items/Morphics"), cn("Morphics"));
    assert_eq!(
        items.fetch_by_unique_name(un("/Lotus/Types/Items/Neurode")).unwrap().as_str(),
        "Neurode"
    );
    assert_eq!(
        items.fetch_by_common_name(cn("Morphics")).unwrap().as_str(),
        "/Lotus/Types/Items/Morphics"
    );
    assert!(items.fetch_by_unique_name(un("/Lotus/Types/Items/Nowhere")).is_none());
    assert!(items.fetch_by_common_name(cn("Nowhere")).is_none());
}

#[test]
fn re_adding_a_key_supersedes_the_earlier_row() {
    let mut items = Items::new();
    items.add(un("/Lotus/Types/Items/Neurode"), cn("Neurode"));
    items.add(un("/Lotus/Types/Items/Neurode"), cn("Neural Sensor"));
    assert_eq!(
        items.fetch_by_unique_name(un("/Lotus/Types/Items/Neurode")).unwrap().as_str(),
        "Neural Sensor"
    );
}
