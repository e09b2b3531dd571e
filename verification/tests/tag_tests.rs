use ferrumcraft::id::NamespacedId;
use ferrumcraft::tag::{load_tag, Tag};

#[test]
fn empty_tag_contains_nothing() {
    let tag = Tag::new();
    let id: NamespacedId = "ferrumcraft:stone".parse().unwrap();
    assert!(!tag.contains(&id));
}

#[test]
fn tag_contains_registered_ids() {
    let values = vec!["ferrumcraft:stone".parse().unwrap(), "ferrumcraft:dirt".parse().unwrap()];
    let tag = Tag::from_ids(values);
    assert!(tag.contains(&"ferrumcraft:stone".parse().unwrap()));
    assert!(tag.contains(&"ferrumcraft:dirt".parse().unwrap()));
    assert!(!tag.contains(&"ferrumcraft:air".parse().unwrap()));
}

#[test]
fn loading_a_tag_skips_invalid_and_repeated_ids() {
    let raw = vec![
        "stone".to_string(),
        "ferrumcraft:stone".to_string(),
        "Bad:Id".to_string(),
        "mod:ore".to_string(),
    ];
    let tag = load_tag(&raw);
    assert_eq!(tag.len(), 2);
    assert!(tag.contains(&NamespacedId::ferrumcraft("stone").unwrap()));
    assert!(tag.contains(&NamespacedId::new("mod", "ore").unwrap()));
}

#[test]
fn inserting_reports_new_ids() {
    let mut tag = Tag::new();
    assert!(tag.insert(NamespacedId::ferrumcraft("a").unwrap()));
    assert!(!tag.insert(NamespacedId::ferrumcraft("a").unwrap()));
    assert_eq!(tag.len(), 1);
}
