use ferrumcraft::resource::{ResourceCategory, ResourceDomain, ResourceManager};

#[test]
fn builds_asset_path() {
    let manager = ResourceManager::new("/tmp/game");
    let path = manager.path("ferrumcraft", ResourceCategory::Lang, "en_us.json");
    assert!(path.ends_with("assets/ferrumcraft/lang/en_us.json"));
    assert_eq!(path, "/tmp/game/assets/ferrumcraft/lang/en_us.json");
}

#[test]
fn builds_data_path() {
    let manager = ResourceManager::new("game/");
    let path = manager.path("ferrumcraft", ResourceCategory::Recipe, "planks.json");
    assert_eq!(path, "game/data/ferrumcraft/recipes/planks.json");
    let bare = ResourceManager::new("");
    assert_eq!(bare.path("m", ResourceCategory::BlockTag, "solid.json"), "data/m/tags/blocks/solid.json");
}

#[test]
fn categories_know_their_tree() {
    assert_eq!(ResourceCategory::Font.domain(), ResourceDomain::Assets);
    assert_eq!(ResourceCategory::LootTable.domain(), ResourceDomain::Data);
    assert_eq!(ResourceCategory::BlockModel.relative_path(), "models/block");
    assert_eq!(ResourceCategory::Font.relative_path(), "font");
}

#[test]
fn absolute_file_name_replaces_the_resource_directory() {
    let manager = ResourceManager::new("/tmp/game");
    assert_eq!(manager.path("m", ResourceCategory::Lang, "/etc/lang.json"), "/etc/lang.json");
    assert_eq!(manager.path("/abs", ResourceCategory::Font, "default.json"), "/abs/font/default.json");
}
