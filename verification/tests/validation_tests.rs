use ferrumcraft::id::NamespacedId;
use ferrumcraft::model::BlockModel;
use ferrumcraft::registry::Registry;
use ferrumcraft::validation::validate_data;

fn id(path: &str) -> NamespacedId {
    NamespacedId::ferrumcraft(path).unwrap()
}

fn model(faces: [&str; 6]) -> BlockModel {
    BlockModel { faces: faces.map(|f| f.to_string()) }
}

#[test]
fn blocks_other_than_air_need_a_model() {
    let mut models = Registry::new();
    models.register(id("stone"), model(["block/stone"; 6]));
    let ids = vec![id("air"), id("stone"), id("dirt"), id("sand")];
    let report = validate_data(&ids, &models);
    assert_eq!(report.blocks_without_model, vec![id("dirt"), id("sand")]);
}

#[test]
fn texture_paths_are_distinct_and_skip_empty_faces() {
    let mut models = Registry::new();
    models.register(id("stone"), model(["block/stone"; 6]));
    models.register(
        id("grass_block"),
        model(["block/grass_side", "block/grass_side", "block/grass_top", "block/dirt", "", ""]),
    );
    models.register(id("dirt"), model(["block/dirt"; 6]));
    let report = validate_data(&vec![id("stone"), id("grass_block"), id("dirt")], &models);
    assert!(report.blocks_without_model.is_empty());
    assert_eq!(
        report.texture_paths,
        vec!["block/stone", "block/grass_side", "block/grass_top", "block/dirt"]
    );
}
