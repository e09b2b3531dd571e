use ferrumcraft::id::NamespacedId;
use ferrumcraft::model::{load_block_models, resolve_faces, BlockModel, Face, ModelError, ALL_FACES};

#[test]
fn fallback_model_has_default_faces() {
    let model = BlockModel::missing();
    for face in &ALL_FACES {
        assert_eq!(model.texture(*face), "");
    }
}

#[test]
fn face_enum_matches_array_order() {
    assert_eq!(Face::Right as usize, 0);
    assert_eq!(Face::Left as usize, 1);
    assert_eq!(Face::Top as usize, 2);
    assert_eq!(Face::Bottom as usize, 3);
    assert_eq!(Face::Front as usize, 4);
    assert_eq!(Face::Back as usize, 5);
}

#[test]
fn cube_all_models_use_the_all_texture_everywhere() {
    let textures = vec![("all".to_string(), "block/stone".to_string())];
    let faces = resolve_faces(&Some("builtin/cube_all".to_string()), &textures).unwrap();
    for face in faces.iter() {
        assert_eq!(face, "block/stone");
    }
    let faces = resolve_faces(&None, &textures).unwrap();
    assert_eq!(faces[3], "block/stone");
    assert_eq!(Face::Top.index(), 2);
}

#[test]
fn unknown_parents_and_missing_textures_are_errors() {
    let textures = vec![("side".to_string(), "block/log".to_string())];
    assert_eq!(
        resolve_faces(&Some("block/cube_column".to_string()), &textures).unwrap_err(),
        ModelError::UnknownParent { parent: "block/cube_column".to_string() }
    );
    assert_eq!(
        resolve_faces(&None, &textures).unwrap_err(),
        ModelError::MissingTexture { key: "all".to_string(), file: "unknown".to_string() }
    );
}

#[test]
fn failed_models_register_as_untextured() {
    let ids = vec![NamespacedId::ferrumcraft("stone").unwrap(), NamespacedId::ferrumcraft("dirt").unwrap()];
    let stone = BlockModel { faces: std::array::from_fn(|_| "block/stone".to_string()) };
    let models = vec![Ok(stone), Err(ModelError::Load { file: "dirt.json".to_string(), detail: "missing".to_string() })];
    let registry = load_block_models(&ids, models);
    assert_eq!(registry.len(), 2);
    assert_eq!(registry.get(&ids[0]).unwrap().texture(Face::Back), "block/stone");
    assert_eq!(registry.get(&ids[1]).unwrap().texture(Face::Top), "");
}
