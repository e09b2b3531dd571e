use ferrumcraft::id::{IdError, NamespacedId};

#[test]
fn parses_explicit_namespace() {
    let id: NamespacedId = "ferrumcraft:stone".parse().unwrap();
    assert_eq!(id.namespace(), "ferrumcraft");
    assert_eq!(id.path(), "stone");
    assert_eq!(id.to_string(), "ferrumcraft:stone");
}

#[test]
fn defaults_missing_namespace_to_ferrumcraft() {
    let id: NamespacedId = "dirt".parse().unwrap();
    assert_eq!(id.to_string(), "ferrumcraft:dirt");
}

#[test]
fn creates_builtin_namespace_ids() {
    let id = NamespacedId::ferrumcraft("grass_block").unwrap();
    assert_eq!(id.to_string(), "ferrumcraft:grass_block");
}

#[test]
fn accepts_resource_paths() {
    let id: NamespacedId = "ferrumcraft:models/block/cube_all".parse().unwrap();
    assert_eq!(id.path(), "models/block/cube_all");
}

#[test]
fn rejects_uppercase_ids() {
    let error = "FerrumCraft:Stone".parse::<NamespacedId>().unwrap_err();
    assert_eq!(error, IdError::InvalidNamespaceCharacter('F'));
}

#[test]
fn rejects_extra_separator() {
    let error = "a:b:c".parse::<NamespacedId>().unwrap_err();
    assert_eq!(error, IdError::TooManySeparators);
}

#[test]
fn rejects_empty_parts_and_bad_path_characters() {
    assert_eq!(NamespacedId::parse_id(":stone").unwrap_err(), IdError::EmptyNamespace);
    assert_eq!(NamespacedId::parse_id("ferrumcraft:").unwrap_err(), IdError::EmptyPath);
    assert_eq!(NamespacedId::parse_id("").unwrap_err(), IdError::EmptyPath);
    assert_eq!(NamespacedId::parse_id("mod:Stone").unwrap_err(), IdError::InvalidPathCharacter('S'));
    assert_eq!(NamespacedId::parse_id("a/b:c").unwrap_err(), IdError::InvalidNamespaceCharacter('/'));
    assert_eq!(NamespacedId::new("Ab", "C").unwrap_err(), IdError::InvalidNamespaceCharacter('A'));
}

#[test]
fn same_compares_both_parts() {
    let a = NamespacedId::parse_id("m:x").unwrap();
    let b = NamespacedId::new("m", "x").unwrap();
    let c = NamespacedId::new("m", "y").unwrap();
    assert!(a.same(&b));
    assert!(!a.same(&c));
    assert_eq!(a.copy(), a);
}

#[test]
fn display_form_parses_back_to_the_identifier() {
    let id = NamespacedId::new("my_mod", "blocks/marble.tile").unwrap();
    let text = id.to_string();
    assert_eq!(text, "my_mod:blocks/marble.tile");
    let back: NamespacedId = text.parse().unwrap();
    assert_eq!(back, id);
    assert_eq!(id.clone(), id);
}
