use solarsim::toml_asset_loader::{
    TomlAssetLoader, TomlAssetLoaderError, TomlNode,
};

fn s(text: &str) -> TomlNode {
    TomlNode::Str(text.to_string())
}

fn table(entries: Vec<(&str, TomlNode)>) -> TomlNode {
    TomlNode::Table(entries.into_iter().map(|(k, v)| (k.to_string(), v)).collect())
}

fn sample_doc() -> TomlNode {
    table(vec![
        ("identifier", s("station_alpha")),
        ("gltf", s("station")),
        (
            "display",
            table(vec![("title", s("Alpha Station")), ("description", s("A station."))]),
        ),
        (
            "localizations",
            TomlNode::Array(vec![
                table(vec![
                    ("culture", s("en-US")),
                    (
                        "entries",
                        TomlNode::Array(vec![
                            table(vec![("key", s("hello")), ("value", s("Hello!"))]),
                            // entry without a value: silently skipped
                            table(vec![("key", s("broken"))]),
                            // entry whose value is not a string: skipped too
                            table(vec![("key", s("pi")), ("value", TomlNode::Other)]),
                        ]),
                    ),
                ]),
                table(vec![("culture", s("de-DE"))]),
            ]),
        ),
    ])
}

#[test]
fn identifier_and_gltf_are_read() {
    let doc = sample_doc();
    assert_eq!(TomlAssetLoader::read_identifier_from_toml(&doc).unwrap(), "station_alpha");
    assert_eq!(TomlAssetLoader::read_gltf_from_toml(&doc).unwrap(), "station");
}

#[test]
fn missing_identifier_is_an_error() {
    let doc = table(vec![("gltf", s("x"))]);
    assert_eq!(
        TomlAssetLoader::read_identifier_from_toml(&doc),
        Err(TomlAssetLoaderError::FailedReadingIdentifierNotFound)
    );
    let doc2 = table(vec![("identifier", TomlNode::Other)]);
    assert_eq!(
        TomlAssetLoader::read_identifier_from_toml(&doc2),
        Err(TomlAssetLoaderError::FailedReadingIdentifierAsNotAString)
    );
    assert_eq!(
        TomlAssetLoader::read_gltf_from_toml(&doc2),
        Err(TomlAssetLoaderError::FailedReadingGltfNotFound)
    );
}

#[test]
fn display_block_defaults_to_empty() {
    let doc = sample_doc();
    let d = TomlAssetLoader::read_display_from_toml(&doc);
    assert_eq!(d.title, "Alpha Station");
    assert_eq!(d.description, "A station.");
    let bare = table(vec![]);
    let d2 = TomlAssetLoader::read_display_from_toml(&bare);
    assert_eq!(d2.title, "");
    assert_eq!(d2.description, "");
}

#[test]
fn localizations_are_read_and_bad_entries_skipped() {
    let doc = sample_doc();
    let locs = TomlAssetLoader::read_localization_from_toml(&doc).unwrap();
    assert_eq!(locs.len(), 2);
    assert_eq!(locs[0].culture, "en-US");
    assert_eq!(locs[0].entries.len(), 1);
    assert_eq!(locs[0].entries[0].key, "hello");
    assert_eq!(locs[0].entries[0].value, "Hello!");
    assert_eq!(locs[1].culture, "de-DE");
    assert_eq!(locs[1].entries.len(), 0);
}

#[test]
fn bad_culture_aborts_the_read() {
    let missing = table(vec![(
        "localizations",
        TomlNode::Array(vec![table(vec![("entries", TomlNode::Array(vec![]))])]),
    )]);
    match TomlAssetLoader::read_localization_from_toml(&missing) {
        Err(TomlAssetLoaderError::OneOrMoreLocalizationsFailedToBeReadAsCultureNotFound) => {}
        _ => panic!("missing culture must abort the read"),
    }
    let wrong_type = table(vec![(
        "localizations",
        TomlNode::Array(vec![table(vec![("culture", TomlNode::Other)])]),
    )]);
    match TomlAssetLoader::read_localization_from_toml(&wrong_type) {
        Err(TomlAssetLoaderError::OneOrMoreLocalizationsFailedToBeReadAsCultureIsNotAString) => {}
        _ => panic!("non-string culture must abort the read"),
    }
}

#[test]
fn absent_localizations_yield_no_blocks() {
    let doc = table(vec![("identifier", s("x"))]);
    let locs = TomlAssetLoader::read_localization_from_toml(&doc).unwrap();
    assert_eq!(locs.len(), 0);
}
