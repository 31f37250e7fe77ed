use assuo::engine::do_patch;
use assuo::errors::{DocumentError, ResolutionError};
use assuo::models::{AssuoFile, AssuoPatch, AssuoSource, Direction};
use assuo::parse::ConfigValue;

fn entry(key: &str, value: ConfigValue) -> (String, ConfigValue) {
    (key.to_string(), value)
}

fn text(s: &str) -> ConfigValue {
    ConfigValue::Text(s.to_string())
}

fn source_table(kind: &str, value: &str) -> ConfigValue {
    ConfigValue::Table(vec![entry(kind, text(value))])
}

fn insert_patch(way: &str, spot: i64, source: ConfigValue) -> ConfigValue {
    ConfigValue::Table(vec![
        entry("do", text("insert")),
        entry("way", text(way)),
        entry("spot", ConfigValue::Integer(spot)),
        entry("source", source),
    ])
}

fn remove_patch(way: &str, spot: i64, count: i64) -> ConfigValue {
    ConfigValue::Table(vec![
        entry("do", text("remove")),
        entry("way", text(way)),
        entry("spot", ConfigValue::Integer(spot)),
        entry("count", ConfigValue::Integer(count)),
    ])
}

#[test]
fn resolve_bytes_is_pure() {
    let a = AssuoSource::Bytes(vec![1, 2, 3]);
    let b = AssuoSource::Bytes(vec![1, 2, 3]);
    assert_eq!(a.resolve(), Ok(vec![1, 2, 3]));
    assert_eq!(b.resolve(), Ok(vec![1, 2, 3]));
}

#[test]
fn resolve_text_is_pure_and_utf8() {
    let a = AssuoSource::Text("héllo".to_string());
    let b = AssuoSource::Text("héllo".to_string());
    let first = a.resolve().unwrap();
    assert_eq!(first, "héllo".as_bytes().to_vec());
    assert_eq!(b.resolve().unwrap(), first);
}

#[test]
fn resolve_outside_sources_is_unsupported() {
    assert_eq!(
        AssuoSource::Url("https://example.invalid".to_string()).resolve(),
        Err(ResolutionError::Unsupported)
    );
    assert_eq!(
        AssuoSource::File("patch.bin".to_string()).resolve(),
        Err(ResolutionError::Unsupported)
    );
    assert_eq!(
        AssuoSource::AssuoUrl("https://example.invalid".to_string()).resolve(),
        Err(ResolutionError::Unsupported)
    );
    assert_eq!(
        AssuoSource::AssuoFile("other.toml".to_string()).resolve(),
        Err(ResolutionError::Unsupported)
    );
}

#[test]
fn patch_resolve_keeps_way_spot_and_count() {
    let insert = AssuoPatch::<AssuoSource>::Insert {
        way: Direction::Post,
        spot: 3,
        source: AssuoSource::Text("ab".to_string()),
    };
    assert_eq!(
        insert.resolve(),
        Ok(AssuoPatch::<Vec<u8>>::Insert { way: Direction::Post, spot: 3, source: b"ab".to_vec() })
    );
    let remove = AssuoPatch::<AssuoSource>::Remove { way: Direction::Pre, spot: 9, count: 4 };
    assert_eq!(
        remove.resolve(),
        Ok(AssuoPatch::<Vec<u8>>::Remove { way: Direction::Pre, spot: 9, count: 4 })
    );
}

#[test]
fn file_resolve_keeps_edit_list() {
    let file = AssuoFile::<AssuoSource> {
        source: AssuoSource::Bytes(vec![5]),
        patch: Some(vec![AssuoPatch::Remove { way: Direction::Post, spot: 0, count: 0 }]),
    };
    let resolved = file.resolve().unwrap();
    assert_eq!(resolved.source, vec![5]);
    assert_eq!(
        resolved.patch,
        Some(vec![AssuoPatch::Remove { way: Direction::Post, spot: 0, count: 0 }])
    );
}

#[test]
fn parse_full_document() {
    let doc = ConfigValue::Table(vec![
        entry("source", source_table("text", "Hello!")),
        entry(
            "patch",
            ConfigValue::Array(vec![insert_patch("post", 4, source_table("text", ", World"))]),
        ),
    ]);
    let file = AssuoFile::<AssuoSource>::from_config(doc).unwrap();
    assert_eq!(
        file,
        AssuoFile::<AssuoSource> {
            source: AssuoSource::Text("Hello!".to_string()),
            patch: Some(vec![AssuoPatch::Insert {
                way: Direction::Post,
                spot: 4,
                source: AssuoSource::Text(", World".to_string()),
            }]),
        }
    );
}

#[test]
fn parsed_document_patches_to_hello_world() {
    let doc = ConfigValue::Table(vec![
        entry("source", source_table("text", "Hello!")),
        entry(
            "patch",
            ConfigValue::Array(vec![insert_patch("post", 4, source_table("text", ", World"))]),
        ),
    ]);
    let file = AssuoFile::<AssuoSource>::from_config(doc).unwrap();
    assert_eq!(do_patch(file), Ok(b"Hello, World!".to_vec()));
}

#[test]
fn parse_document_without_patch_list() {
    let doc = ConfigValue::Table(vec![entry("source", source_table("text", "hi"))]);
    let file = AssuoFile::<AssuoSource>::from_config(doc).unwrap();
    assert_eq!(file.source, AssuoSource::Text("hi".to_string()));
    assert_eq!(file.patch, None);
}

#[test]
fn parse_source_kinds() {
    assert_eq!(
        AssuoSource::from_config(source_table("url", "u")),
        Ok(AssuoSource::Url("u".to_string()))
    );
    assert_eq!(
        AssuoSource::from_config(source_table("file", "f")),
        Ok(AssuoSource::File("f".to_string()))
    );
    assert_eq!(
        AssuoSource::from_config(source_table("assuo-url", "au")),
        Ok(AssuoSource::AssuoUrl("au".to_string()))
    );
    assert_eq!(
        AssuoSource::from_config(source_table("assuo-file", "af")),
        Ok(AssuoSource::AssuoFile("af".to_string()))
    );
}

#[test]
fn parse_source_bytes_array() {
    let src = ConfigValue::Table(vec![entry(
        "bytes",
        ConfigValue::Array(vec![
            ConfigValue::Integer(0),
            ConfigValue::Integer(128),
            ConfigValue::Integer(255),
        ]),
    )]);
    assert_eq!(AssuoSource::from_config(src), Ok(AssuoSource::Bytes(vec![0, 128, 255])));
}

#[test]
fn parse_source_byte_out_of_range() {
    let src = ConfigValue::Table(vec![entry(
        "bytes",
        ConfigValue::Array(vec![ConfigValue::Integer(256)]),
    )]);
    assert_eq!(AssuoSource::from_config(src), Err(DocumentError::ByteOutOfRange));
    let neg = ConfigValue::Table(vec![entry(
        "bytes",
        ConfigValue::Array(vec![ConfigValue::Integer(-1)]),
    )]);
    assert_eq!(AssuoSource::from_config(neg), Err(DocumentError::ByteOutOfRange));
}

#[test]
fn parse_source_byte_not_integer() {
    let src = ConfigValue::Table(vec![entry("bytes", ConfigValue::Array(vec![text("x")]))]);
    assert_eq!(AssuoSource::from_config(src), Err(DocumentError::ByteNotInteger));
}

#[test]
fn parse_source_array_under_wrong_key() {
    let src = ConfigValue::Table(vec![entry("text", ConfigValue::Array(vec![]))]);
    assert_eq!(AssuoSource::from_config(src), Err(DocumentError::ArrayNotBytes));
}

#[test]
fn parse_source_unknown_kind() {
    assert_eq!(
        AssuoSource::from_config(source_table("something", "x")),
        Err(DocumentError::UnknownSourceKind)
    );
}

#[test]
fn parse_source_must_be_single_entry() {
    let src = ConfigValue::Table(vec![entry("text", text("a")), entry("url", text("b"))]);
    assert_eq!(AssuoSource::from_config(src), Err(DocumentError::SourceNotSingleEntry));
    assert_eq!(
        AssuoSource::from_config(ConfigValue::Table(vec![])),
        Err(DocumentError::SourceNotSingleEntry)
    );
}

#[test]
fn parse_source_bad_value_kind() {
    let src = ConfigValue::Table(vec![entry("text", ConfigValue::Integer(3))]);
    assert_eq!(AssuoSource::from_config(src), Err(DocumentError::BadSourceValue));
}

#[test]
fn parse_source_not_table() {
    assert_eq!(AssuoSource::from_config(text("x")), Err(DocumentError::NotTable));
}

#[test]
fn parse_patch_action_any_ascii_case() {
    let patch = ConfigValue::Table(vec![
        entry("do", text("InSeRt")),
        entry("way", text("pre")),
        entry("spot", ConfigValue::Integer(0)),
        entry("source", source_table("text", "x")),
    ]);
    assert_eq!(
        AssuoPatch::<AssuoSource>::from_config(patch),
        Ok(AssuoPatch::Insert {
            way: Direction::Pre,
            spot: 0,
            source: AssuoSource::Text("x".to_string()),
        })
    );
    let patch = remove_patch("post", 1, 2);
    assert_eq!(
        AssuoPatch::<AssuoSource>::from_config(patch),
        Ok(AssuoPatch::Remove { way: Direction::Post, spot: 1, count: 2 })
    );
}

#[test]
fn parse_patch_errors() {
    let missing_do = ConfigValue::Table(vec![entry("way", text("pre"))]);
    assert_eq!(
        AssuoPatch::<AssuoSource>::from_config(missing_do),
        Err(DocumentError::MissingAction)
    );

    let bad_do = ConfigValue::Table(vec![entry("do", ConfigValue::Integer(1))]);
    assert_eq!(
        AssuoPatch::<AssuoSource>::from_config(bad_do),
        Err(DocumentError::ActionNotString)
    );

    let unknown_do = ConfigValue::Table(vec![entry("do", text("replace"))]);
    assert_eq!(
        AssuoPatch::<AssuoSource>::from_config(unknown_do),
        Err(DocumentError::UnknownAction)
    );

    let missing_way = ConfigValue::Table(vec![entry("do", text("remove"))]);
    assert_eq!(
        AssuoPatch::<AssuoSource>::from_config(missing_way),
        Err(DocumentError::MissingWay)
    );

    let bad_way = ConfigValue::Table(vec![
        entry("do", text("remove")),
        entry("way", ConfigValue::Integer(0)),
    ]);
    assert_eq!(
        AssuoPatch::<AssuoSource>::from_config(bad_way),
        Err(DocumentError::WayNotString)
    );

    let unknown_way = ConfigValue::Table(vec![
        entry("do", text("remove")),
        entry("way", text("sideways")),
    ]);
    assert_eq!(
        AssuoPatch::<AssuoSource>::from_config(unknown_way),
        Err(DocumentError::UnknownWay)
    );

    let missing_spot = ConfigValue::Table(vec![
        entry("do", text("remove")),
        entry("way", text("post")),
    ]);
    assert_eq!(
        AssuoPatch::<AssuoSource>::from_config(missing_spot),
        Err(DocumentError::MissingSpot)
    );

    let bad_spot = ConfigValue::Table(vec![
        entry("do", text("remove")),
        entry("way", text("post")),
        entry("spot", text("four")),
    ]);
    assert_eq!(
        AssuoPatch::<AssuoSource>::from_config(bad_spot),
        Err(DocumentError::SpotNotInteger)
    );

    assert_eq!(
        AssuoPatch::<AssuoSource>::from_config(remove_patch("post", -1, 0)),
        Err(DocumentError::SpotOutOfRange)
    );

    let missing_source = ConfigValue::Table(vec![
        entry("do", text("insert")),
        entry("way", text("post")),
        entry("spot", ConfigValue::Integer(0)),
    ]);
    assert_eq!(
        AssuoPatch::<AssuoSource>::from_config(missing_source),
        Err(DocumentError::MissingSource)
    );

    let missing_count = ConfigValue::Table(vec![
        entry("do", text("remove")),
        entry("way", text("post")),
        entry("spot", ConfigValue::Integer(0)),
    ]);
    assert_eq!(
        AssuoPatch::<AssuoSource>::from_config(missing_count),
        Err(DocumentError::MissingCount)
    );

    let bad_count = ConfigValue::Table(vec![
        entry("do", text("remove")),
        entry("way", text("post")),
        entry("spot", ConfigValue::Integer(0)),
        entry("count", text("three")),
    ]);
    assert_eq!(
        AssuoPatch::<AssuoSource>::from_config(bad_count),
        Err(DocumentError::CountNotInteger)
    );

    assert_eq!(
        AssuoPatch::<AssuoSource>::from_config(remove_patch("post", 0, -2)),
        Err(DocumentError::CountOutOfRange)
    );

    assert_eq!(
        AssuoPatch::<AssuoSource>::from_config(ConfigValue::Integer(7)),
        Err(DocumentError::NotTable)
    );
}

#[test]
fn parse_document_errors() {
    assert_eq!(
        AssuoFile::<AssuoSource>::from_config(ConfigValue::Other),
        Err(DocumentError::NotTable)
    );

    let no_source = ConfigValue::Table(vec![entry("patch", ConfigValue::Array(vec![]))]);
    assert_eq!(
        AssuoFile::<AssuoSource>::from_config(no_source),
        Err(DocumentError::MissingBase)
    );

    let bad_patch = ConfigValue::Table(vec![
        entry("source", source_table("text", "x")),
        entry("patch", text("nope")),
    ]);
    assert_eq!(
        AssuoFile::<AssuoSource>::from_config(bad_patch),
        Err(DocumentError::PatchListNotArray)
    );
}

#[test]
fn parse_document_ignores_unknown_entries() {
    let doc = ConfigValue::Table(vec![
        entry("comment", text("irrelevant")),
        entry("source", source_table("text", "ok")),
    ]);
    let file = AssuoFile::<AssuoSource>::from_config(doc).unwrap();
    assert_eq!(file.source, AssuoSource::Text("ok".to_string()));
}

#[test]
fn parse_takes_first_entry_for_a_key() {
    let doc = ConfigValue::Table(vec![
        entry("source", source_table("text", "first")),
        entry("source", source_table("text", "second")),
    ]);
    let file = AssuoFile::<AssuoSource>::from_config(doc).unwrap();
    assert_eq!(file.source, AssuoSource::Text("first".to_string()));
}
