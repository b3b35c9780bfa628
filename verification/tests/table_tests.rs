use localize::language::{LanguageTag, DEFAULT_LANGUAGE};
use localize::table::StringTable;

fn tag(text: &str) -> LanguageTag {
    LanguageTag::parse(text).unwrap()
}

fn entry(id: &str, templates: &[(&str, &str)]) -> (String, Vec<(LanguageTag, String)>) {
    (
        id.to_string(),
        templates
            .iter()
            .map(|(language, template)| (tag(language), template.to_string()))
            .collect(),
    )
}

fn table_from_json(text: &str) -> StringTable {
    let value: serde_json::Value = serde_json::from_str(text).unwrap();
    let mut entries = Vec::new();
    for (id, inner) in value.as_object().unwrap() {
        let mut templates = Vec::new();
        for (language, template) in inner.as_object().unwrap() {
            templates.push((tag(language), template.as_str().unwrap().to_string()));
        }
        entries.push((id.clone(), templates));
    }
    StringTable::new(&entries)
}

#[test]
fn config_test_stringtable_from_json() {
    let stringtable = table_from_json(
        r#"{
            "string1": {
                "en": "hello",
                "fr": "bonjour",
                "zh-CN": "你好"
            },
            "string2": {
                "en": "world",
                "fr": "monde",
                "zh-CN": "世界"
            },
            "string3": {}
        }"#,
    );

    assert_eq!(
        stringtable.get("string1", &tag("en")),
        Some("hello".to_string())
    );
    assert_eq!(
        stringtable.get("string1", &tag("fr")),
        Some("bonjour".to_string())
    );
    assert_eq!(
        stringtable.get("string1", &tag("de")),
        Some("hello".to_string())
    );
    assert_eq!(stringtable.get("string3", &tag("de")), None);
    assert_eq!(
        stringtable.get("string2", &tag("zh-CN")),
        Some("世界".to_string())
    );
}

#[test]
fn config_test_stringtable_get() {
    let map = vec![
        entry("string1", &[("en", "hello"), ("fr", "bonjour")]),
        entry("string2", &[]),
    ];

    let stringtable = StringTable::new(&map);

    assert_eq!(
        stringtable.get("string1", &tag("en")),
        Some("hello".to_string())
    );
    assert_eq!(
        stringtable.get("string1", &tag("fr")),
        Some("bonjour".to_string())
    );
    assert_eq!(stringtable.get("string2", &tag("en")), None);
    assert_eq!(
        stringtable.get("string1", &tag("de")),
        Some("hello".to_string())
    );
}

#[test]
fn stringtable_test_stringtable_from_json() {
    let stringtable = table_from_json(
        r#"{
            "string1": {
                "en": "hello",
                "fr": "bonjour"
            },
            "string2": {
                "en": "world",
                "fr": "monde"
            },
            "string3": {}
        }"#,
    );

    assert_eq!(
        stringtable.get("string1", &tag("en")),
        Some("hello".to_string())
    );
    assert_eq!(
        stringtable.get("string1", &tag("fr")),
        Some("bonjour".to_string())
    );
    assert_eq!(
        stringtable.get("string1", &tag("de")),
        Some("hello".to_string())
    );
    assert_eq!(stringtable.get("string3", &tag("de")), None);
}

#[test]
fn stringtable_test_stringtable_get() {
    let map = vec![
        entry("string1", &[("en", "hello"), ("fr", "bonjour")]),
        entry("string2", &[]),
    ];

    let stringtable = StringTable::new(&map);

    assert_eq!(
        stringtable.get("string1", &tag("en")),
        Some("hello".to_string())
    );
    assert_eq!(
        stringtable.get("string1", &tag("fr")),
        Some("bonjour".to_string())
    );
    assert_eq!(stringtable.get("string2", &tag("en")), None);
    assert_eq!(
        stringtable.get("string1", &tag("de")),
        Some("hello".to_string())
    );
}

#[test]
fn get_prefers_the_requested_language() {
    let table = StringTable::new(&vec![entry("greeting", &[("en", "hello"), ("fr", "bonjour")])]);
    assert_eq!(table.get("greeting", &tag("fr")), Some("bonjour".to_string()));
    assert_eq!(table.get("greeting", &tag("en")), Some("hello".to_string()));
}

#[test]
fn get_falls_back_to_the_default_language() {
    let table = StringTable::new(&vec![entry("greeting", &[("en", "hello"), ("fr", "bonjour")])]);
    assert_eq!(table.get("greeting", &tag("ja")), Some("hello".to_string()));
}

#[test]
fn get_of_unknown_id_is_none_in_every_language() {
    let table = StringTable::new(&vec![entry("greeting", &[("en", "hello")])]);
    for language in ["en", "fr", "de", "zh-CN"] {
        assert_eq!(table.get("farewell", &tag(language)), None);
    }
    let empty = StringTable::new(&Vec::new());
    assert_eq!(empty.get("greeting", &tag("en")), None);
}

#[test]
fn get_of_id_without_templates_is_none_in_every_language() {
    let table = StringTable::new(&vec![entry("greeting", &[])]);
    for language in ["en", "fr", "de", "zh-CN"] {
        assert_eq!(table.get("greeting", &tag(language)), None);
    }
}

#[test]
fn get_has_no_fallback_behind_the_default() {
    let table = StringTable::new(&vec![entry("greeting", &[("fr", "bonjour")])]);
    assert_eq!(table.get("greeting", &tag("en")), None);
    assert_eq!(table.get("greeting", &tag("de")), None);
    assert_eq!(table.get("greeting", &tag("fr")), Some("bonjour".to_string()));
}

#[test]
fn get_never_relaxes_subtags() {
    let table = StringTable::new(&vec![
        entry("a", &[("zh-CN", "你好")]),
        entry("b", &[("zh", "你好")]),
    ]);
    assert_eq!(table.get("a", &tag("zh")), None);
    assert_eq!(table.get("b", &tag("zh-CN")), None);
    assert_eq!(table.get("a", &tag("zh-CN")), Some("你好".to_string()));
}

#[test]
fn get_with_fallback_uses_the_given_fallback() {
    let table = StringTable::new(&vec![entry("greeting", &[("en", "hello"), ("fr", "bonjour")])]);
    let fr = tag("fr");
    assert_eq!(
        table.get_with_fallback("greeting", &tag("de"), Some(&fr)),
        Some("bonjour".to_string())
    );
    assert_eq!(table.get_with_fallback("greeting", &tag("de"), None), None);
    assert_eq!(
        table.get_with_fallback("greeting", &tag("en"), None),
        Some("hello".to_string())
    );
    assert_eq!(table.get_with_fallback("other", &tag("en"), Some(&fr)), None);
}

#[test]
fn new_lets_the_later_entry_win() {
    let table = StringTable::new(&vec![
        entry("greeting", &[("en", "hello"), ("en", "hi")]),
        entry("farewell", &[("en", "bye")]),
        entry("farewell", &[("fr", "au revoir")]),
    ]);
    assert_eq!(table.get("greeting", &tag("en")), Some("hi".to_string()));
    assert_eq!(table.get("farewell", &tag("fr")), Some("au revoir".to_string()));
    assert_eq!(table.get("farewell", &tag("en")), None);
}

#[test]
fn language_tag_has_canonical_text() {
    assert_eq!(tag("EN").as_str(), "en");
    assert_eq!(tag("zh-cn").as_str(), "zh-CN");
    assert_eq!(tag("en").as_str(), "en");
    assert!(tag("EN").same(&tag("en")));
    assert!(!tag("en").same(&tag("en-US")));
    assert_eq!(tag("fr").duplicate().as_str(), "fr");
}

#[test]
fn language_tag_refuses_what_is_no_tag() {
    assert!(LanguageTag::parse("").is_none());
    assert!(LanguageTag::parse("not a tag").is_none());
    assert!(LanguageTag::parse("x-").is_none());
}

#[test]
fn default_language_is_english() {
    assert_eq!(DEFAULT_LANGUAGE, "en");
    assert_eq!(LanguageTag::fallback().unwrap().as_str(), "en");
}
