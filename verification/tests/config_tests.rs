use localize::config::{
    get_config_path_root, LoadConfigError, Settings, LOCAL_ROOT, MISSING_ROOT_MESSAGE, OUTER_ROOT,
};
use localize::language::LanguageTag;
use localize::table::StringTable;
use localize::{localize, localize_format, NotFound};

fn table() -> StringTable {
    let en = || LanguageTag::parse("en").unwrap();
    let fr = || LanguageTag::parse("fr").unwrap();
    StringTable::new(&vec![
        (
            "greeting".to_string(),
            vec![(en(), "Hello {1}!".to_string()), (fr(), "Bonjour {1} !".to_string())],
        ),
        ("only_en".to_string(), vec![(en(), "{2} before {1}".to_string())]),
        ("only_fr".to_string(), vec![(fr(), "salut".to_string())]),
        ("empty".to_string(), Vec::new()),
    ])
}

fn settings(language: &str) -> Settings {
    Settings { language: LanguageTag::parse(language).unwrap() }
}

#[test]
fn config_root_prefers_the_local_folder() {
    assert_eq!(get_config_path_root(true, false).unwrap(), "Configs");
    assert_eq!(get_config_path_root(true, true).unwrap(), LOCAL_ROOT);
}

#[test]
fn config_root_takes_the_outer_folder_second() {
    assert_eq!(get_config_path_root(false, true).unwrap(), "../../Configs");
    assert_eq!(OUTER_ROOT, "../../Configs");
}

#[test]
fn config_root_fails_without_a_folder() {
    match get_config_path_root(false, false) {
        Err(LoadConfigError::FileNotFound(message)) => {
            assert_eq!(message, "Configs folder not found");
            assert_eq!(message, MISSING_ROOT_MESSAGE);
        }
        other => panic!("unexpected {:?}", other),
    }
}

#[test]
fn load_config_error_messages() {
    assert_eq!(
        LoadConfigError::FileNotFound("no such file".to_string()).message(),
        "no such file"
    );
    assert_eq!(
        LoadConfigError::ParseFailure("expected value".to_string()).message(),
        "expected value"
    );
    assert_eq!(LoadConfigError::Unknown.message(), "Unknown load config error");
}

#[test]
fn localize_returns_the_template_unchanged() {
    assert_eq!(localize(&table(), &settings("fr"), "greeting").unwrap(), "Bonjour {1} !");
    assert_eq!(localize(&table(), &settings("en"), "greeting").unwrap(), "Hello {1}!");
    assert_eq!(localize(&table(), &settings("de"), "greeting").unwrap(), "Hello {1}!");
}

#[test]
fn localize_fails_with_the_id() {
    for id in ["missing", "empty", "only_fr"] {
        let NotFound { id: carried } = localize(&table(), &settings("de"), id).unwrap_err();
        assert_eq!(carried, id);
    }
    let error = localize(&table(), &settings("de"), "missing").unwrap_err();
    assert_eq!(error.message(), "String not found");
}

#[test]
fn localize_format_substitutes_after_resolution() {
    let args = vec!["Amy".to_string(), "Bob".to_string()];
    assert_eq!(
        localize_format(&table(), &settings("fr"), "greeting", &args).unwrap(),
        "Bonjour Amy !"
    );
    assert_eq!(
        localize_format(&table(), &settings("fr"), "only_en", &args).unwrap(),
        "Bob before Amy"
    );
    assert_eq!(
        localize_format(&table(), &settings("en"), "only_fr", &args).unwrap_err().id,
        "only_fr"
    );
}
