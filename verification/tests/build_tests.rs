use api::build_system::i18next_integration::build_for_i18next;
use api::config::{group_from_json_value, ConfigFileParameters, LanguageConfiguration};
use api::errors::{BuildSystemErrors, ErrorKind, StaticDictionaryErrors};
use api::file_system::parse_config_file;
use api::json::JsonValue;
use api::parser::parse_json_into_words;
use api::repository::{RepoFile, Repository};

fn file(name: &str, content: &str) -> RepoFile {
    RepoFile { name: name.to_owned(), content: content.to_owned() }
}

fn repo() -> Repository {
    let mut repo = Repository::new("dictionaries".to_owned());
    repo.files.push(file("dictionary-en.base.json", "[\"Hello\", \"Bye\"]"));
    repo.files.push(file("dictionary-de.json", "{\"Hello\": \"\\\"Hallo\\\"\", \"Bye\": \"Tschüss\"}"));
    repo.files.push(file("dictionary-pt-BR.json", "{\"Hello\": \"Olá\"}"));
    repo.files.push(file("dictionary-fr.json", "{\"Hello\": \"Bonjour\"}"));
    repo
}

fn config_text() -> &'static str {
    "{\
       \"base\": \"./src\",\
       \"exclude\": [\"^generated\"],\
       \"dictionary_repo\": \"./dictionaries\",\
       \"output_dir\": \"./public/locales\",\
       \"include\": [\
         {\"typescript\": {\"ext\": [\".ts\", \".tsx\"], \"regexp-start\": [\"t(\"], \"regexp-end\": [\")\"]}},\
         {\"python\": {\"ext\": [\".py\"], \"regexp-start\": [\"_(\"], \"regexp-end\": [\")\", \",\"]}}\
       ],\
       \"manual_translate\": [\"Brand\"]\
     }"
}

#[test]
fn the_given_languages_are_exported() {
    let files = build_for_i18next(&repo(), "out", Some(vec!["de".to_owned()])).unwrap();
    assert_eq!(files.len(), 1);
    assert_eq!(files[0].language, "de");
    assert_eq!(files[0].directory, "out/de");
    assert_eq!(files[0].path, "out/de/translation.json");
    assert_eq!(files[0].content, "{\n  \"Bye\": \"Tschüss\",\n  \"Hello\": \"Hallo\"\n}");
}

fn exported_value(dictionary: &str, key: &str) -> String {
    let mut repo = Repository::new("dictionaries".to_owned());
    repo.files.push(file("dictionary-de.json", dictionary));
    let before = repo.clone();
    let files = build_for_i18next(&repo, "out", Some(vec!["de".to_owned()])).unwrap();
    assert_eq!(repo, before);
    assert_eq!(files.len(), 1);
    let exported = JsonValue::parse(&files[0].content).unwrap();
    let read = JsonValue::parse(dictionary).unwrap();
    let mut exported_keys = exported.object_keys().unwrap();
    let mut read_keys = read.object_keys().unwrap();
    exported_keys.sort();
    read_keys.sort();
    assert_eq!(exported_keys, read_keys);
    exported.get(key).unwrap().as_text().unwrap().clone()
}

#[test]
fn a_text_with_a_line_feed_is_exported_as_it_is() {
    let value = exported_value("{\"Hello\":\"Hallo\\nWelt\"}", "Hello");
    assert_eq!(value, "Hallo\nWelt");
    assert_eq!(value.chars().count(), 10);
}

#[test]
fn texts_are_exported_unchanged_but_for_their_quotes() {
    assert_eq!(exported_value("{\"k\": \"a\\\\b\"}", "k"), "a\\b");
    assert_eq!(exported_value("{\"k\": \"tab\\there\"}", "k"), "tab\there");
    assert_eq!(exported_value("{\"k\": \"Tschüss \\u00e9\"}", "k"), "Tschüss é");
    assert_eq!(exported_value("{\"k\": \"\\\"Hallo\\\"\"}", "k"), "Hallo");
    assert_eq!(exported_value("{\"k\": \"say \\\"hi\\\" now\"}", "k"), "say \"hi\" now");
    assert_eq!(exported_value("{\"k\": \"\\\"\\\"Hallo\\\"\\\"\"}", "k"), "Hallo");
    assert_eq!(exported_value("{\"k\": \"\"}", "k"), "");
    assert_eq!(exported_value("{\"a\": \"x\", \"k\": \"plain\"}", "k"), "plain");
}

#[test]
fn a_value_that_is_no_text_is_exported_as_its_json_text() {
    assert_eq!(exported_value("{\"k\": 3}", "k"), "3");
    assert_eq!(exported_value("{\"k\": null}", "k"), "null");
    assert_eq!(exported_value("{\"k\": [\"a\", 1]}", "k"), "[\"a\",1]");
    assert_eq!(exported_value("{\"k\": true}", "k"), "true");
}

#[test]
fn without_languages_every_translated_dictionary_is_exported() {
    let files = build_for_i18next(&repo(), "public/locales", None).unwrap();
    let paths: Vec<&str> = files.iter().map(|file| file.path.as_str()).collect();
    assert_eq!(paths, vec!["public/locales/de/translation.json", "public/locales/fr/translation.json"]);
    assert_eq!(files[1].content, "{\n  \"Hello\": \"Bonjour\"\n}");
    assert!(build_for_i18next(&Repository::new("empty".to_owned()), "out", None).unwrap().is_empty());
    assert!(build_for_i18next(&repo(), "out", Some(vec![])).unwrap().is_empty());
}

#[test]
fn a_language_can_be_exported_by_its_full_name() {
    let files = build_for_i18next(&repo(), "out", Some(vec!["pt-BR".to_owned(), "fr".to_owned()])).unwrap();
    assert_eq!(files[0].path, "out/pt-BR/translation.json");
    assert_eq!(files[0].content, "{\n  \"Hello\": \"Olá\"\n}");
    assert_eq!(files[1].language, "fr");
}

#[test]
fn a_missing_dictionary_fails_the_export() {
    let error =
        build_for_i18next(&repo(), "out", Some(vec!["de".to_owned(), "it".to_owned()])).unwrap_err();
    assert!(matches!(
        error,
        BuildSystemErrors::StaticDictionaryError(StaticDictionaryErrors::IOError(_))
    ));
    let mut broken = repo();
    broken.files.push(file("dictionary-it.json", "[]"));
    let error = build_for_i18next(&broken, "out", None).unwrap_err();
    match error {
        BuildSystemErrors::StaticDictionaryError(inner) => assert_eq!(inner.kind(), ErrorKind::Json),
        _ => panic!("another failure"),
    }
}

#[test]
fn tagged_dictionaries_are_read_as_words() {
    let mut repo = Repository::new("dictionaries".to_owned());
    repo.files.push(file(
        "dictionary-ru.json",
        "{\"greeting\": {\"word\": \"Привет\"}, \"farewell\": {\"word\": \"Пока\", \"note\": 1}}",
    ));
    let mut words: Vec<(String, String, String)> = parse_json_into_words(&repo, "ru")
        .unwrap()
        .into_iter()
        .map(|word| (word.tag, word.word, word.language))
        .collect();
    words.sort();
    assert_eq!(
        words,
        vec![
            ("farewell".to_owned(), "Пока".to_owned(), "ru".to_owned()),
            ("greeting".to_owned(), "Привет".to_owned(), "ru".to_owned()),
        ]
    );
    assert_eq!(parse_json_into_words(&repo, "en").unwrap_err().kind(), ErrorKind::Io);
    repo.files.push(file("dictionary-de.json", "{\"greeting\": \"Hallo\"}"));
    assert_eq!(parse_json_into_words(&repo, "de").unwrap_err().kind(), ErrorKind::Json);
    repo.files.push(file("dictionary-fr.json", "{\"greeting\": {\"text\": \"Salut\"}}"));
    assert_eq!(parse_json_into_words(&repo, "fr").unwrap_err().kind(), ErrorKind::Json);
    repo.files.push(file("dictionary-it.json", "[]"));
    assert_eq!(parse_json_into_words(&repo, "it").unwrap_err().kind(), ErrorKind::Json);
    repo.files.push(file("dictionary-es.json", "{]"));
    assert_eq!(parse_json_into_words(&repo, "es").unwrap_err().kind(), ErrorKind::Json);
    repo.files.push(file("dictionary-pl.json", "{}"));
    assert!(parse_json_into_words(&repo, "pl").unwrap().is_empty());
}

#[test]
fn a_configuration_is_read_from_json() {
    let config = ConfigFileParameters::from_json(config_text()).unwrap();
    assert_eq!(config.base_directory, "./src");
    assert_eq!(config.exclude_files, vec!["^generated".to_owned()]);
    assert_eq!(config.dictionary_repo, "./dictionaries");
    assert_eq!(config.output_dir, "./public/locales");
    assert_eq!(config.manual_translate_words, vec!["Brand".to_owned()]);
    assert_eq!(config.languages_configurations.len(), 2);
    let (name, typescript) = &config.languages_configurations[0][0];
    assert_eq!(name, "typescript");
    assert_eq!(typescript.file_extensions, vec![".ts".to_owned(), ".tsx".to_owned()]);
    assert_eq!(typescript.string_start, vec!["t(".to_owned()]);
    assert_eq!(typescript.string_end, vec![")".to_owned()]);
    let (name, python) = &config.languages_configurations[1][0];
    assert_eq!(name, "python");
    assert_eq!(python.string_end, vec![")".to_owned(), ",".to_owned()]);
    let parsed = parse_config_file(config_text()).unwrap();
    assert_eq!(parsed.output_dir, "./public/locales");
}

#[test]
fn a_configuration_round_trips_through_json() {
    let config = ConfigFileParameters::from_json(config_text()).unwrap();
    let text = config.into_json().unwrap();
    let again = ConfigFileParameters::from_json(&text).unwrap();
    assert_eq!(again.into_json().unwrap(), text);
    let tree = JsonValue::parse(&text).unwrap();
    assert_eq!(tree.object_keys().unwrap().len(), 6);
    assert_eq!(tree.text_field("dictionary_repo"), Some("./dictionaries".to_owned()));
    assert_eq!(tree.get("include").unwrap().as_array().unwrap().len(), 2);
}

#[test]
fn a_configuration_needs_all_its_fields() {
    for broken in [
        "{}",
        "[]",
        "not json",
        "{\"base\": \"a\", \"exclude\": [], \"dictionary_repo\": \"d\", \"output_dir\": \"o\", \"include\": []}",
        "{\"base\": 1, \"exclude\": [], \"dictionary_repo\": \"d\", \"output_dir\": \"o\", \"include\": [], \"manual_translate\": []}",
        "{\"base\": \"a\", \"exclude\": [1], \"dictionary_repo\": \"d\", \"output_dir\": \"o\", \"include\": [], \"manual_translate\": []}",
        "{\"base\": \"a\", \"exclude\": [], \"dictionary_repo\": \"d\", \"output_dir\": \"o\", \"include\": {}, \"manual_translate\": []}",
        "{\"base\": \"a\", \"exclude\": [], \"dictionary_repo\": \"d\", \"output_dir\": \"o\", \"include\": [[]], \"manual_translate\": []}",
        "{\"base\": \"a\", \"exclude\": [], \"dictionary_repo\": \"d\", \"output_dir\": \"o\", \"include\": [{\"x\": {\"ext\": []}}], \"manual_translate\": []}",
    ] {
        assert!(ConfigFileParameters::from_json(broken).is_err(), "for {}", broken);
        let error = parse_config_file(broken).unwrap_err();
        assert!(matches!(error, StaticDictionaryErrors::JSONParsingError(_)));
    }
    let least = "{\"base\": \"a\", \"exclude\": [], \"dictionary_repo\": \"d\", \"output_dir\": \"o\", \"include\": [{}], \"manual_translate\": [], \"more\": true}";
    let config = ConfigFileParameters::from_json(least).unwrap();
    assert_eq!(config.languages_configurations.len(), 1);
    assert!(config.languages_configurations[0].is_empty());
}

#[test]
fn language_configurations_are_read_and_written() {
    let tree = JsonValue::parse("{\"ext\": [\".rs\"], \"regexp-start\": [\"tr!(\"], \"regexp-end\": []}").unwrap();
    let language = LanguageConfiguration::from_json_value(&tree).unwrap();
    assert_eq!(language.file_extensions, vec![".rs".to_owned()]);
    assert_eq!(language.to_json_value().to_text(), "{\"ext\":[\".rs\"],\"regexp-end\":[],\"regexp-start\":[\"tr!(\"]}");
    assert!(LanguageConfiguration::from_json_value(&JsonValue::Null).is_none());
    let group = JsonValue::parse("{\"a\": {\"ext\": [], \"regexp-start\": [], \"regexp-end\": []}, \"b\": 1}").unwrap();
    assert!(group_from_json_value(&group).is_none());
}
