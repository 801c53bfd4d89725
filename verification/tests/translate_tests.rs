use api::errors::{BuildSystemErrors, ErrorKind, StaticDictionaryErrors};
use api::json::JsonValue;
use api::repository::{RepoFile, Repository};
use api::orchestrator::{
    autotranslate_from_basic_dictionary, collect_translations, schedule_translations,
    summarize_outcomes, BatchSummary, TaskOutcome,
};
use api::static_translate::{
    base_dictionary_words, drop_repeats, generate_empty_dictionaries_from_static_basic,
    merge_phrases, parse_static_basic_dictionary, parse_translated_dictionary, sync_manual_phrases,
    update_basic_dictionary,
};
use api::text::strip_quotes;
use api::types::{ApiArgs, TranslatorApis, Word};
use api::web_api::{select_translator, LibreTranslateApi, LibreTranslateJsonRequest};

fn strings(items: &[&str]) -> Vec<String> {
    items.iter().map(|item| (*item).to_owned()).collect()
}

fn file(name: &str, content: &str) -> RepoFile {
    RepoFile { name: name.to_owned(), content: content.to_owned() }
}

fn repo_with_base(content: &str) -> Repository {
    let mut repo = Repository::new("dictionaries".to_owned());
    repo.files.push(file("dictionary-en.base.json", content));
    repo
}

fn args() -> ApiArgs {
    ApiArgs::new(None, "http://127.0.0.1:5000".to_owned())
}

fn translated(texts: &[&str]) -> Vec<TaskOutcome> {
    texts.iter().map(|text| TaskOutcome::Translated((*text).to_owned())).collect()
}

fn entries_of(repo: &Repository, name: &str) -> Vec<(String, String)> {
    let content = repo.read(name).unwrap();
    let tree = JsonValue::parse(content).unwrap();
    tree.object_keys()
        .unwrap()
        .into_iter()
        .map(|key| {
            let text = tree.get(&key).unwrap().as_text().unwrap().clone();
            (key, text)
        })
        .collect()
}

#[test]
fn merging_a_phrase_that_is_there_changes_nothing() {
    let mut repo = repo_with_base("[\n  \"Hello\",\n  \"Bye\"\n]");
    update_basic_dictionary(&mut repo, strings(&["Bye"])).unwrap();
    assert_eq!(parse_static_basic_dictionary(&repo).unwrap(), strings(&["Hello", "Bye"]));
    assert_eq!(repo.files[0].content, "[\n  \"Hello\",\n  \"Bye\"\n]");
}

#[test]
fn merging_a_new_phrase_twice_adds_it_once() {
    let mut repo = repo_with_base("[\"Hello\"]");
    update_basic_dictionary(&mut repo, strings(&["Bye"])).unwrap();
    update_basic_dictionary(&mut repo, strings(&["Bye"])).unwrap();
    assert_eq!(parse_static_basic_dictionary(&repo).unwrap(), strings(&["Hello", "Bye"]));
    let mut at_once = repo_with_base("[\"Hello\"]");
    update_basic_dictionary(&mut at_once, strings(&["Bye", "Bye", "Hello", "Ciao"])).unwrap();
    assert_eq!(parse_static_basic_dictionary(&at_once).unwrap(), strings(&["Hello", "Bye", "Ciao"]));
}

#[test]
fn merging_appends_in_the_order_given() {
    let mut base = strings(&["b", "a"]);
    merge_phrases(&mut base, strings(&["c", "a", "d", "c"]));
    assert_eq!(base, strings(&["b", "a", "c", "d"]));
    merge_phrases(&mut base, vec![]);
    assert_eq!(base, strings(&["b", "a", "c", "d"]));
}

#[test]
fn merging_needs_a_base_dictionary_that_is_an_array_of_texts() {
    let mut missing = Repository::new("dictionaries".to_owned());
    let error = update_basic_dictionary(&mut missing, strings(&["x"])).unwrap_err();
    assert!(matches!(error, StaticDictionaryErrors::BasicDictionaryNotFound));
    let mut broken = repo_with_base("not json");
    let error = update_basic_dictionary(&mut broken, strings(&["x"])).unwrap_err();
    assert!(matches!(error, StaticDictionaryErrors::JSONParsingError(_)));
    assert_eq!(broken.files[0].content, "not json");
    let mut numbers = repo_with_base("[1, 2]");
    let error = update_basic_dictionary(&mut numbers, strings(&["x"])).unwrap_err();
    assert_eq!(error.kind(), ErrorKind::Json);
    let mut object = repo_with_base("{}");
    assert!(parse_static_basic_dictionary(&object).is_err());
    assert!(sync_manual_phrases(strings(&["x"]), &mut object).is_err());
}

#[test]
fn manual_phrases_are_written_back() {
    let mut repo = repo_with_base("[\"Hello\"]");
    sync_manual_phrases(strings(&["Brand", "Hello"]), &mut repo).unwrap();
    assert_eq!(repo.files[0].content, "[\n  \"Hello\",\n  \"Brand\"\n]");
}

#[test]
fn repeated_phrases_are_dropped_where_they_follow_each_other() {
    assert_eq!(drop_repeats(strings(&["a", "a", "b", "a", "b", "b", "b"])), strings(&["a", "b", "a", "b"]));
    assert_eq!(drop_repeats(vec![]), Vec::<String>::new());
    assert_eq!(drop_repeats(strings(&["x"])), strings(&["x"]));
}

#[test]
fn the_words_of_the_base_dictionary_are_their_own_tags() {
    let mut repo = Repository::new("dictionaries".to_owned());
    repo.files.push(file("dictionary-ru.base.json", "[\"Привет\", \"Пока\", \"Пока\"]"));
    let words = base_dictionary_words(&repo).unwrap();
    assert_eq!(words.len(), 2);
    assert_eq!(words[0].word, "Привет");
    assert_eq!(words[0].tag, "Привет");
    assert_eq!(words[0].language, "ru");
    assert_eq!(words[1].tag, "Пока");
}

#[test]
fn the_quotes_that_wrap_a_text_are_stripped() {
    assert_eq!(strip_quotes("\"Hallo\""), "Hallo");
    assert_eq!(strip_quotes("Hallo"), "Hallo");
    assert_eq!(strip_quotes("\"\"Hallo\"\""), "Hallo");
    assert_eq!(strip_quotes("\"\""), "");
    assert_eq!(strip_quotes("\"\"\""), "\"");
    assert_eq!(strip_quotes("\""), "\"");
    assert_eq!(strip_quotes(""), "");
    assert_eq!(strip_quotes("'single'"), "'single'");
    assert_eq!(strip_quotes("\"Привет\""), "Привет");
}

#[test]
fn quotes_inside_a_text_stay() {
    assert_eq!(strip_quotes("say \"hi\" now"), "say \"hi\" now");
    assert_eq!(strip_quotes("\"Hello\" she said"), "\"Hello\" she said");
    assert_eq!(strip_quotes("5\" nails"), "5\" nails");
    assert_eq!(strip_quotes("\"say \"hi\" now\""), "say \"hi\" now");
    assert_eq!(strip_quotes("\"line\nfeed \\ slash\""), "line\nfeed \\ slash");
}

#[test]
fn empty_dictionaries_hold_every_word_without_text() {
    let mut repo = repo_with_base("[\"Hello\", \"Bye\"]");
    repo.files.push(file("dictionary-de.json", "{\"Old\": \"Alt\"}"));
    generate_empty_dictionaries_from_static_basic(&mut repo, strings(&["de", "fr"])).unwrap();
    let names: Vec<&str> = repo.files.iter().map(|file| file.name.as_str()).collect();
    assert_eq!(names, vec!["dictionary-en.base.json", "dictionary-de.json", "dictionary-fr.json"]);
    assert_eq!(repo.files[1].content, "{\n  \"Bye\": \"\",\n  \"Hello\": \"\"\n}");
    assert_eq!(repo.files[2].content, repo.files[1].content);
    assert_eq!(repo.files[0].content, "[\"Hello\", \"Bye\"]");
}

#[test]
fn empty_dictionaries_need_a_base_dictionary() {
    let mut repo = Repository::new("dictionaries".to_owned());
    repo.files.push(file("dictionary-de.json", "{}"));
    let error = generate_empty_dictionaries_from_static_basic(&mut repo, strings(&["de"])).unwrap_err();
    assert!(matches!(error, StaticDictionaryErrors::BasicDictionaryNotFound));
    assert_eq!(repo.files.len(), 1);
}

#[test]
fn every_word_is_scheduled_for_every_language() {
    let repo = repo_with_base("[\"Hello\", \"Bye\", \"Yes\"]");
    let tasks =
        schedule_translations(&repo, &strings(&["de", "fr"]), TranslatorApis::LibreTranslate).unwrap();
    assert_eq!(tasks.len(), 6);
    let listed: Vec<(&str, &str, &str, &str)> = tasks
        .iter()
        .map(|task| {
            (
                task.word.word.as_str(),
                task.word.tag.as_str(),
                task.word.language.as_str(),
                task.target_language.as_str(),
            )
        })
        .collect();
    assert_eq!(
        listed,
        vec![
            ("Hello", "Hello", "en", "de"),
            ("Bye", "Bye", "en", "de"),
            ("Yes", "Yes", "en", "de"),
            ("Hello", "Hello", "en", "fr"),
            ("Bye", "Bye", "en", "fr"),
            ("Yes", "Yes", "en", "fr"),
        ]
    );
    assert!(schedule_translations(&repo, &vec![], TranslatorApis::LibreTranslate).unwrap().is_empty());
}

#[test]
fn providers_that_are_not_implemented_fail_at_once() {
    let repo = repo_with_base("[\"Hello\"]");
    for api in [TranslatorApis::DeepL, TranslatorApis::Yandex] {
        let error = schedule_translations(&repo, &strings(&["de"]), api).unwrap_err();
        assert!(matches!(error, StaticDictionaryErrors::APIError(_)));
        assert!(select_translator(api, args()).is_err());
        let mut target = repo_with_base("[\"Hello\"]");
        let error = autotranslate_from_basic_dictionary(
            &mut target,
            strings(&["de"]),
            api,
            args(),
            translated(&["Hallo"]),
        )
        .unwrap_err();
        assert_eq!(error.kind(), ErrorKind::Api);
        assert_eq!(target.files.len(), 1);
    }
    assert_eq!(select_translator(TranslatorApis::LibreTranslate, args()).unwrap().host, "http://127.0.0.1:5000");
}

fn stub_translator(word: &str) -> TaskOutcome {
    match word {
        "Hello" => TaskOutcome::Translated("Hallo".to_owned()),
        "Bye" => TaskOutcome::Translated("Tschüss".to_owned()),
        other => TaskOutcome::Failed(StaticDictionaryErrors::APIError(format!("no translation of {}", other))),
    }
}

#[test]
fn a_base_dictionary_is_translated_into_german() {
    let mut repo = repo_with_base("[\"Hello\", \"Bye\"]");
    let languages = strings(&["de"]);
    let tasks = schedule_translations(&repo, &languages, TranslatorApis::LibreTranslate).unwrap();
    let outcomes: Vec<TaskOutcome> =
        tasks.iter().map(|task| stub_translator(&task.word.word)).collect();
    autotranslate_from_basic_dictionary(
        &mut repo,
        languages,
        TranslatorApis::LibreTranslate,
        args(),
        outcomes,
    )
    .unwrap();
    let written = JsonValue::parse(repo.read("dictionary-de.json").unwrap()).unwrap();
    let expected = JsonValue::parse("{\"Hello\":\"Hallo\",\"Bye\":\"Tschüss\"}").unwrap();
    assert_eq!(written, expected);
    assert_eq!(written.object_keys().unwrap().len(), 2);
    assert_eq!(written.get("Hello").unwrap().as_text().unwrap(), "Hallo");
    assert_eq!(written.get("Bye").unwrap().as_text().unwrap(), "Tschüss");
    assert_eq!(repo.read("dictionary-de.json").unwrap(), "{\n  \"Bye\": \"Tschüss\",\n  \"Hello\": \"Hallo\"\n}");
}

#[test]
fn a_phrase_that_the_stub_does_not_know_fails_the_run() {
    let mut repo = repo_with_base("[\"Hello\", \"Unknown\", \"Bye\"]");
    let languages = strings(&["de"]);
    let tasks = schedule_translations(&repo, &languages, TranslatorApis::LibreTranslate).unwrap();
    let outcomes: Vec<TaskOutcome> =
        tasks.iter().map(|task| stub_translator(&task.word.word)).collect();
    assert_eq!(summarize_outcomes(&outcomes), BatchSummary { translated: 2, failed: 1, aborted: 0 });
    let error = autotranslate_from_basic_dictionary(
        &mut repo,
        languages,
        TranslatorApis::LibreTranslate,
        args(),
        outcomes,
    )
    .unwrap_err();
    assert_eq!(error.kind(), ErrorKind::Api);
    assert!(repo.read("dictionary-de.json").is_none());
}

#[test]
fn translations_are_written_without_quotes() {
    let mut repo = repo_with_base("[\"Hello\", \"Bye\"]");
    autotranslate_from_basic_dictionary(
        &mut repo,
        strings(&["de"]),
        TranslatorApis::LibreTranslate,
        args(),
        translated(&["\"Hallo\"", "Tsch\"üss\nbis \\ bald"]),
    )
    .unwrap();
    assert_eq!(
        entries_of(&repo, "dictionary-de.json"),
        vec![
            ("Bye".to_owned(), "Tsch\"üss\nbis \\ bald".to_owned()),
            ("Hello".to_owned(), "Hallo".to_owned())
        ]
    );
}

#[test]
fn every_language_gets_a_dictionary_with_every_tag() {
    let mut repo = repo_with_base("[\"one\", \"two\", \"three\"]");
    repo.files.push(file("dictionary-fr.json", "{\"stale\": \"vieux\"}"));
    repo.files.push(file("notes.txt", "keep me"));
    autotranslate_from_basic_dictionary(
        &mut repo,
        strings(&["de", "fr"]),
        TranslatorApis::LibreTranslate,
        args(),
        translated(&["eins", "zwei", "drei", "un", "deux", "trois"]),
    )
    .unwrap();
    let names: Vec<&str> = repo.files.iter().map(|file| file.name.as_str()).collect();
    assert_eq!(
        names,
        vec!["dictionary-en.base.json", "notes.txt", "dictionary-de.json", "dictionary-fr.json"]
    );
    assert_eq!(repo.read("notes.txt").unwrap(), "keep me");
    let mut german = entries_of(&repo, "dictionary-de.json");
    german.sort();
    assert_eq!(
        german,
        vec![
            ("one".to_owned(), "eins".to_owned()),
            ("three".to_owned(), "drei".to_owned()),
            ("two".to_owned(), "zwei".to_owned())
        ]
    );
    let mut french = entries_of(&repo, "dictionary-fr.json");
    french.sort();
    assert_eq!(
        french,
        vec![
            ("one".to_owned(), "un".to_owned()),
            ("three".to_owned(), "trois".to_owned()),
            ("two".to_owned(), "deux".to_owned())
        ]
    );
}

#[test]
fn one_failed_translation_fails_the_run_and_writes_nothing() {
    let mut repo = repo_with_base("[\"Hello\", \"Bye\"]");
    repo.files.push(file("dictionary-de.json", "{\"Hello\": \"old\"}"));
    let outcomes = vec![
        TaskOutcome::Translated("Hallo".to_owned()),
        TaskOutcome::Failed(StaticDictionaryErrors::APIError("status 500".to_owned())),
        TaskOutcome::Translated("Bonjour".to_owned()),
        TaskOutcome::Translated("Salut".to_owned()),
    ];
    assert_eq!(summarize_outcomes(&outcomes), BatchSummary { translated: 3, failed: 1, aborted: 0 });
    let error = autotranslate_from_basic_dictionary(
        &mut repo,
        strings(&["de", "fr"]),
        TranslatorApis::LibreTranslate,
        args(),
        outcomes,
    )
    .unwrap_err();
    assert!(matches!(error, StaticDictionaryErrors::APIError(_)));
    assert_eq!(repo.files.len(), 2);
    assert_eq!(repo.read("dictionary-de.json").unwrap(), "{\"Hello\": \"old\"}");
    assert!(repo.read("dictionary-fr.json").is_none());
}

#[test]
fn an_aborted_operation_is_told_apart_from_a_provider_failure() {
    let mut repo = repo_with_base("[\"Hello\", \"Bye\"]");
    let outcomes = vec![
        TaskOutcome::Aborted("cancelled".to_owned()),
        TaskOutcome::Failed(StaticDictionaryErrors::APIError("status 500".to_owned())),
    ];
    assert_eq!(summarize_outcomes(&outcomes), BatchSummary { translated: 0, failed: 1, aborted: 1 });
    let error = autotranslate_from_basic_dictionary(
        &mut repo,
        strings(&["de"]),
        TranslatorApis::LibreTranslate,
        args(),
        outcomes,
    )
    .unwrap_err();
    assert!(matches!(error, StaticDictionaryErrors::AsyncError(_)));
    assert_eq!(error.kind(), ErrorKind::Async);
    assert_eq!(repo.files.len(), 1);
}

#[test]
fn outcomes_have_to_answer_the_schedule() {
    let mut repo = repo_with_base("[\"Hello\", \"Bye\"]");
    let error = autotranslate_from_basic_dictionary(
        &mut repo,
        strings(&["de"]),
        TranslatorApis::LibreTranslate,
        args(),
        translated(&["Hallo"]),
    )
    .unwrap_err();
    assert_eq!(error.kind(), ErrorKind::Async);
    assert_eq!(repo.files.len(), 1);
}

#[test]
fn translations_are_collected_until_the_first_failure() {
    assert_eq!(collect_translations(translated(&["a", "b"])).unwrap(), strings(&["a", "b"]));
    assert_eq!(collect_translations(vec![]).unwrap(), Vec::<String>::new());
    let error = collect_translations(vec![
        TaskOutcome::Translated("a".to_owned()),
        TaskOutcome::Failed(StaticDictionaryErrors::BasicDictionaryNotFound),
        TaskOutcome::Aborted("late".to_owned()),
    ])
    .unwrap_err();
    assert_eq!(error.kind(), ErrorKind::BasicDictionaryNotFound);
}

#[test]
fn a_translated_dictionary_is_read_as_words() {
    let mut repo = repo_with_base("[]");
    repo.files.push(file("dictionary-de.json", "{\"Hello\": \"Hallo\", \"Count\": 3, \"Bye\": \"Tschüss\"}"));
    let mut words: Vec<(String, String, String)> = parse_translated_dictionary(&repo, "de")
        .unwrap()
        .into_iter()
        .map(|word| (word.tag, word.word, word.language))
        .collect();
    words.sort();
    assert_eq!(
        words,
        vec![
            ("Bye".to_owned(), "Tschüss".to_owned(), "de".to_owned()),
            ("Count".to_owned(), "3".to_owned(), "de".to_owned()),
            ("Hello".to_owned(), "Hallo".to_owned(), "de".to_owned()),
        ]
    );
    let missing = parse_translated_dictionary(&repo, "fr").unwrap_err();
    assert!(matches!(missing, StaticDictionaryErrors::IOError(_)));
    repo.files.push(file("dictionary-it.json", "[\"array\"]"));
    assert_eq!(parse_translated_dictionary(&repo, "it").unwrap_err().kind(), ErrorKind::Json);
    repo.files.push(file("dictionary-es.json", "{"));
    assert_eq!(parse_translated_dictionary(&repo, "es").unwrap_err().kind(), ErrorKind::Json);
}

#[test]
fn a_request_to_libretranslate() {
    let api = LibreTranslateApi::new("http://127.0.0.1:5000".to_owned());
    assert_eq!(api.endpoint(), "http://127.0.0.1:5000/translate");
    let word = Word::new("Привет".to_owned(), "greeting".to_owned(), "ru".to_owned());
    let request = api.request_for(&word, "en");
    assert_eq!(request.word, "Привет");
    assert_eq!(request.source, "ru");
    assert_eq!(request.target, "en");
    assert_eq!(request.format, "text");
    assert_eq!(
        request.into_json(),
        "{\"format\":\"text\",\"q\":\"Привет\",\"source\":\"ru\",\"target\":\"en\"}"
    );
    let made = LibreTranslateJsonRequest::new("a".to_owned(), "b".to_owned(), "c".to_owned(), "d".to_owned());
    assert_eq!((made.word.as_str(), made.source.as_str(), made.target.as_str(), made.format.as_str()), ("a", "b", "c", "d"));
}

#[test]
fn an_answer_of_libretranslate() {
    let api = LibreTranslateApi::new("http://127.0.0.1:5000".to_owned());
    let word = Word::new("Привет".to_owned(), "greeting".to_owned(), "ru".to_owned());
    let translated =
        api.translate_word_with_tag(word.clone(), "en".to_owned(), "{\"translatedText\":\"Hey\"}").unwrap();
    assert_eq!(translated.word, "Hey");
    assert_eq!(translated.tag, "greeting");
    assert_eq!(translated.language, "en");
    let escaped = api
        .translate_word_with_tag(
            word.clone(),
            "de".to_owned(),
            "{\"translatedText\":\"Sag \\\"Hallo\\\"\\nWelt\\\\\"}",
        )
        .unwrap();
    assert_eq!(escaped.word, "Sag \"Hallo\"\nWelt\\");
    let number =
        api.translate_word_with_tag(word.clone(), "de".to_owned(), "{\"translatedText\": 12}").unwrap();
    assert_eq!(number.word, "12");
    for body in ["{\"error\": \"no\"}", "[\"Hey\"]", "<html>", ""] {
        let error = api.translate_word_with_tag(word.clone(), "en".to_owned(), body).unwrap_err();
        assert!(matches!(error, StaticDictionaryErrors::JSONParsingError(_)));
    }
}

#[test]
fn each_failure_has_a_message_of_its_own() {
    let errors = vec![
        StaticDictionaryErrors::BasicDictionaryNotFound,
        StaticDictionaryErrors::JSONParsingError(serde_json::from_str::<bool>("x").unwrap_err()),
        StaticDictionaryErrors::APIError("x".to_owned()),
        StaticDictionaryErrors::IOError("x".to_owned()),
        StaticDictionaryErrors::AsyncError("x".to_owned()),
        StaticDictionaryErrors::RegexError(api::patterns::CompiledPattern::compile("(").err().unwrap()),
    ];
    let kinds: Vec<ErrorKind> = errors.iter().map(|error| error.kind()).collect();
    assert_eq!(
        kinds,
        vec![
            ErrorKind::BasicDictionaryNotFound,
            ErrorKind::Json,
            ErrorKind::Api,
            ErrorKind::Io,
            ErrorKind::Async,
            ErrorKind::Regex
        ]
    );
    let mut messages: Vec<String> = errors.iter().map(|error| error.message()).collect();
    assert_eq!(messages[1], "Не удалось спарсить JSON файл словаря");
    messages.sort();
    messages.dedup();
    assert_eq!(messages.len(), 6);
    let build = vec![
        BuildSystemErrors::IOError("x".to_owned()),
        BuildSystemErrors::RegexError(api::patterns::CompiledPattern::compile("(").err().unwrap()),
        BuildSystemErrors::from(StaticDictionaryErrors::BasicDictionaryNotFound),
        BuildSystemErrors::from(serde_json::from_str::<bool>("x").unwrap_err()),
    ];
    assert!(matches!(build[2], BuildSystemErrors::StaticDictionaryError(_)));
    assert!(matches!(build[3], BuildSystemErrors::JSONError(_)));
    let mut build_messages: Vec<String> = build.iter().map(|error| error.message()).collect();
    build_messages.sort();
    build_messages.dedup();
    assert_eq!(build_messages.len(), 4);
    assert!(matches!(
        StaticDictionaryErrors::from(serde_json::from_str::<bool>("x").unwrap_err()),
        StaticDictionaryErrors::JSONParsingError(_)
    ));
}
