use api::config::{ConfigFileParameters, LanguageConfiguration};
use api::errors::{ErrorKind, StaticDictionaryErrors};
use api::parser::{generate_regex, get_phrases_from_file};
use api::patterns::{escape, CompiledPattern};
use api::repository::{RepoFile, Repository};
use api::scanner::{scan_files_for_phrases, ScanPlan, SourceFile};
use api::static_translate::parse_static_basic_dictionary;

fn strings(items: &[&str]) -> Vec<String> {
    items.iter().map(|item| (*item).to_owned()).collect()
}

fn language(extensions: &[&str], starts: &[&str], ends: &[&str]) -> LanguageConfiguration {
    LanguageConfiguration {
        file_extensions: strings(extensions),
        string_start: strings(starts),
        string_end: strings(ends),
    }
}

fn config(exclude: &[&str], languages: Vec<LanguageConfiguration>) -> ConfigFileParameters {
    ConfigFileParameters {
        base_directory: "src".to_owned(),
        exclude_files: strings(exclude),
        dictionary_repo: "dictionaries".to_owned(),
        output_dir: "out".to_owned(),
        languages_configurations: vec![languages
            .into_iter()
            .enumerate()
            .map(|(i, language)| (format!("language{}", i), language))
            .collect()],
        manual_translate_words: vec![],
    }
}

fn source(name: &str, lines: &[&str]) -> SourceFile {
    SourceFile { name: name.to_owned(), lines: strings(lines) }
}

fn repo_with_base(content: &str) -> Repository {
    let mut repo = Repository::new("dictionaries".to_owned());
    repo.files.push(RepoFile { name: "dictionary-en.base.json".to_owned(), content: content.to_owned() });
    repo
}

fn base_of(repo: &Repository) -> Vec<String> {
    parse_static_basic_dictionary(repo).unwrap()
}

#[test]
fn escaping_puts_a_backslash_before_meta_characters() {
    assert_eq!(escape("t("), "t\\(");
    assert_eq!(escape("plain text"), "plain text");
    assert_eq!(escape("\\.+*?()|[]{}^$#&-~"), "\\\\\\.\\+\\*\\?\\(\\)\\|\\[\\]\\{\\}\\^\\$\\#\\&\\-\\~");
    assert_eq!(escape("%/!\"e"), "%/!\"e");
    assert_eq!(escape(""), "");
}

#[test]
fn the_phrase_pattern_is_made_of_the_markers() {
    let pattern = generate_regex(strings(&["t("]), strings(&[")"])).unwrap();
    assert_eq!(pattern.as_str(), "(t\\()\"(.*?)\"(\\))");
    let several = generate_regex(strings(&["t(", "i18n.t("]), strings(&[")", ", "])).unwrap();
    assert_eq!(several.as_str(), "(t\\(|i18n\\.t\\()\"(.*?)\"(\\)|, )");
    let none = generate_regex(vec![], vec![]).unwrap();
    assert_eq!(none.as_str(), "()\"(.*?)\"()");
}

#[test]
fn extraction_finds_the_configured_call_only() {
    let pattern = generate_regex(strings(&["t("]), strings(&[")"])).unwrap();
    let phrases = get_phrases_from_file(&strings(&["t(\"hello world\")"]), &pattern);
    assert_eq!(phrases, strings(&["hello world"]));
    let mixed = get_phrases_from_file(
        &strings(&["let a = t(\"hello world\"); let b = x(\"not this\");"]),
        &pattern,
    );
    assert_eq!(mixed, strings(&["hello world"]));
}

#[test]
fn extraction_takes_every_match_of_every_line() {
    let pattern = generate_regex(strings(&["t(", "tr("]), strings(&[")"])).unwrap();
    let phrases = get_phrases_from_file(
        &strings(&["t(\"one\") + tr(\"two\")", "nothing here", "  t(\"three\")", "t(\"\")"]),
        &pattern,
    );
    assert_eq!(phrases, strings(&["one", "two", "three", ""]));
    assert_eq!(get_phrases_from_file(&vec![], &pattern), Vec::<String>::new());
}

#[test]
fn a_phrase_does_not_run_over_lines() {
    let pattern = generate_regex(strings(&["t("]), strings(&[")"])).unwrap();
    let phrases = get_phrases_from_file(&strings(&["t(\"begins", "ends\")"]), &pattern);
    assert_eq!(phrases, Vec::<String>::new());
}

#[test]
fn compiled_patterns_search_texts() {
    let pattern = CompiledPattern::compile("^gen_.*\\.rs$").unwrap();
    assert_eq!(pattern.as_str(), "^gen_.*\\.rs$");
    assert!(pattern.is_match("gen_types.rs"));
    assert!(!pattern.is_match("types.rs"));
    let groups = CompiledPattern::compile("(a)|(b)").unwrap();
    assert_eq!(groups.captures("ab", 1), vec![Some("a".to_owned()), None]);
    assert_eq!(groups.captures("ab", 2), vec![None, Some("b".to_owned())]);
    assert_eq!(groups.captures("ab", 7), vec![None, None]);
    assert_eq!(groups.captures("xyz", 1), Vec::<Option<String>>::new());
    assert!(CompiledPattern::compile("foo(bar").is_err());
}

#[test]
fn the_plan_tells_which_files_are_scanned() {
    let config = config(
        &["^generated_", "\\.min\\."],
        vec![language(&[".ts", ".tsx"], &["t("], &[")"]), language(&[".py"], &["_("], &[")"])],
    );
    let plan = ScanPlan::build(&config).unwrap();
    assert_eq!(plan.pattern_for("app.ts").unwrap().as_str(), "(t\\()\"(.*?)\"(\\))");
    assert_eq!(plan.pattern_for("view.tsx").unwrap().as_str(), "(t\\()\"(.*?)\"(\\))");
    assert_eq!(plan.pattern_for("main.py").unwrap().as_str(), "(_\\()\"(.*?)\"(\\))");
    assert!(plan.pattern_for("main.rs").is_none());
    assert!(plan.pattern_for("Makefile").is_none());
    assert!(plan.pattern_for(".hidden.ts").is_none());
    assert!(plan.pattern_for("generated_api.ts").is_none());
    assert!(plan.pattern_for("bundle.min.ts").is_none());
    assert!(plan.pattern_for("ts").is_none());
}

#[test]
fn the_later_language_of_an_extension_is_used() {
    let config = config(&[], vec![language(&[".js"], &["a("], &[")"]), language(&[".js"], &["b("], &[")"])]);
    let plan = ScanPlan::build(&config).unwrap();
    assert_eq!(plan.pattern_for("x.js").unwrap().as_str(), "(b\\()\"(.*?)\"(\\))");
}

#[test]
fn an_exclude_pattern_that_does_not_compile_fails_the_scan_at_once() {
    let config = config(&["("], vec![language(&[".ts"], &["t("], &[")"])]);
    assert!(matches!(ScanPlan::build(&config), Err(StaticDictionaryErrors::RegexError(_))));
    let mut repo = repo_with_base("[\"old\"]");
    let error =
        scan_files_for_phrases(&config, &vec![source("a.ts", &["t(\"new\")"])], &mut repo).unwrap_err();
    assert_eq!(error.kind(), ErrorKind::Regex);
    assert_eq!(repo.files[0].content, "[\"old\"]");
}

#[test]
fn an_excluded_file_is_never_scanned() {
    let config = config(&["^skip"], vec![language(&[".ts"], &["t("], &[")"])]);
    let mut repo = repo_with_base("[]");
    let sources = vec![source("skip_me.ts", &["t(\"hidden\")"]), source("keep.ts", &["t(\"seen\")"])];
    scan_files_for_phrases(&config, &sources, &mut repo).unwrap();
    assert_eq!(base_of(&repo), strings(&["seen"]));
}

#[test]
fn without_exclude_patterns_no_file_is_excluded() {
    let config = config(&[], vec![language(&[".ts"], &["t("], &[")"])]);
    let mut repo = repo_with_base("[]");
    let sources = vec![
        source("a.ts", &["t(\"one\")", "t(\"two\")"]),
        source(".b.ts", &["t(\"dot\")"]),
        source("c.rs", &["t(\"rust\")"]),
        source("d.ts", &["t(\"two\") t(\"three\")"]),
    ];
    scan_files_for_phrases(&config, &sources, &mut repo).unwrap();
    assert_eq!(base_of(&repo), strings(&["one", "two", "three"]));
    assert_eq!(repo.files[0].content, "[\n  \"one\",\n  \"two\",\n  \"three\"\n]");
}

#[test]
fn a_file_that_matches_one_of_several_exclude_patterns_is_left_out() {
    let config = config(&["^a", "^b"], vec![language(&[".ts"], &["t("], &[")"])]);
    let mut repo = repo_with_base("[]");
    let sources = vec![
        source("a.ts", &["t(\"from a\")"]),
        source("b.ts", &["t(\"from b\")"]),
        source("c.ts", &["t(\"from c\")"]),
    ];
    scan_files_for_phrases(&config, &sources, &mut repo).unwrap();
    assert_eq!(base_of(&repo), strings(&["from c"]));
}

#[test]
fn a_scan_without_base_dictionary_fails_at_the_first_scanned_file() {
    let config = config(&[], vec![language(&[".ts"], &["t("], &[")"])]);
    let mut repo = Repository::new("dictionaries".to_owned());
    let unscanned = vec![source("a.rs", &["t(\"x\")"])];
    assert!(scan_files_for_phrases(&config, &unscanned, &mut repo).is_ok());
    let scanned = vec![source("a.ts", &["t(\"x\")"])];
    let error = scan_files_for_phrases(&config, &scanned, &mut repo).unwrap_err();
    assert!(matches!(error, StaticDictionaryErrors::BasicDictionaryNotFound));
}

#[test]
fn a_scan_keeps_what_it_merged_before_a_failure() {
    let config = config(&[], vec![language(&[".ts"], &["t("], &[")"])]);
    let mut repo = repo_with_base("[\"old\"]");
    repo.files.push(RepoFile { name: "dictionary-ru.json".to_owned(), content: "{}".to_owned() });
    scan_files_for_phrases(&config, &vec![source("a.ts", &["t(\"new\")"])], &mut repo).unwrap();
    assert_eq!(base_of(&repo), strings(&["old", "new"]));
    assert_eq!(repo.files.len(), 2);
    assert_eq!(repo.files[0].name, "dictionary-en.base.json");
    assert_eq!(repo.files[1].content, "{}");
    let mut broken = repo_with_base("{\"no\": \"array\"}");
    let error =
        scan_files_for_phrases(&config, &vec![source("a.ts", &["t(\"new\")"])], &mut broken).unwrap_err();
    assert_eq!(error.kind(), ErrorKind::Json);
    assert_eq!(broken.files[0].content, "{\"no\": \"array\"}");
}
