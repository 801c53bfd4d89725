use api::file_system::check_dictionary_exists;
use api::parser::{
    get_basic_dictionary, get_dictionary_by_lang, get_tags_from_dictionary, read_json_dictionary,
};
use api::repository::{RepoFile, Repository};
use api::static_translate::parse_static_basic_dictionary;
use api::types::Word;
use api::web_api::LibreTranslateApi;

fn file(name: &str, content: &str) -> RepoFile {
    RepoFile { name: name.to_owned(), content: content.to_owned() }
}

fn dictionaries(path: &str) -> Repository {
    let mut repo = Repository::new(path.to_owned());
    repo.files.push(file(
        "dictionary-ru.base.json",
        "[\n  \"Добро пожаловать на наш сайт\",\n  \"Здесь вам не рады\"\n]",
    ));
    repo.files.push(file("dictionary-de.json", "{}"));
    repo.files.push(file("dictionary-en.json", "{}"));
    repo
}

fn tagged_dictionary() -> &'static str {
    "{\"greeting\": {\"ru\": \"Привет\", \"en\": \"Hello\", \"de\": \"Hallo\"}, \
      \"farewell\": {\"ru\": \"Пока\", \"en\": \"Bye\", \"de\": \"Tschüss\"}}"
}

#[test]
fn test_libre_translator_on_localhost_works() {
    let api = LibreTranslateApi::new("http://127.0.0.1:5000".to_owned());
    let test_word = Word::new("Привет".to_owned(), "greeting".to_owned(), "ru".to_owned());
    let test_word_clone = test_word.clone();
    let result =
        api.translate_word_with_tag(test_word, "en".to_owned(), "{\"translatedText\": \"Hey\"}");
    match result {
        Ok(word) => {
            assert_eq!(word.word.trim().replace("\"", ""), "Hey");
            assert_eq!(word.language, "en");
            assert_eq!(word.tag, test_word_clone.tag)
        }
        Err(err) => {
            panic!("{}", err.message())
        }
    }
}

#[test]
fn test_dictionary_file_reading() {
    let read_result = read_json_dictionary(tagged_dictionary());
    match read_result {
        Ok(json_object) => {
            assert_eq!(json_object.get("greeting").is_some(), true);
            assert_eq!(json_object.get("farewell").is_some(), true);
            let greeting = json_object.get("greeting").unwrap();
            assert_eq!(greeting.get("ru").unwrap().as_text().unwrap(), "Привет");
            assert_eq!(greeting.get("en").unwrap().as_text().unwrap(), "Hello");
            assert_eq!(greeting.get("de").unwrap().as_text().unwrap(), "Hallo");
        }
        Err(_) => panic!("Error occured while reading the file"),
    }
}

#[test]
fn test_tags_parsed_correctly() {
    let read_result = read_json_dictionary(tagged_dictionary());
    match read_result {
        Ok(json) => {
            let keys = get_tags_from_dictionary(json);
            match keys {
                Ok(tags) => {
                    assert_eq!(tags.contains(&"farewell".to_owned()), true);
                    assert_eq!(tags.contains(&"greeting".to_owned()), true);
                    assert_eq!(tags.len(), 2);
                }
                Err(_) => panic!("Tag parser function returned an Err type"),
            }
        }
        Err(_) => panic!("File-reader returned an Err type"),
    }
}

#[test]
fn test_utility_finds_correct_path_to_dictionary() {
    let dictionaries_dir = "C:/Users/Timur/Desktop/auto-translator/api/src/dictionaries";
    let language = "ru";
    let result = get_dictionary_by_lang(&dictionaries(dictionaries_dir), &language);
    match result {
        Ok(filename) => {
            println!("{}", filename);
            assert_eq!(filename, "dictionary-ru.base.json");
        }
        Err(_) => {
            panic!("Error: dictionary is not found!");
        }
    }
}

#[test]
fn test_utility_finds_correct_path_to_basic_dictionary() {
    let dictionaries_dir = "C:/Users/Timur/Desktop/auto-translator/api/src/dictionaries";
    let result = get_basic_dictionary(&dictionaries(dictionaries_dir));
    match result {
        Ok(path) => {
            assert_eq!("dictionary-ru.base.json", path)
        }
        Err(_) => {
            panic!("Basic dictionary is not found")
        }
    }
}

#[test]
fn test_static_dictionary_parses_correctly() {
    let dictionary_path = "C:/Users/Timur/Desktop/auto-translator/api/src/dictionaries";
    let result = parse_static_basic_dictionary(&dictionaries(dictionary_path));
    match result {
        Ok(words) => {
            assert_eq!(words.contains(&"Добро пожаловать на наш сайт".to_owned()), true);
            assert_eq!(words.contains(&"Здесь вам не рады".to_owned()), true);
        }
        Err(_) => {
            panic!("Error occured: Coudn't find basic dictionary");
        }
    }
}

#[test]
fn test_check_path_works_correctly() {
    let dictionaries_path = "C:/Users/Timur/Desktop/auto-translator/dictionaries";
    let repo = dictionaries(dictionaries_path);
    assert_eq!(check_dictionary_exists(&repo, "de"), true);
    assert_eq!(check_dictionary_exists(&repo, "en"), true);
}

#[test]
fn check_dictionary_exists_misses_what_is_not_there() {
    let repo = dictionaries("dictionaries");
    assert_eq!(check_dictionary_exists(&repo, "fr"), false);
    // the base dictionary is no translated dictionary
    assert_eq!(check_dictionary_exists(&repo, "ru"), false);
    assert_eq!(check_dictionary_exists(&Repository::new("empty".to_owned()), "de"), false);
}
