//! Finding dictionaries in a repository, and harvesting phrases from the
//! lines of source files.
use vstd::prelude::*;
use crate::errors::{ErrorKind, StaticDictionaryErrors};
use crate::file_system::{base_names, find_names, matching_names, names_of_language, NameFilter};
use crate::json::{
    distinct_keys, json_error, json_parse, lists_keys, member_keys, member_text, JsonModel,
    JsonValue,
};
use crate::repository::{content_of, Listing, Repository};
use crate::file_system::lemma_matching_names;
use crate::types::{Word, WordView};
use crate::patterns::{
    escape, escaped_text, optional_texts, pattern_captures, pattern_compiles, CompiledPattern,
};
use crate::text::texts;

verus! {

/// The markers of a list as one alternation: each marker stands for itself,
/// and a bar separates one from the next.
pub open spec fn alternatives(markers: Seq<Seq<char>>) -> Seq<char>
    decreases markers.len(),
{
    if markers.len() == 0 {
        Seq::empty()
    } else if markers.len() == 1 {
        escaped_text(markers[0])
    } else {
        alternatives(markers.drop_last()) + "|"@ + escaped_text(markers.last())
    }
}

/// The pattern that finds the phrases of a language: one of the start
/// markers, a double quote, the phrase, a double quote, one of the end
/// markers. The phrase is the second group and is as short as it can be.
pub open spec fn phrase_pattern(starts: Seq<Seq<char>>, ends: Seq<Seq<char>>) -> Seq<char> {
    "("@ + alternatives(starts) + ")\"(.*?)\"("@ + alternatives(ends) + ")"@
}

/// The texts that are there, in order.
pub open spec fn present(found: Seq<Option<Seq<char>>>) -> Seq<Seq<char>>
    decreases found.len(),
{
    if found.len() == 0 {
        Seq::empty()
    } else {
        match found.last() {
            Some(text) => present(found.drop_last()).push(text),
            None => present(found.drop_last()),
        }
    }
}

/// The phrases that a pattern finds in one line.
pub open spec fn phrases_of_line(pattern: Seq<char>, line: Seq<char>) -> Seq<Seq<char>> {
    present(pattern_captures(pattern, line, 2))
}

/// The phrases that a pattern finds in the lines of a file, line by line.
pub open spec fn phrases_of_lines(pattern: Seq<char>, lines: Seq<Seq<char>>) -> Seq<Seq<char>>
    decreases lines.len(),
{
    if lines.len() == 0 {
        Seq::empty()
    } else {
        phrases_of_lines(pattern, lines.drop_last()) + phrases_of_line(pattern, lines.last())
    }
}

/// The one name that a search found. A search that found nothing fails in
/// the way given; a search that found several names fails because the
/// repository does not tell which of them is meant.
pub open spec fn only_match(found: Seq<Seq<char>>, missing: ErrorKind) -> Result<
    Seq<char>,
    ErrorKind,
> {
    if found.len() == 0 {
        Err(missing)
    } else if found.len() == 1 {
        Ok(found[0])
    } else {
        Err(ErrorKind::Io)
    }
}

/// The name of the base dictionary of a repository.
pub open spec fn basic_dictionary(files: Listing) -> Result<Seq<char>, ErrorKind> {
    only_match(matching_names(files, base_names()), ErrorKind::BasicDictionaryNotFound)
}

/// The name of the dictionary of a language in a repository, be it the base
/// dictionary or a translated one.
pub open spec fn dictionary_by_lang(files: Listing, language: Seq<char>) -> Result<
    Seq<char>,
    ErrorKind,
> {
    only_match(matching_names(files, names_of_language(language)), ErrorKind::Io)
}

/// The markers as one alternation.
fn join_markers(markers: &Vec<String>) -> (joined: String)
    ensures
        joined@ == alternatives(texts(markers@)),
{
    let mut joined = String::new();
    let mut i: usize = 0;
    while i < markers.len()
        invariant
            i <= markers.len(),
            joined@ == alternatives(texts(markers@).take(i as int)),
        decreases markers.len() - i,
    {
        let ghost taken = texts(markers@).take(i + 1);
        proof {
            assert(taken.drop_last() =~= texts(markers@).take(i as int));
            assert(taken.last() == markers@[i as int]@);
            if i == 0 {
                assert(taken[0] == markers@[0]@);
                assert(joined@ + escaped_text(markers@[0]@) =~= escaped_text(markers@[0]@));
            }
        }
        if i > 0 {
            joined.append("|");
        }
        let marker = escape(markers[i].as_str());
        joined.append(marker.as_str());
        i += 1;
    }
    proof {
        assert(texts(markers@).take(markers@.len() as int) =~= texts(markers@));
    }
    joined
}

/// Compiles the pattern that finds the phrases between the given start and
/// end markers. The only failure is a pattern that does not compile.
pub fn generate_regex(regex_start: Vec<String>, regex_end: Vec<String>) -> (compiled: Result<
    CompiledPattern,
    StaticDictionaryErrors,
>)
    ensures
        match compiled {
            Ok(pattern) => pattern_compiles(
                phrase_pattern(texts(regex_start@), texts(regex_end@)),
            ) && pattern.source() == phrase_pattern(texts(regex_start@), texts(regex_end@)),
            Err(error) => !pattern_compiles(
                phrase_pattern(texts(regex_start@), texts(regex_end@)),
            ) && error is RegexError,
        },
{
    let start_pattern = join_markers(&regex_start);
    let end_pattern = join_markers(&regex_end);
    let mut pattern = "(".to_string();
    pattern.append(start_pattern.as_str());
    pattern.append(")\"(.*?)\"(");
    pattern.append(end_pattern.as_str());
    pattern.append(")");
    match CompiledPattern::compile(pattern.as_str()) {
        Ok(compiled) => Ok(compiled),
        Err(error) => Err(StaticDictionaryErrors::RegexError(error)),
    }
}

/// The phrases that the pattern finds in the lines of a file: for each line
/// in turn, what the second group captured in each match.
pub fn get_phrases_from_file(lines: &Vec<String>, pattern: &CompiledPattern) -> (phrases: Vec<
    String,
>)
    ensures
        texts(phrases@) == phrases_of_lines(pattern.source(), texts(lines@)),
{
    let mut phrases: Vec<String> = Vec::new();
    let mut i: usize = 0;
    while i < lines.len()
        invariant
            i <= lines.len(),
            texts(phrases@) == phrases_of_lines(pattern.source(), texts(lines@).take(i as int)),
        decreases lines.len() - i,
    {
        let found = pattern.captures(lines[i].as_str(), 2);
        let ghost before = texts(phrases@);
        let ghost captured = optional_texts(found@);
        let mut j: usize = 0;
        while j < found.len()
            invariant
                j <= found.len(),
                captured == optional_texts(found@),
                texts(phrases@) == before + present(captured.take(j as int)),
            decreases found.len() - j,
        {
            proof {
                assert(captured.take(j + 1).drop_last() =~= captured.take(j as int));
                assert(captured.take(j + 1).last() == captured[j as int]);
            }
            match &found[j] {
                Some(text) => {
                    let ghost prior = texts(phrases@);
                    phrases.push(text.clone());
                    assert(texts(phrases@) =~= prior.push(text@));
                },
                None => {},
            }
            j += 1;
        }
        proof {
            assert(captured.take(found@.len() as int) =~= captured);
            let taken = texts(lines@).take(i + 1);
            assert(taken.drop_last() =~= texts(lines@).take(i as int));
            assert(taken.last() == lines@[i as int]@);
        }
        i += 1;
    }
    proof {
        assert(texts(lines@).take(lines@.len() as int) =~= texts(lines@));
    }
    phrases
}

/// The name of the base dictionary of the repository: the one file named
/// as a base dictionary. Without such a file the base dictionary is not
/// found; with several of them the search fails as well.
pub fn get_basic_dictionary(repo: &Repository) -> (found: Result<String, StaticDictionaryErrors>)
    ensures
        match basic_dictionary(repo@) {
            Ok(name) => found is Ok && found->Ok_0@ == name,
            Err(kind) => found is Err && found->Err_0.kind() == kind,
        },
{
    let names = find_names(repo, &NameFilter::Base);
    if names.len() == 0 {
        Err(StaticDictionaryErrors::BasicDictionaryNotFound)
    } else if names.len() == 1 {
        Ok(names[0].clone())
    } else {
        Err(StaticDictionaryErrors::IOError("Найдено несколько базовых словарей".to_string()))
    }
}

/// The name of the dictionary of a language in the repository: the one
/// dictionary file whose name encodes that language. The search fails
/// without such a file, and with several of them.
pub fn get_dictionary_by_lang(repo: &Repository, lang: &str) -> (found: Result<
    String,
    StaticDictionaryErrors,
>)
    ensures
        match dictionary_by_lang(repo@, lang@) {
            Ok(name) => found is Ok && found->Ok_0@ == name,
            Err(kind) => found is Err && found->Err_0.kind() == kind,
        },
{
    let names = find_names(repo, &NameFilter::Language(lang));
    if names.len() == 0 {
        Err(StaticDictionaryErrors::IOError("Файл словаря не найден".to_string()))
    } else if names.len() == 1 {
        Ok(names[0].clone())
    } else {
        Err(StaticDictionaryErrors::IOError("Найдено несколько словарей этого языка".to_string()))
    }
}

/// Reads the JSON text of a dictionary.
pub fn read_json_dictionary(content: &str) -> (read: Result<JsonValue, serde_json::Error>)
    ensures
        match json_parse(content@) {
            Some(document) => read is Ok && read->Ok_0@ == document,
            None => read is Err,
        },
{
    JsonValue::parse(content)
}

/// The tags of a dictionary: the keys of its JSON object, each once, in
/// the order in which the members first name them. A document that is no
/// object is a JSON failure.
pub fn get_tags_from_dictionary(dictionary: JsonValue) -> (tags: Result<
    Vec<String>,
    StaticDictionaryErrors,
>)
    ensures
        match dictionary@ {
            JsonModel::Object(members) => tags is Ok && lists_keys(
                texts(tags->Ok_0@),
                members.dom(),
            ),
            _ => tags is Err && tags->Err_0.kind() == ErrorKind::Json,
        },
        match dictionary {
            JsonValue::Object(members) => tags is Ok && texts(tags->Ok_0@) == distinct_keys(
                member_keys(members@),
            ),
            _ => tags is Err,
        },
{
    match dictionary.object_keys() {
        Some(keys) => Ok(keys),
        None => Err(
            StaticDictionaryErrors::JSONParsingError(json_error("Tags not found in dictionary")),
        ),
    }
}

/// Whether the member of a tag is an object that holds a `word`.
pub open spec fn holds_word(members: Map<Seq<char>, JsonModel>, tag: Seq<char>) -> bool {
    members[tag] is Object && members[tag]->Object_0.contains_key("word"@)
}

/// Whether each member of a dictionary is an object that holds a `word`.
pub open spec fn holds_words(members: Map<Seq<char>, JsonModel>) -> bool {
    forall|tag: Seq<char>| members.contains_key(tag) ==> holds_word(members, tag)
}

/// The members of the dictionary of a language in which each tag stands
/// for an object that holds a `word`.
pub open spec fn tagged_members(files: Listing, language: Seq<char>) -> Result<
    Map<Seq<char>, JsonModel>,
    ErrorKind,
> {
    match dictionary_by_lang(files, language) {
        Err(kind) => Err(kind),
        Ok(name) => match json_parse(content_of(files, name)) {
            Some(JsonModel::Object(members)) => if holds_words(members) {
                Ok(members)
            } else {
                Err(ErrorKind::Json)
            },
            _ => Err(ErrorKind::Json),
        },
    }
}

/// Whether the words are those of a dictionary of tagged objects: one word
/// for each member, with the key of the member as its tag, the text under
/// the `word` of the member as its text, unchanged, and the given language.
/// A `word` that is no text gives its compact JSON text.
pub open spec fn are_tagged_words_of(
    words: Seq<WordView>,
    members: Map<Seq<char>, JsonModel>,
    language: Seq<char>,
) -> bool {
    &&& lists_keys(Seq::new(words.len(), |i: int| words[i].tag), members.dom())
    &&& forall|i: int|
        0 <= i < words.len() ==> (#[trigger] words[i]).word == member_text(
            members[words[i].tag]->Object_0["word"@],
        ) && words[i].language == language
}

/// The words of the dictionary of a language in which each tag stands for
/// an object that holds a `word`.
pub fn parse_json_into_words(repo: &Repository, language: &str) -> (words: Result<
    Vec<Word>,
    StaticDictionaryErrors,
>)
    ensures
        match tagged_members(repo@, language@) {
            Ok(members) => words is Ok && are_tagged_words_of(
                Seq::new(words->Ok_0@.len(), |i: int| words->Ok_0@[i]@),
                members,
                language@,
            ),
            Err(kind) => words is Err && words->Err_0.kind() == kind,
        },
{
    let name = match get_dictionary_by_lang(repo, language) {
        Ok(name) => name,
        Err(error) => {
            return Err(error);
        },
    };
    proof {
        lemma_matching_names(repo@, names_of_language(language@), 0);
    }
    let content = match repo.read(name.as_str()) {
        Some(content) => content,
        None => {
            return Err(StaticDictionaryErrors::IOError("Файл словаря не найден".to_string()));
        },
    };
    let tree = match read_json_dictionary(content.as_str()) {
        Ok(tree) => tree,
        Err(error) => {
            return Err(StaticDictionaryErrors::JSONParsingError(error));
        },
    };
    let keys = match tree.object_keys() {
        Some(keys) => keys,
        None => {
            return Err(
                StaticDictionaryErrors::JSONParsingError(
                    json_error("Tags not found in dictionary"),
                ),
            );
        },
    };
    let ghost members = tree@->Object_0;
    let mut words: Vec<Word> = Vec::new();
    let mut i: usize = 0;
    while i < keys.len()
        invariant
            i <= keys.len(),
            tree@ == JsonModel::Object(members),
            dictionary_by_lang(repo@, language@) is Ok,
            json_parse(content_of(repo@, dictionary_by_lang(repo@, language@)->Ok_0)) == Some(
                tree@,
            ),
            lists_keys(texts(keys@), members.dom()),
            words@.len() == i,
            forall|j: int|
                0 <= j < i ==> holds_word(members, #[trigger] keys@[j]@),
            forall|j: int|
                0 <= j < i ==> (#[trigger] words@[j])@ == (WordView {
                    word: member_text(members[keys@[j]@]->Object_0["word"@]),
                    tag: keys@[j]@,
                    language: language@,
                }),
        decreases keys.len() - i,
    {
        proof {
            assert(texts(keys@)[i as int] == keys@[i as int]@);
            assert(texts(keys@).to_set().contains(keys@[i as int]@));
        }
        let ghost key = keys@[i as int]@;
        let word = match tree.get(keys[i].as_str()) {
            Some(tagged) => match tagged.get("word") {
                Some(word) => word.plain_text(),
                None => {
                    assert(members.contains_key(key));
                    assert(!holds_word(members, key));
                    return Err(
                        StaticDictionaryErrors::JSONParsingError(
                            json_error("a tag holds no word"),
                        ),
                    );
                },
            },
            None => {
                return Err(
                    StaticDictionaryErrors::JSONParsingError(json_error("a tag holds no word")),
                );
            },
        };
        assert(holds_word(members, key));
        words.push(Word::new(word, keys[i].clone(), language.to_string()));
        i += 1;
    }
    proof {
        let found = Seq::new(words@.len(), |i: int| words@[i]@);
        assert(Seq::new(found.len(), |i: int| found[i].tag) =~= texts(keys@));
        assert forall|tag: Seq<char>| members.contains_key(tag) implies holds_word(
            members,
            tag,
        ) by {
            assert(texts(keys@).to_set().contains(tag));
            let j = choose|j: int| 0 <= j < keys@.len() && texts(keys@)[j] == tag;
            assert(keys@[j]@ == tag);
        }
    }
    Ok(words)
}

} // verus!
