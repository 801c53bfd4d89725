//! What a dictionary repository holds: which dictionaries are there, and
//! how a new repository starts.
use vstd::prelude::*;
use crate::config::{is_config_document, is_config_of, ConfigFileParameters};
use crate::errors::{ErrorKind, StaticDictionaryErrors};
use crate::json::{array_of_texts, json_parse, json_pretty, JsonValue};
use crate::naming::{
    base_dictionary_file_name, base_dictionary_name, dictionary_language,
    get_dictionary_language, is_base_dictionary_file_name, is_base_dictionary_name,
    is_translated_dictionary_file_name, is_translated_dictionary_name,
    language_dictionary_file_name, language_dictionary_name,
};
use crate::repository::{has_file, names_of, Listing, RepoFile, Repository};
use crate::text::{chars_of, concat, text_of, texts};

verus! {

/// The file names that a search of the repository looks for.
pub enum NameFilter<'a> {
    /// The names of base dictionaries.
    Base,
    /// The names of translated dictionaries with a language code.
    Translated,
    /// Every dictionary file name.
    Any,
    /// The dictionary file names that encode the given language.
    Language(&'a str),
}

/// The names of base dictionaries.
pub open spec fn base_names() -> spec_fn(Seq<char>) -> bool {
    |name: Seq<char>| is_base_dictionary_name(name)
}

/// The names of translated dictionaries with a language code.
pub open spec fn translated_names() -> spec_fn(Seq<char>) -> bool {
    |name: Seq<char>| is_translated_dictionary_name(name)
}

/// The names of dictionary files.
pub open spec fn dictionary_names() -> spec_fn(Seq<char>) -> bool {
    |name: Seq<char>| dictionary_language(name) is Some
}

/// The dictionary file names that encode the given language.
pub open spec fn names_of_language(language: Seq<char>) -> spec_fn(Seq<char>) -> bool {
    |name: Seq<char>| dictionary_language(name) == Some(language)
}

impl<'a> NameFilter<'a> {
    /// The names that the search looks for.
    pub open spec fn wanted(self) -> spec_fn(Seq<char>) -> bool {
        match self {
            NameFilter::Base => base_names(),
            NameFilter::Translated => translated_names(),
            NameFilter::Any => dictionary_names(),
            NameFilter::Language(language) => names_of_language(language@),
        }
    }

    /// Whether the search looks for that name.
    pub fn test(&self, name: &str) -> (accepted: bool)
        ensures
            accepted == (self.wanted())(name@),
    {
        match self {
            NameFilter::Base => is_base_dictionary_file_name(name),
            NameFilter::Translated => is_translated_dictionary_file_name(name),
            NameFilter::Any => get_dictionary_language(name).is_ok(),
            NameFilter::Language(language) => match get_dictionary_language(name) {
                Ok(found) => *found.as_str() == **language,
                Err(_) => false,
            },
        }
    }
}

/// The names of the listing that a search looks for, in directory order.
pub open spec fn matching_names(files: Listing, wanted: spec_fn(Seq<char>) -> bool) -> Seq<
    Seq<char>,
> {
    names_of(files).filter(wanted)
}

/// Each name that a search finds is wanted and is the name of a file of the
/// listing.
pub proof fn lemma_matching_names(files: Listing, wanted: spec_fn(Seq<char>) -> bool, i: int)
    requires
        0 <= i < matching_names(files, wanted).len(),
    ensures
        wanted(matching_names(files, wanted)[i]),
        has_file(files, matching_names(files, wanted)[i]),
{
    let names = names_of(files);
    let found = names.filter(wanted);
    names.lemma_filter_pred(wanted, i);
    assert(found.contains(found[i]));
    names.lemma_filter_contains_rev(wanted, found[i]);
    let at = choose|at: int| 0 <= at < names.len() && names[at] == found[i];
    assert(files[at].0 == found[i]);
}

/// The names of the files that a search looks for, in directory order.
pub fn find_names(repo: &Repository, filter: &NameFilter) -> (found: Vec<String>)
    ensures
        texts(found@) == matching_names(repo@, filter.wanted()),
{
    let mut found: Vec<String> = Vec::new();
    let ghost names = names_of(repo@);
    let ghost wanted = filter.wanted();
    proof {
        assert(names.take(0) =~= Seq::<Seq<char>>::empty());
    }
    let mut i: usize = 0;
    while i < repo.files.len()
        invariant
            i <= repo.files.len(),
            names == names_of(repo@),
            wanted == filter.wanted(),
            texts(found@) == names.take(i as int).filter(wanted),
        decreases repo.files.len() - i,
    {
        proof {
            assert(names.take(i + 1).drop_last() =~= names.take(i as int));
            assert(names.take(i + 1).last() == repo.files@[i as int].name@);
            reveal_with_fuel(Seq::filter, 2);
        }
        if filter.test(repo.files[i].name.as_str()) {
            let ghost prior = texts(found@);
            found.push(repo.files[i].name.clone());
            assert(texts(found@) =~= prior.push(repo.files@[i as int].name@));
        }
        i += 1;
    }
    proof {
        assert(names.take(names.len() as int) =~= names);
    }
    found
}

/// Whether the repository holds the dictionary translated into a language.
pub fn check_dictionary_exists(repo: &Repository, language: &str) -> (exists: bool)
    ensures
        exists == has_file(repo@, language_dictionary_name(language@)),
{
    let name = language_dictionary_file_name(language);
    repo.position(name.as_str()).is_some()
}

/// The names of all dictionary files of the repository, base and
/// translated, in directory order.
pub fn find_all_dictionaries_in_repository(repo: &Repository) -> (found: Vec<String>)
    ensures
        texts(found@) == matching_names(repo@, dictionary_names()),
{
    find_names(repo, &NameFilter::Any)
}

/// The names of the translated dictionaries of the repository, in directory
/// order: those whose name holds a language code. The base dictionary is
/// not among them.
pub fn find_all_translated_dictionaries(repo: &Repository) -> (found: Vec<String>)
    ensures
        texts(found@) == matching_names(repo@, translated_names()),
{
    find_names(repo, &NameFilter::Translated)
}

/// A new dictionary repository: the directory `dictionaries` under the
/// parent directory, or under the current directory where no parent is
/// given, with the base dictionary of the language as its only file. The
/// base dictionary holds no phrase yet.
pub fn init_new_dictionary_system(
    parent: Option<String>,
    current_directory: &str,
    basic_language: String,
) -> (repo: Repository)
    ensures
        repo.path@ == (match parent {
            Some(directory) => directory@,
            None => current_directory@,
        }) + "/dictionaries"@,
        repo@ == seq![
            (
                base_dictionary_name(basic_language@),
                json_pretty(array_of_texts(Seq::<Seq<char>>::empty())),
            ),
        ],
{
    let mut path = match parent {
        Some(directory) => directory,
        None => current_directory.to_string(),
    };
    path.append("/dictionaries");
    let mut repo = Repository::new(path);
    let phrases: Vec<String> = Vec::new();
    let content = JsonValue::from_texts(&phrases).to_pretty_text();
    let name = base_dictionary_file_name(basic_language.as_str());
    proof {
        assert(texts(phrases@) =~= Seq::<Seq<char>>::empty());
    }
    repo.files.push(RepoFile { name, content });
    assert(repo@ =~= seq![
        (
            base_dictionary_name(basic_language@),
            json_pretty(array_of_texts(Seq::<Seq<char>>::empty())),
        ),
    ]);
    repo
}

/// Where the configuration of a project is read from: the path given, or,
/// where none is given, the file `config.dms.json` of the current
/// directory.
pub fn config_location(config_path: Option<String>, current_directory: &str) -> (path: String)
    ensures
        path@ == (match config_path {
            Some(given) => given@,
            None => current_directory@ + "/config.dms.json"@,
        }),
{
    match config_path {
        Some(given) => given,
        None => concat(current_directory, "/config.dms.json"),
    }
}

/// Reads the configuration of a project from the text of its file. A text
/// that is no JSON, or whose document does not stand for a configuration,
/// is a JSON failure.
pub fn parse_config_file(file_content: &str) -> (parsed: Result<
    ConfigFileParameters,
    StaticDictionaryErrors,
>)
    ensures
        match json_parse(file_content@) {
            Some(document) => if is_config_document(document) {
                parsed is Ok && is_config_of(parsed->Ok_0@, document)
            } else {
                parsed is Err && parsed->Err_0.kind() == ErrorKind::Json
            },
            None => parsed is Err && parsed->Err_0.kind() == ErrorKind::Json,
        },
{
    match ConfigFileParameters::from_json(file_content) {
        Ok(config) => Ok(config),
        Err(error) => Err(StaticDictionaryErrors::JSONParsingError(error)),
    }
}

/// The place of the last dot of a file name; -1 if it has none.
pub open spec fn last_dot(name: Seq<char>) -> int
    decreases name.len(),
{
    if name.len() == 0 {
        -1
    } else if name.last() == '.' {
        name.len() - 1
    } else {
        last_dot(name.drop_last())
    }
}

/// The extension of a bare file name: what follows its last dot. A name
/// without a dot has none, nor has a name whose only dot is its first
/// character, nor the name `..`.
pub open spec fn file_extension(name: Seq<char>) -> Option<Seq<char>> {
    if last_dot(name) <= 0 || name == seq!['.', '.'] {
        None
    } else {
        Some(name.skip(last_dot(name) + 1))
    }
}

/// The last dot of a name is a dot, and no dot follows it.
pub proof fn lemma_last_dot(name: Seq<char>)
    ensures
        -1 <= last_dot(name) < name.len(),
        last_dot(name) >= 0 ==> name[last_dot(name)] == '.',
        forall|i: int| last_dot(name) < i < name.len() ==> name[i] != '.',
    decreases name.len(),
{
    if name.len() > 0 && name.last() != '.' {
        lemma_last_dot(name.drop_last());
        assert forall|i: int| last_dot(name) < i < name.len() implies name[i] != '.' by {
            if i < name.len() - 1 {
                assert(name.drop_last()[i] == name[i]);
            }
        }
    }
}

/// The extension of a bare file name, without its dot.
pub fn get_file_extension(filename: &str) -> (extension: Option<String>)
    ensures
        match extension {
            Some(found) => file_extension(filename@) == Some(found@),
            None => file_extension(filename@) is None,
        },
{
    let name = chars_of(filename);
    let mut i: usize = name.len();
    while i > 0 && name[i - 1] != '.'
        invariant
            i <= name.len(),
            forall|j: int| i <= j < name.len() ==> name@[j] != '.',
        decreases i,
    {
        i -= 1;
    }
    proof {
        lemma_last_dot(name@);
        if i > 0 {
            assert(name@[i - 1] == '.');
            assert(last_dot(name@) == i - 1);
        } else {
            assert(last_dot(name@) == -1);
        }
    }
    if i <= 1 {
        return None;
    }
    if name.len() == 2 && name[0] == '.' {
        assert(name@ =~= seq!['.', '.']);
        return None;
    }
    assert(name@ != seq!['.', '.']) by {
        if name@ == seq!['.', '.'] {
            assert(name@.len() == 2 && name@[0] == '.');
        }
    }
    Some(text_of(&name, i, name.len()))
}

} // verus!
