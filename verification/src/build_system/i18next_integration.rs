//! The export for i18next: one directory for each language, with the
//! dictionary of the language in a file of its own.
use vstd::prelude::*;
use crate::errors::{BuildSystemErrors, ErrorKind};
use crate::file_system::{
    find_all_translated_dictionaries, lemma_matching_names, matching_names, translated_names,
};
use crate::json::{
    json_pretty, lemma_text_map, member_text, pair_texts, text_map, JsonModel, JsonValue,
};
use crate::naming::{dictionary_language, get_dictionary_language, lemma_translated_name_language};
use crate::repository::{Listing, Repository};
use crate::static_translate::{
    are_words_of, parse_translated_dictionary, tags_of, translated_members, words_view,
};
use crate::text::{concat, is_wrapped, strip_quotes, texts, without_quotes};
use crate::types::WordView;

verus! {

/// A file of an export: the language it is for, the directory it goes to,
/// its path, and its text.
#[derive(Debug, Clone, PartialEq)]
pub struct ExportedFile {
    pub language: String,
    pub directory: String,
    pub path: String,
    pub content: String,
}

/// What a file of an export holds, as plain texts.
pub ghost struct ExportView {
    pub language: Seq<char>,
    pub directory: Seq<char>,
    pub path: Seq<char>,
    pub content: Seq<char>,
}

impl View for ExportedFile {
    type V = ExportView;

    open spec fn view(&self) -> ExportView {
        ExportView {
            language: self.language@,
            directory: self.directory@,
            path: self.path@,
            content: self.content@,
        }
    }
}

/// What a list of files of an export holds.
pub open spec fn exports_view(files: Seq<ExportedFile>) -> Seq<ExportView> {
    Seq::new(files.len(), |i: int| files[i]@)
}

/// The members of an exported dictionary: under each key of the translated
/// dictionary, the text that stands there, without the quotes that wrap it
/// and otherwise unchanged. A value that is no text is exported as its
/// compact JSON text.
pub open spec fn exported_members(members: Map<Seq<char>, JsonModel>) -> Map<
    Seq<char>,
    JsonModel,
> {
    Map::new(
        |key: Seq<char>| members.contains_key(key),
        |key: Seq<char>| JsonModel::Text(without_quotes(member_text(members[key]))),
    )
}

/// An exported dictionary has the keys of the translated dictionary, and
/// under the key of a text it holds that text without the quotes that wrap
/// it: a text that is not wrapped in quotes is exported as it is.
pub proof fn lemma_exported_text(members: Map<Seq<char>, JsonModel>, key: Seq<char>)
    requires
        members.contains_key(key),
        members[key] is Text,
    ensures
        exported_members(members).dom() == members.dom(),
        exported_members(members)[key] == JsonModel::Text(
            without_quotes(members[key]->Text_0),
        ),
        !is_wrapped(members[key]->Text_0) ==> exported_members(members)[key] == members[key],
{
    assert(exported_members(members).dom() =~= members.dom());
}

/// The file that the dictionary of a language is exported to: it stands in
/// the directory of the language under the output directory, is called
/// `translation.json`, and holds the exported dictionary as an indented
/// JSON object.
pub open spec fn export_of(
    output_directory: Seq<char>,
    language: Seq<char>,
    members: Map<Seq<char>, JsonModel>,
) -> ExportView {
    ExportView {
        language: language,
        directory: output_directory + "/"@ + language,
        path: output_directory + "/"@ + language + "/translation.json"@,
        content: json_pretty(JsonModel::Object(exported_members(members))),
    }
}

/// The languages of the translated dictionaries that discovery finds in a
/// repository, in directory order.
pub open spec fn discovered_languages(files: Listing) -> Seq<Seq<char>> {
    Seq::new(
        matching_names(files, translated_names()).len(),
        |i: int| dictionary_language(matching_names(files, translated_names())[i])->Some_0,
    )
}

/// The languages that an export is made for: those given, or, where none
/// are given, those of the translated dictionaries of the repository.
pub open spec fn export_languages(files: Listing, languages: Option<Seq<Seq<char>>>) -> Seq<
    Seq<char>,
> {
    match languages {
        Some(given) => given,
        None => discovered_languages(files),
    }
}

/// The files of an export for the given languages, in their order; the
/// failure of the first language whose dictionary cannot be read, if there
/// is one.
pub open spec fn exports(files: Listing, output_directory: Seq<char>, languages: Seq<Seq<char>>)
    -> Result<Seq<ExportView>, ErrorKind>
    decreases languages.len(),
{
    if languages.len() == 0 {
        Ok(Seq::empty())
    } else {
        match exports(files, output_directory, languages.drop_last()) {
            Err(kind) => Err(kind),
            Ok(before) => match translated_members(files, languages.last()) {
                Err(kind) => Err(kind),
                Ok(members) => Ok(
                    before.push(export_of(output_directory, languages.last(), members)),
                ),
            },
        }
    }
}

/// The texts of a list of optional strings.
pub open spec fn optional_list(languages: Option<Vec<String>>) -> Option<Seq<Seq<char>>> {
    match languages {
        Some(given) => Some(texts(given@)),
        None => None,
    }
}

/// The pairs made of the tags of the words of a dictionary and their texts,
/// each without the quotes that wrap it, stand for the exported dictionary.
pub proof fn lemma_exported_members(
    pairs: Seq<(Seq<char>, Seq<char>)>,
    words: Seq<WordView>,
    members: Map<Seq<char>, JsonModel>,
    language: Seq<char>,
)
    requires
        are_words_of(words, members, language),
        pairs.len() == words.len(),
        forall|i: int|
            0 <= i < words.len() ==> (#[trigger] pairs[i]) == (
                words[i].tag,
                without_quotes(words[i].word),
            ),
    ensures
        text_map(pairs) == exported_members(members),
{
    lemma_text_map(pairs);
    let tags = tags_of(words);
    assert forall|key: Seq<char>|
        text_map(pairs).contains_key(key) <==> members.contains_key(key) by {
        if text_map(pairs).contains_key(key) {
            let i = choose|i: int| 0 <= i < pairs.len() && (#[trigger] pairs[i]).0 == key;
            assert(tags[i] == key);
            assert(tags.to_set().contains(key));
        }
        if members.contains_key(key) {
            assert(tags.to_set().contains(key));
            let i = choose|i: int| 0 <= i < tags.len() && tags[i] == key;
            assert(pairs[i].0 == key);
        }
    }
    assert forall|key: Seq<char>| members.contains_key(key) implies text_map(pairs)[key]
        == exported_members(members)[key] by {
        assert(tags.to_set().contains(key));
        let i = choose|i: int| 0 <= i < tags.len() && tags[i] == key;
        assert(pairs[i].0 == key);
        assert forall|j: int| i < j < pairs.len() implies pairs[j].0 != pairs[i].0 by {
            assert(tags[j] == pairs[j].0);
            assert(tags[i] == pairs[i].0);
        }
        assert(words[i].word == member_text(members[words[i].tag]));
    }
    assert(text_map(pairs) =~= exported_members(members));
}

/// The file that the dictionary of a language is exported to.
fn export_language(repo: &Repository, output_directory: &str, language: &str) -> (exported: Result<
    ExportedFile,
    BuildSystemErrors,
>)
    ensures
        match translated_members(repo@, language@) {
            Ok(members) => exported is Ok && exported->Ok_0@ == export_of(
                output_directory@,
                language@,
                members,
            ),
            Err(kind) => exported matches Err(BuildSystemErrors::StaticDictionaryError(error))
                && error.kind() == kind,
        },
{
    let words = match parse_translated_dictionary(repo, language) {
        Ok(words) => words,
        Err(error) => {
            return Err(BuildSystemErrors::StaticDictionaryError(error));
        },
    };
    let mut pairs: Vec<(String, String)> = Vec::new();
    let mut i: usize = 0;
    while i < words.len()
        invariant
            i <= words.len(),
            pairs@.len() == i,
            forall|j: int|
                0 <= j < i ==> (#[trigger] pairs@[j]).0@ == words@[j].tag@ && pairs@[j].1@
                    == without_quotes(words@[j].word@),
        decreases words.len() - i,
    {
        pairs.push((words[i].tag.clone(), strip_quotes(words[i].word.as_str())));
        i += 1;
    }
    proof {
        lemma_exported_members(
            pair_texts(pairs@),
            words_view(words@),
            translated_members(repo@, language@)->Ok_0,
            language@,
        );
    }
    let content = JsonValue::from_text_pairs(&pairs).to_pretty_text();
    let mut directory = concat(output_directory, "/");
    directory.append(language);
    let path = concat(directory.as_str(), "/translation.json");
    Ok(ExportedFile { language: language.to_string(), directory, path, content })
}

/// Exports the translated dictionaries of the repository for i18next.
///
/// The export is made for the languages given, or, where none are given,
/// for every translated dictionary that the repository holds. For each
/// language it yields the file `translation.json` in the directory of the
/// language under the output directory, with the dictionary of the language
/// as an indented JSON object: each text is the text of the translated
/// dictionary, without the quotes that wrap it and otherwise unchanged.
/// The repository is only read. If the dictionary
/// of a language is missing or cannot be read, the export fails with the
/// failure of the first such language and yields no file.
pub fn build_for_i18next(
    repo: &Repository,
    output_directory: &str,
    languages: Option<Vec<String>>,
) -> (built: Result<Vec<ExportedFile>, BuildSystemErrors>)
    ensures
        match exports(
            repo@,
            output_directory@,
            export_languages(repo@, optional_list(languages)),
        ) {
            Ok(files) => built is Ok && exports_view(built->Ok_0@) == files,
            Err(kind) => built matches Err(BuildSystemErrors::StaticDictionaryError(error))
                && error.kind() == kind,
        },
{
    let ghost wanted = export_languages(repo@, optional_list(languages));
    let chosen = match languages {
        Some(given) => given,
        None => {
            let names = find_all_translated_dictionaries(repo);
            let mut found: Vec<String> = Vec::new();
            let mut i: usize = 0;
            while i < names.len()
                invariant
                    i <= names.len(),
                    texts(names@) == matching_names(repo@, translated_names()),
                    found@.len() == i,
                    forall|j: int|
                        0 <= j < i ==> (#[trigger] found@[j])@ == discovered_languages(repo@)[j],
                decreases names.len() - i,
            {
                proof {
                    assert(texts(names@)[i as int] == names@[i as int]@);
                    lemma_matching_names(repo@, translated_names(), i as int);
                    lemma_translated_name_language(names@[i as int]@);
                }
                match get_dictionary_language(names[i].as_str()) {
                    Ok(language) => {
                        found.push(language);
                    },
                    Err(_) => {},
                }
                i += 1;
            }
            assert(texts(found@) =~= discovered_languages(repo@));
            found
        },
    };
    let ghost all = texts(chosen@);
    let mut files: Vec<ExportedFile> = Vec::new();
    let mut l: usize = 0;
    proof {
        assert(all.take(0) =~= Seq::<Seq<char>>::empty());
        assert(exports_view(files@) =~= Seq::<ExportView>::empty());
    }
    while l < chosen.len()
        invariant
            l <= chosen.len(),
            all == texts(chosen@),
            all == wanted,
            wanted == export_languages(repo@, optional_list(languages)),
            exports(repo@, output_directory@, all.take(l as int)) == Ok::<
                Seq<ExportView>,
                ErrorKind,
            >(exports_view(files@)),
        decreases chosen.len() - l,
    {
        proof {
            assert(all.take(l + 1).drop_last() =~= all.take(l as int));
            assert(all.take(l + 1).last() == chosen@[l as int]@);
        }
        match export_language(repo, output_directory, chosen[l].as_str()) {
            Ok(file) => {
                let ghost prior = exports_view(files@);
                files.push(file);
                assert(exports_view(files@) =~= prior.push(file@));
            },
            Err(error) => {
                proof {
                    lemma_export_failure(repo@, output_directory@, all, l as int);
                }
                return Err(error);
            },
        }
        l += 1;
    }
    proof {
        assert(all.take(all.len() as int) =~= all);
    }
    Ok(files)
}

/// Once the export of a language has failed, the export fails in that way
/// whatever languages follow.
pub proof fn lemma_export_failure(
    files: Listing,
    output_directory: Seq<char>,
    languages: Seq<Seq<char>>,
    l: int,
)
    requires
        0 <= l < languages.len(),
        exports(files, output_directory, languages.take(l + 1)) is Err,
    ensures
        exports(files, output_directory, languages) == exports(
            files,
            output_directory,
            languages.take(l + 1),
        ),
    decreases languages.len() - l,
{
    if l + 1 < languages.len() {
        assert(languages.take(l + 2).drop_last() =~= languages.take(l + 1));
        lemma_export_failure(files, output_directory, languages, l + 1);
    } else {
        assert(languages.take(l + 1) =~= languages);
    }
}

} // verus!
