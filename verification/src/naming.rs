//! The names of dictionary files. The base dictionary of the language `xx`
//! is `dictionary-xx.base.json`; the dictionary translated into `xx` is
//! `dictionary-xx.json`.
use vstd::prelude::*;
use crate::text::{chars_of, has_char, has_prefix, has_suffix, part_of, text_of};

verus! {

/// The name of the base dictionary of a language.
pub open spec fn base_dictionary_name(language: Seq<char>) -> Seq<char> {
    "dictionary-"@ + language + ".base.json"@
}

/// The name of the dictionary translated into a language.
pub open spec fn language_dictionary_name(language: Seq<char>) -> Seq<char> {
    "dictionary-"@ + language + ".json"@
}

/// What can stand for a language in a file name: at least one character, and
/// no line feed.
pub open spec fn is_language(language: Seq<char>) -> bool {
    language.len() > 0 && !language.contains('\n')
}

/// A language code as the discovery of translated dictionaries wants it: two
/// small Latin letters.
pub open spec fn is_language_code(language: Seq<char>) -> bool {
    language.len() == 2 && 'a' <= language[0] <= 'z' && 'a' <= language[1] <= 'z'
}

/// The language that a dictionary file name encodes. The name has to begin
/// with `dictionary-` and to end with `.json`, with a language in between;
/// a `.base` right before `.json` marks the base dictionary and is no part
/// of the language, unless nothing else is left for it.
pub open spec fn dictionary_language(name: Seq<char>) -> Option<Seq<char>> {
    let prefix = "dictionary-"@;
    let suffix = ".json"@;
    let marker = ".base"@;
    if name.len() > prefix.len() + suffix.len() && prefix.is_prefix_of(name) && suffix.is_suffix_of(
        name,
    ) {
        let middle = name.subrange(prefix.len() as int, name.len() - suffix.len());
        if middle.contains('\n') {
            None
        } else if middle.len() > marker.len() && marker.is_suffix_of(middle) {
            Some(middle.take(middle.len() - marker.len()))
        } else {
            Some(middle)
        }
    } else {
        None
    }
}

/// Whether a file name is that of a base dictionary: `dictionary-`, a
/// language, `.base.json`.
pub open spec fn is_base_dictionary_name(name: Seq<char>) -> bool {
    let prefix = "dictionary-"@;
    let suffix = ".base.json"@;
    &&& name.len() > prefix.len() + suffix.len()
    &&& prefix.is_prefix_of(name)
    &&& suffix.is_suffix_of(name)
    &&& !name.subrange(prefix.len() as int, name.len() - suffix.len()).contains('\n')
}

/// Whether a file name is that of a translated dictionary as discovery wants
/// it: `dictionary-`, a language code, `.json`.
pub open spec fn is_translated_dictionary_name(name: Seq<char>) -> bool {
    let prefix = "dictionary-"@;
    let suffix = ".json"@;
    &&& name.len() == prefix.len() + 2 + suffix.len()
    &&& prefix.is_prefix_of(name)
    &&& suffix.is_suffix_of(name)
    &&& is_language_code(name.subrange(prefix.len() as int, prefix.len() as int + 2))
}

/// The texts of the three markers of a dictionary file name.
pub proof fn lemma_markers()
    ensures
        "dictionary-"@ == seq!['d', 'i', 'c', 't', 'i', 'o', 'n', 'a', 'r', 'y', '-'],
        ".json"@ == seq!['.', 'j', 's', 'o', 'n'],
        ".base"@ == seq!['.', 'b', 'a', 's', 'e'],
        ".base.json"@ == seq!['.', 'b', 'a', 's', 'e', '.', 'j', 's', 'o', 'n'],
        ".base.json"@ == ".base"@ + ".json"@,
{
    reveal_strlit("dictionary-");
    reveal_strlit(".json");
    reveal_strlit(".base");
    reveal_strlit(".base.json");
    assert("dictionary-"@ =~= seq!['d', 'i', 'c', 't', 'i', 'o', 'n', 'a', 'r', 'y', '-']);
    assert(".json"@ =~= seq!['.', 'j', 's', 'o', 'n']);
    assert(".base"@ =~= seq!['.', 'b', 'a', 's', 'e']);
    assert(".base.json"@ =~= seq!['.', 'b', 'a', 's', 'e', '.', 'j', 's', 'o', 'n']);
    assert(".base.json"@ =~= ".base"@ + ".json"@);
}

/// The language that a dictionary file name encodes; an error for a name
/// that is no dictionary file name.
pub fn get_dictionary_language(dictionary_name: &str) -> (language: Result<String, ()>)
    ensures
        match dictionary_language(dictionary_name@) {
            Some(encoded) => language is Ok && language->Ok_0@ == encoded,
            None => language is Err,
        },
{
    proof {
        lemma_markers();
    }
    let name = chars_of(dictionary_name);
    let prefix = chars_of("dictionary-");
    let suffix = chars_of(".json");
    let marker = chars_of(".base");
    if name.len() <= prefix.len() + suffix.len() {
        return Err(());
    }
    if !has_prefix(&name, &prefix) || !has_suffix(&name, &suffix) {
        return Err(());
    }
    let middle = part_of(&name, prefix.len(), name.len() - suffix.len());
    if has_char(&middle, '\n') {
        return Err(());
    }
    if middle.len() > marker.len() && has_suffix(&middle, &marker) {
        Ok(text_of(&middle, 0, middle.len() - marker.len()))
    } else {
        let text = text_of(&middle, 0, middle.len());
        assert(middle@.subrange(0, middle@.len() as int) =~= middle@);
        Ok(text)
    }
}

/// The name of the base dictionary of a language.
pub fn base_dictionary_file_name(language: &str) -> (name: String)
    ensures
        name@ == base_dictionary_name(language@),
{
    let mut name = "dictionary-".to_string();
    name.append(language);
    name.append(".base.json");
    name
}

/// The name of the dictionary translated into a language.
pub fn language_dictionary_file_name(language: &str) -> (name: String)
    ensures
        name@ == language_dictionary_name(language@),
{
    let mut name = "dictionary-".to_string();
    name.append(language);
    name.append(".json");
    name
}

/// Whether a file name is that of a base dictionary.
pub fn is_base_dictionary_file_name(file_name: &str) -> (base: bool)
    ensures
        base == is_base_dictionary_name(file_name@),
{
    proof {
        lemma_markers();
    }
    let name = chars_of(file_name);
    let prefix = chars_of("dictionary-");
    let suffix = chars_of(".base.json");
    if name.len() <= prefix.len() + suffix.len() {
        return false;
    }
    if !has_prefix(&name, &prefix) || !has_suffix(&name, &suffix) {
        return false;
    }
    let middle = part_of(&name, prefix.len(), name.len() - suffix.len());
    !has_char(&middle, '\n')
}

/// Whether a file name is that of a translated dictionary with a language
/// code.
pub fn is_translated_dictionary_file_name(file_name: &str) -> (translated: bool)
    ensures
        translated == is_translated_dictionary_name(file_name@),
{
    proof {
        lemma_markers();
    }
    let name = chars_of(file_name);
    let prefix = chars_of("dictionary-");
    let suffix = chars_of(".json");
    if name.len() != prefix.len() + 2 + suffix.len() {
        return false;
    }
    if !has_prefix(&name, &prefix) || !has_suffix(&name, &suffix) {
        return false;
    }
    let first = name[prefix.len()];
    let second = name[prefix.len() + 1];
    let ghost code = name@.subrange(prefix@.len() as int, prefix@.len() as int + 2);
    assert(code[0] == first && code[1] == second);
    'a' <= first && first <= 'z' && 'a' <= second && second <= 'z'
}

/// Reading the language out of the name of a base dictionary gives back the
/// language that the name was made from.
pub proof fn lemma_base_name_round_trip(language: Seq<char>)
    requires
        is_language(language),
    ensures
        is_base_dictionary_name(base_dictionary_name(language)),
        dictionary_language(base_dictionary_name(language)) == Some(language),
{
    lemma_markers();
    let prefix = "dictionary-"@;
    let suffix = ".json"@;
    let marker = ".base"@;
    let name = base_dictionary_name(language);
    assert(name.subrange(0, prefix.len() as int) =~= prefix);
    assert(name.subrange(name.len() - suffix.len(), name.len() as int) =~= suffix);
    assert(name.subrange(name.len() - ".base.json"@.len(), name.len() as int) =~= ".base.json"@);
    assert(name.subrange(prefix.len() as int, name.len() - ".base.json"@.len()) =~= language);
    let middle = name.subrange(prefix.len() as int, name.len() - suffix.len());
    assert(middle =~= language + marker);
    assert(!middle.contains('\n')) by {
        if middle.contains('\n') {
            let i = choose|i: int| 0 <= i < middle.len() && middle[i] == '\n';
            if i < language.len() {
                assert(language[i] == '\n');
            }
        }
    }
    assert(middle.subrange(middle.len() - marker.len(), middle.len() as int) =~= marker);
    assert(middle.take(middle.len() - marker.len()) =~= language);
}

/// The name of a base dictionary is made from a language, and that language
/// is read out of it.
pub proof fn lemma_base_name_language(name: Seq<char>)
    requires
        is_base_dictionary_name(name),
    ensures
        dictionary_language(name) is Some,
        is_language(dictionary_language(name)->Some_0),
        name == base_dictionary_name(dictionary_language(name)->Some_0),
{
    lemma_markers();
    let prefix = "dictionary-"@;
    let suffix = ".base.json"@;
    let language = name.subrange(prefix.len() as int, name.len() - suffix.len());
    assert(name =~= prefix + language + suffix);
    lemma_base_name_round_trip(language);
}

/// Reading the language out of the name of a translated dictionary gives back
/// the language that the name was made from, unless that language itself
/// ends with the marker of the base dictionary.
pub proof fn lemma_language_name_round_trip(language: Seq<char>)
    requires
        is_language(language),
        !(language.len() > ".base"@.len() && ".base"@.is_suffix_of(language)),
    ensures
        dictionary_language(language_dictionary_name(language)) == Some(language),
{
    lemma_markers();
    let prefix = "dictionary-"@;
    let suffix = ".json"@;
    let name = language_dictionary_name(language);
    assert(name.subrange(0, prefix.len() as int) =~= prefix);
    assert(name.subrange(name.len() - suffix.len(), name.len() as int) =~= suffix);
    assert(name.subrange(prefix.len() as int, name.len() - suffix.len()) =~= language);
}

/// A language code can stand in a file name, and the name of its translated
/// dictionary is found by discovery and gives the code back.
pub proof fn lemma_language_code_round_trip(language: Seq<char>)
    requires
        is_language_code(language),
    ensures
        is_language(language),
        is_translated_dictionary_name(language_dictionary_name(language)),
        dictionary_language(language_dictionary_name(language)) == Some(language),
{
    lemma_markers();
    assert(!language.contains('\n')) by {
        if language.contains('\n') {
            let i = choose|i: int| 0 <= i < language.len() && language[i] == '\n';
            assert(i == 0 || i == 1);
        }
    }
    lemma_language_name_round_trip(language);
    let prefix = "dictionary-"@;
    let suffix = ".json"@;
    let name = language_dictionary_name(language);
    assert(name.subrange(0, prefix.len() as int) =~= prefix);
    assert(name.subrange(name.len() - suffix.len(), name.len() as int) =~= suffix);
    assert(name.subrange(prefix.len() as int, prefix.len() as int + 2) =~= language);
}

/// The name of a translated dictionary that discovery finds is made from a
/// language code, and that code is read out of it.
pub proof fn lemma_translated_name_language(name: Seq<char>)
    requires
        is_translated_dictionary_name(name),
    ensures
        dictionary_language(name) is Some,
        is_language_code(dictionary_language(name)->Some_0),
        name == language_dictionary_name(dictionary_language(name)->Some_0),
{
    lemma_markers();
    let prefix = "dictionary-"@;
    let suffix = ".json"@;
    let language = name.subrange(prefix.len() as int, prefix.len() as int + 2);
    assert(name =~= prefix + language + suffix);
    lemma_language_code_round_trip(language);
}

/// Two languages that give the same name of a translated dictionary are the
/// same language.
pub proof fn lemma_language_name_injective(a: Seq<char>, b: Seq<char>)
    requires
        language_dictionary_name(a) == language_dictionary_name(b),
    ensures
        a == b,
{
    lemma_markers();
    let prefix = "dictionary-"@;
    let suffix = ".json"@;
    let name = language_dictionary_name(a);
    assert(name.len() == prefix.len() + a.len() + suffix.len());
    assert(name.len() == prefix.len() + b.len() + suffix.len());
    assert(name.subrange(prefix.len() as int, name.len() - suffix.len()) =~= a);
    assert(language_dictionary_name(b).subrange(
        prefix.len() as int,
        name.len() - suffix.len(),
    ) =~= b);
}

/// A dictionary file name is made from the language that it encodes, as the
/// name of a base dictionary or as that of a translated one.
pub proof fn lemma_name_of_language(name: Seq<char>)
    requires
        dictionary_language(name) is Some,
    ensures
        is_language(dictionary_language(name)->Some_0),
        name == base_dictionary_name(dictionary_language(name)->Some_0) || name
            == language_dictionary_name(dictionary_language(name)->Some_0),
{
    lemma_markers();
    let prefix = "dictionary-"@;
    let suffix = ".json"@;
    let marker = ".base"@;
    let middle = name.subrange(prefix.len() as int, name.len() - suffix.len());
    let language = dictionary_language(name)->Some_0;
    assert(name =~= prefix + middle + suffix);
    if middle.len() > marker.len() && marker.is_suffix_of(middle) {
        assert(middle =~= language + marker);
        assert(name =~= prefix + language + ".base.json"@);
    }
    assert(!language.contains('\n')) by {
        if language.contains('\n') {
            let i = choose|i: int| 0 <= i < language.len() && language[i] == '\n';
            assert(middle[i] == '\n');
        }
    }
}

} // verus!
