//! The base dictionary: its phrases, the phrases merged into it, and the
//! dictionaries of the target languages as they are before and after
//! translation.
use vstd::prelude::*;
use crate::errors::{ErrorKind, StaticDictionaryErrors};
use crate::file_system::{base_names, lemma_matching_names};
use crate::json::{
    array_of_texts, json_error, json_parse, json_pretty, lists_keys, member_text,
    object_of_texts, pair_texts, text_array, JsonModel, JsonValue,
};
use crate::naming::{
    dictionary_language, get_dictionary_language, language_dictionary_file_name,
    language_dictionary_name, lemma_base_name_language,
};
use crate::parser::{basic_dictionary, get_basic_dictionary};
use crate::repository::{
    content_of, distinct_names, has_file, rewritten, with_file, Listing, Repository,
};
use crate::text::{contains_text, texts};
use crate::types::{Word, WordView};

verus! {

/// The phrases of the base dictionary of a repository: its base dictionary
/// has to be a JSON array of texts.
pub open spec fn base_phrases(files: Listing) -> Result<Seq<Seq<char>>, ErrorKind> {
    match basic_dictionary(files) {
        Err(kind) => Err(kind),
        Ok(name) => match json_parse(content_of(files, name)) {
            None => Err(ErrorKind::Json),
            Some(document) => match text_array(document) {
                None => Err(ErrorKind::Json),
                Some(phrases) => Ok(phrases),
            },
        },
    }
}

/// The phrases of a dictionary after new phrases were merged into it: each
/// new phrase that is not there yet is appended, in the order given.
pub open spec fn merged_phrases(base: Seq<Seq<char>>, phrases: Seq<Seq<char>>) -> Seq<Seq<char>>
    decreases phrases.len(),
{
    if phrases.len() == 0 {
        base
    } else {
        let merged = merged_phrases(base, phrases.drop_last());
        if merged.contains(phrases.last()) {
            merged
        } else {
            merged.push(phrases.last())
        }
    }
}

/// The repository after phrases were merged into its base dictionary: the
/// base dictionary is rewritten as the indented JSON array of the merged
/// phrases, and nothing else changes.
pub open spec fn updated_base(files: Listing, phrases: Seq<Seq<char>>) -> Result<
    Listing,
    ErrorKind,
> {
    match base_phrases(files) {
        Err(kind) => Err(kind),
        Ok(base) => Ok(
            rewritten(
                files,
                basic_dictionary(files)->Ok_0,
                json_pretty(array_of_texts(merged_phrases(base, phrases))),
            ),
        ),
    }
}

/// Merging appends: the dictionary stays as the beginning of the merged
/// one, and the merged one holds what either of the two held.
pub proof fn lemma_merge_extends(base: Seq<Seq<char>>, phrases: Seq<Seq<char>>)
    ensures
        base.is_prefix_of(merged_phrases(base, phrases)),
        forall|phrase: Seq<char>|
            merged_phrases(base, phrases).contains(phrase) <==> base.contains(phrase)
                || phrases.contains(phrase),
    decreases phrases.len(),
{
    let merged = merged_phrases(base, phrases);
    if phrases.len() == 0 {
        assert(base.subrange(0, base.len() as int) =~= base);
    } else {
        let before = merged_phrases(base, phrases.drop_last());
        lemma_merge_extends(base, phrases.drop_last());
        assert(merged.subrange(0, base.len() as int) =~= before.subrange(0, base.len() as int));
        assert forall|phrase: Seq<char>|
            merged.contains(phrase) <==> base.contains(phrase) || phrases.contains(phrase) by {
            if merged.contains(phrase) {
                let i = choose|i: int| 0 <= i < merged.len() && merged[i] == phrase;
                if i < before.len() {
                    assert(before[i] == phrase);
                    assert(before.contains(phrase));
                    if phrases.drop_last().contains(phrase) {
                        let j = choose|j: int|
                            0 <= j < phrases.drop_last().len() && phrases.drop_last()[j]
                                == phrase;
                        assert(phrases[j] == phrase);
                    }
                } else {
                    assert(phrase == phrases.last());
                    assert(phrases[phrases.len() - 1] == phrase);
                }
            }
            if base.contains(phrase) {
                assert(before.contains(phrase));
                let i = choose|i: int| 0 <= i < before.len() && before[i] == phrase;
                assert(merged[i] == phrase);
            }
            if phrases.contains(phrase) {
                let j = choose|j: int| 0 <= j < phrases.len() && phrases[j] == phrase;
                if j < phrases.len() - 1 {
                    assert(phrases.drop_last()[j] == phrase);
                    assert(before.contains(phrase));
                    let i = choose|i: int| 0 <= i < before.len() && before[i] == phrase;
                    assert(merged[i] == phrase);
                } else if before.contains(phrase) {
                } else {
                    assert(merged[merged.len() - 1] == phrase);
                }
            }
        }
    }
}

/// Merging phrases that are all there already changes nothing.
pub proof fn lemma_merge_known(base: Seq<Seq<char>>, phrases: Seq<Seq<char>>)
    requires
        forall|i: int| 0 <= i < phrases.len() ==> base.contains(#[trigger] phrases[i]),
    ensures
        merged_phrases(base, phrases) == base,
    decreases phrases.len(),
{
    if phrases.len() > 0 {
        assert forall|i: int| 0 <= i < phrases.drop_last().len() implies base.contains(
            #[trigger] phrases.drop_last()[i],
        ) by {
            assert(phrases.drop_last()[i] == phrases[i]);
        }
        lemma_merge_known(base, phrases.drop_last());
        assert(base.contains(phrases[phrases.len() - 1]));
    }
}

/// Merging a phrase that is there already leaves the dictionary as it was.
pub proof fn lemma_merge_present(base: Seq<Seq<char>>, phrase: Seq<char>)
    requires
        base.contains(phrase),
    ensures
        merged_phrases(base, seq![phrase]) == base,
{
    lemma_merge_known(base, seq![phrase]);
}

/// Merging a new phrase twice adds it once.
pub proof fn lemma_merge_twice(base: Seq<Seq<char>>, phrase: Seq<char>)
    requires
        !base.contains(phrase),
    ensures
        merged_phrases(merged_phrases(base, seq![phrase]), seq![phrase]) == base.push(phrase),
        base.push(phrase).filter(|entry: Seq<char>| entry == phrase).len() == 1,
{
    let once = merged_phrases(base, seq![phrase]);
    assert(seq![phrase].drop_last() =~= Seq::<Seq<char>>::empty());
    assert(merged_phrases(base, Seq::<Seq<char>>::empty()) == base);
    assert(once == base.push(phrase));
    assert(once[once.len() - 1] == phrase);
    lemma_merge_present(once, phrase);
    let same = |entry: Seq<char>| entry == phrase;
    base.lemma_all_neg_filter_empty(same);
    assert(base.push(phrase).drop_last() =~= base);
    reveal_with_fuel(Seq::filter, 2);
}

/// Merging the same phrases a second time changes nothing.
pub proof fn lemma_merge_idempotent(base: Seq<Seq<char>>, phrases: Seq<Seq<char>>)
    ensures
        merged_phrases(merged_phrases(base, phrases), phrases) == merged_phrases(base, phrases),
{
    lemma_merge_extends(base, phrases);
    let merged = merged_phrases(base, phrases);
    assert forall|i: int| 0 <= i < phrases.len() implies merged.contains(#[trigger] phrases[i]) by {
        assert(phrases.contains(phrases[i]));
    }
    lemma_merge_known(merged, phrases);
}

/// Merging keeps a dictionary free of duplicates.
pub proof fn lemma_merge_no_duplicates(base: Seq<Seq<char>>, phrases: Seq<Seq<char>>)
    requires
        base.no_duplicates(),
    ensures
        merged_phrases(base, phrases).no_duplicates(),
    decreases phrases.len(),
{
    if phrases.len() > 0 {
        lemma_merge_no_duplicates(base, phrases.drop_last());
    }
}

/// The phrases of the base dictionary of the repository.
pub fn parse_static_basic_dictionary(repo: &Repository) -> (phrases: Result<
    Vec<String>,
    StaticDictionaryErrors,
>)
    ensures
        match base_phrases(repo@) {
            Ok(base) => phrases is Ok && texts(phrases->Ok_0@) == base,
            Err(kind) => phrases is Err && phrases->Err_0.kind() == kind,
        },
{
    let name = match get_basic_dictionary(repo) {
        Ok(name) => name,
        Err(error) => {
            return Err(error);
        },
    };
    proof {
        lemma_matching_names(repo@, base_names(), 0);
    }
    let content = match repo.read(name.as_str()) {
        Some(content) => content,
        None => {
            return Err(StaticDictionaryErrors::BasicDictionaryNotFound);
        },
    };
    let tree = match JsonValue::parse(content.as_str()) {
        Ok(tree) => tree,
        Err(error) => {
            return Err(StaticDictionaryErrors::JSONParsingError(error));
        },
    };
    match tree.as_text_array() {
        Some(phrases) => Ok(phrases),
        None => Err(
            StaticDictionaryErrors::JSONParsingError(
                json_error("the base dictionary is not an array of texts"),
            ),
        ),
    }
}

/// Appends to `base` each of the phrases that is not there yet.
pub fn merge_phrases(base: &mut Vec<String>, phrases: Vec<String>)
    ensures
        texts(final(base)@) == merged_phrases(texts(old(base)@), texts(phrases@)),
{
    let ghost start = texts(base@);
    let ghost all = texts(phrases@);
    proof {
        assert(all.take(0) =~= Seq::<Seq<char>>::empty());
    }
    for phrase in it: phrases
        invariant
            it.seq() == phrases@,
            all == texts(phrases@),
            texts(base@) == merged_phrases(start, all.take(it.index() as int)),
    {
        proof {
            let k = it.index() as int;
            assert(all.take(k + 1).drop_last() =~= all.take(k));
            assert(all.take(k + 1).last() == phrase@);
        }
        if !contains_text(base, phrase.as_str()) {
            let ghost prior = texts(base@);
            base.push(phrase);
            assert(texts(base@) =~= prior.push(phrase@));
        }
    }
    proof {
        assert(all.take(all.len() as int) =~= all);
    }
}

/// Merges phrases into the base dictionary of the repository: each phrase
/// that the dictionary does not hold yet is appended, and the dictionary is
/// rewritten. On a failure the repository stays as it was.
///
/// The dictionary is read, merged and written as a whole, so the
/// repository must have no other writer while this runs.
pub fn update_basic_dictionary(repo: &mut Repository, words: Vec<String>) -> (done: Result<
    (),
    StaticDictionaryErrors,
>)
    ensures
        final(repo).path@ == old(repo).path@,
        distinct_names(old(repo)@) ==> distinct_names(final(repo)@),
        match updated_base(old(repo)@, texts(words@)) {
            Ok(files) => done is Ok && final(repo)@ == files,
            Err(kind) => done is Err && done->Err_0.kind() == kind && final(repo)@ == old(repo)@,
        },
{
    let name = match get_basic_dictionary(repo) {
        Ok(name) => name,
        Err(error) => {
            return Err(error);
        },
    };
    let mut phrases = match parse_static_basic_dictionary(repo) {
        Ok(phrases) => phrases,
        Err(error) => {
            return Err(error);
        },
    };
    merge_phrases(&mut phrases, words);
    let content = JsonValue::from_texts(&phrases).to_pretty_text();
    proof {
        lemma_matching_names(repo@, base_names(), 0);
    }
    let found = repo.rewrite(name.as_str(), content);
    Ok(())
}

/// Merges the phrases that are translated by hand into the base dictionary
/// of the repository, as `update_basic_dictionary` does: the merged
/// dictionary is written back.
pub fn sync_manual_phrases(manual_phrases: Vec<String>, repo: &mut Repository) -> (done: Result<
    (),
    StaticDictionaryErrors,
>)
    ensures
        final(repo).path@ == old(repo).path@,
        distinct_names(old(repo)@) ==> distinct_names(final(repo)@),
        match updated_base(old(repo)@, texts(manual_phrases@)) {
            Ok(files) => done is Ok && final(repo)@ == files,
            Err(kind) => done is Err && done->Err_0.kind() == kind && final(repo)@ == old(repo)@,
        },
{
    update_basic_dictionary(repo, manual_phrases)
}

/// The phrases without those that repeat the phrase right before them.
pub open spec fn without_repeats(phrases: Seq<Seq<char>>) -> Seq<Seq<char>>
    decreases phrases.len(),
{
    if phrases.len() == 0 {
        Seq::empty()
    } else if phrases.len() >= 2 && phrases[phrases.len() - 2] == phrases.last() {
        without_repeats(phrases.drop_last())
    } else {
        without_repeats(phrases.drop_last()).push(phrases.last())
    }
}

/// The words that phrases of a language stand for: each phrase is its own
/// tag.
pub open spec fn words_of(phrases: Seq<Seq<char>>, language: Seq<char>) -> Seq<WordView> {
    Seq::new(
        phrases.len(),
        |i: int| WordView { word: phrases[i], tag: phrases[i], language: language },
    )
}

/// The words of the base dictionary of a repository: its phrases, without
/// those that repeat the phrase before them, in the language that the name
/// of the dictionary encodes.
pub open spec fn base_words(files: Listing) -> Result<Seq<WordView>, ErrorKind> {
    match base_phrases(files) {
        Err(kind) => Err(kind),
        Ok(phrases) => Ok(
            words_of(
                without_repeats(phrases),
                dictionary_language(basic_dictionary(files)->Ok_0)->Some_0,
            ),
        ),
    }
}

/// What a list of words holds.
pub open spec fn words_view(words: Seq<Word>) -> Seq<WordView> {
    Seq::new(words.len(), |i: int| words[i]@)
}

/// The text of a dictionary file: the indented JSON object that maps each
/// tag to its text.
pub open spec fn dictionary_text(entries: Seq<(Seq<char>, Seq<char>)>) -> Seq<char> {
    json_pretty(object_of_texts(entries))
}

/// The entries of a dictionary that is still to be translated: each word,
/// with no text.
pub open spec fn empty_entries(words: Seq<WordView>) -> Seq<(Seq<char>, Seq<char>)> {
    Seq::new(words.len(), |i: int| (words[i].word, Seq::<char>::empty()))
}

/// The repository after an empty dictionary was made for each language, in
/// the order of the languages: a dictionary that was there is deleted and
/// made anew.
pub open spec fn with_empty_dictionaries(
    files: Listing,
    words: Seq<WordView>,
    languages: Seq<Seq<char>>,
) -> Listing
    decreases languages.len(),
{
    if languages.len() == 0 {
        files
    } else {
        with_file(
            with_empty_dictionaries(files, words, languages.drop_last()),
            language_dictionary_name(languages.last()),
            dictionary_text(empty_entries(words)),
        )
    }
}

/// Drops each phrase that repeats the phrase right before it.
pub fn drop_repeats(phrases: Vec<String>) -> (kept: Vec<String>)
    ensures
        texts(kept@) == without_repeats(texts(phrases@)),
{
    let mut kept: Vec<String> = Vec::new();
    let ghost all = texts(phrases@);
    proof {
        assert(all.take(0) =~= Seq::<Seq<char>>::empty());
    }
    for phrase in it: phrases
        invariant
            it.seq() == phrases@,
            all == texts(phrases@),
            texts(kept@) == without_repeats(all.take(it.index() as int)),
            it.index() > 0 ==> kept@.len() > 0 && kept@[kept@.len() - 1]@ == all[it.index() - 1],
    {
        let ghost k = it.index() as int;
        proof {
            assert(all.take(k + 1).drop_last() =~= all.take(k));
            assert(all.take(k + 1).last() == phrase@);
            if k > 0 {
                assert(all.take(k + 1)[k - 1] == all[k - 1]);
            }
        }
        let repeats = kept.len() > 0 && *kept[kept.len() - 1].as_str() == *phrase.as_str();
        if !repeats {
            let ghost prior = texts(kept@);
            kept.push(phrase);
            assert(texts(kept@) =~= prior.push(phrase@));
        }
    }
    proof {
        assert(all.take(all.len() as int) =~= all);
    }
    kept
}

/// The words of the base dictionary of the repository.
pub fn base_dictionary_words(repo: &Repository) -> (words: Result<
    Vec<Word>,
    StaticDictionaryErrors,
>)
    ensures
        match base_words(repo@) {
            Ok(found) => words is Ok && words_view(words->Ok_0@) == found,
            Err(kind) => words is Err && words->Err_0.kind() == kind,
        },
{
    let phrases = match parse_static_basic_dictionary(repo) {
        Ok(phrases) => drop_repeats(phrases),
        Err(error) => {
            return Err(error);
        },
    };
    let name = match get_basic_dictionary(repo) {
        Ok(name) => name,
        Err(error) => {
            return Err(error);
        },
    };
    proof {
        lemma_matching_names(repo@, base_names(), 0);
        lemma_base_name_language(name@);
    }
    let language = match get_dictionary_language(name.as_str()) {
        Ok(language) => language,
        Err(_) => {
            return Err(StaticDictionaryErrors::BasicDictionaryNotFound);
        },
    };
    let mut words: Vec<Word> = Vec::new();
    let mut i: usize = 0;
    while i < phrases.len()
        invariant
            i <= phrases.len(),
            words@.len() == i,
            forall|j: int|
                0 <= j < i ==> (#[trigger] words@[j])@ == (WordView {
                    word: phrases@[j]@,
                    tag: phrases@[j]@,
                    language: language@,
                }),
        decreases phrases.len() - i,
    {
        words.push(Word::new(phrases[i].clone(), phrases[i].clone(), language.clone()));
        i += 1;
    }
    assert(words_view(words@) =~= words_of(texts(phrases@), language@));
    Ok(words)
}

/// Makes an empty dictionary for each of the languages: every word of the
/// base dictionary, with no text. A dictionary of a language that is there
/// already is deleted and made anew. On a failure the repository stays as
/// it was.
pub fn generate_empty_dictionaries_from_static_basic(
    repo: &mut Repository,
    languages: Vec<String>,
) -> (done: Result<(), StaticDictionaryErrors>)
    ensures
        final(repo).path@ == old(repo).path@,
        distinct_names(old(repo)@) ==> distinct_names(final(repo)@),
        match base_words(old(repo)@) {
            Ok(words) => done is Ok && final(repo)@ == with_empty_dictionaries(
                old(repo)@,
                words,
                texts(languages@),
            ),
            Err(kind) => done is Err && done->Err_0.kind() == kind && final(repo)@ == old(repo)@,
        },
{
    let words = match base_dictionary_words(repo) {
        Ok(words) => words,
        Err(error) => {
            return Err(error);
        },
    };
    let mut pairs: Vec<(String, String)> = Vec::new();
    let mut w: usize = 0;
    while w < words.len()
        invariant
            w <= words.len(),
            pairs@.len() == w,
            forall|j: int|
                0 <= j < w ==> (#[trigger] pairs@[j]).0@ == words@[j].word@ && pairs@[j].1@
                    == Seq::<char>::empty(),
        decreases words.len() - w,
    {
        pairs.push((words[w].word.clone(), String::new()));
        w += 1;
    }
    assert(pair_texts(pairs@) =~= empty_entries(words_view(words@)));
    let ghost start = repo@;
    let ghost all = texts(languages@);
    let mut l: usize = 0;
    proof {
        assert(all.take(0) =~= Seq::<Seq<char>>::empty());
    }
    while l < languages.len()
        invariant
            l <= languages.len(),
            all == texts(languages@),
            repo.path@ == old(repo).path@,
            pair_texts(pairs@) == empty_entries(words_view(words@)),
            distinct_names(start) ==> distinct_names(repo@),
            repo@ == with_empty_dictionaries(start, words_view(words@), all.take(l as int)),
        decreases languages.len() - l,
    {
        proof {
            assert(all.take(l + 1).drop_last() =~= all.take(l as int));
            assert(all.take(l + 1).last() == languages@[l as int]@);
        }
        let content = JsonValue::from_text_pairs(&pairs).to_pretty_text();
        repo.replace(language_dictionary_file_name(languages[l].as_str()), content);
        l += 1;
    }
    proof {
        assert(all.take(all.len() as int) =~= all);
    }
    Ok(())
}

/// The members of the dictionary translated into a language: the
/// repository has to hold the dictionary, and the dictionary has to be a
/// JSON object.
pub open spec fn translated_members(files: Listing, language: Seq<char>) -> Result<
    Map<Seq<char>, JsonModel>,
    ErrorKind,
> {
    if !has_file(files, language_dictionary_name(language)) {
        Err(ErrorKind::Io)
    } else {
        match json_parse(content_of(files, language_dictionary_name(language))) {
            Some(JsonModel::Object(members)) => Ok(members),
            _ => Err(ErrorKind::Json),
        }
    }
}

/// The tags of a list of words.
pub open spec fn tags_of(words: Seq<WordView>) -> Seq<Seq<char>> {
    Seq::new(words.len(), |i: int| words[i].tag)
}

/// Whether the words are those of a dictionary: one word for each member,
/// with the key of the member as its tag, the text of the member as its
/// text, unchanged, and the given language. A member that is no text gives
/// its compact JSON text.
pub open spec fn are_words_of(
    words: Seq<WordView>,
    members: Map<Seq<char>, JsonModel>,
    language: Seq<char>,
) -> bool {
    &&& lists_keys(tags_of(words), members.dom())
    &&& forall|i: int|
        0 <= i < words.len() ==> (#[trigger] words[i]).word == member_text(members[words[i].tag])
            && words[i].language == language
}

/// The words of the dictionary translated into a language. The repository
/// has to hold that dictionary, or the file is missing; the dictionary has
/// to be a JSON object, or it cannot be read.
pub fn parse_translated_dictionary(repo: &Repository, language: &str) -> (words: Result<
    Vec<Word>,
    StaticDictionaryErrors,
>)
    ensures
        match translated_members(repo@, language@) {
            Ok(members) => words is Ok && are_words_of(
                words_view(words->Ok_0@),
                members,
                language@,
            ),
            Err(kind) => words is Err && words->Err_0.kind() == kind,
        },
{
    let name = language_dictionary_file_name(language);
    let content = match repo.read(name.as_str()) {
        Some(content) => content,
        None => {
            return Err(StaticDictionaryErrors::IOError("Файл словаря не найден".to_string()));
        },
    };
    let tree = match JsonValue::parse(content.as_str()) {
        Ok(tree) => tree,
        Err(error) => {
            return Err(StaticDictionaryErrors::JSONParsingError(error));
        },
    };
    let keys = match tree.object_keys() {
        Some(keys) => keys,
        None => {
            return Err(
                StaticDictionaryErrors::JSONParsingError(
                    json_error("the dictionary is not an object"),
                ),
            );
        },
    };
    let ghost members = tree@->Object_0;
    let mut words: Vec<Word> = Vec::new();
    let mut i: usize = 0;
    while i < keys.len()
        invariant
            i <= keys.len(),
            tree@ == JsonModel::Object(members),
            lists_keys(texts(keys@), members.dom()),
            words@.len() == i,
            forall|j: int|
                0 <= j < i ==> (#[trigger] words@[j])@ == (WordView {
                    word: member_text(members[keys@[j]@]),
                    tag: keys@[j]@,
                    language: language@,
                }),
        decreases keys.len() - i,
    {
        proof {
            assert(texts(keys@)[i as int] == keys@[i as int]@);
            assert(texts(keys@).to_set().contains(keys@[i as int]@));
        }
        match tree.get(keys[i].as_str()) {
            Some(value) => {
                words.push(Word::new(value.plain_text(), keys[i].clone(), language.to_string()));
            },
            None => {},
        }
        i += 1;
    }
    proof {
        assert(tags_of(words_view(words@)) =~= texts(keys@));
    }
    Ok(words)
}

} // verus!
