//! Translation runs: which translations a run asks for, and what the
//! outcomes of the translations make of the repository.
//!
//! A run is all or nothing. If a single translation fails, the run fails as
//! that translation did and writes no dictionary; the translations that
//! succeeded are counted, and dropped.
use vstd::prelude::*;
use crate::errors::{ErrorKind, StaticDictionaryErrors};
use crate::json::{lemma_text_map, pair_texts, text_map, JsonModel, JsonValue};
use crate::naming::{
    language_dictionary_file_name, language_dictionary_name, lemma_language_name_injective,
};
use crate::repository::{
    distinct_names, lemma_filter_all, lemma_filter_twice, not_named, with_file, Listing,
    Repository,
};
use crate::static_translate::{
    base_dictionary_words, base_words, dictionary_text, tags_of, words_view,
};
use crate::text::{strip_quotes, texts, without_quotes};
use crate::types::{ApiArgs, TranslatorApis, Word, WordView};
use crate::web_api::{ensure_implemented, select_translator};

verus! {

/// One scheduled translation: a word, and the language that it is to be
/// translated into.
#[derive(Debug)]
pub struct TranslationTask {
    pub word: Word,
    pub target_language: String,
}

impl View for TranslationTask {
    type V = TaskView;

    open spec fn view(&self) -> TaskView {
        TaskView { word: self.word@, target_language: self.target_language@ }
    }
}

/// What a scheduled translation holds.
pub ghost struct TaskView {
    pub word: WordView,
    pub target_language: Seq<char>,
}

/// What a list of scheduled translations holds.
pub open spec fn tasks_view(tasks: Seq<TranslationTask>) -> Seq<TaskView> {
    Seq::new(tasks.len(), |i: int| tasks[i]@)
}

/// The translations of all words into one language.
pub open spec fn tasks_for(words: Seq<WordView>, language: Seq<char>) -> Seq<TaskView> {
    Seq::new(words.len(), |i: int| TaskView { word: words[i], target_language: language })
}

/// The translations of all words into all languages: language by language,
/// and within a language word by word.
pub open spec fn scheduled(words: Seq<WordView>, languages: Seq<Seq<char>>) -> Seq<TaskView>
    decreases languages.len(),
{
    if languages.len() == 0 {
        Seq::empty()
    } else {
        scheduled(words, languages.drop_last()) + tasks_for(words, languages.last())
    }
}

/// How a scheduled translation ended.
#[derive(Debug)]
pub enum TaskOutcome {
    /// The provider gave a translation.
    Translated(String),
    /// The provider failed, or its answer could not be used.
    Failed(StaticDictionaryErrors),
    /// The operation did not run to its end; the text says why.
    Aborted(String),
}

/// The kind of the first outcome that is no translation, if there is one.
pub open spec fn first_failure(outcomes: Seq<TaskOutcome>) -> Option<ErrorKind>
    decreases outcomes.len(),
{
    if outcomes.len() == 0 {
        None
    } else {
        match outcomes[0] {
            TaskOutcome::Translated(_) => first_failure(outcomes.drop_first()),
            TaskOutcome::Failed(error) => Some(error.kind()),
            TaskOutcome::Aborted(_) => Some(ErrorKind::Async),
        }
    }
}

/// The translations that the outcomes hold.
pub open spec fn outcome_texts(outcomes: Seq<TaskOutcome>) -> Seq<Seq<char>> {
    Seq::new(
        outcomes.len(),
        |i: int|
            match outcomes[i] {
                TaskOutcome::Translated(text) => text@,
                _ => Seq::empty(),
            },
    )
}

/// The entries of a translated dictionary: the tag of each word, with its
/// translation without the quotes that wrap it.
pub open spec fn translated_entries(words: Seq<WordView>, translations: Seq<Seq<char>>) -> Seq<
    (Seq<char>, Seq<char>),
> {
    Seq::new(words.len(), |i: int| (words[i].tag, without_quotes(translations[i])))
}

/// The repository after a translated dictionary was made for each language,
/// in the order of the languages: a dictionary that was there is deleted
/// and made anew. The translations come language by language, and within a
/// language word by word.
pub open spec fn with_translations(
    files: Listing,
    words: Seq<WordView>,
    languages: Seq<Seq<char>>,
    translations: Seq<Seq<char>>,
) -> Listing
    decreases languages.len(),
{
    if languages.len() == 0 {
        files
    } else {
        let split = translations.len() - words.len();
        with_file(
            with_translations(files, words, languages.drop_last(), translations.take(split)),
            language_dictionary_name(languages.last()),
            dictionary_text(translated_entries(words, translations.skip(split))),
        )
    }
}

/// What a translation run makes of a repository.
///
/// The run fails, and writes nothing, if the base dictionary cannot be
/// read, if the provider is not LibreTranslate, if there is not one outcome
/// for each scheduled translation, or if any outcome is no translation:
/// the first such outcome then says how the run fails. Otherwise a
/// translated dictionary is made for each language.
pub open spec fn translation_result(
    files: Listing,
    languages: Seq<Seq<char>>,
    translator_api: TranslatorApis,
    outcomes: Seq<TaskOutcome>,
) -> Result<Listing, ErrorKind> {
    match base_words(files) {
        Err(kind) => Err(kind),
        Ok(words) => if translator_api != TranslatorApis::LibreTranslate {
            Err(ErrorKind::Api)
        } else if outcomes.len() != words.len() * languages.len() {
            Err(ErrorKind::Async)
        } else {
            match first_failure(outcomes) {
                Some(kind) => Err(kind),
                None => Ok(with_translations(files, words, languages, outcome_texts(outcomes))),
            }
        },
    }
}

/// How many translations of a run succeeded, and how many ended in each
/// kind of failure.
#[derive(Clone, Copy, Debug, PartialEq, Eq, Structural)]
pub struct BatchSummary {
    /// The translations that the provider gave.
    pub translated: usize,
    /// The translations at which the provider failed.
    pub failed: usize,
    /// The operations that did not run to their end.
    pub aborted: usize,
}

/// The outcomes that are translations.
pub open spec fn translated_outcomes() -> spec_fn(TaskOutcome) -> bool {
    |outcome: TaskOutcome| outcome is Translated
}

/// The outcomes that are failures of the provider.
pub open spec fn failed_outcomes() -> spec_fn(TaskOutcome) -> bool {
    |outcome: TaskOutcome| outcome is Failed
}

/// The outcomes of operations that did not run to their end.
pub open spec fn aborted_outcomes() -> spec_fn(TaskOutcome) -> bool {
    |outcome: TaskOutcome| outcome is Aborted
}

/// The translations that a run asks for: each word of the base dictionary
/// into each target language, language by language. Where the base
/// dictionary cannot be read, or the provider is not LibreTranslate,
/// nothing is scheduled.
pub fn schedule_translations(
    repo: &Repository,
    target_languages: &Vec<String>,
    translator_api: TranslatorApis,
) -> (tasks: Result<Vec<TranslationTask>, StaticDictionaryErrors>)
    ensures
        match base_words(repo@) {
            Err(kind) => tasks is Err && tasks->Err_0.kind() == kind,
            Ok(words) => if translator_api != TranslatorApis::LibreTranslate {
                tasks is Err && tasks->Err_0.kind() == ErrorKind::Api
            } else {
                tasks is Ok && tasks_view(tasks->Ok_0@) == scheduled(
                    words,
                    texts(target_languages@),
                )
            },
        },
{
    let words = match base_dictionary_words(repo) {
        Ok(words) => words,
        Err(error) => {
            return Err(error);
        },
    };
    match ensure_implemented(translator_api) {
        Ok(()) => {},
        Err(error) => {
            return Err(error);
        },
    }
    let ghost all = texts(target_languages@);
    let mut tasks: Vec<TranslationTask> = Vec::new();
    let mut l: usize = 0;
    proof {
        assert(all.take(0) =~= Seq::<Seq<char>>::empty());
    }
    while l < target_languages.len()
        invariant
            l <= target_languages.len(),
            all == texts(target_languages@),
            tasks_view(tasks@) == scheduled(words_view(words@), all.take(l as int)),
        decreases target_languages.len() - l,
    {
        let ghost before = tasks_view(tasks@);
        let ghost language = target_languages@[l as int]@;
        proof {
            assert(all.take(l + 1).drop_last() =~= all.take(l as int));
            assert(all.take(l + 1).last() == language);
        }
        let mut w: usize = 0;
        while w < words.len()
            invariant
                w <= words.len(),
                l < target_languages.len(),
                language == target_languages@[l as int]@,
                tasks_view(tasks@) == before + tasks_for(words_view(words@), language).take(
                    w as int,
                ),
            decreases words.len() - w,
        {
            let ghost prior = tasks_view(tasks@);
            let task = TranslationTask {
                word: words[w].clone(),
                target_language: target_languages[l].clone(),
            };
            tasks.push(task);
            proof {
                let wanted = tasks_for(words_view(words@), language);
                assert(tasks_view(tasks@) =~= prior.push(wanted[w as int]));
                assert(wanted.take(w + 1) =~= wanted.take(w as int).push(wanted[w as int]));
                assert(before + wanted.take(w + 1) =~= (before + wanted.take(w as int)).push(
                    wanted[w as int],
                ));
            }
            w += 1;
        }
        proof {
            let wanted = tasks_for(words_view(words@), language);
            assert(wanted.take(words@.len() as int) =~= wanted);
        }
        l += 1;
    }
    proof {
        assert(all.take(all.len() as int) =~= all);
    }
    Ok(tasks)
}

/// Counts the outcomes of a run by their kind, so that no failure goes
/// unreported.
pub fn summarize_outcomes(outcomes: &Vec<TaskOutcome>) -> (summary: BatchSummary)
    ensures
        summary.translated == outcomes@.filter(translated_outcomes()).len(),
        summary.failed == outcomes@.filter(failed_outcomes()).len(),
        summary.aborted == outcomes@.filter(aborted_outcomes()).len(),
        summary.translated + summary.failed + summary.aborted == outcomes@.len(),
{
    let mut summary = BatchSummary { translated: 0, failed: 0, aborted: 0 };
    let mut i: usize = 0;
    proof {
        assert(outcomes@.take(0) =~= Seq::<TaskOutcome>::empty());
        reveal_with_fuel(Seq::filter, 1);
    }
    while i < outcomes.len()
        invariant
            i <= outcomes.len(),
            summary.translated == outcomes@.take(i as int).filter(translated_outcomes()).len(),
            summary.failed == outcomes@.take(i as int).filter(failed_outcomes()).len(),
            summary.aborted == outcomes@.take(i as int).filter(aborted_outcomes()).len(),
            summary.translated + summary.failed + summary.aborted == i,
        decreases outcomes.len() - i,
    {
        proof {
            assert(outcomes@.take(i + 1).drop_last() =~= outcomes@.take(i as int));
            assert(outcomes@.take(i + 1).last() == outcomes@[i as int]);
            reveal_with_fuel(Seq::filter, 2);
        }
        match &outcomes[i] {
            TaskOutcome::Translated(_) => {
                summary.translated = summary.translated + 1;
            },
            TaskOutcome::Failed(_) => {
                summary.failed = summary.failed + 1;
            },
            TaskOutcome::Aborted(_) => {
                summary.aborted = summary.aborted + 1;
            },
        }
        i += 1;
    }
    proof {
        assert(outcomes@.take(outcomes@.len() as int) =~= outcomes@);
    }
    summary
}

/// The translations that the outcomes hold, if every outcome is one;
/// otherwise the failure of the first outcome that is none.
pub fn collect_translations(outcomes: Vec<TaskOutcome>) -> (collected: Result<
    Vec<String>,
    StaticDictionaryErrors,
>)
    ensures
        match first_failure(outcomes@) {
            None => collected is Ok && texts(collected->Ok_0@) == outcome_texts(outcomes@),
            Some(kind) => collected is Err && collected->Err_0.kind() == kind,
        },
{
    let mut translations: Vec<String> = Vec::new();
    let ghost all = outcomes@;
    proof {
        assert(all.skip(0) =~= all);
    }
    for outcome in it: outcomes
        invariant
            it.seq() == outcomes@,
            all == outcomes@,
            first_failure(all) == first_failure(all.skip(it.index() as int)),
            translations@.len() == it.index(),
            forall|j: int|
                0 <= j < it.index() ==> (#[trigger] translations@[j])@ == outcome_texts(all)[j],
    {
        let ghost k = it.index() as int;
        proof {
            assert(all.skip(k)[0] == outcome);
            assert(all.skip(k).drop_first() =~= all.skip(k + 1));
        }
        match outcome {
            TaskOutcome::Translated(text) => {
                translations.push(text);
            },
            TaskOutcome::Failed(error) => {
                return Err(error);
            },
            TaskOutcome::Aborted(reason) => {
                return Err(StaticDictionaryErrors::AsyncError(reason));
            },
        }
    }
    proof {
        assert(all.skip(all.len() as int) =~= Seq::<TaskOutcome>::empty());
        assert(texts(translations@) =~= outcome_texts(all));
    }
    Ok(translations)
}

/// Makes the translated dictionaries of the target languages from the
/// outcomes of the scheduled translations, which come in the order of the
/// schedule.
///
/// The run either succeeds as a whole or writes nothing: if any outcome is
/// no translation, the run fails as the first such outcome says, and the
/// repository stays as it was. Otherwise a dictionary is made for each
/// target language, in place of the one that was there: it maps the tag of
/// each word to its translation, without the quotes that wrap it and
/// otherwise unchanged.
pub fn autotranslate_from_basic_dictionary(
    repo: &mut Repository,
    target_languages: Vec<String>,
    translator_api: TranslatorApis,
    api_args: ApiArgs,
    outcomes: Vec<TaskOutcome>,
) -> (done: Result<(), StaticDictionaryErrors>)
    ensures
        final(repo).path@ == old(repo).path@,
        distinct_names(old(repo)@) ==> distinct_names(final(repo)@),
        match translation_result(old(repo)@, texts(target_languages@), translator_api, outcomes@) {
            Ok(files) => done is Ok && final(repo)@ == files,
            Err(kind) => done is Err && done->Err_0.kind() == kind && final(repo)@ == old(repo)@,
        },
{
    let words = match base_dictionary_words(repo) {
        Ok(words) => words,
        Err(error) => {
            return Err(error);
        },
    };
    match select_translator(translator_api, api_args) {
        Ok(_) => {},
        Err(error) => {
            return Err(error);
        },
    }
    let count = words.len();
    let complete = match count.checked_mul(target_languages.len()) {
        Some(expected) => outcomes.len() == expected,
        None => false,
    };
    proof {
        assert(words_view(words@).len() == count);
        assert(texts(target_languages@).len() == target_languages.len());
        assert(outcomes@.len() == outcomes.len());
    }
    if !complete {
        return Err(
            StaticDictionaryErrors::AsyncError(
                "Число результатов не совпадает с числом переводов".to_string(),
            ),
        );
    }
    let translations = match collect_translations(outcomes) {
        Ok(translations) => translations,
        Err(error) => {
            return Err(error);
        },
    };
    let ghost start = repo@;
    let ghost all = texts(target_languages@);
    let ghost given = texts(translations@);
    let ghost wanted = words_view(words@);
    let mut offset: usize = 0;
    let mut l: usize = 0;
    proof {
        assert(all.take(0) =~= Seq::<Seq<char>>::empty());
        assert(count * 0 == 0) by (nonlinear_arith);
    }
    while l < target_languages.len()
        invariant
            l <= target_languages.len(),
            count == words@.len(),
            all == texts(target_languages@),
            given == texts(translations@),
            wanted == words_view(words@),
            translations@.len() == count * target_languages@.len(),
            offset == count * l,
            repo.path@ == old(repo).path@,
            distinct_names(start) ==> distinct_names(repo@),
            repo@ == with_translations(start, wanted, all.take(l as int), given.take(offset as int)),
        decreases target_languages.len() - l,
    {
        proof {
            assert(count * (l + 1) == count * l + count) by (nonlinear_arith);
            assert(count * (l + 1) <= count * target_languages@.len()) by (nonlinear_arith)
                requires
                    l + 1 <= target_languages@.len(),
            ;
            assert(offset + count <= translations.len());
        }
        let mut pairs: Vec<(String, String)> = Vec::new();
        let mut w: usize = 0;
        while w < count
            invariant
                w <= count,
                count == words@.len(),
                offset + count <= translations.len(),
                pairs@.len() == w,
                forall|j: int|
                    0 <= j < w ==> (#[trigger] pairs@[j]).0@ == words@[j].tag@ && pairs@[j].1@
                        == without_quotes(translations@[offset + j]@),
            decreases count - w,
        {
            pairs.push((words[w].tag.clone(), strip_quotes(translations[offset + w].as_str())));
            w += 1;
        }
        let content = JsonValue::from_text_pairs(&pairs).to_pretty_text();
        proof {
            let taken = given.take(offset + count);
            let split = taken.len() - wanted.len();
            assert(split == offset);
            assert(taken.take(split) =~= given.take(offset as int));
            assert(pair_texts(pairs@) =~= translated_entries(wanted, taken.skip(split)));
            assert(all.take(l + 1).drop_last() =~= all.take(l as int));
            assert(all.take(l + 1).last() == target_languages@[l as int]@);
        }
        repo.replace(language_dictionary_file_name(target_languages[l].as_str()), content);
        offset = offset + count;
        l += 1;
    }
    proof {
        assert(all.take(all.len() as int) =~= all);
        assert(given.take(given.len() as int) =~= given);
    }
    Ok(())
}

/// Every word is translated into every language: the schedule has as many
/// entries as there are words times languages.
pub proof fn lemma_scheduled_len(words: Seq<WordView>, languages: Seq<Seq<char>>)
    ensures
        scheduled(words, languages).len() == words.len() * languages.len(),
    decreases languages.len(),
{
    if languages.len() > 0 {
        lemma_scheduled_len(words, languages.drop_last());
        assert(words.len() * (languages.len() - 1) + words.len() == words.len() * languages.len())
            by (nonlinear_arith);
    } else {
        assert(words.len() * 0 == 0) by (nonlinear_arith);
    }
}

/// The translations into the language at place `l` of the target
/// languages, where each language has `count` words.
pub open spec fn translations_into(translations: Seq<Seq<char>>, count: nat, l: int) -> Seq<
    Seq<char>,
> {
    translations.subrange(l * count, l * count + count)
}

/// The names of the dictionaries of the target languages.
pub open spec fn target_names(languages: Seq<Seq<char>>) -> Seq<Seq<char>> {
    Seq::new(languages.len(), |l: int| language_dictionary_name(languages[l]))
}

/// The files that are no dictionary of a target language.
pub open spec fn other_files(languages: Seq<Seq<char>>) -> spec_fn((Seq<char>, Seq<char>)) -> bool {
    |file: (Seq<char>, Seq<char>)| !target_names(languages).contains(file.0)
}

/// The dictionaries that a translation run makes: one for each target
/// language, in the order of the languages.
pub open spec fn produced_files(
    words: Seq<WordView>,
    languages: Seq<Seq<char>>,
    translations: Seq<Seq<char>>,
) -> Listing {
    Seq::new(
        languages.len(),
        |l: int|
            (
                language_dictionary_name(languages[l]),
                dictionary_text(
                    translated_entries(words, translations_into(translations, words.len(), l)),
                ),
            ),
    )
}

/// A run in which every translation succeeds, for target languages that
/// differ from each other, leaves the files that are no dictionary of a
/// target language as they are and makes exactly one dictionary for each
/// target language.
pub proof fn lemma_fan_out(
    files: Listing,
    words: Seq<WordView>,
    languages: Seq<Seq<char>>,
    translations: Seq<Seq<char>>,
)
    requires
        languages.no_duplicates(),
        translations.len() == words.len() * languages.len(),
    ensures
        with_translations(files, words, languages, translations) == files.filter(
            other_files(languages),
        ) + produced_files(words, languages, translations),
    decreases languages.len(),
{
    let count = words.len();
    if languages.len() == 0 {
        assert forall|i: int| 0 <= i < files.len() implies other_files(languages)(
            #[trigger] files[i],
        ) by {}
        lemma_filter_all(files, other_files(languages));
        assert(files + produced_files(words, languages, translations) =~= files);
    } else {
        let m = languages.len() - 1;
        let earlier = languages.drop_last();
        let split = translations.len() - count;
        let given = translations.take(split);
        let name = language_dictionary_name(languages.last());
        assert(split == count * m) by (nonlinear_arith)
            requires
                split == count * (m + 1) - count,
        ;
        assert(m * count == count * m) by (nonlinear_arith);
        lemma_fan_out(files, words, earlier, given);
        let kept = files.filter(other_files(earlier));
        let made = produced_files(words, earlier, given);
        let differs = not_named(name);
        Seq::filter_distributes_over_add(kept, made, differs);
        assert forall|i: int| 0 <= i < made.len() implies differs(#[trigger] made[i]) by {
            if made[i].0 == name {
                lemma_language_name_injective(earlier[i], languages.last());
                assert(languages[i] == languages[m]);
            }
        }
        lemma_filter_all(made, differs);
        assert forall|file: (Seq<char>, Seq<char>)| #[trigger]
            other_files(languages)(file) == (other_files(earlier)(file) && differs(file)) by {
            let all = target_names(languages);
            let before = target_names(earlier);
            if all.contains(file.0) {
                let l = choose|l: int| 0 <= l < all.len() && all[l] == file.0;
                if l < m {
                    assert(before[l] == file.0);
                }
            }
            if before.contains(file.0) {
                let l = choose|l: int| 0 <= l < before.len() && before[l] == file.0;
                assert(all[l] == file.0);
            }
            if file.0 == name {
                assert(all[m] == file.0);
            }
        }
        lemma_filter_twice(files, other_files(earlier), differs, other_files(languages));
        let all_made = produced_files(words, languages, translations);
        assert(translations.skip(split) =~= translations_into(translations, count, m));
        assert forall|l: int| 0 <= l < m implies translations_into(given, count, l)
            == translations_into(translations, count, l) by {
            assert(l * count + count <= split) by (nonlinear_arith)
                requires
                    0 <= l < m,
                    split == m * count,
            ;
            assert(0 <= l * count) by (nonlinear_arith)
                requires
                    0 <= l,
            ;
            assert(given.subrange(l * count, l * count + count) =~= translations.subrange(
                l * count,
                l * count + count,
            ));
        }
        assert(all_made =~= made.push(
            (name, dictionary_text(translated_entries(words, translations.skip(split)))),
        ));
        assert((kept + made).filter(differs) == files.filter(other_files(languages)) + made);
        assert(with_translations(files, words, languages, translations) =~= files.filter(
            other_files(languages),
        ) + all_made);
    }
}

/// A translated dictionary holds the tags of the source words, and no
/// other key; where the tags differ from each other, it has one entry for
/// each word, which maps the tag of the word to its translation without
/// the quotes that wrap it.
pub proof fn lemma_dictionary_tags(words: Seq<WordView>, translations: Seq<Seq<char>>)
    requires
        translations.len() == words.len(),
    ensures
        text_map(translated_entries(words, translations)).dom() == tags_of(words).to_set(),
        tags_of(words).no_duplicates() ==> text_map(
            translated_entries(words, translations),
        ).dom().len() == words.len(),
        tags_of(words).no_duplicates() ==> forall|i: int|
            0 <= i < words.len() ==> text_map(translated_entries(words, translations))[(
            #[trigger] words[i]).tag] == JsonModel::Text(without_quotes(translations[i])),
{
    let entries = translated_entries(words, translations);
    let tags = tags_of(words);
    lemma_text_map(entries);
    assert forall|key: Seq<char>|
        text_map(entries).dom().contains(key) <==> tags.to_set().contains(key) by {
        if text_map(entries).contains_key(key) {
            let i = choose|i: int| 0 <= i < entries.len() && (#[trigger] entries[i]).0 == key;
            assert(tags[i] == key);
        }
        if tags.to_set().contains(key) {
            let i = choose|i: int| 0 <= i < tags.len() && tags[i] == key;
            assert(entries[i].0 == key);
        }
    }
    assert(text_map(entries).dom() =~= tags.to_set());
    if tags.no_duplicates() {
        tags.unique_seq_to_set();
        assert forall|i: int| 0 <= i < words.len() implies text_map(entries)[(
        #[trigger] words[i]).tag] == JsonModel::Text(without_quotes(translations[i])) by {
            assert(entries[i].0 == words[i].tag);
            assert forall|j: int| i < j < entries.len() implies entries[j].0 != entries[i].0 by {
                assert(tags[j] == entries[j].0);
                assert(tags[i] == entries[i].0);
            }
        }
    }
}

/// The first failure of a list of outcomes is there as soon as one outcome
/// is no translation.
pub proof fn lemma_first_failure(outcomes: Seq<TaskOutcome>, i: int)
    requires
        0 <= i < outcomes.len(),
        !(outcomes[i] is Translated),
    ensures
        first_failure(outcomes) is Some,
    decreases outcomes.len(),
{
    if i > 0 && outcomes[0] is Translated {
        assert(outcomes.drop_first()[i - 1] == outcomes[i]);
        lemma_first_failure(outcomes.drop_first(), i - 1);
    }
}

/// A run in which one translation failed fails as a whole: no dictionary
/// is made from the translations that succeeded.
pub proof fn lemma_failure_fails_run(
    files: Listing,
    languages: Seq<Seq<char>>,
    translator_api: TranslatorApis,
    outcomes: Seq<TaskOutcome>,
    i: int,
)
    requires
        0 <= i < outcomes.len(),
        !(outcomes[i] is Translated),
    ensures
        translation_result(files, languages, translator_api, outcomes) is Err,
{
    lemma_first_failure(outcomes, i);
}

} // verus!
