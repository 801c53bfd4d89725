//! The scan of a project: which source files are read, with which pattern,
//! and what the phrases found in them do to the base dictionary.
use vstd::prelude::*;
use crate::config::{ConfigFileParameters, ConfigView, LanguageConfigurationView};
use crate::errors::{ErrorKind, StaticDictionaryErrors};
use crate::file_system::{file_extension, get_file_extension};
use crate::parser::{generate_regex, get_phrases_from_file, phrase_pattern, phrases_of_lines};
use crate::patterns::{pattern_compiles, pattern_matches, CompiledPattern};
use crate::repository::{distinct_names, Listing, Repository};
use crate::static_translate::{update_basic_dictionary, updated_base};
use crate::text::{chars_of, concat, contains_text, copy_texts, texts};

verus! {

/// A source file: its name and its lines, without their line ends.
#[derive(Debug, Clone, PartialEq)]
pub struct SourceFile {
    pub name: String,
    pub lines: Vec<String>,
}

impl View for SourceFile {
    type V = (Seq<char>, Seq<Seq<char>>);

    open spec fn view(&self) -> (Seq<char>, Seq<Seq<char>>) {
        (self.name@, texts(self.lines@))
    }
}

/// What a list of source files holds.
pub open spec fn sources_view(sources: Seq<SourceFile>) -> Seq<(Seq<char>, Seq<Seq<char>>)> {
    Seq::new(sources.len(), |i: int| sources[i]@)
}

/// The compiled pattern of one language, with the file extensions that it
/// is for.
pub struct LanguagePattern {
    pub extensions: Vec<String>,
    pub pattern: CompiledPattern,
}

impl View for LanguagePattern {
    type V = (Seq<Seq<char>>, Seq<char>);

    open spec fn view(&self) -> (Seq<Seq<char>>, Seq<char>) {
        (texts(self.extensions@), self.pattern.source())
    }
}

/// The compiled patterns of a scan. They are made once, before any file is
/// looked at, and do not change while the scan runs.
pub struct ScanPlan {
    /// The patterns of the file names that are left out.
    pub exclude: Vec<CompiledPattern>,
    /// The patterns of the languages; where two languages name the same
    /// extension, the later one is used.
    pub languages: Vec<LanguagePattern>,
}

/// What a scan plan holds: the pattern texts of the names left out, and for
/// each language its extensions and the text of its phrase pattern.
pub ghost struct PlanView {
    pub exclude: Seq<Seq<char>>,
    pub languages: Seq<(Seq<Seq<char>>, Seq<char>)>,
}

impl View for ScanPlan {
    type V = PlanView;

    open spec fn view(&self) -> PlanView {
        PlanView {
            exclude: Seq::new(self.exclude@.len(), |i: int| self.exclude@[i].source()),
            languages: Seq::new(self.languages@.len(), |i: int| self.languages@[i]@),
        }
    }
}

/// The extensions and the phrase pattern of one language configuration.
pub open spec fn language_of(configuration: LanguageConfigurationView) -> (
    Seq<Seq<char>>,
    Seq<char>,
) {
    (
        configuration.file_extensions,
        phrase_pattern(configuration.string_start, configuration.string_end),
    )
}

/// The languages of one group of configurations, in order.
pub open spec fn group_languages(group: Seq<(Seq<char>, LanguageConfigurationView)>) -> Seq<
    (Seq<Seq<char>>, Seq<char>),
> {
    Seq::new(group.len(), |i: int| language_of(group[i].1))
}

/// The languages of all groups of configurations, group by group.
pub open spec fn all_languages(groups: Seq<Seq<(Seq<char>, LanguageConfigurationView)>>) -> Seq<
    (Seq<Seq<char>>, Seq<char>),
>
    decreases groups.len(),
{
    if groups.len() == 0 {
        Seq::empty()
    } else {
        all_languages(groups.drop_last()) + group_languages(groups.last())
    }
}

/// The scan plan that a configuration asks for.
pub open spec fn plan_of(config: ConfigView) -> PlanView {
    PlanView {
        exclude: config.exclude_files,
        languages: all_languages(config.languages_configurations),
    }
}

/// Whether every pattern of a plan compiles.
pub open spec fn plan_compiles(plan: PlanView) -> bool {
    &&& forall|i: int| 0 <= i < plan.exclude.len() ==> pattern_compiles(#[trigger] plan.exclude[i])
    &&& forall|i: int|
        0 <= i < plan.languages.len() ==> pattern_compiles((#[trigger] plan.languages[i]).1)
}

/// Whether a file name begins with a dot.
pub open spec fn is_hidden(name: Seq<char>) -> bool {
    name.len() > 0 && name[0] == '.'
}

/// Whether one of the patterns matches the file name.
pub open spec fn is_excluded(exclude: Seq<Seq<char>>, name: Seq<char>) -> bool {
    exists|i: int| 0 <= i < exclude.len() && pattern_matches(#[trigger] exclude[i], name)
}

/// The place of the last language that names the extension.
pub open spec fn language_for(languages: Seq<(Seq<Seq<char>>, Seq<char>)>, extension: Seq<char>)
    -> Option<int>
    decreases languages.len(),
{
    if languages.len() == 0 {
        None
    } else if languages.last().0.contains(extension) {
        Some(languages.len() - 1)
    } else {
        language_for(languages.drop_last(), extension)
    }
}

/// The pattern that a file is scanned with, if it is scanned at all. A file
/// is left out if its name begins with a dot, if one of the exclude
/// patterns matches its name, if its name has no extension, or if no
/// language names its extension.
pub open spec fn scan_pattern(plan: PlanView, name: Seq<char>) -> Option<Seq<char>> {
    if is_hidden(name) || is_excluded(plan.exclude, name) {
        None
    } else {
        match file_extension(name) {
            None => None,
            Some(extension) => match language_for(plan.languages, seq!['.'] + extension) {
                Some(i) => Some(plan.languages[i].1),
                None => None,
            },
        }
    }
}

/// The repository after one source file was scanned: the phrases found in
/// the file are merged into the base dictionary; a file that is left out
/// changes nothing.
pub open spec fn scan_file(plan: PlanView, files: Listing, source: (Seq<char>, Seq<Seq<char>>))
    -> Result<Listing, ErrorKind> {
    match scan_pattern(plan, source.0) {
        None => Ok(files),
        Some(pattern) => updated_base(files, phrases_of_lines(pattern, source.1)),
    }
}

/// The repository after the source files were scanned one after the other,
/// and the failure that ended the scan, if one did: the files before the
/// failing one have been merged, the failing one and those after it have
/// not.
pub open spec fn scan_files(
    plan: PlanView,
    files: Listing,
    sources: Seq<(Seq<char>, Seq<Seq<char>>)>,
) -> (Listing, Option<ErrorKind>)
    decreases sources.len(),
{
    if sources.len() == 0 {
        (files, None)
    } else {
        let before = scan_files(plan, files, sources.drop_last());
        match before.1 {
            Some(_) => before,
            None => match scan_file(plan, before.0, sources.last()) {
                Ok(after) => (after, None),
                Err(kind) => (before.0, Some(kind)),
            },
        }
    }
}

/// The last language that names an extension is found, and only it.
pub proof fn lemma_language_for(languages: Seq<(Seq<Seq<char>>, Seq<char>)>, extension: Seq<char>)
    ensures
        match language_for(languages, extension) {
            Some(i) => 0 <= i < languages.len() && languages[i].0.contains(extension) && forall|
                j: int,
            |
                i < j < languages.len() ==> !(#[trigger] languages[j]).0.contains(extension),
            None => forall|j: int|
                0 <= j < languages.len() ==> !(#[trigger] languages[j]).0.contains(extension),
        },
    decreases languages.len(),
{
    if languages.len() > 0 && !languages.last().0.contains(extension) {
        let rest = languages.drop_last();
        lemma_language_for(rest, extension);
        match language_for(rest, extension) {
            Some(i) => {
                assert(rest[i] == languages[i]);
                assert forall|j: int| i < j < languages.len() implies !(
                #[trigger] languages[j]).0.contains(extension) by {
                    if j < rest.len() {
                        assert(rest[j] == languages[j]);
                    }
                }
            },
            None => {
                assert forall|j: int| 0 <= j < languages.len() implies !(
                #[trigger] languages[j]).0.contains(extension) by {
                    if j < rest.len() {
                        assert(rest[j] == languages[j]);
                    }
                }
            },
        }
    }
}

/// A file whose name one of the exclude patterns matches is never scanned,
/// whatever its extension, and leaves the repository as it is.
pub proof fn lemma_excluded_is_not_scanned(
    plan: PlanView,
    files: Listing,
    source: (Seq<char>, Seq<Seq<char>>),
    i: int,
)
    requires
        0 <= i < plan.exclude.len(),
        pattern_matches(plan.exclude[i], source.0),
    ensures
        scan_pattern(plan, source.0) is None,
        scan_file(plan, files, source) == Ok::<Listing, ErrorKind>(files),
{
}

/// The languages of the first groups are the first languages of all groups.
pub proof fn lemma_all_languages_take(
    groups: Seq<Seq<(Seq<char>, LanguageConfigurationView)>>,
    k: int,
)
    requires
        0 <= k <= groups.len(),
    ensures
        all_languages(groups.take(k)).is_prefix_of(all_languages(groups)),
        k < groups.len() ==> all_languages(groups.take(k + 1)) == all_languages(groups.take(k))
            + group_languages(groups[k]),
    decreases groups.len() - k,
{
    if k < groups.len() {
        assert(groups.take(k + 1).drop_last() =~= groups.take(k));
        assert(groups.take(k + 1).last() == groups[k]);
        lemma_all_languages_take(groups, k + 1);
        let shorter = all_languages(groups.take(k));
        let longer = all_languages(groups.take(k + 1));
        let all = all_languages(groups);
        assert(shorter =~= longer.subrange(0, shorter.len() as int));
        assert(shorter =~= all.subrange(0, shorter.len() as int));
    } else {
        assert(groups.take(k) =~= groups);
        let all = all_languages(groups);
        assert(all =~= all.subrange(0, all.len() as int));
    }
}

impl ScanPlan {
    /// Compiles the patterns that a configuration asks for: first those of
    /// the names left out, then one phrase pattern for each language. The
    /// only failure is a pattern that does not compile.
    pub fn build(config: &ConfigFileParameters) -> (built: Result<ScanPlan, StaticDictionaryErrors>)
        ensures
            match built {
                Ok(plan) => plan_compiles(plan_of(config@)) && plan@ == plan_of(config@),
                Err(error) => !plan_compiles(plan_of(config@)) && error is RegexError,
            },
    {
        let ghost wanted = plan_of(config@);
        let mut exclude: Vec<CompiledPattern> = Vec::new();
        let mut i: usize = 0;
        while i < config.exclude_files.len()
            invariant
                i <= config.exclude_files.len(),
                wanted == plan_of(config@),
                exclude@.len() == i,
                forall|k: int|
                    0 <= k < i ==> (#[trigger] exclude@[k]).source() == wanted.exclude[k]
                        && pattern_compiles(wanted.exclude[k]),
            decreases config.exclude_files.len() - i,
        {
            match CompiledPattern::compile(config.exclude_files[i].as_str()) {
                Ok(pattern) => {
                    assert(wanted.exclude[i as int] == config.exclude_files@[i as int]@);
                    exclude.push(pattern);
                },
                Err(error) => {
                    assert(wanted.exclude[i as int] == config.exclude_files@[i as int]@);
                    assert(!pattern_compiles(wanted.exclude[i as int]));
                    return Err(StaticDictionaryErrors::RegexError(error));
                },
            }
            i += 1;
        }
        let ghost groups = config@.languages_configurations;
        let mut languages: Vec<LanguagePattern> = Vec::new();
        let mut g: usize = 0;
        proof {
            assert(groups.take(0) =~= Seq::empty());
        }
        while g < config.languages_configurations.len()
            invariant
                g <= config.languages_configurations.len(),
                wanted == plan_of(config@),
                groups == config@.languages_configurations,
                languages@.len() == all_languages(groups.take(g as int)).len(),
                forall|k: int|
                    0 <= k < languages@.len() ==> (#[trigger] languages@[k])@ == all_languages(
                        groups.take(g as int),
                    )[k] && pattern_compiles(all_languages(groups.take(g as int))[k].1),
            decreases config.languages_configurations.len() - g,
        {
            let group = &config.languages_configurations[g];
            let ghost done = all_languages(groups.take(g as int));
            let ghost current = group_languages(groups[g as int]);
            proof {
                lemma_all_languages_take(groups, g as int);
                lemma_all_languages_take(groups, g + 1);
            }
            let mut m: usize = 0;
            while m < group.len()
                invariant
                    m <= group.len(),
                    g < config.languages_configurations.len(),
                    group == &config.languages_configurations@[g as int],
                    wanted == plan_of(config@),
                    groups == config@.languages_configurations,
                    done == all_languages(groups.take(g as int)),
                    current == group_languages(groups[g as int]),
                    (done + current).is_prefix_of(wanted.languages),
                    languages@.len() == done.len() + m,
                    forall|k: int|
                        0 <= k < languages@.len() ==> (#[trigger] languages@[k])@ == (done
                            + current)[k] && pattern_compiles((done + current)[k].1),
                decreases group.len() - m,
            {
                let configuration = &group[m].1;
                let ghost at = done.len() + m;
                proof {
                    assert(current[m as int] == language_of(configuration@));
                    assert((done + current)[at] == current[m as int]);
                    assert(wanted.languages[at] == (done + current)[at]);
                }
                let compiled = generate_regex(
                    copy_texts(&configuration.string_start),
                    copy_texts(&configuration.string_end),
                );
                match compiled {
                    Ok(pattern) => {
                        languages.push(
                            LanguagePattern {
                                extensions: copy_texts(&configuration.file_extensions),
                                pattern,
                            },
                        );
                    },
                    Err(error) => {
                        assert(!pattern_compiles(wanted.languages[at].1));
                        return Err(error);
                    },
                }
                m += 1;
            }
            g += 1;
        }
        proof {
            assert(groups.take(groups.len() as int) =~= groups);
        }
        let plan = ScanPlan { exclude, languages };
        assert(plan@.exclude =~= wanted.exclude);
        assert(plan@.languages =~= wanted.languages);
        Ok(plan)
    }

    /// The pattern that a file is scanned with, if it is scanned at all.
    pub fn pattern_for(&self, file_name: &str) -> (found: Option<&CompiledPattern>)
        ensures
            match found {
                Some(pattern) => scan_pattern(self@, file_name@) == Some(pattern.source()),
                None => scan_pattern(self@, file_name@) is None,
            },
    {
        let name = chars_of(file_name);
        if name.len() > 0 && name[0] == '.' {
            return None;
        }
        let mut i: usize = 0;
        while i < self.exclude.len()
            invariant
                i <= self.exclude.len(),
                forall|k: int|
                    0 <= k < i ==> !pattern_matches(#[trigger] self@.exclude[k], file_name@),
            decreases self.exclude.len() - i,
        {
            if self.exclude[i].is_match(file_name) {
                assert(pattern_matches(self@.exclude[i as int], file_name@));
                return None;
            }
            i += 1;
        }
        let extension = match get_file_extension(file_name) {
            Some(extension) => extension,
            None => {
                return None;
            },
        };
        let dotted = concat(".", extension.as_str());
        proof {
            reveal_strlit(".");
            assert("."@ =~= seq!['.']);
            lemma_language_for(self@.languages, dotted@);
        }
        assert(!is_excluded(self@.exclude, file_name@));
        let mut k: usize = self.languages.len();
        while k > 0
            invariant
                k <= self.languages.len(),
                !is_hidden(file_name@),
                !is_excluded(self@.exclude, file_name@),
                file_extension(file_name@) == Some(extension@),
                dotted@ == seq!['.'] + extension@,
                forall|j: int|
                    k <= j < self.languages.len() ==> !(#[trigger] self@.languages[j]).0.contains(
                        dotted@,
                    ),
            decreases k,
        {
            k -= 1;
            if contains_text(&self.languages[k].extensions, dotted.as_str()) {
                proof {
                    lemma_language_for(self@.languages, dotted@);
                    assert(self@.languages[k as int].0.contains(dotted@));
                }
                return Some(&self.languages[k].pattern);
            }
        }
        proof {
            lemma_language_for(self@.languages, dotted@);
        }
        None
    }
}

/// Scans source files for phrases and merges what is found into the base
/// dictionary of the repository, file by file.
///
/// All patterns are compiled first; if one does not compile, nothing is
/// scanned and the repository stays as it was. Then each file that is not
/// left out is searched with the pattern of its language, and its phrases
/// are merged before the next file is looked at. A failure of a merge ends
/// the scan: what was merged before stays merged.
pub fn scan_files_for_phrases(
    config: &ConfigFileParameters,
    sources: &Vec<SourceFile>,
    repo: &mut Repository,
) -> (done: Result<(), StaticDictionaryErrors>)
    ensures
        final(repo).path@ == old(repo).path@,
        distinct_names(old(repo)@) ==> distinct_names(final(repo)@),
        !plan_compiles(plan_of(config@)) ==> done is Err && done->Err_0.kind() == ErrorKind::Regex
            && final(repo)@ == old(repo)@,
        plan_compiles(plan_of(config@)) ==> final(repo)@ == scan_files(
            plan_of(config@),
            old(repo)@,
            sources_view(sources@),
        ).0 && match scan_files(plan_of(config@), old(repo)@, sources_view(sources@)).1 {
            None => done is Ok,
            Some(kind) => done is Err && done->Err_0.kind() == kind,
        },
{
    let plan = match ScanPlan::build(config) {
        Ok(plan) => plan,
        Err(error) => {
            return Err(error);
        },
    };
    let ghost start = repo@;
    let ghost all = sources_view(sources@);
    let mut i: usize = 0;
    proof {
        assert(all.take(0) =~= Seq::empty());
    }
    while i < sources.len()
        invariant
            i <= sources.len(),
            all == sources_view(sources@),
            plan@ == plan_of(config@),
            plan_compiles(plan_of(config@)),
            start == old(repo)@,
            distinct_names(start) ==> distinct_names(repo@),
            repo.path@ == old(repo).path@,
            scan_files(plan@, start, all.take(i as int)) == (repo@, None::<ErrorKind>),
        decreases sources.len() - i,
    {
        proof {
            assert(all.take(i + 1).drop_last() =~= all.take(i as int));
            assert(all.take(i + 1).last() == sources@[i as int]@);
        }
        match plan.pattern_for(sources[i].name.as_str()) {
            Some(pattern) => {
                let phrases = get_phrases_from_file(&sources[i].lines, pattern);
                match update_basic_dictionary(repo, phrases) {
                    Ok(()) => {},
                    Err(error) => {
                        proof {
                            lemma_scan_failure(plan@, start, all, i as int);
                        }
                        return Err(error);
                    },
                }
            },
            None => {},
        }
        i += 1;
    }
    proof {
        assert(all.take(all.len() as int) =~= all);
    }
    Ok(())
}

/// Once a scan has failed, the files after the failing one change nothing.
pub proof fn lemma_scan_failure(
    plan: PlanView,
    files: Listing,
    sources: Seq<(Seq<char>, Seq<Seq<char>>)>,
    i: int,
)
    requires
        0 <= i < sources.len(),
        scan_files(plan, files, sources.take(i + 1)).1 is Some,
    ensures
        scan_files(plan, files, sources) == scan_files(plan, files, sources.take(i + 1)),
    decreases sources.len() - i,
{
    if i + 1 < sources.len() {
        assert(sources.take(i + 2).drop_last() =~= sources.take(i + 1));
        lemma_scan_failure(plan, files, sources, i + 1);
    } else {
        assert(sources.take(i + 1) =~= sources);
    }
}

} // verus!
