//! The configuration of a project whose source files are scanned.
use vstd::prelude::*;
use crate::json::{
    array_of_texts, document_map, field_text, field_texts, json_error, json_parse, json_text,
    lists_keys, member_entries, JsonMember, JsonModel, JsonValue,
};
use crate::text::texts;

verus! {

/// What a `LanguageConfiguration` holds, as plain texts.
pub ghost struct LanguageConfigurationView {
    pub file_extensions: Seq<Seq<char>>,
    pub string_start: Seq<Seq<char>>,
    pub string_end: Seq<Seq<char>>,
}

/// How the phrases of one programming language are found: in the files
/// with one of the extensions, between one of the start markers and one of
/// the end markers.
#[derive(Debug, Clone, PartialEq)]
pub struct LanguageConfiguration {
    /// The extensions of the files of the language, each with its dot.
    pub file_extensions: Vec<String>,
    /// What stands right before the opening quote of a phrase.
    pub string_start: Vec<String>,
    /// What stands right after the closing quote of a phrase.
    pub string_end: Vec<String>,
}

impl View for LanguageConfiguration {
    type V = LanguageConfigurationView;

    open spec fn view(&self) -> LanguageConfigurationView {
        LanguageConfigurationView {
            file_extensions: texts(self.file_extensions@),
            string_start: texts(self.string_start@),
            string_end: texts(self.string_end@),
        }
    }
}

/// A group of language configurations, each under its name.
pub type LanguageGroup = Vec<(String, LanguageConfiguration)>;

/// What a group of language configurations holds.
pub open spec fn group_view(group: Seq<(String, LanguageConfiguration)>) -> Seq<
    (Seq<char>, LanguageConfigurationView),
> {
    Seq::new(group.len(), |i: int| (group[i].0@, group[i].1@))
}

/// What a list of groups of language configurations holds.
pub open spec fn groups_view(groups: Seq<LanguageGroup>) -> Seq<
    Seq<(Seq<char>, LanguageConfigurationView)>,
> {
    Seq::new(groups.len(), |i: int| group_view(groups[i]@))
}

/// What a `ConfigFileParameters` holds, as plain texts.
pub ghost struct ConfigView {
    pub base_directory: Seq<char>,
    pub exclude_files: Seq<Seq<char>>,
    pub dictionary_repo: Seq<char>,
    pub output_dir: Seq<char>,
    pub languages_configurations: Seq<Seq<(Seq<char>, LanguageConfigurationView)>>,
    pub manual_translate_words: Seq<Seq<char>>,
}

/// The configuration of a project.
#[derive(Debug, Clone, PartialEq)]
pub struct ConfigFileParameters {
    /// The directory whose files are scanned.
    pub base_directory: String,
    /// The patterns of the file names that are left out of the scan.
    pub exclude_files: Vec<String>,
    /// The directory of the dictionary repository.
    pub dictionary_repo: String,
    /// The directory that the exported dictionaries go to.
    pub output_dir: String,
    /// The language configurations, in groups.
    pub languages_configurations: Vec<LanguageGroup>,
    /// The phrases that are translated by hand only.
    pub manual_translate_words: Vec<String>,
}

impl View for ConfigFileParameters {
    type V = ConfigView;

    open spec fn view(&self) -> ConfigView {
        ConfigView {
            base_directory: self.base_directory@,
            exclude_files: texts(self.exclude_files@),
            dictionary_repo: self.dictionary_repo@,
            output_dir: self.output_dir@,
            languages_configurations: groups_view(self.languages_configurations@),
            manual_translate_words: texts(self.manual_translate_words@),
        }
    }
}

/// The language configuration that a JSON document stands for: an object
/// with an array of texts under each of the keys `ext`, `regexp-start` and
/// `regexp-end`.
pub open spec fn language_of_document(document: JsonModel) -> Option<LanguageConfigurationView> {
    match (
        field_texts(document, "ext"@),
        field_texts(document, "regexp-start"@),
        field_texts(document, "regexp-end"@),
    ) {
        (Some(extensions), Some(starts), Some(ends)) => Some(
            LanguageConfigurationView {
                file_extensions: extensions,
                string_start: starts,
                string_end: ends,
            },
        ),
        _ => None,
    }
}

/// Whether the value under a name of a group stands for a language
/// configuration.
pub open spec fn holds_language(members: Map<Seq<char>, JsonModel>, name: Seq<char>) -> bool {
    language_of_document(members[name]) is Some
}

/// Whether a JSON document stands for a group of language configurations:
/// an object whose values all stand for language configurations.
pub open spec fn is_group_document(document: JsonModel) -> bool {
    &&& document is Object
    &&& forall|name: Seq<char>|
        document->Object_0.contains_key(name) ==> holds_language(document->Object_0, name)
}

/// The names of a group of language configurations.
pub open spec fn group_names(group: Seq<(Seq<char>, LanguageConfigurationView)>) -> Seq<
    Seq<char>,
> {
    Seq::new(group.len(), |i: int| group[i].0)
}

/// Whether a group of language configurations is the one that a JSON
/// document stands for: it holds each name of the object once, with the
/// language configuration that the value under the name stands for.
pub open spec fn is_group_of(
    group: Seq<(Seq<char>, LanguageConfigurationView)>,
    document: JsonModel,
) -> bool {
    &&& document is Object
    &&& lists_keys(group_names(group), document->Object_0.dom())
    &&& forall|i: int|
        0 <= i < group.len() ==> language_of_document(
            document->Object_0[(#[trigger] group[i]).0],
        ) == Some(group[i].1)
}

/// The groups of a configuration document: the items of the array under
/// its key `include`.
pub open spec fn included(document: JsonModel) -> Option<Seq<JsonModel>> {
    match document {
        JsonModel::Object(members) => if members.contains_key("include"@) && members["include"@]
            is Array {
            Some(members["include"@]->Array_0)
        } else {
            None
        },
        _ => None,
    }
}

/// Whether a JSON document stands for a configuration: an object with a
/// text under each of `base`, `dictionary_repo` and `output_dir`, an array
/// of texts under each of `exclude` and `manual_translate`, and an array
/// of groups of language configurations under `include`.
pub open spec fn is_config_document(document: JsonModel) -> bool {
    &&& field_text(document, "base"@) is Some
    &&& field_texts(document, "exclude"@) is Some
    &&& field_text(document, "dictionary_repo"@) is Some
    &&& field_text(document, "output_dir"@) is Some
    &&& field_texts(document, "manual_translate"@) is Some
    &&& included(document) is Some
    &&& forall|i: int|
        0 <= i < included(document)->Some_0.len() ==> is_group_document(
            #[trigger] included(document)->Some_0[i],
        )
}

/// Whether a configuration is the one that a JSON document stands for.
pub open spec fn is_config_of(config: ConfigView, document: JsonModel) -> bool {
    &&& field_text(document, "base"@) == Some(config.base_directory)
    &&& field_texts(document, "exclude"@) == Some(config.exclude_files)
    &&& field_text(document, "dictionary_repo"@) == Some(config.dictionary_repo)
    &&& field_text(document, "output_dir"@) == Some(config.output_dir)
    &&& field_texts(document, "manual_translate"@) == Some(config.manual_translate_words)
    &&& included(document) is Some
    &&& included(document)->Some_0.len() == config.languages_configurations.len()
    &&& forall|i: int|
        0 <= i < config.languages_configurations.len() ==> is_group_of(
            #[trigger] config.languages_configurations[i],
            included(document)->Some_0[i],
        )
}

/// The JSON object that stands for a language configuration.
pub open spec fn language_document(configuration: LanguageConfigurationView) -> JsonModel {
    JsonModel::Object(
        document_map(
            seq![
                ("ext"@, array_of_texts(configuration.file_extensions)),
                ("regexp-start"@, array_of_texts(configuration.string_start)),
                ("regexp-end"@, array_of_texts(configuration.string_end)),
            ],
        ),
    )
}

/// The JSON object that stands for a group of language configurations.
pub open spec fn group_document(group: Seq<(Seq<char>, LanguageConfigurationView)>) -> JsonModel {
    JsonModel::Object(
        document_map(Seq::new(group.len(), |i: int| (group[i].0, language_document(group[i].1)))),
    )
}

/// The JSON object that stands for a configuration.
pub open spec fn config_document(config: ConfigView) -> JsonModel {
    JsonModel::Object(
        document_map(
            seq![
                ("base"@, JsonModel::Text(config.base_directory)),
                ("exclude"@, array_of_texts(config.exclude_files)),
                ("dictionary_repo"@, JsonModel::Text(config.dictionary_repo)),
                ("output_dir"@, JsonModel::Text(config.output_dir)),
                (
                    "include"@,
                    JsonModel::Array(
                        Seq::new(
                            config.languages_configurations.len(),
                            |i: int| group_document(config.languages_configurations[i]),
                        ),
                    ),
                ),
                ("manual_translate"@, array_of_texts(config.manual_translate_words)),
            ],
        ),
    )
}

impl LanguageConfiguration {
    /// The language configuration that a JSON document stands for, if it
    /// stands for one.
    pub fn from_json_value(tree: &JsonValue) -> (found: Option<LanguageConfiguration>)
        ensures
            match found {
                Some(configuration) => language_of_document(tree@) == Some(configuration@),
                None => language_of_document(tree@) is None,
            },
    {
        let file_extensions = match tree.texts_field("ext") {
            Some(items) => items,
            None => {
                return None;
            },
        };
        let string_start = match tree.texts_field("regexp-start") {
            Some(items) => items,
            None => {
                return None;
            },
        };
        let string_end = match tree.texts_field("regexp-end") {
            Some(items) => items,
            None => {
                return None;
            },
        };
        Some(LanguageConfiguration { file_extensions, string_start, string_end })
    }

    /// The JSON object that stands for the language configuration.
    pub fn to_json_value(&self) -> (tree: JsonValue)
        ensures
            tree@ == language_document(self@),
    {
        let mut members: Vec<JsonMember> = Vec::new();
        members.push(
            JsonMember { key: "ext".to_string(), value: JsonValue::from_texts(&self.file_extensions) },
        );
        members.push(
            JsonMember {
                key: "regexp-start".to_string(),
                value: JsonValue::from_texts(&self.string_start),
            },
        );
        members.push(
            JsonMember {
                key: "regexp-end".to_string(),
                value: JsonValue::from_texts(&self.string_end),
            },
        );
        assert(member_entries(members@) =~= seq![
            ("ext"@, array_of_texts(self@.file_extensions)),
            ("regexp-start"@, array_of_texts(self@.string_start)),
            ("regexp-end"@, array_of_texts(self@.string_end)),
        ]);
        JsonValue::object(members)
    }
}

/// The group of language configurations that a JSON document stands for,
/// if it stands for one.
pub fn group_from_json_value(tree: &JsonValue) -> (found: Option<LanguageGroup>)
    ensures
        match found {
            Some(group) => is_group_of(group_view(group@), tree@),
            None => !is_group_document(tree@),
        },
{
    let names = match tree.object_keys() {
        Some(names) => names,
        None => {
            return None;
        },
    };
    let ghost members = tree@->Object_0;
    let mut group: LanguageGroup = Vec::new();
    let mut i: usize = 0;
    while i < names.len()
        invariant
            i <= names.len(),
            tree@ == JsonModel::Object(members),
            lists_keys(texts(names@), members.dom()),
            group@.len() == i,
            forall|j: int| 0 <= j < i ==> (#[trigger] group@[j]).0@ == names@[j]@,
            forall|j: int|
                0 <= j < i ==> language_of_document(members[names@[j]@]) == Some(
                    (#[trigger] group@[j]).1@,
                ),
        decreases names.len() - i,
    {
        let ghost name = names@[i as int]@;
        proof {
            assert(texts(names@)[i as int] == name);
            assert(texts(names@).to_set().contains(name));
        }
        let configuration = match tree.get(names[i].as_str()) {
            Some(value) => match LanguageConfiguration::from_json_value(value) {
                Some(configuration) => configuration,
                None => {
                    assert(members.contains_key(name) && !holds_language(members, name));
                    return None;
                },
            },
            None => {
                return None;
            },
        };
        group.push((names[i].clone(), configuration));
        i += 1;
    }
    proof {
        assert(group_names(group_view(group@)) =~= texts(names@));
    }
    Some(group)
}

/// The JSON object that stands for a group of language configurations.
pub fn group_to_json_value(group: &LanguageGroup) -> (tree: JsonValue)
    ensures
        tree@ == group_document(group_view(group@)),
{
    let mut members: Vec<JsonMember> = Vec::new();
    let mut i: usize = 0;
    while i < group.len()
        invariant
            i <= group.len(),
            members@.len() == i,
            forall|j: int|
                0 <= j < i ==> (#[trigger] members@[j]).key@ == group@[j].0@ && members@[j].value@
                    == language_document(group@[j].1@),
        decreases group.len() - i,
    {
        members.push(JsonMember { key: group[i].0.clone(), value: group[i].1.to_json_value() });
        i += 1;
    }
    assert(member_entries(members@) =~= Seq::new(
        group_view(group@).len(),
        |i: int| (group_view(group@)[i].0, language_document(group_view(group@)[i].1)),
    ));
    JsonValue::object(members)
}

impl ConfigFileParameters {
    /// The configuration that a JSON document stands for, if it stands for
    /// one.
    pub fn from_json_value(tree: &JsonValue) -> (found: Option<ConfigFileParameters>)
        ensures
            match found {
                Some(config) => is_config_document(tree@) && is_config_of(config@, tree@),
                None => !is_config_document(tree@),
            },
    {
        let base_directory = match tree.text_field("base") {
            Some(text) => text,
            None => {
                return None;
            },
        };
        let exclude_files = match tree.texts_field("exclude") {
            Some(items) => items,
            None => {
                return None;
            },
        };
        let dictionary_repo = match tree.text_field("dictionary_repo") {
            Some(text) => text,
            None => {
                return None;
            },
        };
        let output_dir = match tree.text_field("output_dir") {
            Some(text) => text,
            None => {
                return None;
            },
        };
        let manual_translate_words = match tree.texts_field("manual_translate") {
            Some(items) => items,
            None => {
                return None;
            },
        };
        let items = match tree.get("include") {
            Some(value) => match value.as_array() {
                Some(items) => items,
                None => {
                    return None;
                },
            },
            None => {
                return None;
            },
        };
        let ghost documents = included(tree@)->Some_0;
        assert(documents =~= Seq::new(items@.len(), |i: int| items@[i]@));
        let mut languages_configurations: Vec<LanguageGroup> = Vec::new();
        let mut i: usize = 0;
        while i < items.len()
            invariant
                i <= items.len(),
                included(tree@) == Some(documents),
                documents == Seq::new(items@.len(), |i: int| items@[i]@),
                languages_configurations@.len() == i,
                forall|j: int|
                    0 <= j < i ==> is_group_of(
                        group_view((#[trigger] languages_configurations@[j])@),
                        documents[j],
                    ),
            decreases items.len() - i,
        {
            match group_from_json_value(&items[i]) {
                Some(group) => {
                    languages_configurations.push(group);
                },
                None => {
                    assert(documents[i as int] == items@[i as int]@);
                    assert(!is_group_document(included(tree@)->Some_0[i as int]));
                    return None;
                },
            }
            i += 1;
        }
        let config = ConfigFileParameters {
            base_directory,
            exclude_files,
            dictionary_repo,
            output_dir,
            languages_configurations,
            manual_translate_words,
        };
        proof {
            assert forall|j: int| 0 <= j < documents.len() implies is_group_document(
                #[trigger] documents[j],
            ) by {
                let group = group_view(config.languages_configurations@[j]@);
                let members = documents[j]->Object_0;
                assert(is_group_of(group, documents[j]));
                assert forall|name: Seq<char>| members.contains_key(name) implies holds_language(
                    members,
                    name,
                ) by {
                    assert(group_names(group).to_set().contains(name));
                    let k = choose|k: int| 0 <= k < group.len() && group_names(group)[k] == name;
                    assert(group[k].0 == name);
                }
            }
            assert forall|j: int|
                0 <= j < config@.languages_configurations.len() implies is_group_of(
                #[trigger] config@.languages_configurations[j],
                documents[j],
            ) by {
                assert(config@.languages_configurations[j] == group_view(
                    config.languages_configurations@[j]@,
                ));
            }
        }
        Some(config)
    }

    /// The JSON object that stands for the configuration.
    pub fn to_json_value(&self) -> (tree: JsonValue)
        ensures
            tree@ == config_document(self@),
    {
        let mut groups: Vec<JsonValue> = Vec::new();
        let mut i: usize = 0;
        while i < self.languages_configurations.len()
            invariant
                i <= self.languages_configurations.len(),
                groups@.len() == i,
                forall|j: int|
                    0 <= j < i ==> (#[trigger] groups@[j])@ == group_document(
                        group_view(self.languages_configurations@[j]@),
                    ),
            decreases self.languages_configurations.len() - i,
        {
            groups.push(group_to_json_value(&self.languages_configurations[i]));
            i += 1;
        }
        let listed = JsonValue::Array(groups);
        assert(listed@ =~= JsonModel::Array(
            Seq::new(
                self@.languages_configurations.len(),
                |i: int| group_document(self@.languages_configurations[i]),
            ),
        )) by {
            assert(listed@->Array_0 =~= Seq::new(
                self@.languages_configurations.len(),
                |i: int| group_document(self@.languages_configurations[i]),
            ));
        }
        let mut members: Vec<JsonMember> = Vec::new();
        members.push(
            JsonMember { key: "base".to_string(), value: JsonValue::Text(self.base_directory.clone()) },
        );
        members.push(
            JsonMember { key: "exclude".to_string(), value: JsonValue::from_texts(&self.exclude_files) },
        );
        members.push(
            JsonMember {
                key: "dictionary_repo".to_string(),
                value: JsonValue::Text(self.dictionary_repo.clone()),
            },
        );
        members.push(
            JsonMember { key: "output_dir".to_string(), value: JsonValue::Text(self.output_dir.clone()) },
        );
        members.push(JsonMember { key: "include".to_string(), value: listed });
        members.push(
            JsonMember {
                key: "manual_translate".to_string(),
                value: JsonValue::from_texts(&self.manual_translate_words),
            },
        );
        assert(member_entries(members@) =~= seq![
            ("base"@, JsonModel::Text(self@.base_directory)),
            ("exclude"@, array_of_texts(self@.exclude_files)),
            ("dictionary_repo"@, JsonModel::Text(self@.dictionary_repo)),
            ("output_dir"@, JsonModel::Text(self@.output_dir)),
            (
                "include"@,
                JsonModel::Array(
                    Seq::new(
                        self@.languages_configurations.len(),
                        |i: int| group_document(self@.languages_configurations[i]),
                    ),
                ),
            ),
            ("manual_translate"@, array_of_texts(self@.manual_translate_words)),
        ]);
        JsonValue::object(members)
    }

    /// Reads a configuration from a JSON text. A text that is no JSON, or
    /// whose document does not stand for a configuration, is an error.
    pub fn from_json(json_content: &str) -> (read: Result<ConfigFileParameters, serde_json::Error>)
        ensures
            match json_parse(json_content@) {
                Some(document) => if is_config_document(document) {
                    read is Ok && is_config_of(read->Ok_0@, document)
                } else {
                    read is Err
                },
                None => read is Err,
            },
    {
        match JsonValue::parse(json_content) {
            Ok(tree) => match ConfigFileParameters::from_json_value(&tree) {
                Some(config) => Ok(config),
                None => Err(json_error("the document is no configuration")),
            },
            Err(error) => Err(error),
        }
    }

    /// The configuration as a compact JSON text. This always succeeds.
    pub fn into_json(&self) -> (text: Result<String, serde_json::Error>)
        ensures
            text is Ok,
            text->Ok_0@ == json_text(config_document(self@)),
    {
        Ok(self.to_json_value().to_text())
    }
}

} // verus!
