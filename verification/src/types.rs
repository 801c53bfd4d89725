//! The types that every part of the library shares.
use vstd::prelude::*;
use crate::json::{
    json_error, json_parse, json_text, object_of_texts, JsonModel, JsonValue,
};

verus! {

/// What a `Word` holds, as plain texts.
pub ghost struct WordView {
    pub word: Seq<char>,
    pub tag: Seq<char>,
    pub language: Seq<char>,
}

/// A phrase in one language. The tag is the key that the phrase keeps
/// through all its translations; a phrase of the base dictionary is its own
/// tag.
#[derive(Debug)]
pub struct Word {
    pub word: String,
    pub tag: String,
    pub language: String,
}

impl View for Word {
    type V = WordView;

    open spec fn view(&self) -> WordView {
        WordView { word: self.word@, tag: self.tag@, language: self.language@ }
    }
}

/// The translation providers that can be selected.
#[derive(Debug, Clone, Copy, PartialEq, Eq, Structural)]
pub enum TranslatorApis {
    LibreTranslate,
    DeepL,
    Yandex,
}

impl Default for TranslatorApis {
    fn default() -> (api: TranslatorApis)
        ensures
            api == TranslatorApis::LibreTranslate,
    {
        TranslatorApis::LibreTranslate
    }
}

/// What a translation provider is reached with.
#[derive(Debug, PartialEq)]
pub struct ApiArgs {
    pub api_key: Option<String>,
    pub host: String,
}

impl ApiArgs {
    pub fn new(api_key: Option<String>, host: String) -> (args: ApiArgs)
        ensures
            args.api_key == api_key,
            args.host == host,
    {
        ApiArgs { api_key, host }
    }
}

impl Clone for ApiArgs {
    fn clone(&self) -> (copy: ApiArgs)
        ensures
            copy == *self,
    {
        let api_key = match &self.api_key {
            Some(key) => Some(key.clone()),
            None => None,
        };
        ApiArgs { api_key, host: self.host.clone() }
    }
}

/// The JSON object that stands for a word: its three texts under the keys
/// `word`, `tag` and `language`.
pub open spec fn word_document(word: WordView) -> JsonModel {
    object_of_texts(
        seq![("word"@, word.word), ("tag"@, word.tag), ("language"@, word.language)],
    )
}

/// The word that a JSON document stands for: the document has to be an
/// object with a text under each of the keys `word`, `tag` and `language`.
pub open spec fn word_of_document(document: JsonModel) -> Option<WordView> {
    match document {
        JsonModel::Object(members) => if members.contains_key("word"@) && members["word"@] is Text
            && members.contains_key("tag"@) && members["tag"@] is Text && members.contains_key(
            "language"@,
        ) && members["language"@] is Text {
            Some(
                WordView {
                    word: members["word"@]->Text_0,
                    tag: members["tag"@]->Text_0,
                    language: members["language"@]->Text_0,
                },
            )
        } else {
            None
        },
        _ => None,
    }
}

/// The text that shows a word to the user.
pub open spec fn word_display(word: WordView) -> Seq<char> {
    "Word: "@ + word.word + ", tag: "@ + word.tag + ", lang: "@ + word.language
}

/// Reading the JSON object of a word gives the word back.
pub proof fn lemma_word_document_round_trip(word: WordView)
    ensures
        word_of_document(word_document(word)) == Some(word),
{
    reveal_strlit("word");
    reveal_strlit("tag");
    reveal_strlit("language");
    assert("word"@ != "tag"@) by {
        assert("word"@.len() != "tag"@.len());
    }
    assert("word"@ != "language"@) by {
        assert("word"@.len() != "language"@.len());
    }
    assert("tag"@ != "language"@) by {
        assert("tag"@.len() != "language"@.len());
    }
    let pairs = seq![("word"@, word.word), ("tag"@, word.tag), ("language"@, word.language)];
    let two = pairs.drop_last();
    let one = two.drop_last();
    assert(one.drop_last() =~= Seq::<(Seq<char>, Seq<char>)>::empty());
    reveal_with_fuel(crate::json::text_map, 4);
    assert(pairs.last() == ("language"@, word.language));
    assert(two.last() == ("tag"@, word.tag));
    assert(one.last() == ("word"@, word.word));
}

impl Word {
    pub fn new(word: String, tag: String, lang: String) -> (made: Word)
        ensures
            made.word == word,
            made.tag == tag,
            made.language == lang,
    {
        Word { word, tag, language: lang }
    }

    /// The JSON object that stands for the word.
    pub fn to_json_value(&self) -> (tree: JsonValue)
        ensures
            tree@ == word_document(self@),
    {
        let mut pairs: Vec<(String, String)> = Vec::new();
        pairs.push(("word".to_string(), self.word.clone()));
        pairs.push(("tag".to_string(), self.tag.clone()));
        pairs.push(("language".to_string(), self.language.clone()));
        let tree = JsonValue::from_text_pairs(&pairs);
        assert(crate::json::pair_texts(pairs@) =~= seq![
            ("word"@, self.word@),
            ("tag"@, self.tag@),
            ("language"@, self.language@),
        ]);
        tree
    }

    /// The word that a JSON document stands for, if it stands for one.
    pub fn from_json_value(tree: &JsonValue) -> (found: Option<Word>)
        ensures
            match found {
                Some(word) => word_of_document(tree@) == Some(word@),
                None => word_of_document(tree@) is None,
            },
    {
        let word = match tree.get("word") {
            Some(value) => match value.as_text() {
                Some(text) => text.clone(),
                None => {
                    return None;
                },
            },
            None => {
                return None;
            },
        };
        let tag = match tree.get("tag") {
            Some(value) => match value.as_text() {
                Some(text) => text.clone(),
                None => {
                    return None;
                },
            },
            None => {
                return None;
            },
        };
        let language = match tree.get("language") {
            Some(value) => match value.as_text() {
                Some(text) => text.clone(),
                None => {
                    return None;
                },
            },
            None => {
                return None;
            },
        };
        Some(Word { word, tag, language })
    }

    /// The word as a compact JSON text. This always succeeds.
    pub fn into_json(&self) -> (text: Result<String, serde_json::Error>)
        ensures
            text is Ok,
            text->Ok_0@ == json_text(word_document(self@)),
    {
        Ok(self.to_json_value().to_text())
    }

    /// Reads a word from a JSON text: an object with a text under each of
    /// the keys `word`, `tag` and `language`. Anything else is an error.
    pub fn from_json(json_data: String) -> (read: Result<Word, serde_json::Error>)
        ensures
            match json_parse(json_data@) {
                Some(document) => match word_of_document(document) {
                    Some(word) => read is Ok && read->Ok_0@ == word,
                    None => read is Err,
                },
                None => read is Err,
            },
    {
        match JsonValue::parse(json_data.as_str()) {
            Ok(tree) => match Word::from_json_value(&tree) {
                Some(word) => Ok(word),
                None => Err(json_error("a word needs the texts `word`, `tag` and `language`")),
            },
            Err(error) => Err(error),
        }
    }

    /// The text that shows the word to the user.
    pub fn to_string(&self) -> (text: String)
        ensures
            text@ == word_display(self@),
    {
        let mut text = "Word: ".to_string();
        text.append(self.word.as_str());
        text.append(", tag: ");
        text.append(self.tag.as_str());
        text.append(", lang: ");
        text.append(self.language.as_str());
        text
    }
}

impl Clone for Word {
    fn clone(&self) -> (copy: Word)
        ensures
            copy == *self,
    {
        Word { word: self.word.clone(), tag: self.tag.clone(), language: self.language.clone() }
    }
}

impl Default for Word {
    fn default() -> (word: Word)
        ensures
            word@ == (WordView {
                word: Seq::<char>::empty(),
                tag: Seq::<char>::empty(),
                language: Seq::<char>::empty(),
            }),
    {
        Word { word: String::new(), tag: String::new(), language: String::new() }
    }
}

} // verus!
