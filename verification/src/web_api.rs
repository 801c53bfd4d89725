//! What is said to a translation provider, and what is made of its answer.
//! Sending the request is left to the caller.
use vstd::prelude::*;
use crate::errors::{ErrorKind, StaticDictionaryErrors};
use crate::json::{
    json_error, json_parse, json_text, member_text, object_of_texts, pair_texts, JsonModel,
    JsonValue,
};
use crate::types::{ApiArgs, TranslatorApis, Word, WordView};

verus! {

/// A LibreTranslate service.
#[derive(Debug, Clone)]
pub struct LibreTranslateApi {
    /// The address of the service, without the path of a request.
    pub host: String,
}

/// What a request to LibreTranslate holds, as plain texts.
pub ghost struct RequestView {
    pub word: Seq<char>,
    pub source: Seq<char>,
    pub target: Seq<char>,
    pub format: Seq<char>,
}

/// A request to LibreTranslate: a text, the language it is in, the language
/// it is to be translated into, and the format of the text.
#[derive(Debug)]
pub struct LibreTranslateJsonRequest {
    pub word: String,
    pub source: String,
    pub target: String,
    pub format: String,
}

impl View for LibreTranslateJsonRequest {
    type V = RequestView;

    open spec fn view(&self) -> RequestView {
        RequestView {
            word: self.word@,
            source: self.source@,
            target: self.target@,
            format: self.format@,
        }
    }
}

/// The JSON object that a request is sent as: the text goes under the key
/// `q`, the rest under `source`, `target` and `format`.
pub open spec fn request_document(request: RequestView) -> JsonModel {
    object_of_texts(
        seq![
            ("q"@, request.word),
            ("source"@, request.source),
            ("target"@, request.target),
            ("format"@, request.format),
        ],
    )
}

/// The request that asks for a word to be translated: plain text, from the
/// language of the word into the target language.
pub open spec fn translation_request(word: WordView, target_language: Seq<char>) -> RequestView {
    RequestView { word: word.word, source: word.language, target: target_language, format: "text"@ }
}

/// The translated text that an answer of the service holds: the answer has
/// to be a JSON object with the key `translatedText`, and the text is the
/// text that stands under that key, character by character. Where
/// something else than a text stands there, it is its compact JSON text.
pub open spec fn translated_text(response: Seq<char>) -> Option<Seq<char>> {
    match json_parse(response) {
        Some(JsonModel::Object(members)) => if members.contains_key("translatedText"@) {
            Some(member_text(members["translatedText"@]))
        } else {
            None
        },
        _ => None,
    }
}

impl LibreTranslateJsonRequest {
    pub fn new(word: String, source: String, target: String, format: String) -> (request:
        LibreTranslateJsonRequest)
        ensures
            request.word == word,
            request.source == source,
            request.target == target,
            request.format == format,
    {
        LibreTranslateJsonRequest { word, source, target, format }
    }

    /// The JSON object that the request is sent as.
    pub fn to_json_value(&self) -> (tree: JsonValue)
        ensures
            tree@ == request_document(self@),
    {
        let mut pairs: Vec<(String, String)> = Vec::new();
        pairs.push(("q".to_string(), self.word.clone()));
        pairs.push(("source".to_string(), self.source.clone()));
        pairs.push(("target".to_string(), self.target.clone()));
        pairs.push(("format".to_string(), self.format.clone()));
        let tree = JsonValue::from_text_pairs(&pairs);
        assert(pair_texts(pairs@) =~= seq![
            ("q"@, self.word@),
            ("source"@, self.source@),
            ("target"@, self.target@),
            ("format"@, self.format@),
        ]);
        tree
    }

    /// The body of the request: its JSON object as a compact text.
    pub fn into_json(&self) -> (body: String)
        ensures
            body@ == json_text(request_document(self@)),
    {
        self.to_json_value().to_text()
    }
}

impl LibreTranslateApi {
    pub fn new(host: String) -> (api: LibreTranslateApi)
        ensures
            api.host == host,
    {
        LibreTranslateApi { host }
    }

    /// The address that requests are sent to.
    pub fn endpoint(&self) -> (address: String)
        ensures
            address@ == self.host@ + "/translate"@,
    {
        let mut address = self.host.clone();
        address.append("/translate");
        address
    }

    /// The request that asks for a word to be translated.
    pub fn request_for(&self, word: &Word, target_language: &str) -> (request:
        LibreTranslateJsonRequest)
        ensures
            request@ == translation_request(word@, target_language@),
    {
        LibreTranslateJsonRequest::new(
            word.word.clone(),
            word.language.clone(),
            target_language.to_string(),
            "text".to_string(),
        )
    }

    /// The translated word that an answer of the service gives: the
    /// translated text of the answer, unchanged, the tag of the word that
    /// was sent, and the target language. An answer that does not hold a
    /// translated text is a JSON failure.
    pub fn translate_word_with_tag(
        &self,
        word: Word,
        target_language: String,
        response: &str,
    ) -> (translated: Result<Word, StaticDictionaryErrors>)
        ensures
            match translated_text(response@) {
                Some(text) => translated is Ok && translated->Ok_0@ == (WordView {
                    word: text,
                    tag: word.tag@,
                    language: target_language@,
                }),
                None => translated is Err && translated->Err_0.kind() == ErrorKind::Json,
            },
    {
        let tree = match JsonValue::parse(response) {
            Ok(tree) => tree,
            Err(error) => {
                return Err(StaticDictionaryErrors::JSONParsingError(error));
            },
        };
        match tree.get("translatedText") {
            Some(value) => Ok(Word::new(value.plain_text(), word.tag, target_language)),
            None => Err(
                StaticDictionaryErrors::JSONParsingError(
                    json_error("the answer holds no translated text"),
                ),
            ),
        }
    }
}

/// Whether a provider can be reached: only LibreTranslate can. The choice
/// of another provider is a failure of the provider.
pub fn ensure_implemented(translator_api: TranslatorApis) -> (implemented: Result<
    (),
    StaticDictionaryErrors,
>)
    ensures
        match translator_api {
            TranslatorApis::LibreTranslate => implemented is Ok,
            _ => implemented is Err && implemented->Err_0.kind() == ErrorKind::Api,
        },
{
    match translator_api {
        TranslatorApis::LibreTranslate => Ok(()),
        TranslatorApis::DeepL => Err(
            StaticDictionaryErrors::APIError("DeepL is not implemented".to_string()),
        ),
        TranslatorApis::Yandex => Err(
            StaticDictionaryErrors::APIError("Yandex is not implemented".to_string()),
        ),
    }
}

/// The service that a choice of provider stands for. The choice of a
/// provider that cannot be reached fails at once.
pub fn select_translator(translator_api: TranslatorApis, api_args: ApiArgs) -> (selected: Result<
    LibreTranslateApi,
    StaticDictionaryErrors,
>)
    ensures
        match translator_api {
            TranslatorApis::LibreTranslate => selected is Ok && selected->Ok_0.host
                == api_args.host,
            _ => selected is Err && selected->Err_0.kind() == ErrorKind::Api,
        },
{
    match ensure_implemented(translator_api) {
        Ok(()) => Ok(LibreTranslateApi::new(api_args.host)),
        Err(error) => Err(error),
    }
}

} // verus!
