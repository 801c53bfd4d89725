//! The failures that the dictionary operations report.
use vstd::prelude::*;

verus! {

/// `serde_json::Error`: why a JSON text could not be read.
#[verifier::external_type_specification]
#[verifier::external_body]
pub struct ExJsonError(serde_json::Error);

/// `regex::Error`: why a pattern did not compile.
#[verifier::external_type_specification]
#[verifier::external_body]
pub struct ExRegexError(regex::Error);

/// The kind of a failure, without what it carries.
#[derive(Clone, Copy, Debug, PartialEq, Eq, Structural)]
pub enum ErrorKind {
    /// The repository holds no base dictionary.
    BasicDictionaryNotFound,
    /// A JSON text could not be read, or does not have the expected shape.
    Json,
    /// The translation provider failed.
    Api,
    /// A file is missing, is already there, or cannot be told apart from another.
    Io,
    /// A scheduled operation did not run to its end.
    Async,
    /// A configured pattern does not compile.
    Regex,
}

/// What can go wrong while working on a dictionary repository.
#[derive(Debug)]
pub enum StaticDictionaryErrors {
    /// The repository holds no base dictionary: it has to be initialized first.
    BasicDictionaryNotFound,
    /// A JSON text could not be read, or does not have the expected shape.
    JSONParsingError(serde_json::Error),
    /// The translation provider failed; the text says how.
    APIError(String),
    /// A file is missing, is already there, or cannot be told apart from another.
    IOError(String),
    /// A scheduled operation did not run to its end; the text says why.
    AsyncError(String),
    /// A configured pattern does not compile.
    RegexError(regex::Error),
}

/// What can go wrong while exporting the dictionaries.
#[derive(Debug)]
pub enum BuildSystemErrors {
    /// A file is missing or is already there.
    IOError(String),
    /// A pattern does not compile.
    RegexError(regex::Error),
    /// A failure of the dictionary operations underneath.
    StaticDictionaryError(StaticDictionaryErrors),
    /// A JSON text could not be read, or does not have the expected shape.
    JSONError(serde_json::Error),
}

impl StaticDictionaryErrors {
    /// The kind of this failure.
    pub open spec fn kind_spec(&self) -> ErrorKind {
        match self {
            StaticDictionaryErrors::BasicDictionaryNotFound => ErrorKind::BasicDictionaryNotFound,
            StaticDictionaryErrors::JSONParsingError(_) => ErrorKind::Json,
            StaticDictionaryErrors::APIError(_) => ErrorKind::Api,
            StaticDictionaryErrors::IOError(_) => ErrorKind::Io,
            StaticDictionaryErrors::AsyncError(_) => ErrorKind::Async,
            StaticDictionaryErrors::RegexError(_) => ErrorKind::Regex,
        }
    }

    /// The kind of this failure.
    #[verifier::when_used_as_spec(kind_spec)]
    pub fn kind(&self) -> (kind: ErrorKind)
        ensures
            kind == self.kind_spec(),
    {
        match self {
            StaticDictionaryErrors::BasicDictionaryNotFound => ErrorKind::BasicDictionaryNotFound,
            StaticDictionaryErrors::JSONParsingError(_) => ErrorKind::Json,
            StaticDictionaryErrors::APIError(_) => ErrorKind::Api,
            StaticDictionaryErrors::IOError(_) => ErrorKind::Io,
            StaticDictionaryErrors::AsyncError(_) => ErrorKind::Async,
            StaticDictionaryErrors::RegexError(_) => ErrorKind::Regex,
        }
    }

    /// The message shown to the user for this failure: one per kind.
    pub open spec fn message_spec(&self) -> Seq<char> {
        match self {
            StaticDictionaryErrors::BasicDictionaryNotFound =>
                "Базовый словарь не найден и не предоставлено название языка для поиска другого словаря"@,
            StaticDictionaryErrors::JSONParsingError(_) => "Не удалось спарсить JSON файл словаря"@,
            StaticDictionaryErrors::APIError(_) => "Произошла ошибка при переводе слова в API"@,
            StaticDictionaryErrors::IOError(_) => "Произошла ошибка при работе с файлом словаря"@,
            StaticDictionaryErrors::AsyncError(_) =>
                "Произошла ошибка при выполнении асинхронной операции"@,
            StaticDictionaryErrors::RegexError(_) => "Ошибка при работе с регулярными выражениями"@,
        }
    }

    /// The message shown to the user for this failure.
    pub fn message(&self) -> (text: String)
        ensures
            text@ == self.message_spec(),
    {
        match self {
            StaticDictionaryErrors::BasicDictionaryNotFound =>
                "Базовый словарь не найден и не предоставлено название языка для поиска другого словаря".to_string(),
            StaticDictionaryErrors::JSONParsingError(_) =>
                "Не удалось спарсить JSON файл словаря".to_string(),
            StaticDictionaryErrors::APIError(_) =>
                "Произошла ошибка при переводе слова в API".to_string(),
            StaticDictionaryErrors::IOError(_) =>
                "Произошла ошибка при работе с файлом словаря".to_string(),
            StaticDictionaryErrors::AsyncError(_) =>
                "Произошла ошибка при выполнении асинхронной операции".to_string(),
            StaticDictionaryErrors::RegexError(_) =>
                "Ошибка при работе с регулярными выражениями".to_string(),
        }
    }
}

impl From<serde_json::Error> for StaticDictionaryErrors {
    fn from(error: serde_json::Error) -> (wrapped: StaticDictionaryErrors) {
        StaticDictionaryErrors::JSONParsingError(error)
    }
}

impl vstd::std_specs::convert::FromSpecImpl<serde_json::Error> for StaticDictionaryErrors {
    open spec fn obeys_from_spec() -> bool {
        true
    }

    open spec fn from_spec(error: serde_json::Error) -> StaticDictionaryErrors {
        StaticDictionaryErrors::JSONParsingError(error)
    }
}

impl From<regex::Error> for StaticDictionaryErrors {
    fn from(error: regex::Error) -> (wrapped: StaticDictionaryErrors) {
        StaticDictionaryErrors::RegexError(error)
    }
}

impl vstd::std_specs::convert::FromSpecImpl<regex::Error> for StaticDictionaryErrors {
    open spec fn obeys_from_spec() -> bool {
        true
    }

    open spec fn from_spec(error: regex::Error) -> StaticDictionaryErrors {
        StaticDictionaryErrors::RegexError(error)
    }
}

impl BuildSystemErrors {
    /// The message shown to the user for this failure: one per kind.
    pub open spec fn message_spec(&self) -> Seq<char> {
        match self {
            BuildSystemErrors::IOError(_) => "Произошла ошибка при работе с файловой системой"@,
            BuildSystemErrors::RegexError(_) =>
                "Произошла ошибка при компиляции регулярного выражения"@,
            BuildSystemErrors::StaticDictionaryError(_) =>
                "Произошла ошибка в системе статических словарей"@,
            BuildSystemErrors::JSONError(_) => "Произошла ошибка при работе с JSON"@,
        }
    }

    /// The message shown to the user for this failure.
    pub fn message(&self) -> (text: String)
        ensures
            text@ == self.message_spec(),
    {
        match self {
            BuildSystemErrors::IOError(_) =>
                "Произошла ошибка при работе с файловой системой".to_string(),
            BuildSystemErrors::RegexError(_) =>
                "Произошла ошибка при компиляции регулярного выражения".to_string(),
            BuildSystemErrors::StaticDictionaryError(_) =>
                "Произошла ошибка в системе статических словарей".to_string(),
            BuildSystemErrors::JSONError(_) => "Произошла ошибка при работе с JSON".to_string(),
        }
    }
}

impl From<StaticDictionaryErrors> for BuildSystemErrors {
    fn from(error: StaticDictionaryErrors) -> (wrapped: BuildSystemErrors) {
        BuildSystemErrors::StaticDictionaryError(error)
    }
}

impl vstd::std_specs::convert::FromSpecImpl<StaticDictionaryErrors> for BuildSystemErrors {
    open spec fn obeys_from_spec() -> bool {
        true
    }

    open spec fn from_spec(error: StaticDictionaryErrors) -> BuildSystemErrors {
        BuildSystemErrors::StaticDictionaryError(error)
    }
}

impl From<serde_json::Error> for BuildSystemErrors {
    fn from(error: serde_json::Error) -> (wrapped: BuildSystemErrors) {
        BuildSystemErrors::JSONError(error)
    }
}

impl vstd::std_specs::convert::FromSpecImpl<serde_json::Error> for BuildSystemErrors {
    open spec fn obeys_from_spec() -> bool {
        true
    }

    open spec fn from_spec(error: serde_json::Error) -> BuildSystemErrors {
        BuildSystemErrors::JSONError(error)
    }
}

impl From<regex::Error> for BuildSystemErrors {
    fn from(error: regex::Error) -> (wrapped: BuildSystemErrors) {
        BuildSystemErrors::RegexError(error)
    }
}

impl vstd::std_specs::convert::FromSpecImpl<regex::Error> for BuildSystemErrors {
    open spec fn obeys_from_spec() -> bool {
        true
    }

    open spec fn from_spec(error: regex::Error) -> BuildSystemErrors {
        BuildSystemErrors::RegexError(error)
    }
}

} // verus!
