//! Settings of the translation service, read from a JSON object.
use vstd::prelude::*;
use vstd::string::StringExecFns;

verus! {

#[verifier::external_type_specification]
#[verifier::external_body]
pub struct ExJsonValue(serde_json::Value);

#[verifier::external_type_specification]
#[verifier::external_body]
pub struct ExJsonError(serde_json::Error);

/// Errors of reading the settings.
#[derive(Debug)]
pub enum ConfigError {
    /// The text is not JSON.
    Json(serde_json::Error),
    /// This member is absent or not a string.
    MissingField(String),
}

/// Relies on `serde_json::from_str`, which parses JSON text into a `Value`
/// or fails.
#[verifier::external_body]
fn parse_json(text: &str) -> (r: Result<serde_json::Value, serde_json::Error>) {
    serde_json::from_str(text)
}

/// Relies on `serde_json::Value::get`, which gives the member of an object
/// under a key, if there is one.
#[verifier::external_body]
fn member<'a>(value: &'a serde_json::Value, key: &str) -> (r: Option<&'a serde_json::Value>) {
    value.get(key)
}

/// Relies on `serde_json::Value::as_str`, which gives the text of a string
/// value.
#[verifier::external_body]
fn string_value(value: &serde_json::Value) -> (r: Option<String>) {
    value.as_str().map(|s| s.to_string())
}

/// Where and how to reach the translation service.
#[derive(Debug)]
pub struct Config {
    pub api_key: String,
    pub api_base: String,
    pub model: String,
}

impl Config {
    /// The string member `key` of a JSON object.
    fn text_field(value: &serde_json::Value, key: &str) -> (r: Result<String, ConfigError>)
        ensures
            r is Err ==> r->Err_0 is MissingField && r->Err_0->MissingField_0@ == key@,
    {
        match member(value, key) {
            Some(m) => match string_value(m) {
                Some(s) => Ok(s),
                None => Err(ConfigError::MissingField(String::from_str(key))),
            },
            None => Err(ConfigError::MissingField(String::from_str(key))),
        }
    }

    /// Reads the settings from a JSON object with the string members
    /// `api_key`, `api_base` and `model`; names the first one missing.
    pub fn from_json(text: &str) -> (r: Result<Config, ConfigError>)
        ensures
            r is Err ==> (r->Err_0 is Json || r->Err_0 is MissingField),
    {
        let value = match parse_json(text) {
            Ok(v) => v,
            Err(e) => {
                return Err(ConfigError::Json(e));
            },
        };
        let api_key = match Self::text_field(&value, "api_key") {
            Ok(s) => s,
            Err(e) => {
                return Err(e);
            },
        };
        let api_base = match Self::text_field(&value, "api_base") {
            Ok(s) => s,
            Err(e) => {
                return Err(e);
            },
        };
        let model = match Self::text_field(&value, "model") {
            Ok(s) => s,
            Err(e) => {
                return Err(e);
            },
        };
        Ok(Config { api_key, api_base, model })
    }
}

/// Command-line arguments: the subtitle file (or a `*` pattern) and the
/// language pair.
#[derive(Debug)]
pub struct Args {
    pub path: String,
    pub source_language: String,
    pub target_language: String,
}

} // verus!
