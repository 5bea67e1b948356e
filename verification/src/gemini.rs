//! Configuration for the remote text-generation service, and the reading of
//! a generated reply. The transport itself lives outside the library; the
//! logic here picks the reply text out of the parsed response document.

use vstd::prelude::*;
use crate::json::{JsonValue, JsonModel, json_get, json_arr_model, lemma_json_arr_model};

verus! {

/// The item of an array at a position, if the value is an array holding one
/// there.
pub open spec fn arr_item_spec(v: JsonModel, i: int) -> Option<JsonModel> {
    match v {
        JsonModel::Arr(items) => if 0 <= i < items.len() {
            Some(items[i])
        } else {
            None
        },
        _ => None,
    }
}

/// Reads one item of an array value.
fn arr_item(v: &JsonValue, i: usize) -> (r: Option<&JsonValue>)
    ensures
        match r {
            Some(f) => arr_item_spec(v@, i as int) == Some(f@),
            None => arr_item_spec(v@, i as int) is None,
        },
{
    match v {
        JsonValue::Arr(items) => {
            proof {
                lemma_json_arr_model(items@);
            }
            if i < items.len() {
                Some(&items[i])
            } else {
                None
            }
        },
        _ => None,
    }
}

/// The reply text inside a generation response: the text of the first part
/// of the first candidate's content, where every step of that shape is
/// present and the leaf is a string.
pub open spec fn extract_text_spec(v: JsonModel) -> Option<Seq<char>> {
    match json_get(v, "candidates"@) {
        Some(candidates) => match arr_item_spec(candidates, 0) {
            Some(candidate) => match json_get(candidate, "content"@) {
                Some(content) => match json_get(content, "parts"@) {
                    Some(parts) => match arr_item_spec(parts, 0) {
                        Some(part) => match json_get(part, "text"@) {
                            Some(JsonModel::Text(s)) => Some(s),
                            _ => None,
                        },
                        None => None,
                    },
                    None => None,
                },
                None => None,
            },
            None => None,
        },
        None => None,
    }
}

/// Configuration for the text-generation service: a key and a model name.
pub struct GeminiClient {
    api_key: String,
    model: String,
}

impl GeminiClient {
    /// The configured key.
    pub closed spec fn api_key_view(&self) -> Seq<char> {
        self.api_key@
    }

    /// The configured model name.
    pub closed spec fn model_view(&self) -> Seq<char> {
        self.model@
    }

    /// Builds a client configuration from a key and a model name.
    pub fn new(api_key: String, model: String) -> (r: GeminiClient)
        ensures
            r.api_key_view() == api_key@,
            r.model_view() == model@,
    {
        GeminiClient { api_key, model }
    }

    /// Builds a configuration with the default model.
    pub fn default(api_key: String) -> (r: GeminiClient)
        ensures
            r.api_key_view() == api_key@,
            r.model_view() == "gemini-pro"@,
    {
        GeminiClient { api_key, model: "gemini-pro".to_owned() }
    }

    /// Builds a configuration with the flash model.
    pub fn flash(api_key: String) -> (r: GeminiClient)
        ensures
            r.api_key_view() == api_key@,
            r.model_view() == "gemini-2.0-flash"@,
    {
        GeminiClient { api_key, model: "gemini-2.0-flash".to_owned() }
    }

    /// The configured key, as a string slice.
    pub fn api_key_str(&self) -> (r: &str)
        ensures
            r@ == self.api_key_view(),
    {
        self.api_key.as_str()
    }

    /// The configured model name, as a string slice.
    pub fn model_str(&self) -> (r: &str)
        ensures
            r@ == self.model_view(),
    {
        self.model.as_str()
    }

    /// Picks the reply text out of a parsed generation response.
    pub fn extract_text(response: &JsonValue) -> (r: Option<String>)
        ensures
            match r {
                Some(s) => extract_text_spec(response@) == Some(s@),
                None => extract_text_spec(response@) is None,
            },
    {
        match response.get("candidates") {
            Some(candidates) => match arr_item(candidates, 0) {
                Some(candidate) => match candidate.get("content") {
                    Some(content) => match content.get("parts") {
                        Some(parts) => match arr_item(parts, 0) {
                            Some(part) => match part.get("text") {
                                Some(JsonValue::Text(s)) => Some(s.clone()),
                                _ => None,
                            },
                            None => None,
                        },
                        None => None,
                    },
                    None => None,
                },
                None => None,
            },
            None => None,
        }
    }
}

} // verus!
