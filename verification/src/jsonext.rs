//! Trusted boundary around serde_json for the JSON payloads the engine
//! reads. Parsing is serde_json's work; what each reader extracts is a
//! function of the input text alone, so each parse result carries a name,
//! and the one trusted wrapper that applies the name pins the reader's
//! verified callers to it: well-formedness decides success, and the
//! extracted name is the named one.

use vstd::prelude::*;

verus! {

#[verifier::external_type_specification]
#[verifier::external_body]
pub struct ExValue(serde_json::Value);

/// The registered function name inside a tool-call payload, when the text is
/// a well-formed one — a JSON object with a string under `function_name`
/// (or, failing that, `name`) and an object under `arguments` — and `None`
/// otherwise. A function of the text alone.
pub uninterp spec fn spec_tool_call_name(s: Seq<char>) -> Option<Seq<char>>;

/// Relies on serde_json::from_str and serde_json::Value's accessors: parses
/// a tool-call payload, returning its function name and its `arguments`
/// object exactly when the text is a well-formed payload.
#[verifier::external_body]
pub(crate) fn parse_tool_call_payload(s: &str) -> (r: Option<(String, serde_json::Value)>)
    ensures
        r is Some <==> spec_tool_call_name(s@) is Some,
        r matches Some(p) ==> spec_tool_call_name(s@) == Some(p.0@),
{
    let v: serde_json::Value = serde_json::from_str(s).ok()?;
    let obj = v.as_object()?;
    let name = obj.get("function_name").or_else(|| obj.get("name"))?.as_str()?;
    let args = obj.get("arguments")?;
    if args.is_object() {
        Some((name.to_owned(), args.clone()))
    } else {
        None
    }
}

/// The function name in the first entry of `message.tool_calls` of a chat
/// response, when the text parses as a response whose first entry carries a
/// `function` with a string `name` and an `arguments` member; `None`
/// otherwise. A function of the text alone.
pub uninterp spec fn spec_first_tool_call_name(s: Seq<char>) -> Option<Seq<char>>;

/// Relies on serde_json::from_str and serde_json::Value's accessors: reads
/// the first tool call out of a chat response body, exactly when one is
/// present and well-formed.
#[verifier::external_body]
pub(crate) fn parse_first_tool_call(s: &str) -> (r: Option<(String, serde_json::Value)>)
    ensures
        r is Some <==> spec_first_tool_call_name(s@) is Some,
        r matches Some(p) ==> spec_first_tool_call_name(s@) == Some(p.0@),
{
    let v: serde_json::Value = serde_json::from_str(s).ok()?;
    let f = v.get("message")?.get("tool_calls")?.as_array()?.first()?.get("function")?;
    let name = f.get("name")?.as_str()?;
    Some((name.to_owned(), f.get("arguments")?.clone()))
}

/// The model names in a tags response: the string `name` member of each
/// entry of the `models` array, in order, when the text parses as such a
/// response; `None` otherwise. A function of the text alone.
pub uninterp spec fn spec_tags_model_names(s: Seq<char>) -> Option<Seq<Seq<char>>>;

/// Relies on serde_json::from_str and serde_json::Value's accessors: reads
/// the installed-model names out of a tags response body, exactly when the
/// text is such a response.
#[verifier::external_body]
pub(crate) fn parse_tags_models(s: &str) -> (r: Option<Vec<String>>)
    ensures
        r is Some <==> spec_tags_model_names(s@) is Some,
        r matches Some(v) ==> spec_tags_model_names(s@) == Some(
            v@.map_values(|m: String| m@),
        ),
{
    let v: serde_json::Value = serde_json::from_str(s).ok()?;
    let models = v.get("models")?.as_array()?;
    models.iter().map(|m| Some(m.get("name")?.as_str()?.to_owned())).collect()
}

} // verus!
