//! The registered capability set: function definitions the model may call,
//! lookup by exact name, and the built-in functions. The capability set is a
//! closed tagged variant; each capability exposes its definition here, and
//! whatever outside work its invocation needs (the clock, the network) is
//! performed by the host program or behind a trusted call.

use vstd::prelude::*;

use crate::errors::RunError;
use crate::strutil::{spec_dec, u64_to_dec};

verus! {

/// One declared parameter of a registered function.
pub struct FunctionParam {
    pub name: String,
    pub description: String,
    /// The declared type of the parameter, as shown to the model.
    pub param_type: String,
}

impl Clone for FunctionParam {
    fn clone(&self) -> (r: Self)
        ensures
            r == *self,
    {
        FunctionParam {
            name: self.name.clone(),
            description: self.description.clone(),
            param_type: self.param_type.clone(),
        }
    }
}

/// The immutable description of a registered function: a unique, stable name,
/// an optional description, and its declared parameters.
pub struct FunctionDefinition {
    pub name: String,
    pub description: Option<String>,
    pub parameters: Vec<FunctionParam>,
}

/// Looks `name` up in the registered definitions by exact string match;
/// `FunctionNotFound` exactly when no definition carries that name. On
/// success the index of the first matching definition is returned.
pub fn resolve_function(defs: &Vec<FunctionDefinition>, name: &String) -> (r: Result<
    usize,
    RunError,
>)
    ensures
        r matches Ok(i) ==> i < defs@.len() && first_index(defs@, name@) == Some(i as int),
        r is Err <==> first_index(defs@, name@) is None,
        r matches Err(e) ==> e == RunError::FunctionNotFound(*name),
{
    let n = defs.len();
    let mut i: usize = 0;
    while i < n
        invariant
            n == defs@.len(),
            i <= n,
            forall|k: int| 0 <= k < i ==> defs@[k].name@ != name@,
        decreases n - i,
    {
        if defs[i].name == *name {
            proof {
                lemma_index_from_some(defs@, name@, 0, i as int);
            }
            return Ok(i);
        }
        i += 1;
    }
    proof {
        lemma_index_from_none(defs@, name@, 0);
    }
    Err(RunError::FunctionNotFound(name.clone()))
}

/// Position of the first definition at or after `i` that carries `name`.
pub open spec fn index_from(defs: Seq<FunctionDefinition>, name: Seq<char>, i: int) -> Option<int>
    decreases defs.len() - i,
{
    if i < 0 || i >= defs.len() {
        None
    } else if defs[i].name@ == name {
        Some(i)
    } else {
        index_from(defs, name, i + 1)
    }
}

/// Position of the first definition that carries `name`.
pub open spec fn first_index(defs: Seq<FunctionDefinition>, name: Seq<char>) -> Option<int> {
    index_from(defs, name, 0)
}

pub proof fn lemma_index_from_some(defs: Seq<FunctionDefinition>, name: Seq<char>, start: int, i: int)
    requires
        0 <= start <= i < defs.len(),
        defs[i].name@ == name,
        forall|k: int| start <= k < i ==> defs[k].name@ != name,
    ensures
        index_from(defs, name, start) == Some(i),
    decreases i - start,
{
    if start < i {
        lemma_index_from_some(defs, name, start + 1, i);
    }
}

pub proof fn lemma_index_from_none(defs: Seq<FunctionDefinition>, name: Seq<char>, start: int)
    requires
        0 <= start,
        forall|k: int| start <= k < defs.len() ==> defs[k].name@ != name,
    ensures
        index_from(defs, name, start) is None,
    decreases defs.len() - start,
{
    if start < defs.len() {
        lemma_index_from_none(defs, name, start + 1);
    }
}

/// The positions of the definitions selected by the run options: for each
/// enabled name, in order, the first registered definition with that name;
/// names that resolve to nothing are skipped.
pub open spec fn spec_enabled_indices(defs: Seq<FunctionDefinition>, names: Seq<String>) -> Seq<
    int,
>
    decreases names.len(),
{
    if names.len() == 0 {
        Seq::empty()
    } else {
        (match first_index(defs, names[0]@) {
            Some(i) => seq![i],
            None => Seq::empty(),
        }) + spec_enabled_indices(defs, names.drop_first())
    }
}

/// Selects the functions enabled for a run, as positions into `defs`.
pub fn enabled_function_indices(defs: &Vec<FunctionDefinition>, enabled: &Vec<String>) -> (r: Vec<
    usize,
>)
    ensures
        r@.map_values(|x: usize| x as int) == spec_enabled_indices(defs@, enabled@),
        forall|k: int| 0 <= k < r@.len() ==> r@[k] < defs@.len(),
{
    let mut r: Vec<usize> = Vec::new();
    let n = enabled.len();
    assert(enabled@.skip(0) == enabled@);
    let mut i: usize = 0;
    while i < n
        invariant
            n == enabled@.len(),
            i <= n,
            spec_enabled_indices(defs@, enabled@) =~= r@.map_values(|x: usize| x as int)
                + spec_enabled_indices(defs@, enabled@.skip(i as int)),
            forall|k: int| 0 <= k < r@.len() ==> r@[k] < defs@.len(),
        decreases n - i,
    {
        match resolve_function(defs, &enabled[i]) {
            Ok(j) => {
                proof {
                    assert(r@.push(j).map_values(|x: usize| x as int) =~= r@.map_values(
                        |x: usize| x as int,
                    ).push(j as int));
                }
                r.push(j);
            },
            Err(_) => {},
        }
        proof {
            assert(enabled@.skip(i as int).drop_first() =~= enabled@.skip(i + 1));
        }
        i += 1;
    }
    r
}

/// The JSON payload reporting the seconds since the Unix epoch.
pub open spec fn spec_unix_payload(n: int) -> Seq<char> {
    "{\"unix_time\":"@ + spec_dec(n) + "}"@
}

/// Formats the JSON payload for a Unix timestamp of `n` seconds.
pub fn unix_time_payload(n: u64) -> (r: String)
    ensures
        r@ == spec_unix_payload(n as int),
{
    let mut s = "{\"unix_time\":".to_owned();
    let d = u64_to_dec(n);
    s.append(d.as_str());
    s.append("}");
    s
}

/// Relies on std::time::SystemTime::now and its duration_since(UNIX_EPOCH):
/// the seconds elapsed since the Unix epoch. The value depends on the clock,
/// so nothing is stated of it; an error is reported if the clock reads
/// before the epoch.
#[verifier::external_body]
fn now_unix_secs() -> (r: Result<u64, String>) {
    match std::time::SystemTime::now().duration_since(std::time::UNIX_EPOCH) {
        Ok(d) => Ok(d.as_secs()),
        Err(e) => Err(e.to_string()),
    }
}

/// The built-in capability that reports the current Unix timestamp.
pub struct UnixTimeFunction;

impl UnixTimeFunction {
    /// The function's registered definition: no parameters.
    pub fn definition(&self) -> (r: FunctionDefinition)
        ensures
            r.name@ == "get_unix_time"@,
            (r.description matches Some(d) && d@ == "Returns current UNIX timestamp."@),
            r.parameters@.len() == 0,
    {
        FunctionDefinition {
            name: "get_unix_time".to_owned(),
            description: Some("Returns current UNIX timestamp.".to_owned()),
            parameters: Vec::new(),
        }
    }

    /// Reads the clock and reports the timestamp payload. Succeeds whenever
    /// the clock does; on success the payload is `unix_time_payload` of some
    /// timestamp.
    pub fn call(&self, _args: &serde_json::Value) -> (r: Result<String, String>)
        ensures
            r matches Ok(s) ==> exists|n: int| 0 <= n && s@ == spec_unix_payload(n),
    {
        match now_unix_secs() {
            Ok(n) => {
                let payload = unix_time_payload(n);
                proof {
                    assert(0 <= n as int && payload@ == spec_unix_payload(n as int));
                }
                Ok(payload)
            },
            Err(e) => Err(e),
        }
    }
}

/// The built-in capability that reads a web page and retrieves the fragments
/// most relevant to a query. Fetching the page is the host program's; the
/// retrieval itself is the ranker's.
pub struct WebPageReaderFunction {
    /// Path of the embedding model file the retrieval uses.
    pub model_path: String,
    /// Tokens per segment when the fetched page is split.
    pub segment_size: u32,
    /// How many top-ranked segments the function returns.
    pub top_n: usize,
}

impl WebPageReaderFunction {
    pub fn new(model_path: String, segment_size: u32, top_n: usize) -> (r: Self)
        ensures
            r.model_path == model_path,
            r.segment_size == segment_size,
            r.top_n == top_n,
    {
        WebPageReaderFunction { model_path, segment_size, top_n }
    }

    /// The function's registered definition: a page address and a query text,
    /// both required.
    pub fn definition(&self) -> (r: FunctionDefinition)
        ensures
            r.name@ == "analyze_web_page"@,
            (r.description matches Some(d) && d@ == "Web Page reader function"@),
            r.parameters@.len() == 2,
            r.parameters@[0].name@ == "url"@,
            r.parameters@[0].param_type@ == "string"@,
            r.parameters@[1].name@ == "query"@,
            r.parameters@[1].param_type@ == "string"@,
    {
        let mut params: Vec<FunctionParam> = Vec::new();
        params.push(
            FunctionParam {
                name: "url".to_owned(),
                description: "Address of the web page to analyze. Required".to_owned(),
                param_type: "string".to_owned(),
            },
        );
        params.push(
            FunctionParam {
                name: "query".to_owned(),
                description: "Text to search relevant fragments by. Required".to_owned(),
                param_type: "string".to_owned(),
            },
        );
        FunctionDefinition {
            name: "analyze_web_page".to_owned(),
            description: Some("Web Page reader function".to_owned()),
            parameters: params,
        }
    }
}

/// The URL of the text-extraction reader for a web page.
pub fn reader_api_url(url: &str) -> (r: String)
    ensures
        r@ == "https://r.jina.ai/"@ + url@,
{
    let mut s = "https://r.jina.ai/".to_owned();
    s.append(url);
    s
}

/// One registered capability: a closed set, known at compile time.
pub enum RegisteredFunction {
    UnixTime(UnixTimeFunction),
    WebPageReader(WebPageReaderFunction),
}

/// The registered name of a capability.
pub open spec fn spec_function_name(f: RegisteredFunction) -> Seq<char> {
    match f {
        RegisteredFunction::UnixTime(_) => "get_unix_time"@,
        RegisteredFunction::WebPageReader(_) => "analyze_web_page"@,
    }
}

impl RegisteredFunction {
    /// The capability's registered definition.
    pub fn definition(&self) -> (r: FunctionDefinition)
        ensures
            r.name@ == spec_function_name(*self),
    {
        match self {
            RegisteredFunction::UnixTime(f) => f.definition(),
            RegisteredFunction::WebPageReader(f) => f.definition(),
        }
    }
}

/// Tokens per segment used by the default web page reader.
pub const DEFAULT_SEGMENT_SIZE: u32 = 512;

/// Top segments returned by the default web page reader.
pub const DEFAULT_TOP_N: usize = 3;

/// All available capabilities, constructed once at startup and passed by
/// reference wherever lookup is needed.
pub fn all_functions(embed_model_path: &str) -> (r: Vec<RegisteredFunction>)
    ensures
        r@.len() == 2,
        r@[0] is UnixTime,
        (r@[1] matches RegisteredFunction::WebPageReader(w) && w.model_path@ == embed_model_path@
            && w.segment_size == DEFAULT_SEGMENT_SIZE && w.top_n == DEFAULT_TOP_N),
{
    let mut r: Vec<RegisteredFunction> = Vec::new();
    r.push(RegisteredFunction::UnixTime(UnixTimeFunction));
    r.push(
        RegisteredFunction::WebPageReader(
            WebPageReaderFunction::new(
                embed_model_path.to_owned(),
                DEFAULT_SEGMENT_SIZE,
                DEFAULT_TOP_N,
            ),
        ),
    );
    r
}

/// The definitions of all registered capabilities, in registration order.
pub fn registry_definitions(funcs: &Vec<RegisteredFunction>) -> (r: Vec<FunctionDefinition>)
    ensures
        r@.len() == funcs@.len(),
        forall|i: int| 0 <= i < r@.len() ==> r@[i].name@ == spec_function_name(funcs@[i]),
{
    let mut r: Vec<FunctionDefinition> = Vec::new();
    let n = funcs.len();
    let mut i: usize = 0;
    while i < n
        invariant
            n == funcs@.len(),
            i <= n,
            r@.len() == i,
            forall|k: int| 0 <= k < i ==> r@[k].name@ == spec_function_name(funcs@[k]),
        decreases n - i,
    {
        r.push(funcs[i].definition());
        i += 1;
    }
    r
}

} // verus!
