//! The model providers: a provider backed by a local inference library and a
//! provider backed by a local HTTP inference server. The providers' decision
//! logic lives here — run exclusivity, cooperative stop, model file paths and
//! names, and detection of structured tool calls in generated text. The I/O
//! they coordinate (model files, HTTP, the inference backend) is the host
//! program's.

use vstd::prelude::*;

use crate::errors::RunError;
use crate::jsonext::{
    parse_first_tool_call, parse_tags_models, parse_tool_call_payload, spec_first_tool_call_name,
    spec_tags_model_names, spec_tool_call_name,
};
use crate::strutil::{ends_with_sub, find_in, find_sub, has_suffix, lemma_find_from_is_match};

verus! {

/// The opening marker of a tool call embedded in model output.
pub open spec fn start_tag() -> Seq<char> {
    "<tool_call>"@
}

/// The closing marker of a tool call embedded in model output.
pub open spec fn end_tag() -> Seq<char> {
    "</tool_call>"@
}

/// The text between the first opening marker and the first closing marker
/// after it, if both are present.
pub open spec fn spec_extract_tool_call(s: Seq<char>) -> Option<Seq<char>> {
    match find_in(s, start_tag()) {
        None => None,
        Some(st) => {
            let rest = s.subrange(st + start_tag().len(), s.len() as int);
            match find_in(rest, end_tag()) {
                None => None,
                Some(e) => Some(rest.subrange(0, e)),
            }
        },
    }
}

/// A provider that runs models in-process through a local inference backend,
/// from model files stored under `models_dir`.
pub struct LlamaCppProvider {
    /// Directory that holds the provider's model files.
    pub models_dir: String,
    /// Cooperative cancellation flag, polled once per generated token.
    pub stop_requested: bool,
    /// Whether a generation run is active; at most one may be.
    pub running: bool,
}

impl LlamaCppProvider {
    /// A provider over the given models directory, idle and not stopped.
    pub fn new(models_dir: String) -> (r: Self)
        ensures
            r.models_dir == models_dir,
            !r.stop_requested,
            !r.running,
    {
        LlamaCppProvider { models_dir, stop_requested: false, running: false }
    }

    /// The path of the model file with the given name.
    pub fn model_path(&self, name: &str) -> (r: String)
        ensures
            r@ == self.models_dir@ + "/"@ + name@,
    {
        let mut s = self.models_dir.clone();
        s.append("/");
        s.append(name);
        s
    }

    /// The provider's stable identifier.
    pub fn name(&self) -> (r: &'static str)
        ensures
            r@ == "llama.cpp"@,
    {
        "llama.cpp"
    }

    /// Claims the single run slot. Rejects with `AlreadyRunning` when a run
    /// is active, without touching any other state; otherwise marks the
    /// provider running and clears the stop flag for the new run.
    pub fn try_begin_run(&mut self) -> (r: Result<(), RunError>)
        ensures
            final(self).models_dir == old(self).models_dir,
            old(self).running ==> r == Err::<(), RunError>(RunError::AlreadyRunning) && *final(self)
                == *old(self),
            !old(self).running ==> r is Ok && final(self).running && !final(self).stop_requested,
    {
        if self.running {
            return Err(RunError::AlreadyRunning);
        }
        self.running = true;
        self.stop_requested = false;
        Ok(())
    }

    /// Releases the run slot when a run completes, successfully or not.
    pub fn finish_run(&mut self)
        ensures
            final(self).models_dir == old(self).models_dir,
            final(self).stop_requested == old(self).stop_requested,
            !final(self).running,
    {
        self.running = false;
    }

    /// Requests cooperative cancellation of the active run; the decode loop
    /// observes the flag within one token.
    pub fn stop_model(&mut self)
        ensures
            final(self).models_dir == old(self).models_dir,
            final(self).running == old(self).running,
            final(self).stop_requested,
    {
        self.stop_requested = true;
    }

    /// Extracts the content between `<tool_call>` and `</tool_call>` markers.
    pub fn extract_tool_call_tag(s: &str) -> (r: Option<String>)
        ensures
            r matches Some(c) ==> spec_extract_tool_call(s@) == Some(c@),
            r is None ==> spec_extract_tool_call(s@) is None,
    {
        let start_pat = "<tool_call>";
        let end_pat = "</tool_call>";
        match find_sub(s, start_pat) {
            None => None,
            Some(start) => {
                proof {
                    lemma_find_from_is_match(s@, start_pat@, 0, start as int);
                }
                let tag_len = start_pat.unicode_len();
                let n = s.unicode_len();
                let rest = s.substring_char(start + tag_len, n);
                match find_sub(rest, end_pat) {
                    None => None,
                    Some(e) => {
                        proof {
                            lemma_find_from_is_match(rest@, end_pat@, 0, e as int);
                        }
                        Some(rest.substring_char(0, e).to_owned())
                    },
                }
            },
        }
    }

    /// Attempts to read a tool-call payload out of `json_str`: a JSON object
    /// with a string-valued function name under either accepted key
    /// (`function_name` or `name`) and an object under `arguments`. Succeeds
    /// exactly when the text is a well-formed payload, and then returns the
    /// named function with the arguments object.
    pub fn try_extract_tool_call(json_str: &str) -> (r: Option<(String, serde_json::Value)>)
        ensures
            r is Some <==> spec_tool_call_name(json_str@) is Some,
            r matches Some(p) ==> spec_tool_call_name(json_str@) == Some(p.0@),
    {
        parse_tool_call_payload(json_str)
    }
}

/// A provider backed by a local HTTP inference server; requests and
/// responses travel over the network, so its run bookkeeping and the
/// reading of its chat responses live here, and the transport is the host
/// program's.
pub struct OllamaProvider {
    /// Cooperative cancellation flag for the streamed response.
    pub stop_requested: bool,
}

impl OllamaProvider {
    /// A provider with no stop requested.
    pub fn new() -> (r: Self)
        ensures
            !r.stop_requested,
    {
        OllamaProvider { stop_requested: false }
    }

    /// The provider's stable identifier.
    pub fn name(&self) -> (r: &'static str)
        ensures
            r@ == "ollama"@,
    {
        "ollama"
    }

    /// Clears the stop flag at the start of a run.
    pub fn begin_run(&mut self)
        ensures
            !final(self).stop_requested,
    {
        self.stop_requested = false;
    }

    /// Requests cooperative cancellation of the streamed response.
    pub fn stop_model(&mut self)
        ensures
            final(self).stop_requested,
    {
        self.stop_requested = true;
    }

    /// Reads the first tool call out of a chat response body: the `function`
    /// member of the first entry of `message.tool_calls`, with its string
    /// `name` and its `arguments`. Succeeds exactly when the body carries
    /// such a call; only the first entry is ever considered, so at most one
    /// dispatch can come from one response.
    pub fn extract_first_tool_call(response_body: &str) -> (r: Option<(
        String,
        serde_json::Value,
    )>)
        ensures
            r is Some <==> spec_first_tool_call_name(response_body@) is Some,
            r matches Some(p) ==> spec_first_tool_call_name(response_body@) == Some(p.0@),
    {
        parse_first_tool_call(response_body)
    }

    /// Reads the installed-model names out of a tags response body: the
    /// `name` of each entry of its `models` array, in order. Succeeds
    /// exactly when the body is such a response.
    pub fn parse_installed_models(response_body: &str) -> (r: Option<Vec<String>>)
        ensures
            r is Some <==> spec_tags_model_names(response_body@) is Some,
            r matches Some(v) ==> spec_tags_model_names(response_body@) == Some(
                v@.map_values(|m: String| m@),
            ),
    {
        parse_tags_models(response_body)
    }
}

/// A model file name: ends in `.gguf` with a non-empty stem.
pub open spec fn is_gguf_name(s: Seq<char>) -> bool {
    s.len() > ".gguf"@.len() && has_suffix(s, ".gguf"@)
}

/// The names among `names` that are model files, in their original order.
pub open spec fn spec_gguf_filter(names: Seq<String>) -> Seq<String>
    decreases names.len(),
{
    if names.len() == 0 {
        Seq::empty()
    } else {
        (if is_gguf_name(names[0]@) {
            seq![names[0]]
        } else {
            Seq::empty()
        }) + spec_gguf_filter(names.drop_first())
    }
}

/// Keeps the installed-model file names: those ending in `.gguf`.
pub fn filter_gguf_models(names: &Vec<String>) -> (r: Vec<String>)
    ensures
        r@ == spec_gguf_filter(names@),
{
    let mut r: Vec<String> = Vec::new();
    let n = names.len();
    assert(names@.skip(0) == names@);
    let mut i: usize = 0;
    while i < n
        invariant
            n == names@.len(),
            i <= n,
            spec_gguf_filter(names@) =~= r@ + spec_gguf_filter(names@.skip(i as int)),
        decreases n - i,
    {
        let name = &names[i];
        if name.as_str().unicode_len() > 5 && ends_with_sub(name.as_str(), ".gguf")
        {
            proof {
                reveal_strlit(".gguf");
            }
            r.push(name.clone());
        } else {
            proof {
                reveal_strlit(".gguf");
            }
        }
        proof {
            assert(names@.skip(i as int).drop_first() =~= names@.skip(i + 1));
        }
        i += 1;
    }
    r
}

/// Splits a download request of the form `<repo>:<filename>` at the first
/// colon. Fails, with the message the caller reports, exactly when no colon
/// is present.
pub fn split_model_spec(model: &str) -> (r: Result<(String, String), String>)
    ensures
        r matches Ok(p) ==> find_in(model@, ":"@) matches Some(i) && p.0@ == model@.subrange(0, i)
            && p.1@ == model@.subrange(i + 1, model@.len() as int),
        r is Err <==> find_in(model@, ":"@) is None,
        r matches Err(e) ==> e@ == "Model format must be <repo>:<filename.gguf>"@,
{
    match find_sub(model, ":") {
        None => Err("Model format must be <repo>:<filename.gguf>".to_owned()),
        Some(i) => {
            proof {
                reveal_strlit(":");
                lemma_find_from_is_match(model@, ":"@, 0, i as int);
            }
            let n = model.unicode_len();
            let repo = model.substring_char(0, i).to_owned();
            let filename = model.substring_char(i + 1, n).to_owned();
            Ok((repo, filename))
        },
    }
}

/// The download URL for a model hosted on Hugging Face.
pub fn hf_model_url(repo: &str, filename: &str) -> (r: String)
    ensures
        r@ == "https://huggingface.co/"@ + repo@ + "/resolve/main/"@ + filename@,
{
    let mut s = "https://huggingface.co/".to_owned();
    s.append(repo);
    s.append("/resolve/main/");
    s.append(filename);
    s
}

} // verus!
