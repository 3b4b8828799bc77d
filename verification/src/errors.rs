//! Error kinds of the engine. Every error is terminal to the current run;
//! none is retried automatically.

use vstd::prelude::*;

use crate::strutil::{spec_dec, usize_to_dec};

verus! {

/// An error that aborts (or, for `FunctionCallFailure`, degrades) a run.
#[derive(Debug, PartialEq, Eq)]
pub enum RunError {
    /// The model file could not be loaded.
    ModelLoadFailure(String),
    /// The inference context could not be created.
    ContextCreationFailure(String),
    /// The backend failed to tokenize an input.
    TokenizationFailure(String),
    /// The tokenized input does not fit the context window of a generation run.
    ContextWindowExceeded { tokens: usize, window: usize },
    /// The tokenized input does not fit the window configured for embedding
    /// extraction.
    InputTooLong { tokens: usize, window: usize },
    /// A decode step failed; the run aborts fail-fast.
    DecodeFailure(String),
    /// A sampled token could not be converted to text.
    TokenConversionFailure(String),
    /// A detected tool call names a function absent from the registry.
    FunctionNotFound(String),
    /// The invoked function reported an error; the run completes without a
    /// tool result.
    FunctionCallFailure(String),
    /// The embedding cache could not be read or written.
    CacheIOFailure(String),
    /// A second run was requested while one is active.
    AlreadyRunning,
}

/// The one-line description `message` returns for each error.
pub open spec fn spec_message(e: RunError) -> Seq<char> {
    match e {
        RunError::ModelLoadFailure(d) => "Failed to load model: "@ + d@,
        RunError::ContextCreationFailure(d) => "Failed to create context: "@ + d@,
        RunError::TokenizationFailure(d) => "Tokenization failed: "@ + d@,
        RunError::ContextWindowExceeded { tokens, window } => "Prompt too long: "@ + spec_dec(
            tokens as int,
        ) + " tokens, but context window is "@ + spec_dec(window as int),
        RunError::InputTooLong { tokens, window } => "Input too long: "@ + spec_dec(tokens as int)
            + " tokens, but embedding window is "@ + spec_dec(window as int),
        RunError::DecodeFailure(d) => "Decoding failed: "@ + d@,
        RunError::TokenConversionFailure(d) => "Token to string error: "@ + d@,
        RunError::FunctionNotFound(name) => "Function "@ + name@ + " not found"@,
        RunError::FunctionCallFailure(d) => "Function call failed: "@ + d@,
        RunError::CacheIOFailure(d) => "Cache error: "@ + d@,
        RunError::AlreadyRunning => "Model is already running"@,
    }
}

impl RunError {
    /// A human-readable description of the error.
    pub fn message(&self) -> (r: String)
        ensures
            r@ == spec_message(*self),
    {
        match self {
            RunError::ModelLoadFailure(d) => {
                let mut s = "Failed to load model: ".to_owned();
                s.append(d.as_str());
                s
            },
            RunError::ContextCreationFailure(d) => {
                let mut s = "Failed to create context: ".to_owned();
                s.append(d.as_str());
                s
            },
            RunError::TokenizationFailure(d) => {
                let mut s = "Tokenization failed: ".to_owned();
                s.append(d.as_str());
                s
            },
            RunError::ContextWindowExceeded { tokens, window } => {
                let mut s = "Prompt too long: ".to_owned();
                let t = usize_to_dec(*tokens);
                s.append(t.as_str());
                s.append(" tokens, but context window is ");
                let w = usize_to_dec(*window);
                s.append(w.as_str());
                s
            },
            RunError::InputTooLong { tokens, window } => {
                let mut s = "Input too long: ".to_owned();
                let t = usize_to_dec(*tokens);
                s.append(t.as_str());
                s.append(" tokens, but embedding window is ");
                let w = usize_to_dec(*window);
                s.append(w.as_str());
                s
            },
            RunError::DecodeFailure(d) => {
                let mut s = "Decoding failed: ".to_owned();
                s.append(d.as_str());
                s
            },
            RunError::TokenConversionFailure(d) => {
                let mut s = "Token to string error: ".to_owned();
                s.append(d.as_str());
                s
            },
            RunError::FunctionNotFound(name) => {
                let mut s = "Function ".to_owned();
                s.append(name.as_str());
                s.append(" not found");
                s
            },
            RunError::FunctionCallFailure(d) => {
                let mut s = "Function call failed: ".to_owned();
                s.append(d.as_str());
                s
            },
            RunError::CacheIOFailure(d) => {
                let mut s = "Cache error: ".to_owned();
                s.append(d.as_str());
                s
            },
            RunError::AlreadyRunning => "Model is already running".to_owned(),
        }
    }
}

} // verus!
