//! The decode loop as a state machine. The host program owns the blocking
//! inference backend (load, tokenize, decode, sample) and drives one `step`
//! per sampled token; the engine owns every decision: stop conditions, the
//! context-window bound, output accumulation, one-shot tool-call detection,
//! and the shape of the run's terminal output.

use vstd::prelude::*;

use crate::errors::RunError;
use crate::jsonext::spec_tool_call_name;
use crate::provider::{spec_extract_tool_call, LlamaCppProvider};
use crate::strutil::{spec_tail, tail_window};

verus! {

/// Size of the batch buffer allocated for an ordinary chat prompt when the
/// exact input size is not known in advance.
pub const MIN_BATCH_CAPACITY: usize = 512;

/// Context window used when the run options name none (or name zero).
pub const DEFAULT_WINDOW: u32 = 2048;

/// Number of trailing characters of the accumulated output scanned for a
/// tool call after each emitted token. A tunable: scanning a bounded tail
/// keeps per-token detection cost constant, at the price of missing a call
/// whose markers do not yet fit the window.
pub const TAIL_WINDOW: usize = 101;

/// Options accepted from the command layer for one run.
pub struct LLMOptions {
    pub num_gpu: Option<u32>,
    pub num_ctx: Option<u32>,
    /// Names of the registered functions enabled for this run.
    pub functions: Option<Vec<String>>,
    pub stream: bool,
}

/// The context window a run uses: the requested size, or the default when
/// none (or zero) was requested.
pub fn effective_window(num_ctx: Option<u32>) -> (r: u32)
    ensures
        r as int == match num_ctx {
            Some(n) => if n > 0 {
                n as int
            } else {
                DEFAULT_WINDOW as int
            },
            None => DEFAULT_WINDOW as int,
        },
{
    match num_ctx {
        Some(n) => if n > 0 {
            n
        } else {
            DEFAULT_WINDOW
        },
        None => DEFAULT_WINDOW,
    }
}

/// A per-run inference context: a fixed token window and a batch buffer.
pub struct InferenceContext {
    /// Maximum number of tokens the model can attend to in this run.
    pub n_ctx: usize,
    /// Capacity of the batch buffer submitted to the backend per decode step.
    pub batch_capacity: usize,
}

impl InferenceContext {
    /// Validates that the tokenized input fits the context window — before
    /// any decoding starts — and sizes the batch buffer to the larger of the
    /// fixed minimum and the caller-supplied token count.
    pub fn create(requested_window: usize, token_count: usize) -> (r: Result<
        InferenceContext,
        RunError,
    >)
        ensures
            token_count > requested_window <==> r is Err,
            r matches Err(e) ==> e == (RunError::ContextWindowExceeded {
                tokens: token_count,
                window: requested_window,
            }),
            r matches Ok(c) ==> c.n_ctx == requested_window,
            r matches Ok(c) ==> c.batch_capacity == if token_count > MIN_BATCH_CAPACITY {
                token_count as int
            } else {
                MIN_BATCH_CAPACITY as int
            },
    {
        if token_count > requested_window {
            return Err(
                RunError::ContextWindowExceeded { tokens: token_count, window: requested_window },
            );
        }
        let cap = if token_count > MIN_BATCH_CAPACITY {
            token_count
        } else {
            MIN_BATCH_CAPACITY
        };
        Ok(InferenceContext { n_ctx: requested_window, batch_capacity: cap })
    }
}

/// Why the decode loop left its streaming state.
#[derive(Debug, Clone, Copy, PartialEq, Eq, Structural)]
pub enum StopReason {
    /// The backend sampled its designated end-of-generation token.
    EndOfGeneration,
    /// The designated end-of-text marker was produced.
    EndOfText,
    /// The token count reached the context window.
    WindowFull,
    /// The externally set stop flag was observed.
    StopRequested,
    /// A detected tool call was dispatched and completed.
    ToolCompleted,
}

/// One sampled token, as the backend reports it: whether it is the
/// end-of-generation token, and its text (or the conversion error).
pub struct TokenOutput {
    pub is_eog: bool,
    pub text: Result<String, String>,
}

/// A structured call detected in the model's own output stream.
pub struct ToolCallRequest {
    pub function_name: String,
    /// The JSON object under `arguments`, as serde_json parsed it.
    pub arguments: serde_json::Value,
}

/// What the driver must do after a step.
pub enum StepAction {
    /// Re-batch the sampled token and decode the next one.
    Continue,
    /// The run ended; no further decoding.
    Stop(StopReason),
    /// The run aborted with an error; no further decoding.
    Fatal(RunError),
    /// A tool call was detected: resolve and invoke it, then report the
    /// outcome through `on_tool_result`.
    Dispatch(ToolCallRequest),
}

/// A terminal message of a run.
pub struct ChatMessage {
    pub role: String,
    pub content: String,
    pub done: bool,
}

/// The structured tool-result message emitted instead of continued
/// generation when a dispatched call succeeds.
pub struct ToolMessage {
    pub role: String,
    pub content: String,
    pub tool_call_id: String,
}

/// Run-scoped mutable state of the decode loop.
pub struct GenerationState {
    /// The context window of this run.
    pub n_ctx: usize,
    /// Monotonically increasing count of tokens placed into the context.
    pub n_cur: usize,
    /// Accumulated output text.
    pub output: String,
    /// One-shot flag: set at most once per run, when a tool call is
    /// dispatched; once set, detection stops for the rest of the run.
    pub function_called: bool,
    /// Whether the caller requested structured-call support for this run.
    pub tools_enabled: bool,
    /// Set when the loop reaches its terminal state.
    pub done: Option<StopReason>,
}

/// Begins a run: checks that the tokenized prompt fits the context window
/// before the first batch is submitted, and if so primes the state with the
/// prompt already occupying `prompt_tokens` positions.
pub fn prime(window: usize, prompt_tokens: usize, tools_enabled: bool) -> (r: Result<
    GenerationState,
    RunError,
>)
    ensures
        r is Err <==> prompt_tokens > window,
        r matches Err(e) ==> e == (RunError::ContextWindowExceeded {
            tokens: prompt_tokens,
            window,
        }),
        r matches Ok(s) ==> s.n_ctx == window && s.n_cur == prompt_tokens && s.output@
            =~= Seq::<char>::empty() && !s.function_called && s.tools_enabled == tools_enabled
            && s.done is None,
{
    if prompt_tokens > window {
        return Err(RunError::ContextWindowExceeded { tokens: prompt_tokens, window });
    }
    Ok(
        GenerationState {
            n_ctx: window,
            n_cur: prompt_tokens,
            output: String::new(),
            function_called: false,
            tools_enabled,
            done: None,
        },
    )
}

/// The end-of-text marker some models emit as ordinary text.
pub open spec fn end_of_text_marker() -> Seq<char> {
    "<|end_of_text|>"@
}

/// A well-formed tool call stands in the trailing window of the accumulated
/// output: the window holds both markers, and the text between them parses
/// as a tool-call payload.
pub open spec fn spec_detection_fires(output: Seq<char>) -> bool {
    match spec_extract_tool_call(spec_tail(output, TAIL_WINDOW as int)) {
        None => false,
        Some(c) => spec_tool_call_name(c) is Some,
    }
}

/// The function name of the call standing in the trailing window.
pub open spec fn spec_detected_name(output: Seq<char>) -> Option<Seq<char>> {
    match spec_extract_tool_call(spec_tail(output, TAIL_WINDOW as int)) {
        None => None,
        Some(c) => spec_tool_call_name(c),
    }
}

/// `post` is `pre` brought to the terminal state `reason`, nothing else
/// changed.
pub open spec fn stopped(pre: GenerationState, post: GenerationState, reason: StopReason) -> bool {
    post == (GenerationState { done: Some(reason), ..pre })
}

/// Everything `step` guarantees about one transition: what the next state
/// and the action are for each input; on an emission the step dispatches if
/// and only if detection is still armed (`function_called` clear, tool
/// support requested) and a well-formed call stands in the trailing window,
/// the dispatched name is the one in that window, and a dispatch always sets
/// `function_called`.
pub open spec fn step_rel(
    pre: GenerationState,
    stop: bool,
    token: TokenOutput,
    post: GenerationState,
    action: StepAction,
) -> bool {
    &&& post.n_ctx == pre.n_ctx
    &&& post.tools_enabled == pre.tools_enabled
    &&& pre.function_called ==> post.function_called
    &&& (action is Dispatch ==> !pre.function_called && pre.tools_enabled && post.function_called)
    &&& if pre.done is Some {
        post == pre && action == StepAction::Stop(pre.done->0)
    } else if pre.n_cur >= pre.n_ctx {
        stopped(pre, post, StopReason::WindowFull) && action == StepAction::Stop(
            StopReason::WindowFull,
        )
    } else if stop {
        stopped(pre, post, StopReason::StopRequested) && action == StepAction::Stop(
            StopReason::StopRequested,
        )
    } else if token.is_eog {
        stopped(pre, post, StopReason::EndOfGeneration) && action == StepAction::Stop(
            StopReason::EndOfGeneration,
        )
    } else if token.text is Err {
        post == pre && action == StepAction::Fatal(
            RunError::TokenConversionFailure(token.text->Err_0),
        )
    } else if token.text->Ok_0@ == end_of_text_marker() {
        stopped(pre, post, StopReason::EndOfText) && action == StepAction::Stop(
            StopReason::EndOfText,
        )
    } else {
        &&& post.output@ == pre.output@ + token.text->Ok_0@
        &&& post.n_cur == pre.n_cur + 1
        &&& post.done is None
        &&& (action is Continue || action is Dispatch)
        &&& post.function_called == (pre.function_called || action is Dispatch)
        &&& (action is Dispatch <==> !pre.function_called && pre.tools_enabled
            && spec_detection_fires(post.output@))
        &&& (action matches StepAction::Dispatch(req) ==> spec_detected_name(post.output@)
            == Some(req.function_name@))
    }
}

impl GenerationState {
    /// One streaming step of the decode loop, driven with the externally
    /// observed stop flag and the token the backend sampled. Exactly one of
    /// the stop conditions, a fatal conversion error, or an emission happens;
    /// on an emission the text is appended to the accumulated output, the
    /// token count advances by one, and — only while no call was dispatched
    /// yet and the run has structured-call support — the trailing window of
    /// the output is scanned for a well-formed tool call.
    pub fn step(&mut self, stop_requested: bool, token: TokenOutput) -> (r: StepAction)
        ensures
            step_rel(*old(self), stop_requested, token, *final(self), r),
    {
        match &self.done {
            Some(reason) => {
                return StepAction::Stop(*reason);
            },
            None => {},
        }
        if self.n_cur >= self.n_ctx {
            self.done = Some(StopReason::WindowFull);
            return StepAction::Stop(StopReason::WindowFull);
        }
        if stop_requested {
            self.done = Some(StopReason::StopRequested);
            return StepAction::Stop(StopReason::StopRequested);
        }
        if token.is_eog {
            self.done = Some(StopReason::EndOfGeneration);
            return StepAction::Stop(StopReason::EndOfGeneration);
        }
        let text = match token.text {
            Err(detail) => {
                return StepAction::Fatal(RunError::TokenConversionFailure(detail));
            },
            Ok(t) => t,
        };
        let marker = "<|end_of_text|>".to_owned();
        if text == marker {
            self.done = Some(StopReason::EndOfText);
            return StepAction::Stop(StopReason::EndOfText);
        }
        self.output.append(text.as_str());
        self.n_cur += 1;
        if self.tools_enabled && !self.function_called {
            let tail = tail_window(self.output.as_str(), TAIL_WINDOW);
            match LlamaCppProvider::extract_tool_call_tag(tail) {
                None => StepAction::Continue,
                Some(content) => {
                    match LlamaCppProvider::try_extract_tool_call(content.as_str()) {
                        None => StepAction::Continue,
                        Some((name, args)) => {
                            self.function_called = true;
                            StepAction::Dispatch(
                                ToolCallRequest { function_name: name, arguments: args },
                            )
                        },
                    }
                },
            }
        } else {
            StepAction::Continue
        }
    }

    /// Records the outcome of a dispatched call. A successful result ends the
    /// run: its payload becomes the run's terminal tool message. A failed
    /// call is captured, not escalated: the run continues and reports no
    /// tool result, as if detection had not fired.
    pub fn on_tool_result(&mut self, function_name: &str, result: Result<String, String>) -> (r:
        Option<ToolMessage>)
        ensures
            result is Err ==> *final(self) == *old(self) && r is None,
            result matches Ok(res) ==> *final(self) == (GenerationState {
                done: Some(StopReason::ToolCompleted),
                ..*old(self)
            }) && (r matches Some(m) && m.role@ == "tool"@ && m.content@ == spec_tool_content(
                function_name@,
                res@,
            ) && m.tool_call_id@ == function_name@),
    {
        match result {
            Err(_) => None,
            Ok(res) => {
                self.done = Some(StopReason::ToolCompleted);
                Some(
                    ToolMessage {
                        role: "tool".to_owned(),
                        content: tool_result_content(function_name, res.as_str()),
                        tool_call_id: function_name.to_owned(),
                    },
                )
            },
        }
    }

    /// The final structured message of a run on which no tool call completed:
    /// the accumulated output as one assistant message with the completion
    /// flag set.
    pub fn final_message(&self) -> (r: ChatMessage)
        ensures
            r.role@ == "assistant"@,
            r.content@ == self.output@,
            r.done,
    {
        ChatMessage { role: "assistant".to_owned(), content: self.output.clone(), done: true }
    }
}

/// The content of a tool-result message.
pub open spec fn spec_tool_content(name: Seq<char>, result: Seq<char>) -> Seq<char> {
    "Result of function "@ + name + ": "@ + result
}

/// Formats the content of a tool-result message.
pub fn tool_result_content(name: &str, result: &str) -> (r: String)
    ensures
        r@ == spec_tool_content(name@, result@),
{
    let mut s = "Result of function ".to_owned();
    s.append(name);
    s.append(": ");
    s.append(result);
    s
}

/// `function_called`, once set, stays set along any chain of steps.
proof fn lemma_function_called_monotone(
    states: Seq<GenerationState>,
    stops: Seq<bool>,
    tokens: Seq<TokenOutput>,
    actions: Seq<StepAction>,
    i: int,
    j: int,
)
    requires
        states.len() == actions.len() + 1,
        stops.len() == actions.len(),
        tokens.len() == actions.len(),
        forall|k: int|
            0 <= k < actions.len() ==> step_rel(states[k], stops[k], tokens[k], states[k + 1], actions[k]),
        0 <= i <= j < states.len(),
        states[i].function_called,
    ensures
        states[j].function_called,
    decreases j - i,
{
    if i < j {
        assert(step_rel(states[i], stops[i], tokens[i], states[i + 1], actions[i]));
        lemma_function_called_monotone(states, stops, tokens, actions, i + 1, j);
    }
}

/// One-shot detection: along any chain of engine steps, at most one step
/// dispatches a tool call — once a well-formed call is detected and
/// dispatched in a run, no second call is ever dispatched in the same run,
/// however much call-shaped text appears later in the output.
pub proof fn lemma_one_shot_dispatch(
    states: Seq<GenerationState>,
    stops: Seq<bool>,
    tokens: Seq<TokenOutput>,
    actions: Seq<StepAction>,
)
    requires
        states.len() == actions.len() + 1,
        stops.len() == actions.len(),
        tokens.len() == actions.len(),
        forall|k: int|
            0 <= k < actions.len() ==> step_rel(states[k], stops[k], tokens[k], states[k + 1], actions[k]),
    ensures
        forall|i: int, j: int|
            0 <= i < j < actions.len() && actions[i] is Dispatch ==> !(actions[j] is Dispatch),
{
    assert forall|i: int, j: int|
        0 <= i < j < actions.len() && actions[i] is Dispatch implies !(actions[j] is Dispatch) by {
        assert(step_rel(states[i], stops[i], tokens[i], states[i + 1], actions[i]));
        assert(states[i + 1].function_called);
        lemma_function_called_monotone(states, stops, tokens, actions, i + 1, j);
        assert(step_rel(states[j], stops[j], tokens[j], states[j + 1], actions[j]));
    }
}

} // verus!
