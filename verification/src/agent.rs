//! The agent's conversation loop, seen as a state machine: what it does with
//! each message from the interface and with each item of a streamed answer,
//! and which events it sends back. Waiting on the model and on the channels is
//! left to the caller, which hands each outcome in.
use vstd::prelude::*;
use std::time::Duration;

use crate::brain::{BrainError, StreamChunk, brain_error_text};
use crate::text::{decimal, owned, push_decimal, push_str};
use crate::usage::{Usage, accumulate, add_usage, zero_usage};

verus! {

/// `Duration::clone`, which the derived `Clone` impls below call: a
/// `Duration` is `Copy`, so its clone equals it.
pub assume_specification[ <core::time::Duration as Clone>::clone ](d: &Duration) -> (r: Duration)
    ensures
        r == *d,
;

/// Events that the agent sends to the interface.
#[derive(Debug, Clone)]
pub enum AgentEvent {
    /// The agent starts answering a prompt.
    StreamStart,
    /// A fragment of answer text.
    Text(String),
    /// A fragment of reasoning.
    Reasoning(String),
    /// A tool starts.
    ToolStart { name: String, input: String },
    /// A tool finished.
    ToolResult { name: String, output: String },
    /// Token usage reported by the model for one call.
    Usage(Usage),
    /// Token usage of the whole conversation so far.
    SessionUsage(Usage),
    /// A message for the user from the agent itself.
    SystemMessage(String),
    /// Answering failed.
    Error(String),
    /// Answering was cancelled by the user.
    Cancelled,
    /// The agent finished answering a prompt.
    StreamEnd { duration: Duration, response_len: usize, usage: Usage },
}

/// Messages that the interface sends to the agent.
#[derive(Debug, Clone)]
pub enum UserInput {
    /// A prompt.
    Message(String),
    /// Stop answering the current prompt.
    Cancel,
    /// Forget the conversation.
    ResetConversation,
    /// Leave.
    Exit,
}

/// Measurements of one answered prompt.
#[derive(Debug, Clone)]
pub struct ExecutionMetrics {
    pub prompt: String,
    pub duration: Duration,
    pub response_len: usize,
    pub usage: Usage,
    pub max_turns: u32,
}

/// What the agent does with a message from the interface while idle.
#[derive(Debug, Clone, Copy, PartialEq, Eq, Structural)]
pub enum InputAction {
    /// Answer the message as a prompt.
    Answer,
    /// Nothing to do.
    Ignore,
    /// Clear the conversation memory.
    Reset,
    /// Stop the loop.
    Stop,
}

/// The action for a message received while idle.
pub open spec fn idle_action(input: UserInput) -> InputAction {
    match input {
        UserInput::Message(_) => InputAction::Answer,
        UserInput::Cancel => InputAction::Ignore,
        UserInput::ResetConversation => InputAction::Reset,
        UserInput::Exit => InputAction::Stop,
    }
}

/// What the agent does with a message from the interface while idle: a
/// prompt is answered, a cancellation has nothing to cancel, a reset clears
/// the conversation, and exit stops the loop.
pub fn on_idle_input(input: &UserInput) -> (r: InputAction)
    ensures
        r == idle_action(*input),
{
    match input {
        UserInput::Message(_) => InputAction::Answer,
        UserInput::Cancel => InputAction::Ignore,
        UserInput::ResetConversation => InputAction::Reset,
        UserInput::Exit => InputAction::Stop,
    }
}

/// Whether a message received while an answer streams cancels it: cancel
/// and exit do; other messages are ignored, and so is a closed channel.
pub open spec fn cancels(input: Option<UserInput>) -> bool {
    match input {
        Some(UserInput::Cancel) | Some(UserInput::Exit) => true,
        _ => false,
    }
}

/// Whether a message received while an answer streams cancels it.
pub fn cancels_stream(input: &Option<UserInput>) -> (r: bool)
    ensures
        r == cancels(*input),
{
    match input {
        Some(UserInput::Cancel) | Some(UserInput::Exit) => true,
        _ => false,
    }
}

/// The number of bytes in UTF-8 of a string, as `str::len` gives it.
pub open spec fn byte_len(s: Seq<char>) -> nat {
    (vstd::utf8::encode_utf8(s).len() as usize) as nat
}

/// `a + b`, or `usize::MAX` where the sum does not fit.
pub open spec fn sat_add_usize(a: nat, b: nat) -> nat {
    if a + b > usize::MAX {
        usize::MAX as nat
    } else {
        a + b
    }
}

/// The conversation-wide state of the agent loop.
pub struct AgentSession {
    pub max_turns: u32,
    pub session_usage: Usage,
}

/// The state of one answer being streamed.
pub struct TurnState {
    /// The length in bytes of the answer text so far.
    pub response_len: usize,
    /// The token usage of this answer so far.
    pub token_usage: Usage,
}

/// What an item of the answer stream leads to: the events to send, whether
/// the stream goes on, and the new usage of the turn and of the session.
pub open spec fn stream_step(
    turn: TurnState,
    session: Usage,
    item: Option<Result<StreamChunk, BrainError>>,
) -> (Seq<AgentEvent>, bool, TurnState, Usage) {
    match item {
        Some(Ok(StreamChunk::Text(t))) => (
            seq![AgentEvent::Text(t)],
            true,
            TurnState {
                response_len: sat_add_usize(turn.response_len as nat, byte_len(t@)) as usize,
                ..turn
            },
            session,
        ),
        Some(Ok(StreamChunk::Reasoning(r))) => (
            seq![AgentEvent::Reasoning(r)],
            true,
            turn,
            session,
        ),
        Some(Ok(StreamChunk::Usage(u))) => (
            seq![AgentEvent::Usage(u), AgentEvent::SessionUsage(accumulate(session, u))],
            true,
            TurnState { token_usage: accumulate(turn.token_usage, u), ..turn },
            accumulate(session, u),
        ),
        Some(Err(_)) => (Seq::empty(), false, turn, session),
        None => (Seq::empty(), false, turn, session),
    }
}

impl TurnState {
    /// A turn with no text and no usage yet.
    pub fn new() -> (r: TurnState)
        ensures
            r.response_len == 0,
            r.token_usage == zero_usage(),
    {
        TurnState { response_len: 0, token_usage: Usage::new() }
    }
}

impl AgentSession {
    /// A session with no usage yet.
    pub fn new(max_turns: u32) -> (r: AgentSession)
        ensures
            r.max_turns == max_turns,
            r.session_usage == zero_usage(),
    {
        AgentSession { max_turns, session_usage: Usage::new() }
    }

    /// Handles an item of the answer stream (`None` once it ends). Text is
    /// forwarded and counted, reasoning is forwarded, usage is added to the
    /// turn and to the session and both are reported, and an error is
    /// reported and ends the stream.
    pub fn on_stream_item(
        &mut self,
        turn: &mut TurnState,
        item: Option<Result<StreamChunk, BrainError>>,
    ) -> (r: (Vec<AgentEvent>, bool))
        ensures
            final(self).max_turns == old(self).max_turns,
            !(item matches Some(Err(_))) ==> r.0@ == stream_step(
                *old(turn),
                old(self).session_usage,
                item,
            ).0,
            item matches Some(Err(e)) ==> r.0@.len() == 1 && (r.0@[0] matches AgentEvent::Error(
                m,
            ) && m@ == brain_error_text(e)),
            r.1 == stream_step(*old(turn), old(self).session_usage, item).1,
            *final(turn) == stream_step(*old(turn), old(self).session_usage, item).2,
            final(self).session_usage == stream_step(*old(turn), old(self).session_usage, item).3,
    {
        let mut events: Vec<AgentEvent> = Vec::new();
        match item {
            Some(Ok(StreamChunk::Text(text))) => {
                let n = text.as_str().len();
                turn.response_len = turn.response_len.saturating_add(n);
                events.push(AgentEvent::Text(text));
                (events, true)
            },
            Some(Ok(StreamChunk::Reasoning(reasoning))) => {
                events.push(AgentEvent::Reasoning(reasoning));
                (events, true)
            },
            Some(Ok(StreamChunk::Usage(usage))) => {
                add_usage(&mut turn.token_usage, &usage);
                add_usage(&mut self.session_usage, &usage);
                events.push(AgentEvent::Usage(usage));
                events.push(AgentEvent::SessionUsage(self.session_usage));
                (events, true)
            },
            Some(Err(e)) => {
                events.push(AgentEvent::Error(e.message()));
                (events, false)
            },
            None => (events, false),
        }
    }

    /// Closes an answered prompt: the measurements handed to the hooks (with
    /// the turn's own usage) and the final event (with the session's usage).
    pub fn finish_turn(&self, turn: &TurnState, prompt: String, duration: Duration) -> (r: (
        ExecutionMetrics,
        AgentEvent,
    ))
        ensures
            r.0.prompt@ == prompt@,
            r.0.duration == duration,
            r.0.response_len == turn.response_len,
            r.0.usage == turn.token_usage,
            r.0.max_turns == self.max_turns,
            r.1 == (AgentEvent::StreamEnd {
                duration,
                response_len: turn.response_len,
                usage: self.session_usage,
            }),
    {
        (
            ExecutionMetrics {
                prompt,
                duration,
                response_len: turn.response_len,
                usage: turn.token_usage,
                max_turns: self.max_turns,
            },
            AgentEvent::StreamEnd {
                duration,
                response_len: turn.response_len,
                usage: self.session_usage,
            },
        )
    }

    /// Answers a reset of the conversation once the memory was (or was not)
    /// cleared: on success the session's usage starts again from zero.
    pub fn on_reset(&mut self, result: Result<(), BrainError>) -> (r: AgentEvent)
        ensures
            final(self).max_turns == old(self).max_turns,
            result is Ok ==> final(self).session_usage == zero_usage(),
            result is Ok ==> (r matches AgentEvent::SystemMessage(m) && m@
                == "Conversación reiniciada. La memoria del agente está vacía."@),
            result is Err ==> final(self).session_usage == old(self).session_usage,
            result matches Err(e) ==> (r matches AgentEvent::SystemMessage(m) && m@
                == "No se pudo reiniciar la conversación: "@ + brain_error_text(e)),
    {
        match result {
            Ok(()) => {
                self.session_usage = Usage::new();
                AgentEvent::SystemMessage(
                    owned("Conversación reiniciada. La memoria del agente está vacía."),
                )
            },
            Err(e) => {
                let mut s = String::new();
                push_str(&mut s, "No se pudo reiniciar la conversación: ");
                let m = e.message();
                push_str(&mut s, m.as_str());
                AgentEvent::SystemMessage(s)
            },
        }
    }
}

/// The event for a prompt that could not be started.
pub fn start_error_event(error: &BrainError) -> (r: AgentEvent)
    ensures
        r matches AgentEvent::Error(m) && m@ == "Error al iniciar stream: "@ + brain_error_text(*error),
{
    let mut s = String::new();
    push_str(&mut s, "Error al iniciar stream: ");
    let m = error.message();
    push_str(&mut s, m.as_str());
    AgentEvent::Error(s)
}

/// Something to run after each answered prompt, with its measurements.
pub trait ExecutionHook: Send + Sync {
    /// Called once a prompt has been answered.
    fn on_execution_completed(&self, metrics: &ExecutionMetrics);
}

/// Prints the elapsed time of each answered prompt, with its token usage when
/// the model reported a total.
pub struct ConsoleTimeHook;

/// The line that [`ConsoleTimeHook`] prints.
pub open spec fn time_report(elapsed: Seq<char>, u: Usage) -> Seq<char> {
    if u.total_tokens > 0 {
        "Tiempo: "@ + elapsed + " |Tk inp: "@ + decimal(u.input_tokens as nat) + ", Tk out: "@
            + decimal(u.output_tokens as nat) + ", ("@ + decimal(u.total_tokens as nat)
            + " total)"@
    } else {
        "Tiempo: "@ + elapsed
    }
}

impl ConsoleTimeHook {
    /// The line to print for an answered prompt, given its elapsed time as shown.
    pub fn report_line(&self, metrics: &ExecutionMetrics, elapsed: &str) -> (r: String)
        ensures
            r@ == time_report(elapsed@, metrics.usage),
    {
        let mut s = String::new();
        push_str(&mut s, "Tiempo: ");
        push_str(&mut s, elapsed);
        if metrics.usage.total_tokens > 0 {
            push_str(&mut s, " |Tk inp: ");
            push_decimal(&mut s, metrics.usage.input_tokens);
            push_str(&mut s, ", Tk out: ");
            push_decimal(&mut s, metrics.usage.output_tokens);
            push_str(&mut s, ", (");
            push_decimal(&mut s, metrics.usage.total_tokens);
            push_str(&mut s, " total)");
        }
        proof {
            assert(s@ =~= time_report(elapsed@, metrics.usage));
        }
        s
    }
}

/// Over a turn, the session usage grows by exactly what the turn's usage
/// grows by, report by report: each usage item adds the same report to both.
pub proof fn law_usage_item_feeds_turn_and_session(turn: TurnState, session: Usage, u: Usage)
    ensures
        ({
            let (ev, more, t2, s2) = stream_step(turn, session, Some(Ok(StreamChunk::Usage(u))));
            &&& more
            &&& t2.token_usage == accumulate(turn.token_usage, u)
            &&& s2 == accumulate(session, u)
            &&& ev.last() == AgentEvent::SessionUsage(s2)
        }),
{
}

/// The stream ends exactly at its end or at an error; text and reasoning
/// never change the usage.
pub proof fn law_stream_ends_only_at_end_or_error(
    turn: TurnState,
    session: Usage,
    item: Option<Result<StreamChunk, BrainError>>,
)
    ensures
        !stream_step(turn, session, item).1 <==> (item is None || item matches Some(Err(_))),
        !(item matches Some(Ok(StreamChunk::Usage(_)))) ==> stream_step(turn, session, item).3
            == session && stream_step(turn, session, item).2.token_usage == turn.token_usage,
{
}

/// What a whole answer stream leads to, item by item: the events sent,
/// whether the stream is still going, and the usage of the turn and of the
/// session. Once an item has ended the stream, later items change nothing.
pub open spec fn stream_run(
    turn: TurnState,
    session: Usage,
    items: Seq<Option<Result<StreamChunk, BrainError>>>,
) -> (Seq<AgentEvent>, bool, TurnState, Usage)
    decreases items.len(),
{
    if items.len() == 0 {
        (Seq::empty(), true, turn, session)
    } else {
        let (ev, more, t, u) = stream_run(turn, session, items.drop_last());
        if !more {
            (ev, false, t, u)
        } else {
            let (e2, m2, t2, u2) = stream_step(t, u, items.last());
            (ev + e2, m2, t2, u2)
        }
    }
}

/// Whether an event is one that an item of the stream produces.
pub open spec fn item_event(e: AgentEvent) -> bool {
    e is Text || e is Reasoning || e is Usage || e is SessionUsage
}

/// Over a whole answer stream, the items produce only text, reasoning and
/// usage events, in order; the stream goes on exactly while every item is a
/// chunk, and the first end or error stops it. The turn's own start, end,
/// error and cancellation events are never among them.
pub proof fn law_stream_run_events(
    turn: TurnState,
    session: Usage,
    items: Seq<Option<Result<StreamChunk, BrainError>>>,
)
    ensures
        forall|i: int|
            0 <= i < stream_run(turn, session, items).0.len() ==> item_event(
                #[trigger] stream_run(turn, session, items).0[i],
            ),
        stream_run(turn, session, items).1 <==> forall|i: int|
            0 <= i < items.len() ==> (#[trigger] items[i] matches Some(Ok(_))),
    decreases items.len(),
{
    if items.len() > 0 {
        let p = items.drop_last();
        law_stream_run_events(turn, session, p);
        let (ev, more, t, u) = stream_run(turn, session, p);
        if more {
            let (e2, m2, t2, u2) = stream_step(t, u, items.last());
            assert forall|i: int| 0 <= i < (ev + e2).len() implies item_event(
                #[trigger] (ev + e2)[i],
            ) by {
                if i >= ev.len() {
                    assert((ev + e2)[i] == e2[i - ev.len()]);
                }
            }
        }
        if !more {
            let j = choose|j: int| 0 <= j < p.len() && !(#[trigger] p[j] matches Some(Ok(_)));
            assert(items[j] == p[j]);
        } else {
            assert forall|i: int| 0 <= i < p.len() implies (#[trigger] items[i] matches Some(
                Ok(_),
            )) by {
                assert(items[i] == p[i]);
            }
            if !(forall|i: int| 0 <= i < p.len() ==> (#[trigger] p[i] matches Some(Ok(_)))) {
                let j = choose|j: int| 0 <= j < p.len() && !(#[trigger] p[j] matches Some(Ok(_)));
                assert(false);
            }
            assert(items.last() == items[items.len() - 1]);
        }
    }
}

/// A turn before any item of its stream.
pub open spec fn fresh_turn() -> TurnState {
    TurnState { response_len: 0, token_usage: zero_usage() }
}

/// Whether `ev` is the error event for `e`.
pub open spec fn error_event_for(e: BrainError, ev: AgentEvent) -> bool {
    ev matches AgentEvent::Error(m) && m@ == brain_error_text(e)
}

/// The events sent for a prompt whose stream gave `items` so far, with the
/// session's usage at `session0` when it started: `StreamStart`, then the
/// events of the items in order, then, where the last item was an error, the
/// error event for it.
pub open spec fn streamed_events(
    session0: Usage,
    items: Seq<Option<Result<StreamChunk, BrainError>>>,
    events: Seq<AgentEvent>,
) -> bool {
    let ev = stream_run(fresh_turn(), session0, items).0;
    if items.len() > 0 && items.last() matches Some(Err(_)) {
        &&& events.len() == ev.len() + 2
        &&& events.take(ev.len() + 1int) == seq![AgentEvent::StreamStart] + ev
        &&& (items.last() matches Some(Err(e)) && error_event_for(e, events.last()))
    } else {
        events == seq![AgentEvent::StreamStart] + ev
    }
}

/// One prompt being answered: the turn's own state and, for contracts, the
/// stream items received and the events sent so far.
pub struct PromptTurn {
    turn: TurnState,
    open: bool,
    items: Ghost<Seq<Option<Result<StreamChunk, BrainError>>>>,
    events: Ghost<Seq<AgentEvent>>,
    session0: Ghost<Usage>,
}

impl PromptTurn {
    /// The items of the stream received so far.
    pub closed spec fn items(&self) -> Seq<Option<Result<StreamChunk, BrainError>>> {
        self.items@
    }

    /// The events sent so far for this prompt.
    pub closed spec fn events(&self) -> Seq<AgentEvent> {
        self.events@
    }

    /// The session's usage when the prompt started.
    pub closed spec fn session_start(&self) -> Usage {
        self.session0@
    }

    /// Whether the stream may still give items.
    pub closed spec fn is_open(&self) -> bool {
        self.open
    }

    /// The state of the turn.
    pub closed spec fn turn(&self) -> TurnState {
        self.turn
    }

    /// Whether the turn agrees with its items, its events, and the session's
    /// usage `session`.
    pub closed spec fn tracks(&self, session: Usage) -> bool {
        let (ev, more, t, u) = stream_run(fresh_turn(), self.session0@, self.items@);
        &&& more == self.open
        &&& t == self.turn
        &&& u == session
        &&& streamed_events(self.session0@, self.items@, self.events@)
        &&& (self.items@.len() > 0 ==> stream_run(
            fresh_turn(),
            self.session0@,
            self.items@.drop_last(),
        ).1)
    }
}

impl AgentSession {
    /// Starts answering a prompt: the `StreamStart` event, and a turn with no
    /// item yet.
    pub fn start_prompt(&self) -> (r: (PromptTurn, AgentEvent))
        ensures
            r.1 == AgentEvent::StreamStart,
            r.0.items() == Seq::<Option<Result<StreamChunk, BrainError>>>::empty(),
            r.0.events() == seq![AgentEvent::StreamStart],
            r.0.session_start() == self.session_usage,
            r.0.is_open(),
            r.0.tracks(self.session_usage),
    {
        let ghost first = seq![AgentEvent::StreamStart];
        let pt = PromptTurn {
            turn: TurnState::new(),
            open: true,
            items: Ghost(Seq::empty()),
            events: Ghost(first),
            session0: Ghost(self.session_usage),
        };
        assert(seq![AgentEvent::StreamStart] + Seq::<AgentEvent>::empty() =~= seq![
            AgentEvent::StreamStart,
        ]);
        (pt, AgentEvent::StreamStart)
    }

    /// Handles the next item of the prompt's stream (`None` once it ends):
    /// the events to send, added to the prompt's events, and whether the
    /// stream goes on.
    pub fn prompt_item(
        &mut self,
        pt: &mut PromptTurn,
        item: Option<Result<StreamChunk, BrainError>>,
    ) -> (r: (Vec<AgentEvent>, bool))
        requires
            old(pt).is_open(),
            old(pt).tracks(old(self).session_usage),
        ensures
            final(self).max_turns == old(self).max_turns,
            final(pt).items() == old(pt).items().push(item),
            final(pt).events() == old(pt).events() + r.0@,
            final(pt).session_start() == old(pt).session_start(),
            final(pt).is_open() == r.1,
            final(pt).tracks(final(self).session_usage),
    {
        let ghost items0 = pt.items@;
        let ghost s0 = pt.session0@;
        let ghost prev = stream_run(fresh_turn(), s0, items0);
        let ghost it = item;
        let r = self.on_stream_item(&mut pt.turn, item);
        pt.open = r.1;
        proof {
            let items1 = items0.push(it);
            assert(items1.drop_last() =~= items0);
            assert(items1.last() == it);
            let ev0 = prev.0;
            let step = stream_step(prev.2, prev.3, it);
            assert(stream_run(fresh_turn(), s0, items1) == (ev0 + step.0, step.1, step.2, step.3));
            if it matches Some(Err(_)) {
                assert((pt.events@ + r.0@).take(ev0.len() + 1int) =~= pt.events@);
                assert(step.0 =~= Seq::<AgentEvent>::empty());
                assert(ev0 + step.0 =~= ev0);
            } else {
                assert(pt.events@ + r.0@ =~= seq![AgentEvent::StreamStart] + (ev0 + step.0));
            }
            pt.items@ = items1;
            pt.events@ = pt.events@ + r.0@;
        }
        r
    }

    /// Stops a prompt that the user cancelled: the last event for it is
    /// `Cancelled`; no end event follows and no measurements are made.
    pub fn cancel_prompt(&self, pt: PromptTurn) -> (r: AgentEvent)
        requires
            pt.is_open(),
        ensures
            r == AgentEvent::Cancelled,
    {
        AgentEvent::Cancelled
    }

    /// Ends a prompt whose stream could not be started: the error event, and
    /// nothing after it.
    pub fn fail_prompt(&self, pt: PromptTurn, error: &BrainError) -> (r: AgentEvent)
        requires
            pt.items().len() == 0,
        ensures
            r matches AgentEvent::Error(m) && m@ == "Error al iniciar stream: "@ + brain_error_text(
                *error,
            ),
    {
        start_error_event(error)
    }

    /// Closes a prompt whose stream has ended: the measurements for the hooks
    /// and the final `StreamEnd`, which carries the byte length of the
    /// answer text and the session's usage.
    pub fn finish_prompt(&self, pt: PromptTurn, prompt: String, duration: Duration) -> (r: (
        ExecutionMetrics,
        AgentEvent,
    ))
        requires
            !pt.is_open(),
            pt.tracks(self.session_usage),
        ensures
            r.0.prompt@ == prompt@,
            r.0.duration == duration,
            r.0.response_len == stream_run(fresh_turn(), pt.session_start(), pt.items()).2.response_len,
            r.0.usage == stream_run(fresh_turn(), pt.session_start(), pt.items()).2.token_usage,
            r.0.max_turns == self.max_turns,
            r.1 == (AgentEvent::StreamEnd {
                duration,
                response_len: stream_run(fresh_turn(), pt.session_start(), pt.items()).2.response_len,
                usage: self.session_usage,
            }),
    {
        self.finish_turn(&pt.turn, prompt, duration)
    }
}

/// The byte length of the answer text that `items` carry, summed
/// saturating at `usize::MAX`.
pub open spec fn text_bytes(items: Seq<Option<Result<StreamChunk, BrainError>>>) -> nat
    decreases items.len(),
{
    if items.len() == 0 {
        0
    } else {
        let b = text_bytes(items.drop_last());
        match items.last() {
            Some(Ok(StreamChunk::Text(t))) => sat_add_usize(b, byte_len(t@)),
            _ => b,
        }
    }
}

/// `u` with every usage report of `items` added in order.
pub open spec fn usage_fold(u: Usage, items: Seq<Option<Result<StreamChunk, BrainError>>>) -> Usage
    decreases items.len(),
{
    if items.len() == 0 {
        u
    } else {
        let v = usage_fold(u, items.drop_last());
        match items.last() {
            Some(Ok(StreamChunk::Usage(x))) => accumulate(v, x),
            _ => v,
        }
    }
}

proof fn lemma_stream_run_totals(session0: Usage, items: Seq<Option<Result<StreamChunk, BrainError>>>)
    requires
        forall|i: int| 0 <= i < items.len() - 1 ==> (#[trigger] items[i] matches Some(Ok(_))),
    ensures
        stream_run(fresh_turn(), session0, items).2.response_len == text_bytes(items),
        stream_run(fresh_turn(), session0, items).2.token_usage == usage_fold(zero_usage(), items),
        stream_run(fresh_turn(), session0, items).3 == usage_fold(session0, items),
    decreases items.len(),
{
    if items.len() > 0 {
        let p = items.drop_last();
        assert forall|i: int| 0 <= i < p.len() - 1 implies (#[trigger] p[i] matches Some(Ok(_))) by {
            assert(p[i] == items[i]);
        }
        lemma_stream_run_totals(session0, p);
        law_stream_run_events(fresh_turn(), session0, p);
        assert forall|i: int| 0 <= i < p.len() implies (#[trigger] p[i] matches Some(Ok(_))) by {
            assert(p[i] == items[i]);
        }
        let r = stream_run(fresh_turn(), session0, p);
        assert(r.2.response_len <= usize::MAX);
    }
}

/// The events of a prompt answered to the end of its stream: `StreamStart`
/// first, then the events of the items in order (text, reasoning, usage),
/// then the error event where the stream failed, and `StreamEnd` last, which
/// carries the saturating sum of the byte lengths of the text and the
/// session's usage with every report added. The turn's own usage is the
/// sum of its reports.
pub proof fn law_prompt_events(
    session0: Usage,
    items: Seq<Option<Result<StreamChunk, BrainError>>>,
    events: Seq<AgentEvent>,
    duration: Duration,
)
    requires
        items.len() > 0,
        stream_run(fresh_turn(), session0, items.drop_last()).1,
        !stream_run(fresh_turn(), session0, items).1,
        streamed_events(session0, items, events),
    ensures
        ({
            let run = stream_run(fresh_turn(), session0, items);
            let end = AgentEvent::StreamEnd {
                duration,
                response_len: run.2.response_len,
                usage: run.3,
            };
            let all = events.push(end);
            &&& run.2.response_len == text_bytes(items)
            &&& run.2.token_usage == usage_fold(zero_usage(), items)
            &&& run.3 == usage_fold(session0, items)
            &&& all[0] == AgentEvent::StreamStart
            &&& all.last() == end
            &&& (items.last() is None ==> all.len() == run.0.len() + 2)
            &&& (items.last() matches Some(Err(e)) ==> all.len() == run.0.len() + 3
                && error_event_for(e, all[all.len() - 2]))
            &&& forall|i: int| 1 <= i <= run.0.len() ==> #[trigger] all[i] == run.0[i - 1]
                && item_event(all[i])
        }),
{
    let p = items.drop_last();
    law_stream_run_events(fresh_turn(), session0, p);
    law_stream_run_events(fresh_turn(), session0, items);
    assert forall|i: int| 0 <= i < items.len() - 1 implies (#[trigger] items[i] matches Some(
        Ok(_),
    )) by {
        assert(items[i] == p[i]);
    }
    lemma_stream_run_totals(session0, items);
    let run = stream_run(fresh_turn(), session0, items);
    let ev = run.0;
    let head = seq![AgentEvent::StreamStart] + ev;
    if !(items.last() is None) && !(items.last() matches Some(Err(_))) {
        assert(items.last() == items[items.len() - 1]);
        assert(false);
    }
    assert forall|i: int| 1 <= i <= ev.len() implies #[trigger] events.push(
        AgentEvent::StreamEnd { duration, response_len: run.2.response_len, usage: run.3 },
    )[i] == ev[i - 1] && item_event(events.push(
        AgentEvent::StreamEnd { duration, response_len: run.2.response_len, usage: run.3 },
    )[i]) by {
        assert(head[i] == ev[i - 1]);
        if items.last() matches Some(Err(_)) {
            assert(events.take(ev.len() + 1int)[i] == events[i]);
        }
    }
    if items.last() matches Some(Err(_)) {
        assert(events.take(ev.len() + 1int)[0] == events[0]);
    }
}

/// The events of a prompt cancelled while its stream is open:
/// `StreamStart`, the events of the items so far, and `Cancelled` last; no
/// `StreamEnd` and no other `Cancelled` come before it.
pub proof fn law_cancelled_prompt_events(
    session0: Usage,
    items: Seq<Option<Result<StreamChunk, BrainError>>>,
    events: Seq<AgentEvent>,
)
    requires
        stream_run(fresh_turn(), session0, items).1,
        streamed_events(session0, items, events),
    ensures
        ({
            let all = events.push(AgentEvent::Cancelled);
            &&& all[0] == AgentEvent::StreamStart
            &&& all.last() == AgentEvent::Cancelled
            &&& forall|i: int|
                0 <= i < all.len() - 1 ==> !(#[trigger] all[i] is StreamEnd) && !(all[i] is Cancelled)
        }),
{
    law_stream_run_events(fresh_turn(), session0, items);
    if items.len() > 0 && items.last() matches Some(Err(_)) {
        assert(items[items.len() - 1] == items.last());
    }
    let ev = stream_run(fresh_turn(), session0, items).0;
    assert forall|i: int| 0 <= i < events.len() implies !(#[trigger] events.push(
        AgentEvent::Cancelled,
    )[i] is StreamEnd) && !(events.push(AgentEvent::Cancelled)[i] is Cancelled) by {
        if i > 0 {
            assert(events[i] == ev[i - 1]);
        }
    }
}

/// The text and reasoning that a sequence of events shows, in order, each
/// marked by whether it is reasoning.
pub open spec fn shown_chunks(events: Seq<AgentEvent>) -> Seq<(bool, Seq<char>)>
    decreases events.len(),
{
    if events.len() == 0 {
        Seq::empty()
    } else {
        let rest = shown_chunks(events.drop_last());
        match events.last() {
            AgentEvent::Text(t) => rest.push((false, t@)),
            AgentEvent::Reasoning(r) => rest.push((true, r@)),
            _ => rest,
        }
    }
}

/// The text and reasoning chunks of a stream, in order, each marked by
/// whether it is reasoning.
pub open spec fn item_chunks(items: Seq<Option<Result<StreamChunk, BrainError>>>) -> Seq<
    (bool, Seq<char>),
>
    decreases items.len(),
{
    if items.len() == 0 {
        Seq::empty()
    } else {
        let rest = item_chunks(items.drop_last());
        match items.last() {
            Some(Ok(StreamChunk::Text(t))) => rest.push((false, t@)),
            Some(Ok(StreamChunk::Reasoning(r))) => rest.push((true, r@)),
            _ => rest,
        }
    }
}

proof fn lemma_shown_concat(a: Seq<AgentEvent>, b: Seq<AgentEvent>)
    ensures
        shown_chunks(a + b) == shown_chunks(a) + shown_chunks(b),
    decreases b.len(),
{
    if b.len() == 0 {
        assert(a + b =~= a);
        assert(shown_chunks(a) + shown_chunks(b) =~= shown_chunks(a));
    } else {
        lemma_shown_concat(a, b.drop_last());
        assert((a + b).drop_last() =~= a + b.drop_last());
        assert((a + b).last() == b.last());
        let x = shown_chunks(a);
        let y = shown_chunks(b.drop_last());
        assert(x + y.push((false, Seq::<char>::empty())) =~= (x + y).push(
            (false, Seq::<char>::empty()),
        ));
        match b.last() {
            AgentEvent::Text(t) => {
                assert(x + y.push((false, t@)) =~= (x + y).push((false, t@)));
            },
            AgentEvent::Reasoning(r) => {
                assert(x + y.push((true, r@)) =~= (x + y).push((true, r@)));
            },
            _ => {},
        }
    }
}

/// No chunk of an answer is lost or altered: over a stream whose items are
/// all chunks, the events show every text and reasoning chunk, in order,
/// each with its own text and as text or reasoning as it came.
pub proof fn law_every_chunk_is_shown(
    turn: TurnState,
    session: Usage,
    items: Seq<Option<Result<StreamChunk, BrainError>>>,
)
    requires
        forall|i: int| 0 <= i < items.len() ==> (#[trigger] items[i] matches Some(Ok(_))),
    ensures
        shown_chunks(stream_run(turn, session, items).0) == item_chunks(items),
    decreases items.len(),
{
    if items.len() > 0 {
        let p = items.drop_last();
        assert forall|i: int| 0 <= i < p.len() implies (#[trigger] p[i] matches Some(Ok(_))) by {
            assert(p[i] == items[i]);
        }
        law_every_chunk_is_shown(turn, session, p);
        law_stream_run_events(turn, session, p);
        let r = stream_run(turn, session, p);
        let step = stream_step(r.2, r.3, items.last());
        lemma_shown_concat(r.0, step.0);
        assert(items.last() == items[items.len() - 1]);
        match items.last() {
            Some(Ok(StreamChunk::Text(t))) => {
                let e = seq![AgentEvent::Text(t)];
                assert(e.drop_last() =~= Seq::<AgentEvent>::empty());
                assert(e.last() == AgentEvent::Text(t));
                assert(shown_chunks(Seq::<AgentEvent>::empty()) =~= Seq::<(bool, Seq<char>)>::empty());
                assert(shown_chunks(e) =~= seq![(false, t@)]);
                assert(item_chunks(p) + seq![(false, t@)] =~= item_chunks(p).push((false, t@)));
            },
            Some(Ok(StreamChunk::Reasoning(x))) => {
                let e = seq![AgentEvent::Reasoning(x)];
                assert(e.drop_last() =~= Seq::<AgentEvent>::empty());
                assert(e.last() == AgentEvent::Reasoning(x));
                assert(shown_chunks(Seq::<AgentEvent>::empty()) =~= Seq::<(bool, Seq<char>)>::empty());
                assert(shown_chunks(e) =~= seq![(true, x@)]);
                assert(item_chunks(p) + seq![(true, x@)] =~= item_chunks(p).push((true, x@)));
            },
            Some(Ok(StreamChunk::Usage(u))) => {
                let e = seq![AgentEvent::Usage(u), AgentEvent::SessionUsage(accumulate(r.3, u))];
                assert(e.drop_last() =~= seq![AgentEvent::Usage(u)]);
                let e1 = seq![AgentEvent::Usage(u)];
                assert(e1.drop_last() =~= Seq::<AgentEvent>::empty());
                assert(e1.last() == AgentEvent::Usage(u));
                assert(e.last() == AgentEvent::SessionUsage(accumulate(r.3, u)));
                assert(shown_chunks(Seq::<AgentEvent>::empty()) =~= Seq::<(bool, Seq<char>)>::empty());
                assert(shown_chunks(e1) =~= Seq::<(bool, Seq<char>)>::empty());
                assert(shown_chunks(e) =~= Seq::<(bool, Seq<char>)>::empty());
                assert(item_chunks(p) + Seq::<(bool, Seq<char>)>::empty() =~= item_chunks(p));
            },
            _ => {},
        }
    }
}

} // verus!
