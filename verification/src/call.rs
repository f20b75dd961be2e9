//! The decisions of a call: how the call state moves when a transcript
//! arrives or an agent answers, and what the caller is told.
use vstd::prelude::*;

use crate::agent::{Action, ActionModel};
use crate::stream::{merged, OverlapMerger};
use crate::text::{append_str, chars_of, join, join_strings, string_of};
use crate::transport::{Destination, Event, EventView};

verus! {

/// Where a call stands.
#[derive(Debug, Clone, Copy, PartialEq, Eq, Structural)]
pub enum CallState {
    Greeting,
    Routing,
    Responding,
    Closing,
}

/// A transcript arrives: while greeting or routing the call routes, and an
/// agent request starts unless one is already in flight; otherwise nothing
/// changes. The answer: the next state, and whether to start a request.
pub open spec fn after_transcript(state: CallState, request_pending: bool) -> (CallState, bool) {
    match state {
        CallState::Greeting | CallState::Routing => (CallState::Routing, !request_pending),
        _ => (state, false),
    }
}

/// An agent's action is carried out: the next state and the text of the
/// `agent_action` event sent to the caller, if any. Transfers, escalations
/// and hang-ups close the call; replies and orders keep it where it is.
pub open spec fn after_action(state: CallState, action: ActionModel) -> (CallState, Option<Seq<char>>) {
    match action {
        ActionModel::Continue => (state, None),
        ActionModel::Respond(reply) => (state, Some("respond: "@ + reply)),
        ActionModel::Transfer(dest) => (CallState::Closing, Some("transfer to "@ + dest)),
        ActionModel::Escalate(reason) => (CallState::Closing, Some("escalate: "@ + reason)),
        ActionModel::Hangup => (CallState::Closing, Some("hangup"@)),
        ActionModel::Order(payload) => (state, Some("order: "@ + payload)),
    }
}

fn prefixed(prefix: &str, text: &String) -> (s: String)
    ensures
        s@ == prefix@ + text@,
{
    let mut out = crate::text::chars_of(prefix);
    append_str(&mut out, text.as_str());
    string_of(out.as_slice())
}

impl CallState {
    /// The state and request decision when a transcript arrives (see
    /// [`after_transcript`]).
    pub fn on_transcript(self, request_pending: bool) -> (next: (CallState, bool))
        ensures
            next == after_transcript(self, request_pending),
    {
        match self {
            CallState::Greeting | CallState::Routing => (CallState::Routing, !request_pending),
            _ => (self, false),
        }
    }

    /// The state and caller event when an agent's action arrives (see
    /// [`after_action`]).
    pub fn on_action(self, action: &Action) -> (next: (CallState, Option<String>))
        ensures
            next.0 == after_action(self, action@).0,
            next.1 matches Some(t) ==> after_action(self, action@).1 == Some(t@),
            next.1 is None ==> after_action(self, action@).1 is None,
    {
        match action {
            Action::Continue => (self, None),
            Action::Respond(reply) => (self, Some(prefixed("respond: ", reply))),
            Action::Transfer(dest) => (CallState::Closing, Some(prefixed("transfer to ", dest))),
            Action::Escalate(reason) => (CallState::Closing, Some(prefixed("escalate: ", reason))),
            Action::Hangup => (CallState::Closing, Some(String::from_str("hangup"))),
            Action::Order(payload) => (self, Some(prefixed("order: ", payload))),
        }
    }
}

/// The abstract state of a [`CallSession`].
pub struct CallSessionView {
    pub state: CallState,
    pub full_transcript: Seq<char>,
}

/// A window's transcription as plain values: the engine's text segments, or
/// its error message.
pub open spec fn transcription_view(result: Result<Vec<String>, String>) -> Result<Seq<Seq<char>>, Seq<char>> {
    match result {
        Ok(segments) => Ok(segments.deep_view()),
        Err(e) => Err(e@),
    }
}

/// What a call does with one window's transcription, given the transcript
/// the merger remembers: an error is reported to the system and changes
/// nothing; otherwise the segments, joined by spaces, are merged with the
/// previous transcript, and a non-empty result is sent as a transcript,
/// appended (with a space) to the full transcript, and handed to the state
/// machine, which may start an agent request. The answer: the next session,
/// the next remembered transcript, the event to send, and whether to start
/// a request.
pub open spec fn after_transcription(
    v: CallSessionView,
    previous: Seq<char>,
    result: Result<Seq<Seq<char>>, Seq<char>>,
    request_pending: bool,
) -> (CallSessionView, Seq<char>, Option<EventView>, bool) {
    match result {
        Err(e) => (v, previous, Some(EventView { kind: "error"@, text: e, to: Destination::System }), false),
        Ok(segments) => {
            let (out, remembered) = merged(previous, join(segments, " "@));
            if out.len() == 0 {
                (v, remembered, None, false)
            } else {
                let (state, start) = after_transcript(v.state, request_pending);
                (
                    CallSessionView { state, full_transcript: v.full_transcript + out + " "@ },
                    remembered,
                    Some(EventView { kind: "transcript"@, text: out, to: Destination::Both }),
                    start,
                )
            }
        },
    }
}

/// A call's state and the transcript gathered so far.
pub struct CallSession {
    state: CallState,
    full_transcript: String,
}

impl View for CallSession {
    type V = CallSessionView;

    closed spec fn view(&self) -> CallSessionView {
        CallSessionView { state: self.state, full_transcript: self.full_transcript@ }
    }
}

impl CallSession {
    /// A call that is greeting, with nothing transcribed yet.
    pub fn new() -> (s: Self)
        ensures
            s@ == (CallSessionView { state: CallState::Greeting, full_transcript: Seq::empty() }),
    {
        CallSession { state: CallState::Greeting, full_transcript: String::new() }
    }

    /// Where the call stands.
    pub fn state(&self) -> (state: CallState)
        ensures
            state == self@.state,
    {
        self.state
    }

    /// The transcript gathered so far.
    pub fn full_transcript(&self) -> (text: &str)
        ensures
            text@ == self@.full_transcript,
    {
        self.full_transcript.as_str()
    }

    /// The events that open a call: the `greeting` state, then the greeting
    /// said to the caller.
    pub fn opening_events(greeting: &str) -> (events: (Event, Event))
        ensures
            events.0@ == (EventView { kind: "state"@, text: "greeting"@, to: Destination::System }),
            events.1@ == (EventView { kind: "agent_action"@, text: "respond: "@ + greeting@, to: Destination::Caller }),
    {
        let said = prefixed("respond: ", &String::from_str(greeting));
        (Event::state("greeting"), Event::agent_action(said.as_str()))
    }

    /// Take one window's transcription (see [`after_transcription`]).
    pub fn on_transcription(
        &mut self,
        result: &Result<Vec<String>, String>,
        merger: &mut OverlapMerger,
        request_pending: bool,
    ) -> (out: (Option<Event>, bool))
        ensures
            ({
                let (v, remembered, event, start) = after_transcription(
                    old(self)@,
                    old(merger)@,
                    transcription_view(*result),
                    request_pending,
                );
                &&& final(self)@ == v
                &&& final(merger)@ == remembered
                &&& out.1 == start
                &&& out.0 matches Some(e) ==> event == Some(e@)
                &&& out.0 is None ==> event is None
            }),
    {
        match result {
            Err(e) => (Some(Event::error(e.as_str())), false),
            Ok(segments) => {
                let text = join_strings(segments, " ");
                let out = merger.merge_overlap(text.as_str());
                if chars_of(out.as_str()).len() == 0 {
                    return (None, false);
                }
                let (state, start) = self.state.on_transcript(request_pending);
                let mut all = chars_of(self.full_transcript.as_str());
                append_str(&mut all, out.as_str());
                append_str(&mut all, " ");
                self.full_transcript = string_of(all.as_slice());
                self.state = state;
                (Some(Event::transcript(out.as_str())), start)
            },
        }
    }

    /// Carry out an agent's action: the state moves, and the caller is told
    /// (see [`after_action`]).
    pub fn on_action(&mut self, action: &Action) -> (event: Option<Event>)
        ensures
            final(self)@.state == after_action(old(self)@.state, action@).0,
            final(self)@.full_transcript == old(self)@.full_transcript,
            event matches Some(e) ==> e@.kind == "agent_action"@ && e@.to == Destination::Caller
                && after_action(old(self)@.state, action@).1 == Some(e@.text),
            event is None ==> after_action(old(self)@.state, action@).1 is None,
    {
        let (state, text) = self.state.on_action(action);
        self.state = state;
        match text {
            Some(t) => Some(Event::agent_action(t.as_str())),
            None => None,
        }
    }

    /// The event that ends a call: the full transcript, for the system.
    pub fn closing_event(&self) -> (e: Event)
        ensures
            e@ == (EventView { kind: "full_transcript"@, text: self@.full_transcript, to: Destination::System }),
    {
        Event {
            kind: String::from_str("full_transcript"),
            text: self.full_transcript.clone(),
            to: Destination::System,
        }
    }
}

/// The full transcript is exactly the transcripts sent, each followed by a
/// space: a window either sends its (non-empty) merged text as a transcript
/// and appends it, or sends none and leaves the session as it was; an agent
/// request starts only with a transcript and only when none is pending.
pub proof fn lemma_transcript_accumulates(
    v: CallSessionView,
    previous: Seq<char>,
    result: Result<Seq<Seq<char>>, Seq<char>>,
    request_pending: bool,
)
    ensures
        ({
            let (next, _, event, start) = after_transcription(v, previous, result, request_pending);
            &&& event matches Some(e) ==> (e.kind == "transcript"@ ==> {
                &&& e.text.len() > 0
                &&& next.full_transcript == v.full_transcript + e.text + " "@
            })
            &&& (event is None || event->0.kind != "transcript"@) ==> next == v && !start
            &&& start ==> !request_pending
        }),
{
    reveal_strlit("error");
    reveal_strlit("transcript");
    assert("error"@.len() != "transcript"@.len());
}

/// A closing call stays closing, whatever is said or decided.
pub proof fn lemma_closing_is_final(request_pending: bool, action: ActionModel)
    ensures
        after_transcript(CallState::Closing, request_pending) == (CallState::Closing, false),
        after_action(CallState::Closing, action).0 == CallState::Closing,
{
}

/// Transfers, escalations and hang-ups close the call from any state;
/// replies, orders and `Continue` leave the state as it was.
pub proof fn lemma_action_effects(state: CallState, action: ActionModel)
    ensures
        (action is Transfer || action is Escalate || action is Hangup) ==> after_action(state, action).0 == CallState::Closing,
        (action is Respond || action is Order || action is Continue) ==> after_action(state, action).0 == state,
        action is Continue <==> after_action(state, action).1 is None,
{
}

/// At most one agent request is in flight, and every transcript heard while
/// greeting or routing gets one when none is pending: there a transcript
/// moves the call to routing and starts a request exactly when no request
/// is pending; while responding or closing it changes nothing and starts
/// none.
pub proof fn lemma_one_request_in_flight(state: CallState, request_pending: bool)
    ensures
        after_transcript(state, request_pending).1 ==> !request_pending,
        after_transcript(state, request_pending).1 ==> after_transcript(state, request_pending).0 == CallState::Routing,
        (state == CallState::Greeting || state == CallState::Routing)
            ==> after_transcript(state, request_pending) == (CallState::Routing, !request_pending),
        (state == CallState::Responding || state == CallState::Closing)
            ==> after_transcript(state, request_pending) == (state, false),
{
}

/// Every transcript sent while greeting or routing, with no request
/// pending, starts an agent request, however many came before: the caller's
/// later requests are answered too, not only the first.
pub proof fn lemma_each_transcript_reaches_agent(
    v: CallSessionView,
    previous: Seq<char>,
    segments: Seq<Seq<char>>,
)
    requires
        v.state == CallState::Greeting || v.state == CallState::Routing,
        merged(previous, join(segments, " "@)).0.len() > 0,
    ensures
        ({
            let (next, _, event, start) = after_transcription(v, previous, Ok(segments), false);
            &&& start
            &&& next.state == CallState::Routing
            &&& event == Some(EventView {
                kind: "transcript"@,
                text: merged(previous, join(segments, " "@)).0,
                to: Destination::Both,
            })
        }),
{
}

} // verus!
