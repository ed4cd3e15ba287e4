//! Decisions of the chat loop: what to do with each reply of the model and
//! how tool results are fed back to it.

use vstd::prelude::*;
use crate::message::{Message, MessageView, ToolCall, ToolCallView, text_message, views};
use crate::text::{decimal, decimal_string};

verus! {

/// How many model replies one chat turn may take.
pub const MAX_ITERATIONS: usize = 30;

/// What the chat loop does after a reply of the model.
pub enum Step {
    /// Answer the user with this text.
    Reply(String),
    /// Run these tool calls and ask the model again.
    RunTools(Vec<ToolCall>),
    /// Ask the model again.
    Continue,
    /// Stop the turn without an answer.
    Stop,
}

/// The plain values of tool calls.
pub open spec fn call_views(calls: Seq<ToolCall>) -> Seq<ToolCallView> {
    calls.map_values(|c: ToolCall| c@)
}

/// Whether `s` is the step for a reply `m`: tool calls are run when there
/// are any; otherwise the reply's text answers the user; a reply with an
/// empty list of tool calls and no text asks again, and one with neither
/// stops the turn.
pub open spec fn step_for(m: MessageView, s: Step) -> bool {
    match m.tool_calls {
        Some(calls) => if calls.len() > 0 {
            s matches Step::RunTools(v) && call_views(v@) == calls
        } else {
            match m.content {
                Some(c) => s matches Step::Reply(t) && t@ == c,
                None => s is Continue,
            }
        },
        None => match m.content {
            Some(c) => s matches Step::Reply(t) && t@ == c,
            None => s is Stop,
        },
    }
}

/// The step for the model's reply `response`.
pub fn decide(response: Message) -> (s: Step)
    ensures
        step_for(response@, s),
{
    match response.tool_calls {
        Some(calls) => {
            if calls.len() > 0 {
                Step::RunTools(calls)
            } else {
                match response.content {
                    Some(c) => Step::Reply(c),
                    None => Step::Continue,
                }
            }
        },
        None => match response.content {
            Some(c) => Step::Reply(c),
            None => Step::Stop,
        },
    }
}

/// How running one tool call ended.
pub enum ToolOutcome {
    /// The tool's answer.
    Output(String),
    /// The tool failed; the error's text.
    Failed(String),
    /// The call's arguments are not valid JSON; the parser's message.
    BadArguments(String),
}

/// The text fed back to the model for a call of tool `name`.
pub open spec fn outcome_text(name: Seq<char>, outcome: ToolOutcome) -> Seq<char> {
    match outcome {
        ToolOutcome::Output(s) => s@,
        ToolOutcome::Failed(e) => "Error executing "@ + name + ": "@ + e@,
        ToolOutcome::BadArguments(e) => "Error parsing arguments for "@ + name + ": "@ + e@,
    }
}

/// The message that answers `call` with its outcome.
pub fn tool_message(call: &ToolCall, outcome: ToolOutcome) -> (r: Message)
    ensures
        r@ == (MessageView {
            role: "tool"@,
            content: Some(outcome_text(call@.name, outcome)),
            tool_calls: None,
            tool_call_id: Some(call@.id),
        }),
{
    let text = match outcome {
        ToolOutcome::Output(s) => s,
        ToolOutcome::Failed(e) => {
            let mut t = "Error executing ".to_owned();
            t.append(call.function.name.as_str());
            t.append(": ");
            t.append(e.as_str());
            t
        },
        ToolOutcome::BadArguments(e) => {
            let mut t = "Error parsing arguments for ".to_owned();
            t.append(call.function.name.as_str());
            t.append(": ");
            t.append(e.as_str());
            t
        },
    };
    Message {
        role: "tool".to_owned(),
        content: Some(text),
        tool_calls: None,
        tool_call_id: Some(call.id.clone()),
    }
}

/// The message that opens a conversation with `prompt`.
pub fn system_message(prompt: String) -> (r: Message)
    ensures
        r@ == text_message("system"@, prompt@),
{
    Message::text("system", prompt)
}

/// The message that carries the user's `input`.
pub fn user_message(input: &str) -> (r: Message)
    ensures
        r@ == text_message("user"@, input@),
{
    Message::text("user", input.to_owned())
}

/// The error of a turn that used up its `max` replies.
pub fn iteration_limit_message(max: usize) -> (r: String)
    ensures
        r@ == limit_text(max as nat),
{
    let mut r = "Reached maximum iterations (".to_owned();
    let digits = decimal_string(max);
    r.append(digits.as_str());
    r.append(")");
    r
}

/// The error of a turn that used up its `max` replies.
pub open spec fn limit_text(max: nat) -> Seq<char> {
    "Reached maximum iterations ("@ + decimal(max) + ")"@
}

/// Where a chat turn stands: how many replies of the model it has asked
/// for, out of at most `max`.
pub struct Turn {
    asked: usize,
    max: usize,
}

/// What a turn does after a reply of the model.
pub enum TurnStep {
    /// The turn ends with this answer.
    Answer(String),
    /// Run these tool calls, record their results, and ask again.
    RunTools(Vec<ToolCall>),
    /// Ask the model again.
    AskAgain,
    /// The turn ends with this error.
    GiveUp(String),
}

/// Whether `s` is what a turn with at most `max` replies does after the
/// reply `m`: as [`step_for`], except that a reply with neither tool calls
/// nor text ends the turn with the iteration-limit error.
pub open spec fn turn_step_for(m: MessageView, max: nat, s: TurnStep) -> bool {
    match m.tool_calls {
        Some(calls) => if calls.len() > 0 {
            s matches TurnStep::RunTools(v) && call_views(v@) == calls
        } else {
            match m.content {
                Some(c) => s matches TurnStep::Answer(t) && t@ == c,
                None => s is AskAgain,
            }
        },
        None => match m.content {
            Some(c) => s matches TurnStep::Answer(t) && t@ == c,
            None => s matches TurnStep::GiveUp(e) && e@ == limit_text(max),
        },
    }
}

impl Turn {
    /// How many replies the turn has asked for.
    pub closed spec fn asked(self) -> nat {
        self.asked as nat
    }

    /// How many replies the turn may ask for.
    pub closed spec fn max(self) -> nat {
        self.max as nat
    }

    /// Starts a turn on the user's `input`, which is added to `messages`.
    pub fn start(messages: &mut Vec<Message>, input: &str, max: usize) -> (t: Turn)
        ensures
            views(final(messages)@) == views(old(messages)@).push(text_message("user"@, input@)),
            t.asked() == 0,
            t.max() == max,
    {
        let m = user_message(input);
        let ghost before = views(messages@);
        messages.push(m);
        assert(views(messages@) =~= before.push(text_message("user"@, input@)));
        Turn { asked: 0, max }
    }

    /// Whether the model may be asked again; if so, the request is counted.
    /// A turn never asks more than `max` times.
    pub fn next_request(&mut self) -> (r: bool)
        ensures
            r == (old(self).asked() < old(self).max()),
            final(self).max() == old(self).max(),
            final(self).asked() == if r {
                old(self).asked() + 1
            } else {
                old(self).asked()
            },
    {
        if self.asked < self.max {
            self.asked = self.asked + 1;
            true
        } else {
            false
        }
    }

    /// Adds the model's reply to `messages` and says what to do next.
    pub fn record_reply(&self, messages: &mut Vec<Message>, response: Message) -> (s: TurnStep)
        ensures
            views(final(messages)@) == views(old(messages)@).push(response@),
            turn_step_for(response@, self.max(), s),
    {
        let kept = response.duplicate();
        let ghost before = views(messages@);
        messages.push(kept);
        assert(views(messages@) =~= before.push(response@));
        match decide(response) {
            Step::Reply(t) => TurnStep::Answer(t),
            Step::RunTools(calls) => TurnStep::RunTools(calls),
            Step::Continue => TurnStep::AskAgain,
            Step::Stop => TurnStep::GiveUp(iteration_limit_message(self.max)),
        }
    }

    /// Adds the results of the tool calls to `messages`, in order.
    pub fn record_results(&self, messages: &mut Vec<Message>, results: Vec<Message>)
        ensures
            views(final(messages)@) == views(old(messages)@) + views(results@),
    {
        let ghost before = views(messages@);
        let ghost added = views(results@);
        let mut results = results;
        messages.append(&mut results);
        assert(views(messages@) =~= before + added);
    }

    /// The error of a turn whose replies are used up.
    pub fn limit_message(&self) -> (r: String)
        ensures
            r@ == limit_text(self.max()),
    {
        iteration_limit_message(self.max)
    }
}

/// What a turn does with a reply: the tool calls are run when there are
/// any; otherwise a reply with text ends the turn with exactly that text
/// (whether the list of tool calls is missing or empty); a reply with an
/// empty list and no text asks again; one with neither gives up with the
/// iteration-limit error.
pub proof fn law_turn_reply_outcomes(m: MessageView, max: nat, s: TurnStep)
    requires
        turn_step_for(m, max, s),
    ensures
        (m.tool_calls is Some && m.tool_calls->0.len() > 0) ==> (s matches TurnStep::RunTools(v)
            && call_views(v@) == m.tool_calls->0),
        !(m.tool_calls is Some && m.tool_calls->0.len() > 0) && m.content is Some ==> (s matches TurnStep::Answer(
            t,
        ) && t@ == m.content->0),
        (m.tool_calls is Some && m.tool_calls->0.len() == 0 && m.content is None) ==> s is AskAgain,
        (m.tool_calls is None && m.content is None) ==> (s matches TurnStep::GiveUp(e) && e@
            == "Reached maximum iterations ("@ + decimal(max) + ")"@),
{
}

/// The same for the decision alone: tool calls are run when there are
/// any, otherwise a reply's text is the answer.
pub proof fn law_reply_outcomes(m: MessageView, s: Step)
    requires
        step_for(m, s),
    ensures
        (m.tool_calls is Some && m.tool_calls->0.len() > 0) ==> (s matches Step::RunTools(v)
            && call_views(v@) == m.tool_calls->0),
        !(m.tool_calls is Some && m.tool_calls->0.len() > 0) && m.content is Some ==> (s matches Step::Reply(
            t,
        ) && t@ == m.content->0),
        (m.tool_calls is Some && m.tool_calls->0.len() == 0 && m.content is None) ==> s is Continue,
        (m.tool_calls is None && m.content is None) ==> s is Stop,
{
}

} // verus!
