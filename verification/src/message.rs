//! Chat messages exchanged with the language model.

use vstd::prelude::*;

verus! {

/// The function that a tool call names, with its arguments as JSON text.
#[derive(Clone)]
pub struct FunctionCall {
    pub name: String,
    pub arguments: String,
}

/// A request of the model to run one tool.
#[derive(Clone)]
pub struct ToolCall {
    pub id: String,
    pub function: FunctionCall,
}

/// One message of a conversation.
#[derive(Clone)]
pub struct Message {
    pub role: String,
    pub content: Option<String>,
    pub tool_calls: Option<Vec<ToolCall>>,
    pub tool_call_id: Option<String>,
}

/// The plain value of a [`ToolCall`].
pub struct ToolCallView {
    pub id: Seq<char>,
    pub name: Seq<char>,
    pub arguments: Seq<char>,
}

/// The plain value of a [`Message`].
pub struct MessageView {
    pub role: Seq<char>,
    pub content: Option<Seq<char>>,
    pub tool_calls: Option<Seq<ToolCallView>>,
    pub tool_call_id: Option<Seq<char>>,
}

pub open spec fn opt_text(o: Option<String>) -> Option<Seq<char>> {
    match o {
        Some(s) => Some(s@),
        None => None,
    }
}

impl View for ToolCall {
    type V = ToolCallView;

    open spec fn view(&self) -> ToolCallView {
        ToolCallView { id: self.id@, name: self.function.name@, arguments: self.function.arguments@ }
    }
}

impl View for Message {
    type V = MessageView;

    open spec fn view(&self) -> MessageView {
        MessageView {
            role: self.role@,
            content: opt_text(self.content),
            tool_calls: match self.tool_calls {
                Some(calls) => Some(calls@.map_values(|c: ToolCall| c@)),
                None => None,
            },
            tool_call_id: opt_text(self.tool_call_id),
        }
    }
}

/// The plain values of a sequence of messages.
pub open spec fn views(ms: Seq<Message>) -> Seq<MessageView> {
    ms.map_values(|m: Message| m@)
}

/// A message with a role and a text and nothing else.
pub open spec fn text_message(role: Seq<char>, content: Seq<char>) -> MessageView {
    MessageView { role, content: Some(content), tool_calls: None, tool_call_id: None }
}

impl Message {
    /// A message with the given role and text, no tool calls and no call id.
    pub fn text(role: &str, content: String) -> (r: Message)
        ensures
            r@ == text_message(role@, content@),
    {
        Message { role: role.to_owned(), content: Some(content), tool_calls: None, tool_call_id: None }
    }
}

impl ToolCall {
    /// A copy of this call.
    pub fn duplicate(&self) -> (r: ToolCall)
        ensures
            r@ == self@,
    {
        ToolCall {
            id: self.id.clone(),
            function: FunctionCall {
                name: self.function.name.clone(),
                arguments: self.function.arguments.clone(),
            },
        }
    }
}

fn copy_text(o: &Option<String>) -> (r: Option<String>)
    ensures
        opt_text(r) == opt_text(*o),
{
    match o {
        Some(s) => Some(s.clone()),
        None => None,
    }
}

impl Message {
    /// A copy of this message.
    pub fn duplicate(&self) -> (r: Message)
        ensures
            r@ == self@,
    {
        let tool_calls = match &self.tool_calls {
            None => None,
            Some(calls) => {
                let mut copied: Vec<ToolCall> = Vec::new();
                let mut i: usize = 0;
                while i < calls.len()
                    invariant
                        i <= calls@.len(),
                        copied@.len() == i,
                        forall|j: int| 0 <= j < i ==> #[trigger] copied@[j]@ == calls@[j]@,
                    decreases calls@.len() - i,
                {
                    let c = calls[i].duplicate();
                    copied.push(c);
                    i = i + 1;
                }
                assert(copied@.map_values(|c: ToolCall| c@) =~= calls@.map_values(|c: ToolCall| c@));
                Some(copied)
            },
        };
        Message {
            role: self.role.clone(),
            content: copy_text(&self.content),
            tool_calls,
            tool_call_id: copy_text(&self.tool_call_id),
        }
    }
}

} // verus!
