//! The agent's tools: their errors, the registry that finds them by name,
//! and the logic of each tool.

pub mod bash;
pub mod edit;
pub mod file;

use vstd::prelude::*;
use crate::text::decimal;
use crate::text::decimal_string;
use crate::text::same_text;

verus! {

/// Why a tool refused or failed a request.
pub enum ToolError {
    /// A required argument is missing; its name.
    MissingArgument(String),
    /// An edit was asked to replace the empty string.
    EmptyOldString,
    /// The text to replace does not occur in the file; the file's path.
    NotFound(String),
    /// The text to replace occurs at more than one position (overlapping
    /// occurrences included); the count and the path.
    Ambiguous(usize, String),
    /// No tool has the requested name; the name.
    UnknownTool(String),
    /// A search pattern does not compile; the compiler's message.
    InvalidPattern(String),
}

/// The text a [`ToolError`] is reported with.
pub open spec fn error_text(e: ToolError) -> Seq<char> {
    match e {
        ToolError::MissingArgument(name) => "Missing "@ + name@,
        ToolError::EmptyOldString => "old_string cannot be empty"@,
        ToolError::NotFound(path) => "old_string not found in "@ + path@
            + ". Ensure the string matches exactly, including whitespace and indentation."@,
        ToolError::Ambiguous(count, path) => "old_string appears "@ + decimal(count as nat)
            + " times in "@ + path@ + ". Include more context."@,
        ToolError::UnknownTool(name) => "Tool not found: "@ + name@,
        ToolError::InvalidPattern(msg) => msg@,
    }
}

impl ToolError {
    /// The text this error is reported with.
    pub fn message(&self) -> (r: String)
        ensures
            r@ == error_text(*self),
    {
        match self {
            ToolError::MissingArgument(name) => {
                let mut r = "Missing ".to_owned();
                r.append(name.as_str());
                r
            },
            ToolError::EmptyOldString => "old_string cannot be empty".to_owned(),
            ToolError::NotFound(path) => {
                let mut r = "old_string not found in ".to_owned();
                r.append(path.as_str());
                r.append(
                    ". Ensure the string matches exactly, including whitespace and indentation.",
                );
                r
            },
            ToolError::Ambiguous(count, path) => {
                let mut r = "old_string appears ".to_owned();
                let digits = decimal_string(*count);
                r.append(digits.as_str());
                r.append(" times in ");
                r.append(path.as_str());
                r.append(". Include more context.");
                r
            },
            ToolError::UnknownTool(name) => {
                let mut r = "Tool not found: ".to_owned();
                r.append(name.as_str());
                r
            },
            ToolError::InvalidPattern(msg) => msg.clone(),
        }
    }
}

/// A required argument: its value when present, else the error naming it.
pub fn required_arg(value: Option<String>, name: &str) -> (r: Result<String, ToolError>)
    ensures
        match value {
            Some(v) => r == Ok::<String, ToolError>(v),
            None => r matches Err(ToolError::MissingArgument(n)) && n@ == name@,
        },
{
    match value {
        Some(v) => Ok(v),
        None => Err(ToolError::MissingArgument(name.to_owned())),
    }
}

/// The tool that the first entry named `name` holds, if any.
pub open spec fn lookup<T>(entries: Seq<(Seq<char>, T)>, name: Seq<char>) -> Option<T>
    decreases entries.len(),
{
    if entries.len() == 0 {
        None
    } else if entries[0].0 == name {
        Some(entries[0].1)
    } else {
        lookup(entries.drop_first(), name)
    }
}

/// Tools, each under the name it was added with.
pub struct ToolRegistry<T> {
    tools: Vec<(String, T)>,
}

impl<T> ToolRegistry<T> {
    /// The registered names and tools, in the order they were added.
    pub closed spec fn entries(self) -> Seq<(Seq<char>, T)> {
        self.tools@.map_values(|e: (String, T)| (e.0@, e.1))
    }

    /// An empty registry.
    pub fn new() -> (r: Self)
        ensures
            r.entries() == Seq::<(Seq<char>, T)>::empty(),
    {
        let r = ToolRegistry { tools: Vec::new() };
        assert(r.entries() =~= Seq::<(Seq<char>, T)>::empty());
        r
    }

    /// Registers `tool` under `name`, after all earlier tools.
    pub fn add(&mut self, name: String, tool: T)
        ensures
            final(self).entries() == old(self).entries().push((name@, tool)),
    {
        let ghost n = name@;
        self.tools.push((name, tool));
        assert(self.entries() =~= old(self).entries().push((n, tool)));
    }

    /// The number of registered tools.
    pub fn len(&self) -> (r: usize)
        ensures
            r == self.entries().len(),
    {
        self.tools.len()
    }

    /// The name of the tool at `i`.
    pub fn name_at(&self, i: usize) -> (r: &String)
        requires
            i < self.entries().len(),
        ensures
            r@ == self.entries()[i as int].0,
    {
        &self.tools[i].0
    }

    /// The tool at `i`.
    pub fn tool_at(&self, i: usize) -> (r: &T)
        requires
            i < self.entries().len(),
        ensures
            *r == self.entries()[i as int].1,
    {
        &self.tools[i].1
    }

    /// The first tool registered under `name`; when there is none, the
    /// error that names the tool asked for.
    pub fn find(&self, name: &str) -> (r: Result<&T, ToolError>)
        ensures
            match lookup(self.entries(), name@) {
                Some(t) => r matches Ok(found) && *found == t,
                None => r matches Err(ToolError::UnknownTool(n)) && n@ == name@,
            },
    {
        let n = self.tools.len();
        let mut i: usize = 0;
        assert(self.entries().skip(0) =~= self.entries());
        while i < n
            invariant
                n == self.tools@.len(),
                i <= n,
                lookup(self.entries(), name@) == lookup(self.entries().skip(i as int), name@),
            decreases n - i,
        {
            proof {
                let rest = self.entries().skip(i as int);
                assert(rest.drop_first() =~= self.entries().skip(i + 1));
                assert(rest[0] == (self.tools@[i as int].0@, self.tools@[i as int].1));
            }
            if same_text(self.tools[i].0.as_str(), name) {
                return Ok(&self.tools[i].1);
            }
            i = i + 1;
        }
        assert(self.entries().skip(n as int) =~= Seq::<(Seq<char>, T)>::empty());
        Err(ToolError::UnknownTool(name.to_owned()))
    }
}


/// Adding a tool under a name that no tool has yet makes that name find
/// it, and leaves what every other name finds unchanged; a name that is
/// already taken keeps finding the earlier tool.
pub proof fn law_lookup_after_add<T>(entries: Seq<(Seq<char>, T)>, name: Seq<char>, tool: T, other: Seq<char>)
    ensures
        lookup(entries, name) is None ==> lookup(entries.push((name, tool)), name) == Some(tool),
        lookup(entries, name) is Some ==> lookup(entries.push((name, tool)), name) == lookup(entries, name),
        other != name ==> lookup(entries.push((name, tool)), other) == lookup(entries, other),
    decreases entries.len(),
{
    if entries.len() > 0 {
        law_lookup_after_add(entries.drop_first(), name, tool, other);
        assert(entries.push((name, tool)).drop_first() =~= entries.drop_first().push((name, tool)));
    } else {
        assert(entries.push((name, tool)).drop_first() =~= Seq::<(Seq<char>, T)>::empty());
        assert(entries.push((name, tool))[0] == (name, tool));
        assert(lookup(Seq::<(Seq<char>, T)>::empty(), other) is None);
    }
}

} // verus!
