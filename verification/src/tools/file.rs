//! Reading, writing, finding and searching files: the text each tool
//! answers with. The file system itself is reached by the caller.

use vstd::prelude::*;
use crate::pattern::{Pattern, regex_is_match, regex_compile_error};
use crate::text::{decimal, decimal_string, join, join_all, lines, split_lines};
use crate::tools::ToolError;

verus! {

broadcast use vstd::string::group_string_axioms;

/// Reads a whole file.
pub struct ReadFileTool;

/// Writes a whole file.
pub struct WriteFileTool;

/// Lists the paths that match a glob pattern.
pub struct GlobTool;

/// Finds the lines that match a regular expression.
pub struct GrepTool;

impl ReadFileTool {
    /// The tool's name.
    pub fn name(&self) -> (r: String)
        ensures
            r@ == "read_file"@,
    {
        "read_file".to_owned()
    }

    /// What the tool does, for the model.
    pub fn description(&self) -> (r: String)
        ensures
            r@ == "Read the content of a file."@,
    {
        "Read the content of a file.".to_owned()
    }
}

impl WriteFileTool {
    /// The tool's name.
    pub fn name(&self) -> (r: String)
        ensures
            r@ == "write_file"@,
    {
        "write_file".to_owned()
    }

    /// What the tool does, for the model.
    pub fn description(&self) -> (r: String)
        ensures
            r@ == "Write content to a file."@,
    {
        "Write content to a file.".to_owned()
    }

    /// What a successful write of `path` answers.
    pub fn report(&self, path: &str) -> (r: String)
        ensures
            r@ == "Successfully wrote to "@ + path@,
    {
        let mut r = "Successfully wrote to ".to_owned();
        r.append(path);
        r
    }
}

impl GlobTool {
    /// The tool's name.
    pub fn name(&self) -> (r: String)
        ensures
            r@ == "glob"@,
    {
        "glob".to_owned()
    }

    /// What the tool does, for the model.
    pub fn description(&self) -> (r: String)
        ensures
            r@ == "Search for files matching a glob pattern."@,
    {
        "Search for files matching a glob pattern.".to_owned()
    }

    /// The answer for the matching `paths`: one per line.
    pub fn listing(&self, paths: &Vec<String>) -> (r: String)
        ensures
            r@ == join(paths.deep_view(), "\n"@),
    {
        join_all(paths, "\n")
    }
}

/// How a matching line is reported: the file's label, the 1-based line
/// number and the line itself.
pub open spec fn hit_line(label: Seq<char>, number: nat, line: Seq<char>) -> Seq<char> {
    label + ":"@ + decimal(number) + ": "@ + line
}

/// The reports of the lines of `ls` that `pattern` matches, in order;
/// line numbers count from 1.
pub open spec fn grep_hits(pattern: Seq<char>, label: Seq<char>, ls: Seq<Seq<char>>) -> Seq<
    Seq<char>,
>
    decreases ls.len(),
{
    if ls.len() == 0 {
        seq![]
    } else {
        let prev = grep_hits(pattern, label, ls.drop_last());
        if regex_is_match(pattern, ls.last()) {
            prev.push(hit_line(label, ls.len(), ls.last()))
        } else {
            prev
        }
    }
}

impl GrepTool {
    /// The tool's name.
    pub fn name(&self) -> (r: String)
        ensures
            r@ == "grep_search"@,
    {
        "grep_search".to_owned()
    }

    /// What the tool does, for the model.
    pub fn description(&self) -> (r: String)
        ensures
            r@ == "Search for a pattern in files."@,
    {
        "Search for a pattern in files.".to_owned()
    }

    /// The search pattern compiled; refused with the compiler's message
    /// when it does not compile.
    pub fn compile(&self, pattern: &str) -> (r: Result<Pattern, ToolError>)
        ensures
            match regex_compile_error(pattern@) {
                None => r matches Ok(p) && p@ == pattern@,
                Some(msg) => r matches Err(ToolError::InvalidPattern(m)) && m@ == msg,
            },
    {
        match Pattern::new(pattern) {
            Ok(p) => Ok(p),
            Err(msg) => Err(ToolError::InvalidPattern(msg)),
        }
    }

    /// The lines of `content` that `pattern` matches, each reported under
    /// `label` with its line number.
    pub fn search(&self, pattern: &Pattern, label: &str, content: &str) -> (r: Vec<String>)
        ensures
            r.deep_view() == grep_hits(pattern@, label@, lines(content@)),
    {
        let ls = split_lines(content);
        let n = ls.len();
        let mut out: Vec<String> = Vec::new();
        let mut i: usize = 0;
        while i < n
            invariant
                n == ls.len(),
                ls.deep_view() == lines(content@),
                i <= n,
                out.deep_view() == grep_hits(pattern@, label@, ls.deep_view().take(i as int)),
            decreases n - i,
        {
            let ghost before = out.deep_view();
            let line = ls[i].as_str();
            proof {
                let t = ls.deep_view().take(i + 1);
                assert(t.drop_last() =~= ls.deep_view().take(i as int));
                assert(t.last() == line@);
            }
            if pattern.is_match(line) {
                let mut hit = label.to_owned();
                hit.append(":");
                let number = decimal_string(i + 1);
                hit.append(number.as_str());
                hit.append(": ");
                hit.append(line);
                out.push(hit);
                assert(out.deep_view() =~= before.push(hit_line(label@, (i + 1) as nat, line@)));
            }
            i = i + 1;
        }
        assert(ls.deep_view().take(n as int) =~= ls.deep_view());
        out
    }

    /// The answer for the reported lines: one per line.
    pub fn listing(&self, hits: &Vec<String>) -> (r: String)
        ensures
            r@ == join(hits.deep_view(), "\n"@),
    {
        join_all(hits, "\n")
    }
}

/// The lines of `ls`, each with its 0-based index.
pub open spec fn numbered(ls: Seq<Seq<char>>) -> Seq<(nat, Seq<char>)> {
    Seq::new(ls.len(), |k: int| (k as nat, ls[k]))
}

/// Grep reports every line that the pattern matches and no other, in
/// order, each as the label, its 1-based number and the line.
pub proof fn law_grep_reports_every_matching_line(pattern: Seq<char>, label: Seq<char>, ls: Seq<Seq<char>>)
    ensures
        grep_hits(pattern, label, ls) == numbered(ls).filter(
            |e: (nat, Seq<char>)| regex_is_match(pattern, e.1),
        ).map_values(|e: (nat, Seq<char>)| label + ":"@ + decimal(e.0 + 1) + ": "@ + e.1),
    decreases ls.len(),
{
    reveal(Seq::filter);
    let pred = |e: (nat, Seq<char>)| regex_is_match(pattern, e.1);
    let f = |e: (nat, Seq<char>)| label + ":"@ + decimal(e.0 + 1) + ": "@ + e.1;
    if ls.len() > 0 {
        law_grep_reports_every_matching_line(pattern, label, ls.drop_last());
        let nb = numbered(ls);
        assert(nb.drop_last() =~= numbered(ls.drop_last()));
        assert(nb.last() == ((ls.len() - 1) as nat, ls.last()));
        let prev = nb.drop_last().filter(pred);
        if pred(nb.last()) {
            assert(nb.filter(pred) == prev.push(nb.last()));
            assert(prev.push(nb.last()).map_values(f) =~= prev.map_values(f).push(f(nb.last())));
        } else {
            assert(nb.filter(pred) == prev);
        }
    } else {
        assert(numbered(ls).filter(pred) =~= Seq::<(nat, Seq<char>)>::empty());
        assert(numbered(ls).filter(pred).map_values(f) =~= Seq::<Seq<char>>::empty());
    }
}

} // verus!
