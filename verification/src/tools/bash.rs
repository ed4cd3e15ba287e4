//! The shell tool's decisions: which commands are refused, how a command
//! is wrapped to learn the directory it ends in, and what its output is
//! reported as. Running the command is up to the caller.

use vstd::prelude::*;
use vstd::utf8::encode_utf8;
use vstd::utf8::valid_utf8;
use crate::pattern::{Pattern, regex_compile_error, regex_is_match};
use crate::text::{join, join_all, lines, signed_decimal, signed_decimal_string, split_lines, string_from, to_chars, trim, trimmed};

verus! {

broadcast use vstd::string::group_string_axioms;

/// The regular expressions of commands that are never run.
pub open spec fn dangerous_patterns() -> Seq<Seq<char>> {
    seq![
        "rm\\s+-rf\\s+/"@,
        "rm\\s+-rf\\s+\\*"@,
        "mkfs"@,
        "dd\\s+if="@,
        ":\\(\\)\\{ :\\|:& \\};:"@,
    ]
}

/// The first of `patterns` that compiles and matches `command`.
pub open spec fn first_blocking(patterns: Seq<Seq<char>>, command: Seq<char>) -> Option<Seq<char>>
    decreases patterns.len(),
{
    if patterns.len() == 0 {
        None
    } else if regex_compile_error(patterns[0]) is None && regex_is_match(patterns[0], command) {
        Some(patterns[0])
    } else {
        first_blocking(patterns.drop_first(), command)
    }
}

/// The answer to a refused command.
pub open spec fn block_message(pattern: Seq<char>) -> Seq<char> {
    "\u{26a0} Blocked dangerous command pattern: "@ + pattern
}

fn dangerous_pattern(i: usize) -> (r: &'static str)
    requires
        i < 5,
    ensures
        r@ == dangerous_patterns()[i as int],
{
    match i {
        0 => "rm\\s+-rf\\s+/",
        1 => "rm\\s+-rf\\s+\\*",
        2 => "mkfs",
        3 => "dd\\s+if=",
        _ => ":\\(\\)\\{ :\\|:& \\};:",
    }
}

/// The answer when `command` matches a dangerous pattern (the first that
/// does), else `None` and the command may run.
pub fn check_command(command: &str) -> (r: Option<String>)
    ensures
        match first_blocking(dangerous_patterns(), command@) {
            Some(p) => r matches Some(m) && m@ == block_message(p),
            None => r is None,
        },
{
    let ghost ps = dangerous_patterns();
    let mut i: usize = 0;
    assert(ps.skip(0) =~= ps);
    while i < 5
        invariant
            i <= 5,
            ps == dangerous_patterns(),
            first_blocking(ps, command@) == first_blocking(ps.skip(i as int), command@),
        decreases 5 - i,
    {
        let source = dangerous_pattern(i);
        proof {
            assert(ps.skip(i as int).drop_first() =~= ps.skip(i + 1));
            assert(ps.skip(i as int)[0] == ps[i as int]);
        }
        if let Ok(re) = Pattern::new(source) {
            if re.is_match(command) {
                let mut m = "\u{26a0} Blocked dangerous command pattern: ".to_owned();
                m.append(source);
                return Some(m);
            }
        }
        i = i + 1;
    }
    assert(ps.skip(5) =~= Seq::<Seq<char>>::empty());
    None
}

/// The line the wrapped command prints its final directory on begins so.
pub open spec fn dir_marker() -> Seq<char> {
    "__PWD__:"@
}

/// `command` followed by printing the directory it ends in, on a line of
/// its own after [`dir_marker`].
pub open spec fn wrapped_command(command: Seq<char>) -> Seq<char> {
    command + "; printf '\\n__PWD__:%s\\n' \"$(pwd -P)\""@
}

/// The command line that is run for `command`.
pub fn wrap_command(command: &str) -> (r: String)
    ensures
        r@ == wrapped_command(command@),
{
    let mut r = command.to_owned();
    r.append("; printf '\\n__PWD__:%s\\n' \"$(pwd -P)\"");
    r
}

/// The text `String::from_utf8_lossy` makes of `bytes`.
pub uninterp spec fn utf8_lossy(bytes: Seq<u8>) -> Seq<char>;

/// Calls `String::from_utf8_lossy`. Claimed: the text is [`utf8_lossy`]
/// of the bytes, and valid UTF-8 is decoded unchanged.
#[verifier::external_body]
fn decode_lossy(bytes: &[u8]) -> (r: String)
    ensures
        r@ == utf8_lossy(bytes@),
        valid_utf8(bytes@) ==> encode_utf8(r@) == bytes@,
{
    String::from_utf8_lossy(bytes).into_owned()
}

/// Whether `line` reports the final directory.
pub open spec fn is_dir_line(line: Seq<char>) -> bool {
    line.len() >= 8 && line.take(8) == dir_marker()
}

/// The lines of the output that are not directory reports.
pub open spec fn kept_lines(ls: Seq<Seq<char>>) -> Seq<Seq<char>>
    decreases ls.len(),
{
    if ls.len() == 0 {
        seq![]
    } else if is_dir_line(ls.last()) {
        kept_lines(ls.drop_last())
    } else {
        kept_lines(ls.drop_last()).push(ls.last())
    }
}

/// The directory of the last directory report, if any.
pub open spec fn reported_dir(ls: Seq<Seq<char>>) -> Option<Seq<char>>
    decreases ls.len(),
{
    if ls.len() == 0 {
        None
    } else if is_dir_line(ls.last()) {
        Some(ls.last().skip(8))
    } else {
        reported_dir(ls.drop_last())
    }
}

/// `r` followed by a line break, unless `r` is empty.
pub open spec fn then_newline(r: Seq<char>) -> Seq<char> {
    if r.len() > 0 {
        r + "\n"@
    } else {
        r
    }
}

/// The answer for a command that printed `out` and `err` and ended with
/// `status`: its output without the directory report, its error output
/// after a `[stderr]` line, and a non-zero status, all trimmed.
pub open spec fn shell_text(out: Seq<char>, err: Seq<char>, status: int) -> Seq<char> {
    let r0 = trim(join(kept_lines(lines(out)), "\n"@));
    let r1 = if err.len() > 0 {
        then_newline(r0) + "[stderr]\n"@ + trim(err)
    } else {
        r0
    };
    let r2 = if status != 0 {
        then_newline(r1) + "[exit code: "@ + signed_decimal(status) + "]"@
    } else {
        r1
    };
    trim(r2)
}

/// What a finished command is reported as.
pub struct ShellReport {
    /// The answer for the model.
    pub text: String,
    /// The directory the command ended in, when it succeeded and said so.
    pub new_dir: Option<String>,
}

fn is_dir_report(line: &str) -> (r: Option<String>)
    ensures
        is_dir_line(line@) <==> r is Some,
        r matches Some(d) ==> d@ == line@.skip(8),
{
    let cs = to_chars(line);
    let marker = to_chars("__PWD__:");
    proof {
        reveal_strlit("__PWD__:");
    }
    let n = cs.len();
    if n < 8 {
        return None;
    }
    let mut k: usize = 0;
    while k < 8
        invariant
            n == cs.len(),
            n >= 8,
            marker@ == dir_marker(),
            marker@.len() == 8,
            cs@ == line@,
            k <= 8,
            forall|j: int| 0 <= j < k ==> cs@[j] == marker@[j],
        decreases 8 - k,
    {
        if cs[k] != marker[k] {
            assert(line@.take(8)[k as int] != dir_marker()[k as int]);
            return None;
        }
        k = k + 1;
    }
    assert(line@.take(8) =~= dir_marker());
    let d = string_from(&cs, 8, n);
    assert(d@ =~= line@.skip(8));
    Some(d)
}

/// The report of a command that wrote `stdout` and `stderr` and ended with
/// exit code `code` (`None` when it was killed by a signal, reported as
/// -1); `success` says whether it succeeded.
pub fn interpret_output(stdout: &[u8], stderr: &[u8], code: Option<i32>, success: bool) -> (r:
    ShellReport)
    ensures
        r.text@ == shell_text(
            utf8_lossy(stdout@),
            utf8_lossy(stderr@),
            match code {
                Some(c) => c as int,
                None => -1,
            },
        ),
        match reported_dir(lines(utf8_lossy(stdout@))) {
            Some(d) => if success {
                r.new_dir matches Some(nd) && nd@ == d
            } else {
                r.new_dir is None
            },
            None => r.new_dir is None,
        },
{
    let full_stdout = decode_lossy(stdout);
    let err = decode_lossy(stderr);
    let status: i32 = match code {
        Some(c) => c,
        None => -1,
    };
    let ls = split_lines(full_stdout.as_str());
    let n = ls.len();
    let mut kept: Vec<String> = Vec::new();
    let mut dir: Option<String> = None;
    let mut i: usize = 0;
    while i < n
        invariant
            n == ls.len(),
            ls.deep_view() == lines(full_stdout@),
            i <= n,
            kept.deep_view() == kept_lines(ls.deep_view().take(i as int)),
            match reported_dir(ls.deep_view().take(i as int)) {
                Some(d) => dir matches Some(x) && x@ == d,
                None => dir is None,
            },
        decreases n - i,
    {
        let line = ls[i].as_str();
        proof {
            let t = ls.deep_view().take(i + 1);
            assert(t.drop_last() =~= ls.deep_view().take(i as int));
            assert(t.last() == line@);
        }
        let ghost before = kept.deep_view();
        match is_dir_report(line) {
            Some(d) => {
                dir = Some(d);
            },
            None => {
                kept.push(line.to_owned());
                assert(kept.deep_view() =~= before.push(line@));
            },
        }
        i = i + 1;
    }
    assert(ls.deep_view().take(n as int) =~= ls.deep_view());
    let joined = join_all(&kept, "\n");
    let mut result = trimmed(joined.as_str());
    if !err.as_str().is_empty() {
        if !result.as_str().is_empty() {
            result.append("\n");
        }
        result.append("[stderr]\n");
        let e = trimmed(err.as_str());
        result.append(e.as_str());
    }
    if status != 0 {
        if !result.as_str().is_empty() {
            result.append("\n");
        }
        result.append("[exit code: ");
        let digits = signed_decimal_string(status);
        result.append(digits.as_str());
        result.append("]");
    }
    let text = trimmed(result.as_str());
    let new_dir = if success {
        dir
    } else {
        None
    };
    ShellReport { text, new_dir }
}

/// Whether `line` starts with `__PWD__:`, written out.
pub open spec fn starts_with_pwd(line: Seq<char>) -> bool {
    line.len() >= 8 && line.subrange(0, 8) == "__PWD__:"@
}

/// The output the shell tool reports is the command's output with only
/// the directory-report lines left out: every other line, empty ones
/// included, stays, in order.
pub proof fn law_only_directory_lines_are_dropped(ls: Seq<Seq<char>>)
    ensures
        kept_lines(ls) == ls.filter(|l: Seq<char>| !starts_with_pwd(l)),
    decreases ls.len(),
{
    reveal(Seq::filter);
    if ls.len() > 0 {
        law_only_directory_lines_are_dropped(ls.drop_last());
        assert(ls.last().len() >= 8 ==> ls.last().take(8) =~= ls.last().subrange(0, 8));
    }
}

/// For a command that succeeds silently on stderr, the answer is its
/// output with the directory-report lines left out, lines joined by line
/// feeds, trimmed: blank lines inside the output stay.
pub proof fn law_quiet_success_reports_the_output(out: Seq<char>)
    ensures
        shell_text(out, Seq::<char>::empty(), 0) == trim(
            trim(join(lines(out).filter(|l: Seq<char>| !starts_with_pwd(l)), "\n"@)),
        ),
{
    law_only_directory_lines_are_dropped(lines(out));
}

} // verus!
