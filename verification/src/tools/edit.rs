//! Editing a file by replacing a unique occurrence of a text.

use vstd::prelude::*;
use crate::text::{count_occurrences, first_match, replace_first, to_chars, find_occurrences, replace_first_occurrence,
    lemma_first_match_fits};
use crate::tools::ToolError;

verus! {

/// What `similar` renders as the unified diff of the lines of `old` and
/// `new`, with `radius` lines of context and the two file headers.
pub uninterp spec fn unified_diff(
    old: Seq<char>,
    new: Seq<char>,
    radius: nat,
    old_header: Seq<char>,
    new_header: Seq<char>,
) -> Seq<char>;

/// Calls `similar::TextDiff::from_lines(old, new).unified_diff()` with the
/// given context radius and headers, rendered to a string. Claimed: the
/// text is [`unified_diff`] of the arguments. `similar` doubles the radius
/// when it groups the changes, so the radius is kept to half of
/// `usize::MAX`.
#[verifier::external_body]
fn render_unified_diff(old: &str, new: &str, radius: usize, old_header: &str, new_header: &str) -> (r:
    String)
    requires
        radius <= usize::MAX / 2,
    ensures
        r@ == unified_diff(old@, new@, radius as nat, old_header@, new_header@),
{
    similar::TextDiff::from_lines(old, new).unified_diff().context_radius(radius).header(
        old_header,
        new_header,
    ).to_string()
}

/// The outcome of replacing `old_string` by `new_string` in `content`:
/// the edited text when `old_string` is non-empty and occurs at exactly
/// one position (overlapping occurrences count apart),
/// else the error that says why not.
pub open spec fn edit_outcome(
    path: Seq<char>,
    content: Seq<char>,
    old_string: Seq<char>,
    new_string: Seq<char>,
) -> Result<Seq<char>, EditRefusal> {
    if old_string.len() == 0 {
        Err(EditRefusal::Empty)
    } else if count_occurrences(content, old_string) == 0 {
        Err(EditRefusal::Missing)
    } else if count_occurrences(content, old_string) > 1 {
        Err(EditRefusal::Repeated(count_occurrences(content, old_string)))
    } else {
        Ok(replace_first(content, old_string, new_string))
    }
}

/// Why an edit is refused.
pub enum EditRefusal {
    Empty,
    Missing,
    Repeated(nat),
}

/// Whether `e` is the error that reports refusal `why` for `path`.
pub open spec fn reports(e: ToolError, why: EditRefusal, path: Seq<char>) -> bool {
    match why {
        EditRefusal::Empty => e is EmptyOldString,
        EditRefusal::Missing => e matches ToolError::NotFound(p) && p@ == path,
        EditRefusal::Repeated(k) => e matches ToolError::Ambiguous(c, p) && c == k && p@ == path,
    }
}

/// The report of a successful edit of `path` from `before` to `after`.
pub open spec fn edit_report(path: Seq<char>, before: Seq<char>, after: Seq<char>) -> Seq<char> {
    "Successfully edited "@ + path + "\n"@ + unified_diff(
        before,
        after,
        3,
        "a/"@ + path,
        "b/"@ + path,
    )
}

/// Replaces an exact, unique occurrence of a text in a file.
pub struct EditFileTool;

impl EditFileTool {
    /// The tool's name.
    pub fn name(&self) -> (r: String)
        ensures
            r@ == "edit_file"@,
    {
        "edit_file".to_owned()
    }

    /// What the tool does, for the model.
    pub fn description(&self) -> (r: String)
        ensures
            r@
                == "Edit a file by replacing an exact string match. old_string must appear exactly once in the file for safety. Include enough surrounding context to ensure uniqueness."@,
    {
        "Edit a file by replacing an exact string match. old_string must appear exactly once in the file for safety. Include enough surrounding context to ensure uniqueness.".to_owned()
    }

    /// Refuses an empty `old_string` before the file is read.
    pub fn check_old_string(&self, old_string: &str) -> (r: Result<(), ToolError>)
        ensures
            old_string@.len() == 0 <==> r is Err,
            r matches Err(e) ==> e is EmptyOldString,
    {
        if old_string.is_empty() {
            Err(ToolError::EmptyOldString)
        } else {
            Ok(())
        }
    }

    /// The text of the file at `path` after replacing `old_string` by
    /// `new_string` in its `content`; refused unless `old_string` is
    /// non-empty and occurs at exactly one position; an occurrence that
    /// overlaps another counts as a second one.
    pub fn apply(&self, path: &str, content: &str, old_string: &str, new_string: &str) -> (r: Result<
        String,
        ToolError,
    >)
        ensures
            match edit_outcome(path@, content@, old_string@, new_string@) {
                Ok(text) => r matches Ok(s) && s@ == text,
                Err(why) => r matches Err(e) && reports(e, why, path@),
            },
    {
        if old_string.is_empty() {
            return Err(ToolError::EmptyOldString);
        }
        let sc = to_chars(content);
        let pc = to_chars(old_string);
        let (count, _) = find_occurrences(&sc, &pc);
        if count == 0 {
            return Err(ToolError::NotFound(path.to_owned()));
        }
        if count > 1 {
            return Err(ToolError::Ambiguous(count, path.to_owned()));
        }
        Ok(replace_first_occurrence(content, old_string, new_string))
    }

    /// What a successful edit answers: a confirmation naming `path` and the
    /// unified diff from `before` to `after`.
    pub fn report(&self, path: &str, before: &str, after: &str) -> (r: String)
        ensures
            r@ == edit_report(path@, before@, after@),
    {
        let mut old_header = "a/".to_owned();
        old_header.append(path);
        let mut new_header = "b/".to_owned();
        new_header.append(path);
        let diff = render_unified_diff(before, after, 3, old_header.as_str(), new_header.as_str());
        let mut r = "Successfully edited ".to_owned();
        r.append(path);
        r.append("\n");
        r.append(diff.as_str());
        r
    }
}


/// An edit that goes through splits the file around the one occurrence of
/// `old_string` and puts `new_string` in its place, keeping everything
/// before and after it.
pub proof fn law_edit_replaces_the_occurrence(
    path: Seq<char>,
    content: Seq<char>,
    old_string: Seq<char>,
    new_string: Seq<char>,
)
    ensures
        edit_outcome(path, content, old_string, new_string) matches Ok(edited) ==> {
            let i = first_match(content, old_string);
            &&& count_occurrences(content, old_string) == 1
            &&& 0 <= i && i + old_string.len() <= content.len()
            &&& content == content.take(i) + old_string + content.skip(i + old_string.len())
            &&& edited == content.take(i) + new_string + content.skip(i + old_string.len())
        },
{
    if edit_outcome(path, content, old_string, new_string) is Ok {
        lemma_count_implies_match(content, old_string);
        lemma_first_match_fits(content, old_string);
        let i = first_match(content, old_string);
        assert(content =~= content.take(i) + content.subrange(i, i + old_string.len()) + content.skip(
            i + old_string.len(),
        ));
    }
}

/// A text that counts an occurrence has a leftmost one.
proof fn lemma_count_implies_match(s: Seq<char>, p: Seq<char>)
    ensures
        count_occurrences(s, p) > 0 ==> first_match(s, p) >= 0,
    decreases s.len(),
{
    if p.len() > 0 && s.len() >= p.len() && s.take(p.len() as int) != p {
        lemma_count_implies_match(s.drop_first(), p);
    }
}

/// Whether `p` occurs in `s` at position `j`.
pub open spec fn occurs_at_position(s: Seq<char>, p: Seq<char>, j: int) -> bool {
    0 <= j && j + p.len() <= s.len() && s.subrange(j, j + p.len()) == p
}

/// Each position where `p` occurs counts, beyond those that come later.
proof fn lemma_occurrence_counts(s: Seq<char>, p: Seq<char>, j: int)
    requires
        p.len() > 0,
        occurs_at_position(s, p, j),
    ensures
        count_occurrences(s, p) >= 1 + count_occurrences(s.skip(j + 1), p),
    decreases j,
{
    if j == 0 {
        assert(s.take(p.len() as int) =~= s.subrange(0, p.len() as int));
        assert(s.drop_first() =~= s.skip(1));
    } else {
        let t = s.drop_first();
        assert(t.subrange(j - 1, j - 1 + p.len()) =~= s.subrange(j, j + p.len()));
        lemma_occurrence_counts(t, p, j - 1);
        assert(t.skip(j) =~= s.skip(j + 1));
    }
}

/// An edit goes through only when `old_string` occurs at a single position
/// of the file: whenever it occurs at two different positions, overlapping
/// or not, the edit is refused; and when it goes through, the position it
/// replaces is the only one.
pub proof fn law_edit_needs_a_unique_position(
    path: Seq<char>,
    content: Seq<char>,
    old_string: Seq<char>,
    new_string: Seq<char>,
    j1: int,
    j2: int,
)
    ensures
        occurs_at_position(content, old_string, j1) && occurs_at_position(content, old_string, j2)
            && j1 != j2 ==> edit_outcome(path, content, old_string, new_string) is Err,
        edit_outcome(path, content, old_string, new_string) is Ok && occurs_at_position(
            content,
            old_string,
            j1,
        ) ==> j1 == first_match(content, old_string),
{
    if old_string.len() > 0 {
        if occurs_at_position(content, old_string, j1) && occurs_at_position(content, old_string, j2)
            && j1 != j2 {
            let (a, b) = if j1 < j2 {
                (j1, j2)
            } else {
                (j2, j1)
            };
            lemma_occurrence_counts(content, old_string, a);
            let t = content.skip(a + 1);
            assert(t.subrange(b - a - 1, b - a - 1 + old_string.len()) =~= content.subrange(
                b,
                b + old_string.len(),
            ));
            lemma_occurrence_counts(t, old_string, b - a - 1);
        }
        if edit_outcome(path, content, old_string, new_string) is Ok && occurs_at_position(
            content,
            old_string,
            j1,
        ) {
            lemma_count_implies_match(content, old_string);
            lemma_first_match_fits(content, old_string);
            let i = first_match(content, old_string);
            if j1 != i {
                let (a, b) = if j1 < i {
                    (j1, i)
                } else {
                    (i, j1)
                };
                lemma_occurrence_counts(content, old_string, a);
                let t = content.skip(a + 1);
                assert(t.subrange(b - a - 1, b - a - 1 + old_string.len()) =~= content.subrange(
                    b,
                    b + old_string.len(),
                ));
                lemma_occurrence_counts(t, old_string, b - a - 1);
            }
        }
    }
}

} // verus!
