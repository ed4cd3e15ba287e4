//! Keeps a conversation within a token budget: long tool outputs are
//! snipped, old history is summarized, and as a last resort the history is
//! collapsed to the most recent messages.

use vstd::prelude::*;
use vstd::utf8::encode_utf8;
use crate::scale::{scaled, scaled_exec, law_threshold_order, HALF, SEVEN_TENTHS, NINE_TENTHS};
use crate::message::{Message, MessageView, text_message, views, opt_text};
use crate::text::{lines, join, decimal, same_text, split_lines, join_range, decimal_string, newline_count,
    lemma_newline_count_concat, lemma_newline_count_single, lemma_lines_have_no_newline,
    lemma_lines_bound, lemma_join_newline_count, lemma_decimal_no_newline};

verus! {

broadcast use vstd::string::group_string_axioms;

// ---------------------------------------------------------------------
// Specifications
// ---------------------------------------------------------------------

/// Length in bytes of the UTF-8 encoding of `s`, as `str::len` reports it.
pub open spec fn byte_len(s: Seq<char>) -> usize {
    encode_utf8(s).len() as usize
}

/// Rough token count of one message: a quarter of its content's bytes.
pub open spec fn message_tokens(m: MessageView) -> nat {
    match m.content {
        Some(c) => (byte_len(c) / 4) as nat,
        None => 0,
    }
}

/// Sum of the token counts of `ms`.
pub open spec fn total_tokens(ms: Seq<MessageView>) -> nat
    decreases ms.len(),
{
    if ms.len() == 0 {
        0
    } else {
        total_tokens(ms.drop_last()) + message_tokens(ms.last())
    }
}

/// The token estimate of `ms`, held at `usize::MAX`.
pub open spec fn token_estimate(ms: Seq<MessageView>) -> usize {
    if total_tokens(ms) <= usize::MAX {
        total_tokens(ms) as usize
    } else {
        usize::MAX
    }
}

/// A tool output is snipped when it is over 2000 bytes and over 10 lines.
pub open spec fn needs_snip(m: MessageView) -> bool {
    &&& m.role == "tool"@
    &&& m.content is Some
    &&& byte_len(m.content->0) > 2000
    &&& lines(m.content->0).len() > 10
}

/// What a snipped output becomes: its first three lines, a note with the
/// number of lines left out, and its last three lines.
pub open spec fn snip_text(c: Seq<char>) -> Seq<char> {
    let ls = lines(c);
    let n = ls.len();
    join(ls.take(3), "\n"@) + "\n... ("@ + decimal((n - 6) as nat) + " lines snipped) ...\n"@
        + join(ls.skip(n - 3), "\n"@)
}

/// One message after snipping.
pub open spec fn snip_message(m: MessageView) -> MessageView {
    if needs_snip(m) {
        MessageView { content: Some(snip_text(m.content->0)), ..m }
    } else {
        m
    }
}

/// All messages after snipping.
pub open spec fn snip_all(ms: Seq<MessageView>) -> Seq<MessageView> {
    ms.map_values(|m: MessageView| snip_message(m))
}

/// Whether snipping changes any message of `ms`.
pub open spec fn any_snip(ms: Seq<MessageView>) -> bool {
    exists|i: int| 0 <= i < ms.len() && needs_snip(#[trigger] ms[i])
}

/// 1 when the history starts with a system message, else 0: the system
/// message is never summarized or collapsed away.
pub open spec fn system_offset(ms: Seq<MessageView>) -> int {
    if ms.len() > 0 && ms[0].role == "system"@ {
        1
    } else {
        0
    }
}

/// The note that replaces collapsed history.
pub open spec fn collapse_notice() -> MessageView {
    text_message("user"@, "[Hard Context Collapse - keeping only most recent]"@)
}

/// The history after a hard collapse: the system message (if any), the
/// notice, and the 4 most recent messages.
pub open spec fn collapse(ms: Seq<MessageView>) -> Seq<MessageView> {
    let start = system_offset(ms);
    if ms.len() > 4 + start {
        ms.take(start) + seq![collapse_notice()] + ms.skip(ms.len() - 4)
    } else {
        ms
    }
}

/// Index where the summarized part ends: all but the 8 most recent messages.
pub open spec fn summary_end(ms: Seq<MessageView>) -> int {
    if ms.len() >= 8 {
        ms.len() - 8
    } else {
        0
    }
}

/// The request appended to the history that is to be summarized.
pub open spec fn summary_prompt() -> MessageView {
    text_message(
        "user"@,
        "Summarize the following conversation history briefly, preserving key decisions and edited files."@,
    )
}

/// The message that carries a summary; a missing summary is named so.
pub open spec fn summary_message(summary: Option<Seq<char>>) -> MessageView {
    text_message(
        "user"@,
        "[Context Summary]\n"@ + match summary {
            Some(s) => s,
            None => "No summary generated"@,
        },
    )
}

/// The reply placed after a summary.
pub open spec fn summary_ack() -> MessageView {
    text_message("assistant"@, "I have summarized the previous context."@)
}

/// `ms` with the summary and its reply put in at `at`.
pub open spec fn with_summary(ms: Seq<MessageView>, at: int, summary: Option<Seq<char>>) -> Seq<
    MessageView,
> {
    ms.take(at) + seq![summary_message(summary), summary_ack()] + ms.skip(at)
}

// ---------------------------------------------------------------------
// The manager
// ---------------------------------------------------------------------

/// Token thresholds at which the history is compressed.
pub struct ContextManager {
    max_tokens: usize,
    snip_at: usize,
    summarize_at: usize,
    collapse_at: usize,
}

/// What compression needs next.
pub enum CompressStep {
    /// Compression is over; whether the history changed.
    Done(bool),
    /// A summary of `request` is needed, to be handed to
    /// [`ContextManager::resume_compress`] with `resume`.
    Summarize { request: Vec<Message>, resume: Resume },
}

/// Where a compression stands while a summary is being made.
pub struct Resume {
    tokens: usize,
    changed: bool,
    at: usize,
}

impl Resume {
    /// Token estimate of the history before compression.
    pub closed spec fn tokens(self) -> usize {
        self.tokens
    }

    /// Whether snipping changed the history.
    pub closed spec fn changed(self) -> bool {
        self.changed
    }

    /// Where the summary goes.
    pub closed spec fn at(self) -> usize {
        self.at
    }
}

impl ContextManager {
    /// The budget the manager was made with.
    pub closed spec fn max_tokens(self) -> usize {
        self.max_tokens
    }

    /// Above this estimate, long tool outputs are snipped.
    pub closed spec fn snip_at(self) -> usize {
        self.snip_at
    }

    /// Above this estimate, old history is summarized.
    pub closed spec fn summarize_at(self) -> usize {
        self.summarize_at
    }

    /// Above this estimate, history is collapsed.
    pub closed spec fn collapse_at(self) -> usize {
        self.collapse_at
    }

    /// History after the collapse stage of compression.
    pub open spec fn collapse_stage(self, tokens: usize, ms: Seq<MessageView>) -> Seq<MessageView> {
        if tokens > self.collapse_at() && ms.len() > 4 {
            collapse(ms)
        } else {
            ms
        }
    }

    /// History after the snip stage of compression.
    pub open spec fn snip_stage(self, tokens: usize, ms: Seq<MessageView>) -> Seq<MessageView> {
        if tokens > self.snip_at() {
            snip_all(ms)
        } else {
            ms
        }
    }

    /// A manager for a budget of `max_tokens`: snipping starts above half of
    /// it, summarizing above 70% and collapsing above 90%, each fraction
    /// taken as `(max_tokens as f64 * fraction) as usize` computes it (see
    /// [`scaled`]).
    pub fn new(max_tokens: usize) -> (r: Self)
        ensures
            r.max_tokens() == max_tokens,
            r.snip_at() == scaled(max_tokens as nat, HALF as nat),
            r.summarize_at() == scaled(max_tokens as nat, SEVEN_TENTHS as nat),
            r.collapse_at() == scaled(max_tokens as nat, NINE_TENTHS as nat),
            r.snip_at() <= r.summarize_at() <= r.collapse_at() <= max_tokens,
            max_tokens < 0x20_0000_0000_0000 ==> r.snip_at() == max_tokens / 2,
    {
        proof {
            law_threshold_order(max_tokens as nat);
        }
        ContextManager {
            max_tokens,
            snip_at: scaled_exec(max_tokens, HALF),
            summarize_at: scaled_exec(max_tokens, SEVEN_TENTHS),
            collapse_at: scaled_exec(max_tokens, NINE_TENTHS),
        }
    }

    /// The estimate above which tool outputs are snipped.
    pub fn snip_threshold(&self) -> (r: usize)
        ensures
            r == self.snip_at(),
    {
        self.snip_at
    }

    /// The estimate above which old history is summarized.
    pub fn summarize_threshold(&self) -> (r: usize)
        ensures
            r == self.summarize_at(),
    {
        self.summarize_at
    }

    /// The estimate above which history is collapsed.
    pub fn collapse_threshold(&self) -> (r: usize)
        ensures
            r == self.collapse_at(),
    {
        self.collapse_at
    }

    /// Rough token count of `messages`.
    pub fn estimate_tokens(&self, messages: &[Message]) -> (r: usize)
        ensures
            r == token_estimate(views(messages@)),
    {
        let mut total: usize = 0;
        let mut i: usize = 0;
        while i < messages.len()
            invariant
                i <= messages@.len(),
                total == token_estimate(views(messages@.take(i as int))),
            decreases messages@.len() - i,
        {
            let n = match &messages[i].content {
                Some(c) => c.as_str().len() / 4,
                None => 0,
            };
            proof {
                let vs = views(messages@.take(i + 1));
                assert(vs.drop_last() =~= views(messages@.take(i as int)));
                assert(vs.last() == messages@[i as int]@);
            }
            total = total.saturating_add(n);
            i = i + 1;
        }
        assert(messages@.take(messages@.len() as int) =~= messages@);
        total
    }
}


/// The snipped text of `m`'s content, when `m` is to be snipped.
fn snipped_content(m: &Message) -> (r: Option<String>)
    ensures
        r is Some <==> needs_snip(m@),
        r matches Some(s) ==> s@ == snip_text(m@.content->0),
{
    if !same_text(m.role.as_str(), "tool") {
        return None;
    }
    match &m.content {
        None => None,
        Some(content) => {
            if content.as_str().len() <= 2000 {
                return None;
            }
            let ls = split_lines(content.as_str());
            let n = ls.len();
            if n <= 10 {
                return None;
            }
            let mut s = join_range(&ls, 0, 3, "\n");
            s.append("\n... (");
            let count = decimal_string(n - 6);
            s.append(count.as_str());
            s.append(" lines snipped) ...\n");
            let tail = join_range(&ls, n - 3, n, "\n");
            s.append(tail.as_str());
            proof {
                let dv = ls.deep_view();
                assert(dv.subrange(0, 3) =~= dv.take(3));
                assert(dv.subrange(n - 3, n as int) =~= dv.skip(n - 3));
            }
            Some(s)
        },
    }
}

impl ContextManager {
    /// Snips every tool output that is over 2000 bytes and over 10 lines
    /// (see [`snip_text`]); returns whether any was snipped.
    pub fn snip_tool_outputs(&self, messages: &mut [Message]) -> (changed: bool)
        ensures
            views(final(messages)@) == snip_all(views(old(messages)@)),
            changed == any_snip(views(old(messages)@)),
    {
        let mut changed = false;
        let n = messages.len();
        let mut i: usize = 0;
        while i < n
            invariant
                n == messages@.len() == old(messages)@.len(),
                i <= n,
                forall|j: int| 0 <= j < i ==> #[trigger] messages@[j]@ == snip_message(old(messages)@[j]@),
                forall|j: int| i <= j < n ==> #[trigger] messages@[j] == old(messages)@[j],
                changed == exists|j: int| 0 <= j < i && needs_snip(#[trigger] old(messages)@[j]@),
            decreases n - i,
        {
            if let Some(s) = snipped_content(&messages[i]) {
                messages[i].content = Some(s);
                changed = true;
            }
            i = i + 1;
        }
        proof {
            let vs = views(old(messages)@);
            assert(views(messages@) =~= snip_all(vs));
            if changed {
                let j = choose|j: int| 0 <= j < n && needs_snip(#[trigger] old(messages)@[j]@);
                assert(needs_snip(vs[j]));
            }
            if any_snip(vs) {
                let j = choose|j: int| 0 <= j < vs.len() && needs_snip(#[trigger] vs[j]);
                assert(needs_snip(old(messages)@[j]@));
            }
        }
        changed
    }
}


/// Whether the history starts with a system message.
fn starts_with_system(messages: &Vec<Message>) -> (r: bool)
    ensures
        r == (system_offset(views(messages@)) == 1),
{
    messages.len() > 0 && same_text(messages[0].role.as_str(), "system")
}

impl ContextManager {
    /// Whether compression asks for a summary of `ms` (estimated at
    /// `tokens` before snipping): above the summary threshold, with over 10
    /// messages, and with something older than the 8 most recent messages
    /// that is not the system message.
    pub open spec fn wants_summary(self, tokens: usize, ms: Seq<MessageView>) -> bool {
        &&& tokens > self.summarize_at()
        &&& ms.len() > 10
        &&& summary_end(ms) > system_offset(ms)
    }

    /// Keeps the system message (if any) and the 4 most recent messages,
    /// with a notice in place of everything between.
    pub fn hard_collapse(&self, messages: &mut Vec<Message>)
        ensures
            views(final(messages)@) == collapse(views(old(messages)@)),
    {
        let start: usize = if starts_with_system(messages) {
            1
        } else {
            0
        };
        let keep: usize = 4;
        let len = messages.len();
        if len > keep + start {
            let ghost before = messages@;
            let mut recent = messages.split_off(len - keep);
            let _dropped = messages.split_off(start);
            let notice = Message::text(
                "user",
                "[Hard Context Collapse - keeping only most recent]".to_owned(),
            );
            messages.push(notice);
            messages.append(&mut recent);
            proof {
                let vs = views(before);
                assert(views(messages@) =~= vs.take(start as int) + seq![collapse_notice()] + vs.skip(
                    len - 4,
                ));
            }
        }
    }

    /// First part of compressing the history: estimates its tokens, snips
    /// long tool outputs above the snip threshold, and then either asks for
    /// a summary of the old part of the history (taking that part out of
    /// `messages` and into the request, followed by the summary prompt) or,
    /// when no summary is asked for, collapses the history above the
    /// collapse threshold when it holds more than 4 messages.
    pub fn begin_compress(&self, messages: &mut Vec<Message>) -> (r: CompressStep)
        ensures
            ({
                let ms0 = views(old(messages)@);
                let t = token_estimate(ms0);
                let ms1 = self.snip_stage(t, ms0);
                let changed = t > self.snip_at() && any_snip(ms0);
                let start = system_offset(ms1);
                let end = summary_end(ms1);
                match r {
                    CompressStep::Summarize { request, resume } => {
                        &&& self.wants_summary(t, ms1)
                        &&& views(request@) == ms1.subrange(start, end).push(summary_prompt())
                        &&& views(final(messages)@) == ms1.take(start) + ms1.skip(end)
                        &&& resume.tokens() == t
                        &&& resume.changed() == changed
                        &&& resume.at() == start
                    },
                    CompressStep::Done(c) => {
                        &&& !self.wants_summary(t, ms1)
                        &&& views(final(messages)@) == self.collapse_stage(t, ms1)
                        &&& c == (changed || (t > self.collapse_at() && ms1.len() > 4))
                    },
                }
            }),
    {
        let current = self.estimate_tokens(messages.as_slice());
        let mut changed = false;
        if current > self.snip_at {
            changed = self.snip_tool_outputs(messages.as_mut_slice());
        }
        let ghost ms1 = views(messages@);
        if current > self.summarize_at && messages.len() > 10 {
            let start: usize = if starts_with_system(messages) {
                1
            } else {
                0
            };
            let split = messages.len().saturating_sub(8);
            if split > start {
                let mut recent = messages.split_off(split);
                let mut request = messages.split_off(start);
                messages.append(&mut recent);
                let ghost older = views(request@);
                let prompt = Message::text(
                    "user",
                    "Summarize the following conversation history briefly, preserving key decisions and edited files.".to_owned(),
                );
                request.push(prompt);
                proof {
                    assert(older =~= ms1.subrange(start as int, split as int));
                    assert(views(request@) =~= older.push(summary_prompt()));
                    assert(views(messages@) =~= ms1.take(start as int) + ms1.skip(split as int));
                }
                return CompressStep::Summarize {
                    request,
                    resume: Resume { tokens: current, changed, at: start },
                };
            }
        }
        if current > self.collapse_at && messages.len() > 4 {
            self.hard_collapse(messages);
            changed = true;
        }
        CompressStep::Done(changed)
    }

    /// Second part of compressing the history, once the summary asked for
    /// by [`Self::begin_compress`] is in: puts the summary message and its
    /// reply where the summarized part was, then collapses the history above
    /// the collapse threshold when it holds more than 4 messages. The
    /// history has changed, so the result is `true`.
    pub fn resume_compress(&self, messages: &mut Vec<Message>, resume: Resume, summary: Option<
        String,
    >) -> (r: bool)
        ensures
            ({
                let ms = views(old(messages)@);
                let at = if resume.at() <= ms.len() {
                    resume.at() as int
                } else {
                    ms.len() as int
                };
                views(final(messages)@) == self.collapse_stage(
                    resume.tokens(),
                    with_summary(ms, at, opt_text(summary)),
                )
            }),
            r,
    {
        let at = if resume.at <= messages.len() {
            resume.at
        } else {
            messages.len()
        };
        let mut text = "[Context Summary]\n".to_owned();
        match &summary {
            Some(s) => text.append(s.as_str()),
            None => text.append("No summary generated"),
        }
        let ghost ms = views(messages@);
        messages.insert(at, Message::text("user", text));
        let ack = Message::text("assistant", "I have summarized the previous context.".to_owned());
        let grown = messages.len();
        assert(at < grown);
        messages.insert(at + 1, ack);
        assert(views(messages@) =~= with_summary(ms, at as int, opt_text(summary)));
        if resume.tokens > self.collapse_at && messages.len() > 4 {
            self.hard_collapse(messages);
        }
        true
    }
}


// ---------------------------------------------------------------------
// Laws
// ---------------------------------------------------------------------

/// A snipped output has at most 7 lines, so it is never snipped again.
proof fn lemma_snip_text_lines(c: Seq<char>)
    requires
        lines(c).len() > 10,
    ensures
        lines(snip_text(c)).len() <= 7,
{
    let ls = lines(c);
    let n = ls.len();
    lemma_lines_have_no_newline(c);
    let head = ls.take(3);
    let tail = ls.skip(n - 3);
    assert forall|k: int, j: int| 0 <= k < head.len() && 0 <= j < head[k].len() implies head[k][j]
        != '\n' by {
        assert(head[k] == ls[k]);
    }
    assert forall|k: int, j: int| 0 <= k < tail.len() && 0 <= j < tail[k].len() implies tail[k][j]
        != '\n' by {
        assert(tail[k] == ls[n - 3 + k]);
    }
    lemma_join_newline_count(head);
    lemma_join_newline_count(tail);
    let open_note = "\n... ("@;
    let close_note = " lines snipped) ...\n"@;
    reveal_strlit("\n... (");
    reveal_strlit(" lines snipped) ...\n");
    lemma_newline_count_single(open_note, 0);
    lemma_newline_count_single(close_note, close_note.len() - 1);
    let digits = decimal((n - 6) as nat);
    lemma_decimal_no_newline((n - 6) as nat);
    let a = join(head, "\n"@);
    let b = join(tail, "\n"@);
    lemma_newline_count_concat(a, open_note);
    lemma_newline_count_concat(a + open_note, digits);
    lemma_newline_count_concat(a + open_note + digits, close_note);
    lemma_newline_count_concat(a + open_note + digits + close_note, b);
    assert(newline_count(snip_text(c)) == 6);
    lemma_lines_bound(snip_text(c));
}

/// Snipping is idempotent: snipping already snipped messages changes
/// nothing, so repeated compression never snips an output twice.
pub proof fn law_snip_idempotent(ms: Seq<MessageView>)
    ensures
        snip_all(snip_all(ms)) == snip_all(ms),
{
    assert forall|i: int| 0 <= i < ms.len() implies snip_message(snip_message(ms[i]))
        == snip_message(ms[i]) by {
        if needs_snip(ms[i]) {
            lemma_snip_text_lines(ms[i].content->0);
        }
    }
    assert(snip_all(snip_all(ms)) =~= snip_all(ms));
}

/// With its thresholds in order (as [`ContextManager::new`] makes them), a
/// history estimated at or below the snip threshold is left as it is: no
/// snipping, no summary, no collapse.
pub proof fn law_quiet_at_or_below_snip(cm: ContextManager, tokens: usize, ms: Seq<MessageView>)
    requires
        cm.snip_at() <= cm.summarize_at() <= cm.collapse_at(),
        tokens <= cm.snip_at(),
    ensures
        cm.snip_stage(tokens, ms) == ms,
        !cm.wants_summary(tokens, ms),
        cm.collapse_stage(tokens, ms) == ms,
{
}

/// Every message counts toward the estimate, whatever its role: appending
/// a message raises the total by a quarter of its content's UTF-8 bytes
/// (nothing for a message without content), and an empty history counts 0.
pub proof fn law_tokens_count_every_message(ms: Seq<MessageView>, m: MessageView)
    ensures
        total_tokens(Seq::<MessageView>::empty()) == 0,
        total_tokens(ms.push(m)) == total_tokens(ms) + match m.content {
            Some(c) => ((encode_utf8(c).len() as usize) / 4) as nat,
            None => 0nat,
        },
{
    assert(ms.push(m).drop_last() =~= ms);
}

/// Snipping changes a message exactly when it is a tool output whose
/// content is over 2000 UTF-8 bytes and over 10 lines; every other
/// message, in particular every output of at most 2000 bytes, is kept as
/// it is.
pub proof fn law_snip_changes_exactly_long_tool_outputs(ms: Seq<MessageView>)
    ensures
        forall|i: int|
            0 <= i < ms.len() ==> (#[trigger] snip_all(ms)[i] != ms[i] <==> {
                &&& ms[i].role == "tool"@
                &&& ms[i].content is Some
                &&& encode_utf8(ms[i].content->0).len() as usize > 2000
                &&& lines(ms[i].content->0).len() > 10
            }),
{
    assert forall|i: int| 0 <= i < ms.len() implies (#[trigger] snip_all(ms)[i] != ms[i] <==> {
        &&& ms[i].role == "tool"@
        &&& ms[i].content is Some
        &&& encode_utf8(ms[i].content->0).len() as usize > 2000
        &&& lines(ms[i].content->0).len() > 10
    }) by {
        if needs_snip(ms[i]) {
            lemma_snip_text_lines(ms[i].content->0);
            assert(snip_text(ms[i].content->0) != ms[i].content->0);
        }
    }
}

/// Snipping changes the history exactly when some tool output is to be
/// snipped, so the result of [`ContextManager::snip_tool_outputs`] says
/// whether the history changed.
pub proof fn law_snip_changes_iff_needed(ms: Seq<MessageView>)
    ensures
        any_snip(ms) <==> snip_all(ms) != ms,
{
    if any_snip(ms) {
        let i = choose|i: int| 0 <= i < ms.len() && needs_snip(#[trigger] ms[i]);
        let c = ms[i].content->0;
        lemma_snip_text_lines(c);
        assert(snip_text(c) != c);
        assert(snip_all(ms)[i] != ms[i]);
    } else {
        assert(snip_all(ms) =~= ms);
    }
}

/// Snipping keeps the number and order of messages, and changes nothing
/// but the content of tool messages.
pub proof fn law_snip_touches_only_tool_content(ms: Seq<MessageView>)
    ensures
        snip_all(ms).len() == ms.len(),
        forall|i: int|
            0 <= i < ms.len() ==> {
                &&& #[trigger] snip_all(ms)[i].role == ms[i].role
                &&& snip_all(ms)[i].tool_calls == ms[i].tool_calls
                &&& snip_all(ms)[i].tool_call_id == ms[i].tool_call_id
                &&& ms[i].role != "tool"@ ==> snip_all(ms)[i] == ms[i]
            },
{
}

/// A hard collapse keeps the system message in front and the 4 most
/// recent messages at the end, in order, with the notice between; when
/// there is nothing to drop it changes nothing.
pub proof fn law_collapse_keeps_system_and_recent(ms: Seq<MessageView>)
    ensures
        ({
            let start = system_offset(ms);
            let r = collapse(ms);
            if ms.len() > 4 + start {
                &&& r.len() == start + 5
                &&& r.take(start) == ms.take(start)
                &&& r[start] == collapse_notice()
                &&& r.skip(start + 1) == ms.skip(ms.len() - 4)
            } else {
                r == ms
            }
        }),
{
    let start = system_offset(ms);
    if ms.len() > 4 + start {
        let r = collapse(ms);
        assert(r.take(start) =~= ms.take(start));
        assert(r.skip(start + 1) =~= ms.skip(ms.len() - 4));
    }
}

/// Collapsing a collapsed history changes nothing.
pub proof fn law_collapse_idempotent(ms: Seq<MessageView>)
    ensures
        collapse(collapse(ms)) == collapse(ms),
{
    let start = system_offset(ms);
    let r = collapse(ms);
    if ms.len() > 4 + start {
        reveal_strlit("user");
        reveal_strlit("system");
        if start == 1 {
            assert(r[0] == ms[0]);
        } else {
            assert(r[0] == collapse_notice());
            assert(collapse_notice().role != "system"@) by {
                assert(collapse_notice().role[0] != "system"@[0]);
            }
        }
        assert(system_offset(r) == start);
        assert(r.skip(r.len() - 4) =~= ms.skip(ms.len() - 4));
        assert(collapse(r) =~= r);
    }
}

/// When compression asks for a summary, the history that stays keeps the
/// system message in front and the 8 most recent messages, in order; the
/// request holds exactly the messages between, then the summary prompt.
pub proof fn law_summary_keeps_system_and_recent(ms: Seq<MessageView>)
    requires
        summary_end(ms) > system_offset(ms),
    ensures
        ({
            let start = system_offset(ms);
            let end = summary_end(ms);
            let kept = ms.take(start) + ms.skip(end);
            &&& kept.len() == start + 8
            &&& kept.take(start) == ms.take(start)
            &&& kept.skip(start) == ms.skip(ms.len() - 8)
            &&& ms.take(start) + ms.subrange(start, end) + ms.skip(end) == ms
        }),
{
    let start = system_offset(ms);
    let end = summary_end(ms);
    let kept = ms.take(start) + ms.skip(end);
    assert(kept.take(start) =~= ms.take(start));
    assert(kept.skip(start) =~= ms.skip(ms.len() - 8));
    assert(ms.take(start) + ms.subrange(start, end) + ms.skip(end) =~= ms);
}


/// Compression never loses a leading system message: snipping leaves it as
/// it is, and it stays in front through a collapse, the removal of the
/// summarized part, and the insertion of the summary.
pub proof fn law_system_message_survives_compression(
    cm: ContextManager,
    tokens: usize,
    ms: Seq<MessageView>,
    summary: Option<Seq<char>>,
)
    requires
        ms.len() > 0,
        ms[0].role == "system"@,
    ensures
        ({
            let snipped = cm.snip_stage(tokens, ms);
            let kept = snipped.take(1) + snipped.skip(summary_end(snipped));
            &&& snipped[0] == ms[0]
            &&& cm.collapse_stage(tokens, snipped)[0] == ms[0]
            &&& (summary_end(snipped) > 1 ==> kept[0] == ms[0])
            &&& (summary_end(snipped) > 1 ==> cm.collapse_stage(
                tokens,
                with_summary(kept, 1, summary),
            )[0] == ms[0])
        }),
{
    reveal_strlit("system");
    reveal_strlit("tool");
    assert(ms[0].role != "tool"@) by {
        if ms[0].role.len() == "tool"@.len() {
            assert(ms[0].role[0] != "tool"@[0]);
        }
    }
    let snipped = cm.snip_stage(tokens, ms);
    assert(snipped[0] == ms[0]);
    assert(system_offset(snipped) == 1);
    law_collapse_keeps_system_and_recent(snipped);
    if summary_end(snipped) > 1 {
        let kept = snipped.take(1) + snipped.skip(summary_end(snipped));
        assert(kept[0] == ms[0]);
        let with = with_summary(kept, 1, summary);
        assert(with[0] == ms[0]);
        assert(system_offset(with) == 1);
        law_collapse_keeps_system_and_recent(with);
    }
}

} // verus!
