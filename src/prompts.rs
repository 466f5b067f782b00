use crate::retrieval::MessageResult;
use crate::summarize::ChannelSummaryRecord;
use vstd::prelude::*;

verus! {

/// The decimal digits of `n`.
pub open spec fn decimal(n: nat) -> Seq<char>
    decreases n,
{
    if n < 10 {
        seq![digit_char(n)]
    } else {
        decimal(n / 10).push(digit_char(n % 10))
    }
}

pub open spec fn digit_char(d: nat) -> char {
    if d == 0 { '0' }
    else if d == 1 { '1' }
    else if d == 2 { '2' }
    else if d == 3 { '3' }
    else if d == 4 { '4' }
    else if d == 5 { '5' }
    else if d == 6 { '6' }
    else if d == 7 { '7' }
    else if d == 8 { '8' }
    else { '9' }
}

fn digit(d: u64) -> (c: char)
    requires
        d < 10,
    ensures
        c == digit_char(d as nat),
{
    if d == 0 { '0' }
    else if d == 1 { '1' }
    else if d == 2 { '2' }
    else if d == 3 { '3' }
    else if d == 4 { '4' }
    else if d == 5 { '5' }
    else if d == 6 { '6' }
    else if d == 7 { '7' }
    else if d == 8 { '8' }
    else { '9' }
}

/// The decimal digits of `n`.
pub fn decimal_chars(n: u64) -> (r: Vec<char>)
    ensures
        r@ == decimal(n as nat),
    decreases n,
{
    if n < 10 {
        let mut v: Vec<char> = Vec::new();
        v.push(digit(n));
        assert(v@ =~= seq![digit_char(n as nat)]);
        v
    } else {
        let mut v = decimal_chars(n / 10);
        v.push(digit(n % 10));
        v
    }
}

/// The lines of `items` joined with newlines.
pub open spec fn join_lines(items: Seq<Seq<char>>) -> Seq<char>
    decreases items.len(),
{
    if items.len() == 0 {
        Seq::empty()
    } else if items.len() == 1 {
        items[0]
    } else {
        join_lines(items.drop_last()) + "\n"@ + items.last()
    }
}

/// The milestone list as the prompts show it: one per line, or `(none)`.
pub open spec fn milestones_block(items: Seq<Seq<char>>) -> Seq<char> {
    if items.len() == 0 {
        "(none)"@
    } else {
        join_lines(items)
    }
}

pub open spec fn string_views(v: Seq<String>) -> Seq<Seq<char>> {
    v.map_values(|s: String| s@)
}

/// The prompt that asks for a channel summary. `previous` is the stored
/// summary, if there is one.
pub open spec fn summary_prompt(
    previous: Option<Seq<char>>,
    refresh_due: bool,
    milestones: Seq<Seq<char>>,
    messages: Seq<char>,
) -> Seq<char> {
    let block = milestones_block(milestones);
    match previous {
        Some(prev) => if refresh_due {
            "Rewrite the channel summary from scratch to reduce drift and improve stability.\nUse the previous summary as historical context, and the recent messages as ground truth.\nKeep it concise and factual; omit trivial chatter.\n\nMILESTONES:\n"@
                + block + "\n\nPREVIOUS SUMMARY:\n"@ + prev + "\n\nRECENT MESSAGES:\n"@ + messages
                + "\n\nREFRESHED SUMMARY:"@
        } else {
            "You maintain a rolling channel summary. Update the summary using the new messages.\nKeep continuity, only add important new information, and remove outdated details.\nPrefer durable facts, decisions, and ongoing threads.\n\nMILESTONES:\n"@
                + block + "\n\nPREVIOUS SUMMARY:\n"@ + prev + "\n\nNEW MESSAGES:\n"@ + messages
                + "\n\nUPDATED SUMMARY:"@
        },
        None => "Summarize the following channel messages.\nFocus on key topics, decisions, constraints, and ongoing threads; omit trivial chatter.\n\nMILESTONES:\n"@
            + block + "\n\nMESSAGES:\n"@ + messages + "\n\nSUMMARY:"@,
    }
}

fn push_lit(out: &mut String, s: &str)
    ensures
        final(out)@ == old(out)@ + s@,
{
    out.append(s);
}

fn milestones_text(milestones: &Vec<String>) -> (r: String)
    ensures
        r@ == milestones_block(string_views(milestones@)),
{
    let ghost items = string_views(milestones@);
    if milestones.len() == 0 {
        return String::from_str("(none)");
    }
    let mut out = String::new();
    out.append(milestones[0].as_str());
    let mut i: usize = 1;
    assert(items.subrange(0, 1).drop_last() =~= Seq::<Seq<char>>::empty());
    assert(join_lines(items.subrange(0, 1)) == items[0]);
    while i < milestones.len()
        invariant
            1 <= i <= milestones@.len(),
            items == string_views(milestones@),
            out@ == join_lines(items.subrange(0, i as int)),
        decreases milestones@.len() - i,
    {
        let ghost before = out@;
        out.append("\n");
        out.append(milestones[i].as_str());
        proof {
            let p = items.subrange(0, i + 1);
            assert(p.drop_last() =~= items.subrange(0, i as int));
            assert(p.last() == milestones@[i as int]@);
        }
        i += 1;
    }
    assert(items.subrange(0, i as int) =~= items);
    out
}

/// The prompt that asks for a channel summary, in the shape that the stored
/// `record` and `refresh_due` select, with the channel's milestones as grounding.
pub fn build_summary_prompt(
    record: Option<&ChannelSummaryRecord>,
    refresh_due: bool,
    milestones: &Vec<String>,
    new_messages: &str,
) -> (r: String)
    ensures
        r@ == summary_prompt(
            match record {
                Some(rec) => Some(rec.summary@),
                None => None,
            },
            refresh_due,
            string_views(milestones@),
            new_messages@,
        ),
{
    let block = milestones_text(milestones);
    let mut out = String::new();
    match record {
        Some(rec) => {
            let prev = &rec.summary;
            if refresh_due {
                push_lit(&mut out, "Rewrite the channel summary from scratch to reduce drift and improve stability.\nUse the previous summary as historical context, and the recent messages as ground truth.\nKeep it concise and factual; omit trivial chatter.\n\nMILESTONES:\n");
                push_lit(&mut out, block.as_str());
                push_lit(&mut out, "\n\nPREVIOUS SUMMARY:\n");
                push_lit(&mut out, prev.as_str());
                push_lit(&mut out, "\n\nRECENT MESSAGES:\n");
                push_lit(&mut out, new_messages);
                push_lit(&mut out, "\n\nREFRESHED SUMMARY:");
            } else {
                push_lit(&mut out, "You maintain a rolling channel summary. Update the summary using the new messages.\nKeep continuity, only add important new information, and remove outdated details.\nPrefer durable facts, decisions, and ongoing threads.\n\nMILESTONES:\n");
                push_lit(&mut out, block.as_str());
                push_lit(&mut out, "\n\nPREVIOUS SUMMARY:\n");
                push_lit(&mut out, prev.as_str());
                push_lit(&mut out, "\n\nNEW MESSAGES:\n");
                push_lit(&mut out, new_messages);
                push_lit(&mut out, "\n\nUPDATED SUMMARY:");
            }
        },
        None => {
            push_lit(&mut out, "Summarize the following channel messages.\nFocus on key topics, decisions, constraints, and ongoing threads; omit trivial chatter.\n\nMILESTONES:\n");
            push_lit(&mut out, block.as_str());
            push_lit(&mut out, "\n\nMESSAGES:\n");
            push_lit(&mut out, new_messages);
            push_lit(&mut out, "\n\nSUMMARY:");
        },
    }
    out
}

/// One transcript line: `[timestamp] user: content` and a newline.
pub open spec fn transcript_line(m: MessageResult) -> Seq<char> {
    "["@ + m.timestamp@ + "] "@ + m.user_id@ + ": "@ + m.content@ + "\n"@
}

/// The transcript of `rows`, which come newest first, written oldest first.
pub open spec fn transcript(rows: Seq<MessageResult>) -> Seq<char>
    decreases rows.len(),
{
    if rows.len() == 0 {
        Seq::empty()
    } else {
        transcript(rows.subrange(1, rows.len() as int)) + transcript_line(rows[0])
    }
}

/// The messages to summarize, given newest first, as a transcript in
/// chronological order.
pub fn format_transcript(rows: &Vec<MessageResult>) -> (r: String)
    ensures
        r@ == transcript(rows@),
{
    let mut out = String::new();
    let mut i: usize = rows.len();
    assert(rows@.subrange(rows@.len() as int, rows@.len() as int) =~= Seq::<MessageResult>::empty());
    while i > 0
        invariant
            i <= rows@.len(),
            out@ == transcript(rows@.subrange(i as int, rows@.len() as int)),
        decreases i,
    {
        i -= 1;
        let m = &rows[i];
        push_lit(&mut out, "[");
        push_lit(&mut out, m.timestamp.as_str());
        push_lit(&mut out, "] ");
        push_lit(&mut out, m.user_id.as_str());
        push_lit(&mut out, ": ");
        push_lit(&mut out, m.content.as_str());
        push_lit(&mut out, "\n");
        proof {
            let t = rows@.subrange(i as int, rows@.len() as int);
            assert(t.subrange(1, t.len() as int) =~= rows@.subrange(i + 1, rows@.len() as int));
            assert(t[0] == rows@[i as int]);
        }
    }
    assert(rows@.subrange(0, rows@.len() as int) =~= rows@);
    out
}

/// The prompt that asks for the summary to be condensed under `max_tokens`.
pub open spec fn compress_prompt(max_tokens: nat, summary: Seq<char>) -> Seq<char> {
    "Condense the following channel summary to be under "@ + decimal(max_tokens)
        + " tokens. Keep it accurate and preserve key decisions, constraints, and ongoing threads.\n\nSUMMARY:\n"@
        + summary + "\n\nCONDENSED SUMMARY:"@
}

pub fn build_compress_prompt(max_tokens: usize, summary: &str) -> (r: String)
    ensures
        r@ == compress_prompt(max_tokens as nat, summary@),
{
    let digits = crate::text::string_of(&decimal_chars(max_tokens as u64));
    let mut out = String::from_str("Condense the following channel summary to be under ");
    push_lit(&mut out, digits.as_str());
    push_lit(&mut out, " tokens. Keep it accurate and preserve key decisions, constraints, and ongoing threads.\n\nSUMMARY:\n");
    push_lit(&mut out, summary);
    push_lit(&mut out, "\n\nCONDENSED SUMMARY:");
    out
}

/// Most milestones kept per channel.
pub const MAX_MILESTONES: usize = 6;

/// The prompt that asks for durable milestones from a summary.
pub open spec fn milestone_prompt(summary: Seq<char>) -> Seq<char> {
    "Extract up to 6 durable milestones (decisions, commitments, constraints, or ongoing threads) from the summary below. Respond with one per line prefixed with '- '. If there are none, respond with 'None'.\n\nSUMMARY:\n"@
        + summary + "\n\nMILESTONES:"@
}

pub fn build_milestone_prompt(summary: &str) -> (r: String)
    ensures
        r@ == milestone_prompt(summary@),
{
    let mut out = String::from_str(
        "Extract up to 6 durable milestones (decisions, commitments, constraints, or ongoing threads) from the summary below. Respond with one per line prefixed with '- '. If there are none, respond with 'None'.\n\nSUMMARY:\n",
    );
    push_lit(&mut out, summary);
    push_lit(&mut out, "\n\nMILESTONES:");
    out
}

} // verus!
