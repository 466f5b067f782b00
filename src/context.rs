use crate::cache::{keep_last, resolve, MessageCache};
use crate::clock::unix_now;
use crate::message::CachedMessage;
use crate::text::{chars_of, is_space, trim};
use vstd::prelude::*;

verus! {

/// One message of the context handed to the model.
pub enum ContextMessage {
    System(String),
    User(String),
    Assistant(String),
}

pub enum ContextView {
    System(Seq<char>),
    User(Seq<char>),
    Assistant(Seq<char>),
}

pub open spec fn context_view(m: ContextMessage) -> ContextView {
    match m {
        ContextMessage::System(s) => ContextView::System(s@),
        ContextMessage::User(s) => ContextView::User(s@),
        ContextMessage::Assistant(s) => ContextView::Assistant(s@),
    }
}

pub open spec fn contexts_view(v: Seq<ContextMessage>) -> Seq<ContextView> {
    v.map_values(|m: ContextMessage| context_view(m))
}

/// How a cached message enters the context: the bot's own messages as the
/// assistant's, others as the user's with the author's name; messages newer
/// than `cutoff` only, and none that are blank.
pub open spec fn context_entry(m: CachedMessage, cutoff: int, bot_id: Option<u64>) -> Option<ContextView> {
    if (m.timestamp as int) <= cutoff || trim(m.content@).len() == 0 {
        None
    } else if bot_id == Some(m.author_id) {
        Some(ContextView::Assistant(m.content@))
    } else {
        Some(ContextView::User("["@ + m.author_name@ + "]: "@ + m.content@))
    }
}

/// The opening system message that carries a channel's summary.
pub open spec fn summary_entry(summary: Seq<char>) -> ContextView {
    ContextView::System("Earlier conversation summary for this channel:\n"@ + summary)
}

pub open spec fn context_spec(
    summary: Option<Seq<char>>,
    history: Seq<CachedMessage>,
    cutoff: int,
    bot_id: Option<u64>,
) -> Seq<ContextView> {
    (match summary {
        Some(s) => seq![summary_entry(s)],
        None => Seq::empty(),
    }) + history.filter_map(|m: CachedMessage| context_entry(m, cutoff, bot_id))
}

pub open spec fn summary_text(o: Option<String>) -> Option<Seq<char>> {
    match o {
        Some(s) => Some(s@),
        None => None,
    }
}

/// A guild's own message limit, or the default.
pub open spec fn limit_or(o: Option<usize>, default: usize) -> nat {
    match o {
        Some(v) => v as nat,
        None => default as nat,
    }
}

/// A guild's own setting, or the default.
pub open spec fn setting_or(o: Option<u64>, default: u64) -> int {
    match o {
        Some(v) => v as int,
        None => default as int,
    }
}

/// The context `get_context_for_channel` builds when the clock reads `now`.
pub open spec fn channel_context(
    cache: &MessageCache,
    summary: Option<Seq<char>>,
    limit: nat,
    retention_hours: int,
    channel_id: u64,
    bot_id: Option<u64>,
    now: int,
) -> Seq<ContextView> {
    context_spec(
        summary,
        resolve(cache.entries(), keep_last(cache.history_ids(channel_id), limit)),
        now - 3600 * retention_hours,
        bot_id,
    )
}

/// Formats cached history into model context.
pub struct ConversationContext;

fn is_blank(s: &String) -> (r: bool)
    ensures
        r == (trim(s@).len() == 0),
{
    let v = chars_of(s.as_str());
    let (a, b) = crate::text::trim_bounds(&v, 0, v.len());
    assert(v@.subrange(0, v@.len() as int) =~= v@);
    a == b
}

impl ConversationContext {
    /// The context for a channel: its summary as a system message when there is
    /// one, then the messages of `history` newer than `cutoff` (seconds since
    /// the Unix epoch), oldest first, skipping blank ones; the bot's own
    /// messages as the assistant's, others as `[author]: content`.
    pub fn build(
        summary: Option<&String>,
        history: &Vec<CachedMessage>,
        cutoff: i128,
        bot_id: Option<u64>,
    ) -> (r: Vec<ContextMessage>)
        ensures
            contexts_view(r@) == context_spec(
                match summary {
                    Some(s) => Some(s@),
                    None => None,
                },
                history@,
                cutoff as int,
                bot_id,
            ),
    {
        let ghost f = |m: CachedMessage| context_entry(m, cutoff as int, bot_id);
        let mut out: Vec<ContextMessage> = Vec::new();
        match summary {
            Some(s) => {
                let mut text = String::from_str("Earlier conversation summary for this channel:\n");
                text.append(s.as_str());
                out.push(ContextMessage::System(text));
            },
            None => {},
        }
        let ghost head = contexts_view(out@);
        let mut i: usize = 0;
        assert(history@.subrange(0, 0).filter_map(f) =~= Seq::<ContextView>::empty());
        assert(contexts_view(out@) =~= head + history@.subrange(0, 0).filter_map(f));
        while i < history.len()
            invariant
                i <= history@.len(),
                contexts_view(out@) == head + history@.subrange(0, i as int).filter_map(f),
                f == (|m: CachedMessage| context_entry(m, cutoff as int, bot_id)),
            decreases history@.len() - i,
        {
            proof {
                crate::seq_facts::lemma_filter_map_prefix_step(history@, f, 0, i as int);
            }
            let m = &history[i];
            let ghost before = out@;
            if (m.timestamp as i128) > cutoff && !is_blank(&m.content) {
                let entry = match bot_id {
                    Some(b) if b == m.author_id => ContextMessage::Assistant(m.content.clone()),
                    _ => {
                        let mut text = String::from_str("[");
                        text.append(m.author_name.as_str());
                        text.append("]: ");
                        text.append(m.content.as_str());
                        ContextMessage::User(text)
                    },
                };
                out.push(entry);
                proof {
                    assert(contexts_view(out@) =~= contexts_view(before).push(context_view(entry)));
                }
            }
            i += 1;
        }
        proof {
            assert(history@.subrange(0, i as int) =~= history@);
            match summary {
                Some(s) => {},
                None => {
                    assert(head =~= Seq::<ContextView>::empty());
                },
            }
        }
        out
    }

    /// The context for a channel from the cache: the stored summary, then the
    /// last `limit` cached messages of the channel newer than `retention_hours`
    /// hours before now. The guild's own settings, where given, take the place
    /// of the defaults.
    pub fn get_context_for_channel(
        cache: &MessageCache,
        summary: Option<String>,
        guild_settings: (Option<usize>, Option<u64>),
        default_limit: usize,
        default_retention_hours: u64,
        channel_id: u64,
        bot_id: Option<u64>,
    ) -> (r: Vec<ContextMessage>)
        requires
            cache.wf(),
        ensures
            exists|now: i64|
                contexts_view(r@) == #[trigger] channel_context(
                    cache,
                    summary_text(summary),
                    limit_or(guild_settings.0, default_limit),
                    setting_or(guild_settings.1, default_retention_hours),
                    channel_id,
                    bot_id,
                    now as int,
                ),
    {
        let limit = match guild_settings.0 {
            Some(l) => l,
            None => default_limit,
        };
        let retention = match guild_settings.1 {
            Some(h) => h,
            None => default_retention_hours,
        };
        let now = unix_now();
        let cutoff: i128 = (now as i128) - 3600 * (retention as i128);
        let history = cache.get_channel_history(channel_id, limit);
        let r = match &summary {
            Some(s) => ConversationContext::build(Some(s), &history, cutoff, bot_id),
            None => ConversationContext::build(None, &history, cutoff, bot_id),
        };
        assert(contexts_view(r@) == channel_context(
            cache,
            summary_text(summary),
            limit_or(guild_settings.0, default_limit),
            setting_or(guild_settings.1, default_retention_hours),
            channel_id,
            bot_id,
            now as int,
        ));
        r
    }
}

} // verus!
