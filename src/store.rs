use crate::prompts::{decimal, decimal_chars, string_views};
use crate::retrieval::{params_view, ParamView, SqlParam, SqlQuery};
use crate::text::{string_of, trim, trimmed};
use vstd::prelude::*;

verus! {

/// The store's schema, bit-exact; each statement is idempotent.
pub const SCHEMA: &'static str = "CREATE TABLE IF NOT EXISTS messages (id INTEGER PRIMARY KEY AUTOINCREMENT, discord_id TEXT NOT NULL UNIQUE, guild_id TEXT NOT NULL, channel_id TEXT NOT NULL, user_id TEXT NOT NULL, content TEXT NOT NULL, timestamp DATETIME NOT NULL, is_indexed BOOLEAN DEFAULT FALSE, embedding BLOB NULL);
CREATE INDEX IF NOT EXISTS idx_messages_channel_date ON messages (channel_id, timestamp);
CREATE INDEX IF NOT EXISTS idx_messages_guild_date ON messages (guild_id, timestamp);
CREATE TABLE IF NOT EXISTS settings (guild_id TEXT PRIMARY KEY, context_limit INTEGER, context_retention INTEGER);
CREATE TABLE IF NOT EXISTS channel_summaries (channel_id TEXT PRIMARY KEY, summary TEXT NOT NULL, updated_at DATETIME DEFAULT CURRENT_TIMESTAMP, refreshed_at DATETIME DEFAULT CURRENT_TIMESTAMP);
CREATE TABLE IF NOT EXISTS channel_settings (guild_id TEXT NOT NULL, channel_id TEXT PRIMARY KEY, enabled BOOLEAN DEFAULT TRUE, memory_start_date DATETIME, created_at DATETIME DEFAULT CURRENT_TIMESTAMP, updated_at DATETIME DEFAULT CURRENT_TIMESTAMP);
CREATE INDEX IF NOT EXISTS idx_channel_guild ON channel_settings (guild_id);
CREATE TABLE IF NOT EXISTS channel_milestones (id INTEGER PRIMARY KEY AUTOINCREMENT, channel_id TEXT NOT NULL, milestone TEXT NOT NULL, created_at DATETIME DEFAULT CURRENT_TIMESTAMP);
CREATE INDEX IF NOT EXISTS idx_milestones_channel_created ON channel_milestones (channel_id, created_at);";

/// The statement that records a message the first time its id is seen (a
/// repeat is ignored); `timestamp` is in seconds since the Unix epoch.
pub fn save_message_statement(
    discord_id: &String,
    guild_id: &String,
    channel_id: &String,
    user_id: &String,
    content: &String,
    timestamp: i64,
) -> (r: SqlQuery)
    ensures
        r.sql@ == "INSERT OR IGNORE INTO messages (discord_id, guild_id, channel_id, user_id, content, timestamp) VALUES (?1, ?2, ?3, ?4, ?5, datetime(?6, 'unixepoch'))"@,
        params_view(r.params@) == seq![
            ParamView::Text(discord_id@),
            ParamView::Text(guild_id@),
            ParamView::Text(channel_id@),
            ParamView::Text(user_id@),
            ParamView::Text(content@),
            ParamView::Integer(timestamp as int),
        ],
{
    let mut params: Vec<SqlParam> = Vec::new();
    params.push(SqlParam::Text(discord_id.clone()));
    params.push(SqlParam::Text(guild_id.clone()));
    params.push(SqlParam::Text(channel_id.clone()));
    params.push(SqlParam::Text(user_id.clone()));
    params.push(SqlParam::Text(content.clone()));
    params.push(SqlParam::Integer(timestamp));
    let q = SqlQuery {
        sql: String::from_str("INSERT OR IGNORE INTO messages (discord_id, guild_id, channel_id, user_id, content, timestamp) VALUES (?1, ?2, ?3, ?4, ?5, datetime(?6, 'unixepoch'))"),
        params,
    };
    assert(params_view(q.params@) =~= seq![
        ParamView::Text(discord_id@),
        ParamView::Text(guild_id@),
        ParamView::Text(channel_id@),
        ParamView::Text(user_id@),
        ParamView::Text(content@),
        ParamView::Integer(timestamp as int),
    ]);
    q
}

/// The statement that turns a channel's tracking on or off.
pub fn set_channel_enabled_statement(guild_id: &String, channel_id: &String, enabled: bool) -> (r: SqlQuery)
    ensures
        r.sql@ == "INSERT INTO channel_settings (guild_id, channel_id, enabled, updated_at) VALUES (?1, ?2, ?3, CURRENT_TIMESTAMP) ON CONFLICT(channel_id) DO UPDATE SET enabled = ?3, updated_at = CURRENT_TIMESTAMP"@,
        params_view(r.params@) == seq![
            ParamView::Text(guild_id@),
            ParamView::Text(channel_id@),
            ParamView::Integer(if enabled { 1 } else { 0 }),
        ],
{
    let mut params: Vec<SqlParam> = Vec::new();
    params.push(SqlParam::Text(guild_id.clone()));
    params.push(SqlParam::Text(channel_id.clone()));
    params.push(SqlParam::Integer(if enabled { 1 } else { 0 }));
    let q = SqlQuery {
        sql: String::from_str("INSERT INTO channel_settings (guild_id, channel_id, enabled, updated_at) VALUES (?1, ?2, ?3, CURRENT_TIMESTAMP) ON CONFLICT(channel_id) DO UPDATE SET enabled = ?3, updated_at = CURRENT_TIMESTAMP"),
        params,
    };
    assert(params_view(q.params@) =~= seq![
        ParamView::Text(guild_id@),
        ParamView::Text(channel_id@),
        ParamView::Integer(if enabled { 1 } else { 0 }),
    ]);
    q
}

/// The statement that sets the start of a channel's memory (store text form),
/// or clears it.
pub fn set_memory_scope_statement(guild_id: &String, channel_id: &String, start_date: Option<&String>) -> (r: SqlQuery)
    ensures
        r.sql@ == "INSERT INTO channel_settings (guild_id, channel_id, memory_start_date, updated_at) VALUES (?1, ?2, ?3, CURRENT_TIMESTAMP) ON CONFLICT(channel_id) DO UPDATE SET memory_start_date = ?3, updated_at = CURRENT_TIMESTAMP"@,
        params_view(r.params@) == seq![
            ParamView::Text(guild_id@),
            ParamView::Text(channel_id@),
            match start_date {
                Some(d) => ParamView::Text(d@),
                None => ParamView::Null,
            },
        ],
{
    let mut params: Vec<SqlParam> = Vec::new();
    params.push(SqlParam::Text(guild_id.clone()));
    params.push(SqlParam::Text(channel_id.clone()));
    match start_date {
        Some(d) => params.push(SqlParam::Text(d.clone())),
        None => params.push(SqlParam::Null),
    }
    let q = SqlQuery {
        sql: String::from_str("INSERT INTO channel_settings (guild_id, channel_id, memory_start_date, updated_at) VALUES (?1, ?2, ?3, CURRENT_TIMESTAMP) ON CONFLICT(channel_id) DO UPDATE SET memory_start_date = ?3, updated_at = CURRENT_TIMESTAMP"),
        params,
    };
    assert(params_view(q.params@) =~= seq![
        ParamView::Text(guild_id@),
        ParamView::Text(channel_id@),
        match start_date {
            Some(d) => ParamView::Text(d@),
            None => ParamView::Null,
        },
    ]);
    q
}

/// The statement that reads a channel's stored summary: summary, `updated_at`,
/// `refreshed_at`.
pub fn summary_record_statement(channel_id: &String) -> (r: SqlQuery)
    ensures
        r.sql@ == "SELECT summary, updated_at, refreshed_at FROM channel_summaries WHERE channel_id = ?1"@,
        params_view(r.params@) == seq![ParamView::Text(channel_id@)],
{
    let mut params: Vec<SqlParam> = Vec::new();
    params.push(SqlParam::Text(channel_id.clone()));
    let q = SqlQuery {
        sql: String::from_str("SELECT summary, updated_at, refreshed_at FROM channel_summaries WHERE channel_id = ?1"),
        params,
    };
    assert(params_view(q.params@) =~= seq![ParamView::Text(channel_id@)]);
    q
}

/// The statement that reads a channel's milestones, newest first, at most `limit`.
pub fn channel_milestones_statement(channel_id: &String, limit: usize) -> (r: SqlQuery)
    requires
        limit <= i64::MAX,
    ensures
        r.sql@ == "SELECT milestone FROM channel_milestones WHERE channel_id = ?1 ORDER BY created_at DESC LIMIT ?2"@,
        params_view(r.params@) == seq![ParamView::Text(channel_id@), ParamView::Integer(limit as int)],
{
    let mut params: Vec<SqlParam> = Vec::new();
    params.push(SqlParam::Text(channel_id.clone()));
    params.push(SqlParam::Integer(limit as i64));
    let q = SqlQuery {
        sql: String::from_str("SELECT milestone FROM channel_milestones WHERE channel_id = ?1 ORDER BY created_at DESC LIMIT ?2"),
        params,
    };
    assert(params_view(q.params@) =~= seq![ParamView::Text(channel_id@), ParamView::Integer(limit as int)]);
    q
}

/// The statement that reads a channel's settings: `enabled`, `memory_start_date`.
pub fn channel_settings_statement(channel_id: &String) -> (r: SqlQuery)
    ensures
        r.sql@ == "SELECT enabled, memory_start_date FROM channel_settings WHERE channel_id = ?1"@,
        params_view(r.params@) == seq![ParamView::Text(channel_id@)],
{
    let mut params: Vec<SqlParam> = Vec::new();
    params.push(SqlParam::Text(channel_id.clone()));
    let q = SqlQuery {
        sql: String::from_str("SELECT enabled, memory_start_date FROM channel_settings WHERE channel_id = ?1"),
        params,
    };
    assert(params_view(q.params@) =~= seq![ParamView::Text(channel_id@)]);
    q
}

/// The statement that lists up to `limit` messages still waiting for an
/// embedding (not indexed, with content), newest first: id and content.
pub fn missing_embeddings_statement(limit: usize) -> (r: SqlQuery)
    requires
        limit <= i64::MAX,
    ensures
        r.sql@ == "SELECT id, content FROM messages WHERE embedding IS NULL AND is_indexed = 0 AND length(content) > 0 ORDER BY timestamp DESC LIMIT ?1"@,
        params_view(r.params@) == seq![ParamView::Integer(limit as int)],
{
    let mut params: Vec<SqlParam> = Vec::new();
    params.push(SqlParam::Integer(limit as i64));
    let q = SqlQuery {
        sql: String::from_str("SELECT id, content FROM messages WHERE embedding IS NULL AND is_indexed = 0 AND length(content) > 0 ORDER BY timestamp DESC LIMIT ?1"),
        params,
    };
    assert(params_view(q.params@) =~= seq![ParamView::Integer(limit as int)]);
    q
}

/// The statement that stores a message's encoded embedding and marks it indexed.
pub fn set_embedding_statement(message_id: i64, embedding: Vec<u8>) -> (r: SqlQuery)
    ensures
        r.sql@ == "UPDATE messages SET embedding = ?1, is_indexed = 1 WHERE id = ?2"@,
        params_view(r.params@) == seq![ParamView::Blob(embedding@), ParamView::Integer(message_id as int)],
{
    let ghost bytes = embedding@;
    let mut params: Vec<SqlParam> = Vec::new();
    params.push(SqlParam::Blob(embedding));
    params.push(SqlParam::Integer(message_id));
    let q = SqlQuery { sql: String::from_str("UPDATE messages SET embedding = ?1, is_indexed = 1 WHERE id = ?2"), params };
    assert(params_view(q.params@) =~= seq![ParamView::Blob(bytes), ParamView::Integer(message_id as int)]);
    q
}

/// The statement that marks a message indexed without an embedding, so the
/// backfill passes over it.
pub fn mark_indexed_statement(message_id: i64) -> (r: SqlQuery)
    ensures
        r.sql@ == "UPDATE messages SET is_indexed = 1 WHERE id = ?1"@,
        params_view(r.params@) == seq![ParamView::Integer(message_id as int)],
{
    let mut params: Vec<SqlParam> = Vec::new();
    params.push(SqlParam::Integer(message_id));
    let q = SqlQuery { sql: String::from_str("UPDATE messages SET is_indexed = 1 WHERE id = ?1"), params };
    assert(params_view(q.params@) =~= seq![ParamView::Integer(message_id as int)]);
    q
}

/// The statement that lists a guild's channel settings: channel id,
/// `enabled`, `memory_start_date`.
pub fn list_channel_settings_statement(guild_id: &String) -> (r: SqlQuery)
    ensures
        r.sql@ == "SELECT channel_id, enabled, memory_start_date FROM channel_settings WHERE guild_id = ?1"@,
        params_view(r.params@) == seq![ParamView::Text(guild_id@)],
{
    let mut params: Vec<SqlParam> = Vec::new();
    params.push(SqlParam::Text(guild_id.clone()));
    let q = SqlQuery {
        sql: String::from_str("SELECT channel_id, enabled, memory_start_date FROM channel_settings WHERE guild_id = ?1"),
        params,
    };
    assert(params_view(q.params@) =~= seq![ParamView::Text(guild_id@)]);
    q
}

/// The statement that deletes a channel's stored messages, all of them or
/// those before `before_date` (store text form).
pub fn purge_messages_statement(channel_id: &String, before_date: Option<&String>) -> (r: SqlQuery)
    ensures
        before_date is Some ==> r.sql@ == "DELETE FROM messages WHERE channel_id = ?1 AND timestamp < ?2"@,
        before_date is None ==> r.sql@ == "DELETE FROM messages WHERE channel_id = ?1"@,
        params_view(r.params@) == seq![ParamView::Text(channel_id@)] + match before_date {
            Some(d) => seq![ParamView::Text(d@)],
            None => Seq::<ParamView>::empty(),
        },
{
    let mut params: Vec<SqlParam> = Vec::new();
    params.push(SqlParam::Text(channel_id.clone()));
    match before_date {
        Some(d) => {
            params.push(SqlParam::Text(d.clone()));
            let q = SqlQuery { sql: String::from_str("DELETE FROM messages WHERE channel_id = ?1 AND timestamp < ?2"), params };
            assert(params_view(q.params@) =~= seq![ParamView::Text(channel_id@)] + seq![ParamView::Text(d@)]);
            q
        },
        None => {
            let q = SqlQuery { sql: String::from_str("DELETE FROM messages WHERE channel_id = ?1"), params };
            assert(params_view(q.params@) =~= seq![ParamView::Text(channel_id@)] + Seq::<ParamView>::empty());
            q
        },
    }
}

/// A guild id as the store keys it: its decimal digits.
pub open spec fn guild_key(guild_id: u64) -> Seq<char> {
    decimal(guild_id as nat)
}

fn guild_text(guild_id: u64) -> (r: String)
    ensures
        r@ == guild_key(guild_id),
{
    string_of(&decimal_chars(guild_id))
}

/// The statement that reads a guild's context settings: message limit and
/// retention in hours (either may be `NULL`).
pub fn guild_settings_statement(guild_id: u64) -> (r: SqlQuery)
    ensures
        r.sql@ == "SELECT context_limit, context_retention FROM settings WHERE guild_id = ?1"@,
        params_view(r.params@) == seq![ParamView::Text(guild_key(guild_id))],
{
    let mut params: Vec<SqlParam> = Vec::new();
    params.push(SqlParam::Text(guild_text(guild_id)));
    let q = SqlQuery { sql: String::from_str("SELECT context_limit, context_retention FROM settings WHERE guild_id = ?1"), params };
    assert(params_view(q.params@) =~= seq![ParamView::Text(guild_key(guild_id))]);
    q
}

/// The statements that store a guild's context settings. A guild without a
/// row gets one with both values as given (`NULL` where absent); a guild with
/// one has each given value updated and each absent one left as it is.
pub fn set_guild_settings_statements(guild_exists: bool, guild_id: u64, limit: Option<usize>, retention: Option<u64>) -> (r: Vec<SqlQuery>)
    requires
        limit matches Some(l) ==> l <= i64::MAX,
        retention matches Some(h) ==> h <= i64::MAX,
    ensures
        !guild_exists ==> r@.len() == 1 && r@[0].sql@
            == "INSERT INTO settings (guild_id, context_limit, context_retention) VALUES (?1, ?2, ?3)"@
            && params_view(r@[0].params@) == seq![
                ParamView::Text(guild_key(guild_id)),
                match limit { Some(l) => ParamView::Integer(l as int), None => ParamView::Null },
                match retention { Some(h) => ParamView::Integer(h as int), None => ParamView::Null },
            ],
        guild_exists ==> r@.len() == (if limit is Some { 1int } else { 0int }) + (if retention is Some { 1int } else { 0int }),
        guild_exists && limit is Some ==> r@[0].sql@ == "UPDATE settings SET context_limit = ?1 WHERE guild_id = ?2"@
            && params_view(r@[0].params@) == seq![ParamView::Integer(limit.unwrap() as int), ParamView::Text(guild_key(guild_id))],
        guild_exists && retention is Some ==> r@[r@.len() - 1].sql@ == "UPDATE settings SET context_retention = ?1 WHERE guild_id = ?2"@
            && params_view(r@[r@.len() - 1].params@) == seq![ParamView::Integer(retention.unwrap() as int), ParamView::Text(guild_key(guild_id))],
{
    let mut out: Vec<SqlQuery> = Vec::new();
    if !guild_exists {
        let mut params: Vec<SqlParam> = Vec::new();
        params.push(SqlParam::Text(guild_text(guild_id)));
        match limit {
            Some(l) => params.push(SqlParam::Integer(l as i64)),
            None => params.push(SqlParam::Null),
        }
        match retention {
            Some(h) => params.push(SqlParam::Integer(h as i64)),
            None => params.push(SqlParam::Null),
        }
        let q = SqlQuery { sql: String::from_str("INSERT INTO settings (guild_id, context_limit, context_retention) VALUES (?1, ?2, ?3)"), params };
        assert(params_view(q.params@) =~= seq![
            ParamView::Text(guild_key(guild_id)),
            match limit { Some(l) => ParamView::Integer(l as int), None => ParamView::Null },
            match retention { Some(h) => ParamView::Integer(h as int), None => ParamView::Null },
        ]);
        out.push(q);
        return out;
    }
    match limit {
        Some(l) => {
            let mut params: Vec<SqlParam> = Vec::new();
            params.push(SqlParam::Integer(l as i64));
            params.push(SqlParam::Text(guild_text(guild_id)));
            let q = SqlQuery { sql: String::from_str("UPDATE settings SET context_limit = ?1 WHERE guild_id = ?2"), params };
            assert(params_view(q.params@) =~= seq![ParamView::Integer(l as int), ParamView::Text(guild_key(guild_id))]);
            out.push(q);
        },
        None => {},
    }
    match retention {
        Some(h) => {
            let mut params: Vec<SqlParam> = Vec::new();
            params.push(SqlParam::Integer(h as i64));
            params.push(SqlParam::Text(guild_text(guild_id)));
            let q = SqlQuery { sql: String::from_str("UPDATE settings SET context_retention = ?1 WHERE guild_id = ?2"), params };
            assert(params_view(q.params@) =~= seq![ParamView::Integer(h as int), ParamView::Text(guild_key(guild_id))]);
            out.push(q);
        },
        None => {},
    }
    out
}

/// Whether a channel's messages take part in retrieval and summaries: as its
/// settings say, and yes when it has none.
pub fn tracking_enabled(settings: Option<(bool, Option<String>)>) -> (r: bool)
    ensures
        r == match settings {
            Some((enabled, _)) => enabled,
            None => true,
        },
{
    match settings {
        Some((enabled, _)) => enabled,
        None => true,
    }
}

/// Hours of the long-term retention window for a retention in days (saturating).
pub fn retention_hours_for_days(days: u64) -> (r: u64)
    ensures
        r == if days * 24 <= u64::MAX { days * 24 } else { u64::MAX as int },
{
    if days <= u64::MAX / 24 {
        days * 24
    } else {
        u64::MAX
    }
}

/// The statement that deletes stored messages older than `retention_hours`
/// hours; `None` when the retention is zero, which turns the sweep off.
pub fn cleanup_statement(retention_hours: u64) -> (r: Option<SqlQuery>)
    ensures
        retention_hours == 0 ==> r is None,
        retention_hours > 0 ==> (r matches Some(q) && q.sql@
            == "DELETE FROM messages WHERE timestamp < datetime('now', ?1)"@ && params_view(q.params@)
            == seq![ParamView::Text("-"@ + decimal(retention_hours as nat) + " hours"@)]),
{
    if retention_hours == 0 {
        return None;
    }
    let mut window = String::from_str("-");
    let digits = string_of(&decimal_chars(retention_hours));
    window.append(digits.as_str());
    window.append(" hours");
    let mut params: Vec<SqlParam> = Vec::new();
    params.push(SqlParam::Text(window));
    let q = SqlQuery { sql: String::from_str("DELETE FROM messages WHERE timestamp < datetime('now', ?1)"), params };
    assert(params_view(q.params@) =~= seq![ParamView::Text("-"@ + decimal(retention_hours as nat) + " hours"@)]);
    Some(q)
}

/// One change to the milestone table.
pub enum MilestoneOp {
    /// Delete every milestone of the channel.
    ClearChannel(String),
    /// Add one milestone to the channel.
    Insert(String, String),
}

/// A milestone row: channel id and text.
pub type MilestoneRow = (Seq<char>, Seq<char>);

/// Holds of the rows of other channels than `ch`.
pub open spec fn other_channel(ch: Seq<char>) -> spec_fn(MilestoneRow) -> bool {
    |r: MilestoneRow| r.0 != ch
}

pub open spec fn apply_op(table: Seq<MilestoneRow>, op: MilestoneOp) -> Seq<MilestoneRow> {
    match op {
        MilestoneOp::ClearChannel(ch) => table.filter(other_channel(ch@)),
        MilestoneOp::Insert(ch, text) => table.push((ch@, text@)),
    }
}

pub open spec fn apply_ops(table: Seq<MilestoneRow>, ops: Seq<MilestoneOp>) -> Seq<MilestoneRow>
    decreases ops.len(),
{
    if ops.len() == 0 {
        table
    } else {
        apply_op(apply_ops(table, ops.drop_last()), ops.last())
    }
}

/// Holds of the rows of channel `ch`.
pub open spec fn in_channel(ch: Seq<char>) -> spec_fn(MilestoneRow) -> bool {
    |r: MilestoneRow| r.0 == ch
}

/// The text of a row.
pub open spec fn row_text() -> spec_fn(MilestoneRow) -> Seq<char> {
    |r: MilestoneRow| r.1
}

/// The milestones a table holds for channel `ch`, in row order.
pub open spec fn channel_rows(table: Seq<MilestoneRow>, ch: Seq<char>) -> Seq<Seq<char>> {
    table.filter(in_channel(ch)).map_values(row_text())
}

/// The text each insertion adds (empty for a clearing).
pub open spec fn inserted_text(op: MilestoneOp) -> Seq<char> {
    match op {
        MilestoneOp::Insert(_, t) => t@,
        MilestoneOp::ClearChannel(_) => Seq::empty(),
    }
}

/// The texts inserted by the changes after the first one.
pub open spec fn inserted_texts(ops: Seq<MilestoneOp>) -> Seq<Seq<char>> {
    ops.subrange(1, ops.len() as int).map_values(|op: MilestoneOp| inserted_text(op))
}

/// `ops` clears channel `ch` and then only inserts milestones for it.
pub open spec fn clears_then_inserts(ops: Seq<MilestoneOp>, ch: Seq<char>) -> bool {
    &&& ops.len() >= 1
    &&& ops[0] matches MilestoneOp::ClearChannel(c) && c@ == ch
    &&& forall|i: int| 1 <= i < ops.len() ==> (#[trigger] ops[i] matches MilestoneOp::Insert(c, _) && c@ == ch)
}

/// The new milestones as stored: trimmed, blank ones dropped, in order.
pub open spec fn kept_milestones(items: Seq<Seq<char>>) -> Seq<Seq<char>>
    decreases items.len(),
{
    if items.len() == 0 {
        Seq::empty()
    } else {
        let k = kept_milestones(items.drop_last());
        let t = trim(items.last());
        if t.len() == 0 {
            k
        } else {
            k.push(t)
        }
    }
}

/// The changes that replace the milestones of `channel_id` with `milestones`:
/// clear the channel, then insert each milestone trimmed, skipping blank ones.
/// They are meant to run in one transaction.
pub fn milestone_replacement(channel_id: &String, milestones: &Vec<String>) -> (r: Vec<MilestoneOp>)
    ensures
        clears_then_inserts(r@, channel_id@),
        inserted_texts(r@) == kept_milestones(string_views(milestones@)),
{
    let ghost items = string_views(milestones@);
    let ghost g = |op: MilestoneOp| inserted_text(op);
    let mut ops: Vec<MilestoneOp> = Vec::new();
    ops.push(MilestoneOp::ClearChannel(channel_id.clone()));
    let mut i: usize = 0;
    while i < milestones.len()
        invariant
            i <= milestones@.len(),
            items == string_views(milestones@),
            ops@.len() >= 1,
            ops@[0] matches MilestoneOp::ClearChannel(ch) && ch@ == channel_id@,
            forall|k: int| 1 <= k < ops@.len() ==> (#[trigger] ops@[k] matches MilestoneOp::Insert(ch, _) && ch@ == channel_id@),
            ops@.subrange(1, ops@.len() as int).map_values(g) == kept_milestones(items.subrange(0, i as int)),
            g == (|op: MilestoneOp| inserted_text(op)),
        decreases milestones@.len() - i,
    {
        let t = trimmed(milestones[i].as_str());
        let ghost before = ops@;
        proof {
            let p = items.subrange(0, i + 1);
            assert(p.drop_last() =~= items.subrange(0, i as int));
            assert(p.last() == milestones@[i as int]@);
        }
        if t.len() > 0 {
            ops.push(MilestoneOp::Insert(channel_id.clone(), string_of(&t)));
            proof {
                assert(ops@.subrange(1, ops@.len() as int) =~= before.subrange(1, before.len() as int).push(ops@.last()));
                assert(ops@.subrange(1, ops@.len() as int).map_values(g) =~= before.subrange(1, before.len() as int).map_values(g).push(t@));
            }
        }
        i += 1;
    }
    assert(items.subrange(0, i as int) =~= items);
    ops
}

/// The statement that performs one milestone change.
pub fn milestone_statement(op: &MilestoneOp) -> (r: SqlQuery)
    ensures
        op matches MilestoneOp::ClearChannel(ch) ==> r.sql@ == "DELETE FROM channel_milestones WHERE channel_id = ?1"@
            && params_view(r.params@) == seq![ParamView::Text(ch@)],
        op matches MilestoneOp::Insert(ch, t) ==> r.sql@ == "INSERT INTO channel_milestones (channel_id, milestone) VALUES (?1, ?2)"@
            && params_view(r.params@) == seq![ParamView::Text(ch@), ParamView::Text(t@)],
{
    let mut params: Vec<SqlParam> = Vec::new();
    match op {
        MilestoneOp::ClearChannel(ch) => {
            params.push(SqlParam::Text(ch.clone()));
            let q = SqlQuery { sql: String::from_str("DELETE FROM channel_milestones WHERE channel_id = ?1"), params };
            assert(params_view(q.params@) =~= seq![ParamView::Text(ch@)]);
            q
        },
        MilestoneOp::Insert(ch, t) => {
            params.push(SqlParam::Text(ch.clone()));
            params.push(SqlParam::Text(t.clone()));
            let q = SqlQuery {
                sql: String::from_str("INSERT INTO channel_milestones (channel_id, milestone) VALUES (?1, ?2)"),
                params,
            };
            assert(params_view(q.params@) =~= seq![ParamView::Text(ch@), ParamView::Text(t@)]);
            q
        },
    }
}

/// The statement that stores a channel's summary: a full rewrite (`refresh`)
/// moves both times, an update moves `updated_at` only.
pub fn save_summary_statement(channel_id: &String, summary: &String, refresh: bool) -> (r: SqlQuery)
    ensures
        refresh ==> r.sql@ == "INSERT INTO channel_summaries (channel_id, summary, updated_at, refreshed_at) VALUES (?1, ?2, CURRENT_TIMESTAMP, CURRENT_TIMESTAMP) ON CONFLICT(channel_id) DO UPDATE SET summary = ?2, updated_at = CURRENT_TIMESTAMP, refreshed_at = CURRENT_TIMESTAMP"@,
        !refresh ==> r.sql@ == "INSERT INTO channel_summaries (channel_id, summary, updated_at) VALUES (?1, ?2, CURRENT_TIMESTAMP) ON CONFLICT(channel_id) DO UPDATE SET summary = ?2, updated_at = CURRENT_TIMESTAMP"@,
        params_view(r.params@) == seq![ParamView::Text(channel_id@), ParamView::Text(summary@)],
{
    let mut params: Vec<SqlParam> = Vec::new();
    params.push(SqlParam::Text(channel_id.clone()));
    params.push(SqlParam::Text(summary.clone()));
    let sql = if refresh {
        String::from_str("INSERT INTO channel_summaries (channel_id, summary, updated_at, refreshed_at) VALUES (?1, ?2, CURRENT_TIMESTAMP, CURRENT_TIMESTAMP) ON CONFLICT(channel_id) DO UPDATE SET summary = ?2, updated_at = CURRENT_TIMESTAMP, refreshed_at = CURRENT_TIMESTAMP")
    } else {
        String::from_str("INSERT INTO channel_summaries (channel_id, summary, updated_at) VALUES (?1, ?2, CURRENT_TIMESTAMP) ON CONFLICT(channel_id) DO UPDATE SET summary = ?2, updated_at = CURRENT_TIMESTAMP")
    };
    let q = SqlQuery { sql, params };
    assert(params_view(q.params@) =~= seq![ParamView::Text(channel_id@), ParamView::Text(summary@)]);
    q
}

/// The statement that reads a summary run's window: the channel's messages at
/// or after `from` (store text form) within its scope settings, newest first,
/// at most `limit`.
pub fn recent_messages_statement(channel_id: &String, from: &String, limit: usize) -> (r: SqlQuery)
    requires
        limit <= i64::MAX,
    ensures
        r.sql@ == "SELECT m.content, m.user_id, m.timestamp, m.channel_id FROM messages m LEFT JOIN channel_settings s ON m.channel_id = s.channel_id WHERE m.channel_id = ?1 AND (s.enabled IS NULL OR s.enabled = 1) AND (s.memory_start_date IS NULL OR m.timestamp >= s.memory_start_date) AND m.timestamp >= ?2 ORDER BY m.timestamp DESC LIMIT ?3"@,
        params_view(r.params@) == seq![ParamView::Text(channel_id@), ParamView::Text(from@), ParamView::Integer(limit as int)],
{
    let mut params: Vec<SqlParam> = Vec::new();
    params.push(SqlParam::Text(channel_id.clone()));
    params.push(SqlParam::Text(from.clone()));
    params.push(SqlParam::Integer(limit as i64));
    let q = SqlQuery {
        sql: String::from_str("SELECT m.content, m.user_id, m.timestamp, m.channel_id FROM messages m LEFT JOIN channel_settings s ON m.channel_id = s.channel_id WHERE m.channel_id = ?1 AND (s.enabled IS NULL OR s.enabled = 1) AND (s.memory_start_date IS NULL OR m.timestamp >= s.memory_start_date) AND m.timestamp >= ?2 ORDER BY m.timestamp DESC LIMIT ?3"),
        params,
    };
    assert(params_view(q.params@) =~= seq![ParamView::Text(channel_id@), ParamView::Text(from@), ParamView::Integer(limit as int)]);
    q
}

/// The statement that counts a channel's messages after `since` (store text form).
pub fn count_since_statement(channel_id: &String, since: &String) -> (r: SqlQuery)
    ensures
        r.sql@ == "SELECT COUNT(*) FROM messages WHERE channel_id = ?1 AND timestamp > ?2"@,
        params_view(r.params@) == seq![ParamView::Text(channel_id@), ParamView::Text(since@)],
{
    let mut params: Vec<SqlParam> = Vec::new();
    params.push(SqlParam::Text(channel_id.clone()));
    params.push(SqlParam::Text(since.clone()));
    let q = SqlQuery { sql: String::from_str("SELECT COUNT(*) FROM messages WHERE channel_id = ?1 AND timestamp > ?2"), params };
    assert(params_view(q.params@) =~= seq![ParamView::Text(channel_id@), ParamView::Text(since@)]);
    q
}

/// The decimal text of `n`, with a minus sign when negative.
pub open spec fn signed_decimal(n: int) -> Seq<char> {
    if n < 0 {
        "-"@ + decimal((-n) as nat)
    } else {
        decimal(n as nat)
    }
}

/// The statement that lists the channels with messages in the last
/// `lookback_days` days, most recently active first.
pub fn active_channels_statement(lookback_days: i64) -> (r: SqlQuery)
    ensures
        r.sql@ == "SELECT channel_id FROM messages WHERE timestamp > datetime('now', ?1) GROUP BY channel_id ORDER BY MAX(timestamp) DESC"@,
        params_view(r.params@) == seq![ParamView::Text("-"@ + signed_decimal(lookback_days as int) + " days"@)],
{
    let mut window = String::from_str("-");
    if lookback_days < 0 {
        window.append("-");
        let magnitude: u64 = (-(lookback_days as i128)) as u64;
        let digits = string_of(&decimal_chars(magnitude));
        window.append(digits.as_str());
    } else {
        let digits = string_of(&decimal_chars(lookback_days as u64));
        window.append(digits.as_str());
    }
    assert(window@ =~= "-"@ + signed_decimal(lookback_days as int));
    window.append(" days");
    let mut params: Vec<SqlParam> = Vec::new();
    params.push(SqlParam::Text(window));
    let q = SqlQuery {
        sql: String::from_str("SELECT channel_id FROM messages WHERE timestamp > datetime('now', ?1) GROUP BY channel_id ORDER BY MAX(timestamp) DESC"),
        params,
    };
    assert(params_view(q.params@) =~= seq![ParamView::Text("-"@ + signed_decimal(lookback_days as int) + " days"@)]);
    q
}

/// Clearing a channel and then inserting milestones for it leaves exactly
/// the inserted ones, in order, for that channel, whatever it held before, and
/// leaves every other channel's milestones as they were.
pub proof fn lemma_milestones_replaced(table: Seq<MilestoneRow>, channel_id: Seq<char>, ops: Seq<MilestoneOp>)
    requires
        clears_then_inserts(ops, channel_id),
    ensures
        channel_rows(apply_ops(table, ops), channel_id) == inserted_texts(ops),
        apply_ops(table, ops).filter(other_channel(channel_id)) == table.filter(other_channel(channel_id)),
    decreases ops.len(),
{
    let mine = in_channel(channel_id);
    let other = other_channel(channel_id);
    let txt = row_text();
    let g = |op: MilestoneOp| inserted_text(op);
    reveal(Seq::filter);
    if ops.len() == 1 {
        let t = apply_ops(table, ops);
        assert(ops.drop_last() =~= Seq::<MilestoneOp>::empty());
        assert(apply_ops(table, ops.drop_last()) == table);
        assert(ops.last() == ops[0]);
        assert(t == table.filter(other));
        crate::seq_facts::lemma_filter_filter(table, other, mine);
        crate::seq_facts::lemma_filter_agree(table, |x: MilestoneRow| other(x) && mine(x), |x: MilestoneRow| false);
        lemma_filter_false(table);
        crate::seq_facts::lemma_filter_filter(table, other, other);
        crate::seq_facts::lemma_filter_agree(table, |x: MilestoneRow| other(x) && other(x), other);
        assert(ops.subrange(1, 1).map_values(g) =~= Seq::<Seq<char>>::empty());
        assert(t.filter(mine).map_values(txt) =~= Seq::<Seq<char>>::empty());
    } else {
        let pre = ops.drop_last();
        assert forall|i: int| 1 <= i < pre.len() implies (#[trigger] pre[i] matches MilestoneOp::Insert(ch, _) && ch@ == channel_id) by {
            assert(pre[i] == ops[i]);
        }
        assert(pre[0] == ops[0]);
        let n = ops.len() - 1;
        assert(ops[n] matches MilestoneOp::Insert(ch, _) && ch@ == channel_id);
        lemma_milestones_replaced(table, channel_id, pre);
        let before = apply_ops(table, pre);
        assert(ops.last() == ops[n]);
        let row = (channel_id, inserted_text(ops[n]));
        let after = apply_ops(table, ops);
        assert(after == before.push(row));
        assert(before.push(row).drop_last() =~= before);
        assert(after.filter(mine) == before.filter(mine).push(row));
        assert(after.filter(mine).map_values(txt) =~= before.filter(mine).map_values(txt).push(row.1));
        assert(ops.subrange(1, ops.len() as int).map_values(g) =~= pre.subrange(1, pre.len() as int).map_values(g).push(row.1));
        assert(after.filter(other) == before.filter(other));
    }
}

proof fn lemma_filter_false(table: Seq<MilestoneRow>)
    ensures
        table.filter(|x: MilestoneRow| false) == Seq::<MilestoneRow>::empty(),
    decreases table.len(),
{
    reveal(Seq::filter);
    if table.len() > 0 {
        lemma_filter_false(table.drop_last());
    }
}

/// Replacing a channel's milestones with a list, through the changes
/// `milestone_replacement` gives, leaves exactly that list (trimmed, blank
/// ones dropped, in order) as the channel's milestones, whatever it held
/// before; no earlier milestone of the channel survives, and every other
/// channel's milestones stay as they were.
pub proof fn lemma_replacement_leaves_new_set(
    table: Seq<MilestoneRow>,
    channel_id: Seq<char>,
    milestones: Seq<Seq<char>>,
    ops: Seq<MilestoneOp>,
)
    requires
        clears_then_inserts(ops, channel_id),
        inserted_texts(ops) == kept_milestones(milestones),
    ensures
        channel_rows(apply_ops(table, ops), channel_id) == kept_milestones(milestones),
        apply_ops(table, ops).filter(other_channel(channel_id)) == table.filter(other_channel(channel_id)),
{
    lemma_milestones_replaced(table, channel_id, ops);
}

} // verus!
