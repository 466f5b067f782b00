use mascord_memory::retrieval::{SqlParam, SqlQuery};
use mascord_memory::store::{
    cleanup_statement, count_since_statement, milestone_replacement, milestone_statement,
    recent_messages_statement, retention_hours_for_days, save_summary_statement, MilestoneOp,
    channel_milestones_statement, channel_settings_statement, save_message_statement, set_channel_enabled_statement,
    set_memory_scope_statement, tracking_enabled, SCHEMA, mark_indexed_statement,
    missing_embeddings_statement, set_embedding_statement, guild_settings_statement,
    list_channel_settings_statement, purge_messages_statement, set_guild_settings_statements,
};
use rusqlite::types::Value;
use rusqlite::Connection;

fn values(q: &SqlQuery) -> Vec<Value> {
    q.params
        .iter()
        .map(|p| match p {
            SqlParam::Text(s) => Value::Text(s.clone()),
            SqlParam::Integer(i) => Value::Integer(*i),
            SqlParam::Blob(b) => Value::Blob(b.clone()),
            SqlParam::Null => Value::Null,
        })
        .collect()
}

fn milestone_store() -> Connection {
    let conn = Connection::open_in_memory().unwrap();
    conn.execute_batch(SCHEMA).unwrap();
    conn
}

fn replace(conn: &mut Connection, channel: &str, items: &[&str]) {
    let items: Vec<String> = items.iter().map(|s| s.to_string()).collect();
    let ops = milestone_replacement(&channel.to_string(), &items);
    let tx = conn.transaction().unwrap();
    for op in &ops {
        let q = milestone_statement(op);
        tx.execute(&q.sql, rusqlite::params_from_iter(values(&q))).unwrap();
    }
    tx.commit().unwrap();
}

fn milestones_of(conn: &Connection, channel: &str) -> Vec<String> {
    let mut stmt = conn.prepare("SELECT milestone FROM channel_milestones WHERE channel_id = ?1 ORDER BY id").unwrap();
    let rows = stmt.query_map([channel], |row| row.get(0)).unwrap();
    rows.map(|r| r.unwrap()).collect()
}

fn stored_milestones(conn: &Connection, channel: &str, limit: usize) -> Vec<String> {
    let q = channel_milestones_statement(&channel.to_string(), limit);
    let mut stmt = conn.prepare(&q.sql).unwrap();
    let rows = stmt.query_map(rusqlite::params_from_iter(values(&q)), |row| row.get(0)).unwrap();
    rows.map(|r| r.unwrap()).collect()
}

#[test]
fn test_replace_channel_milestones() {
    let mut conn = milestone_store();

    replace(&mut conn, "c1", &["Decision A", "Constraint B"]);

    let stored = stored_milestones(&conn, "c1", 10);
    assert_eq!(stored.len(), 2);
    assert!(stored.iter().any(|m| m == "Decision A"));
    assert!(stored.iter().any(|m| m == "Constraint B"));

    replace(&mut conn, "c1", &["New Plan"]);

    let stored = stored_milestones(&conn, "c1", 10);
    assert_eq!(stored.len(), 1);
    assert_eq!(stored[0], "New Plan");
}

#[test]
fn replacement_trims_skips_blanks_and_leaves_other_channels() {
    let mut conn = milestone_store();
    replace(&mut conn, "other", &["Keep me"]);
    replace(&mut conn, "10", &["  padded  ", "   ", "x"]);
    assert_eq!(milestones_of(&conn, "10"), vec!["padded".to_string(), "x".to_string()]);
    assert_eq!(milestones_of(&conn, "other"), vec!["Keep me".to_string()]);
    let ops = milestone_replacement(&"10".to_string(), &Vec::new());
    assert_eq!(ops.len(), 1);
    assert!(matches!(&ops[0], MilestoneOp::ClearChannel(c) if c == "10"));
}

#[test]
fn cleanup_statement_uses_hours_window() {
    assert!(cleanup_statement(0).is_none());
    let q = cleanup_statement(48).unwrap();
    assert!(matches!(&q.params[0], SqlParam::Text(s) if s == "-48 hours"));
    assert_eq!(retention_hours_for_days(2), 48);
    assert_eq!(retention_hours_for_days(u64::MAX), u64::MAX);
}

#[test]
fn test_db_cleanup() {
    let conn = Connection::open_in_memory().unwrap();
    conn.execute_batch(SCHEMA).unwrap();
    conn.execute(
        "INSERT INTO messages (discord_id, guild_id, channel_id, user_id, content, timestamp)
                 VALUES ('old', 'g1', 'c1', 'u1', 'old msg', datetime('now', '-48 hours'))",
        [],
    )
    .unwrap();
    conn.execute(
        "INSERT INTO messages (discord_id, guild_id, channel_id, user_id, content, timestamp)
                 VALUES ('new', 'g1', 'c1', 'u1', 'new msg', datetime('now', '-1 hours'))",
        [],
    )
    .unwrap();

    let q = cleanup_statement(24).unwrap();
    let deleted = conn.execute(&q.sql, rusqlite::params_from_iter(values(&q))).unwrap();
    assert_eq!(deleted, 1);

    let mut stmt = conn.prepare("SELECT discord_id FROM messages").unwrap();
    let ids: Vec<String> = stmt.query_map([], |row| row.get(0)).unwrap().map(|r| r.unwrap()).collect();
    assert_eq!(ids.len(), 1);
    assert_eq!(ids[0], "new");
}

#[test]
fn channel_settings_round_trip() {
    let conn = Connection::open_in_memory().unwrap();
    conn.execute_batch(SCHEMA).unwrap();
    let g = "123".to_string();
    let c = "456".to_string();
    let read = |conn: &Connection| -> Option<(bool, Option<String>)> {
        let q = channel_settings_statement(&c);
        let mut stmt = conn.prepare(&q.sql).unwrap();
        let mut rows = stmt.query(rusqlite::params_from_iter(values(&q))).unwrap();
        rows.next().unwrap().map(|row| (row.get(0).unwrap(), row.get(1).unwrap()))
    };
    assert!(tracking_enabled(read(&conn)));
    let q = set_channel_enabled_statement(&g, &c, false);
    conn.execute(&q.sql, rusqlite::params_from_iter(values(&q))).unwrap();
    assert!(!tracking_enabled(read(&conn)));
    let date = "2026-01-01 00:00:00".to_string();
    let q = set_memory_scope_statement(&g, &c, Some(&date));
    conn.execute(&q.sql, rusqlite::params_from_iter(values(&q))).unwrap();
    assert_eq!(read(&conn), Some((false, Some(date.clone()))));
    let q = set_memory_scope_statement(&g, &c, None);
    conn.execute(&q.sql, rusqlite::params_from_iter(values(&q))).unwrap();
    assert_eq!(read(&conn), Some((false, None)));
}

#[test]
fn test_db_init_and_save() {
    let conn = Connection::open_in_memory().unwrap();
    conn.execute_batch(SCHEMA).unwrap();
    let s = |x: &str| x.to_string();
    let q = save_message_statement(&s("1"), &s("g1"), &s("c1"), &s("u1"), &s("hello"), 1600000000);
    conn.execute(&q.sql, rusqlite::params_from_iter(values(&q))).unwrap();

    let mut stmt = conn.prepare("SELECT discord_id FROM messages WHERE discord_id = '1'").unwrap();
    let exists = stmt.exists([]).unwrap();
    assert!(exists);
}

#[test]
fn schema_can_be_applied_twice() {
    let conn = Connection::open_in_memory().unwrap();
    conn.execute_batch(SCHEMA).unwrap();
    conn.execute_batch(SCHEMA).unwrap();
}

#[test]
fn saving_a_message_twice_keeps_one_row() {
    let conn = Connection::open_in_memory().unwrap();
    conn.execute_batch(SCHEMA).unwrap();
    let s = |x: &str| x.to_string();
    let q = save_message_statement(&s("1"), &s("g"), &s("c"), &s("u"), &s("hello"), 1600000000);
    conn.execute(&q.sql, rusqlite::params_from_iter(values(&q))).unwrap();
    conn.execute(&q.sql, rusqlite::params_from_iter(values(&q))).unwrap();
    let (n, ts): (i64, String) = conn
        .query_row("SELECT COUNT(*), MAX(timestamp) FROM messages", [], |r| Ok((r.get(0)?, r.get(1)?)))
        .unwrap();
    assert_eq!(n, 1);
    assert_eq!(ts, "2020-09-13 12:26:40");
}

#[test]
fn test_mark_message_indexed_excludes_from_backfill() {
    let conn = Connection::open_in_memory().unwrap();
    conn.execute_batch(SCHEMA).unwrap();
    let s = |x: &str| x.to_string();
    let q = save_message_statement(&s("1"), &s("g1"), &s("c1"), &s("u1"), &s("hello"), 1700000000);
    conn.execute(&q.sql, rusqlite::params_from_iter(values(&q))).unwrap();

    let backfill = |conn: &Connection| -> Vec<(i64, String)> {
        let q = missing_embeddings_statement(10);
        let mut stmt = conn.prepare(&q.sql).unwrap();
        let rows = stmt.query_map(rusqlite::params_from_iter(values(&q)), |row| Ok((row.get(0)?, row.get(1)?))).unwrap();
        rows.map(|r| r.unwrap()).collect()
    };
    let pending = backfill(&conn);
    assert_eq!(pending.len(), 1);

    let id: i64 = conn.query_row("SELECT id FROM messages WHERE discord_id = ?1", ["1"], |row| row.get(0)).unwrap();
    let q = mark_indexed_statement(id);
    conn.execute(&q.sql, rusqlite::params_from_iter(values(&q))).unwrap();
    assert!(backfill(&conn).is_empty());
}

#[test]
fn embedding_blob_is_stored_as_given() {
    let conn = Connection::open_in_memory().unwrap();
    conn.execute_batch(SCHEMA).unwrap();
    let s = |x: &str| x.to_string();
    let q = save_message_statement(&s("1"), &s("g1"), &s("c1"), &s("u1"), &s("hello"), 1700000000);
    conn.execute(&q.sql, rusqlite::params_from_iter(values(&q))).unwrap();
    let blob: Vec<u8> = [1.0f32, 0.0, 0.5].iter().flat_map(|f| f.to_le_bytes()).collect();
    let q = set_embedding_statement(1, blob.clone());
    conn.execute(&q.sql, rusqlite::params_from_iter(values(&q))).unwrap();
    let (stored, indexed): (Vec<u8>, bool) = conn
        .query_row("SELECT embedding, is_indexed FROM messages WHERE id = 1", [], |r| Ok((r.get(0)?, r.get(1)?)))
        .unwrap();
    assert_eq!(stored, blob);
    assert!(indexed);
}

#[test]
fn summary_statements_bind_their_values() {
    let q = save_summary_statement(&"c".to_string(), &"s".to_string(), true);
    assert!(q.sql.contains("refreshed_at = CURRENT_TIMESTAMP"));
    let u = save_summary_statement(&"c".to_string(), &"s".to_string(), false);
    assert!(!u.sql.contains("refreshed_at"));
    assert_eq!(u.params.len(), 2);
    let r = recent_messages_statement(&"c".to_string(), &"2024-01-01 00:00:00".to_string(), 200);
    assert!(matches!(&r.params[2], SqlParam::Integer(200)));
    let c = count_since_statement(&"c".to_string(), &"2024-01-01 00:00:00".to_string());
    assert_eq!(c.params.len(), 2);
}

fn run_all(conn: &Connection, qs: &[SqlQuery]) {
    for q in qs {
        conn.execute(&q.sql, rusqlite::params_from_iter(values(q))).unwrap();
    }
}

fn guild_settings(conn: &Connection, guild_id: u64) -> Option<(Option<usize>, Option<u64>)> {
    let q = guild_settings_statement(guild_id);
    let mut stmt = conn.prepare(&q.sql).unwrap();
    let mut rows = stmt.query(rusqlite::params_from_iter(values(&q))).unwrap();
    rows.next().unwrap().map(|row| (row.get(0).ok(), row.get(1).ok()))
}

fn set_guild(conn: &Connection, guild_id: u64, limit: Option<usize>, retention: Option<u64>) {
    let exists = guild_settings(conn, guild_id).is_some();
    run_all(conn, &set_guild_settings_statements(exists, guild_id, limit, retention));
}

#[test]
fn test_db_settings() {
    let conn = Connection::open_in_memory().unwrap();
    conn.execute_batch(SCHEMA).unwrap();

    let (limit, retention) = guild_settings(&conn, 123).unwrap_or((None, None));
    assert_eq!(limit, None);
    assert_eq!(retention, None);

    set_guild(&conn, 123, Some(100), Some(48));

    let (limit, retention) = guild_settings(&conn, 123).unwrap_or((None, None));
    assert_eq!(limit, Some(100));
    assert_eq!(retention, Some(48));

    set_guild(&conn, 123, None, Some(72));
    let (limit, retention) = guild_settings(&conn, 123).unwrap_or((None, None));
    assert_eq!(limit, Some(100));
    assert_eq!(retention, Some(72));
}

#[test]
fn test_channel_settings() {
    let conn = Connection::open_in_memory().unwrap();
    conn.execute_batch(SCHEMA).unwrap();
    let s = |x: &str| x.to_string();
    let guild_id = s("123");
    let channel_id = s("456");
    let settings = |conn: &Connection| -> Option<(bool, Option<String>)> {
        let q = channel_settings_statement(&channel_id);
        let mut stmt = conn.prepare(&q.sql).unwrap();
        let mut rows = stmt.query(rusqlite::params_from_iter(values(&q))).unwrap();
        rows.next().unwrap().map(|row| (row.get(0).unwrap(), row.get(1).unwrap()))
    };

    assert!(tracking_enabled(settings(&conn)));

    run_all(&conn, &[set_channel_enabled_statement(&guild_id, &channel_id, false)]);
    assert!(!tracking_enabled(settings(&conn)));
    let (enabled, scope) = settings(&conn).unwrap();
    assert!(!enabled);
    assert_eq!(scope, None);

    let test_date = s("2026-01-01 00:00:00");
    run_all(&conn, &[set_memory_scope_statement(&guild_id, &channel_id, Some(&test_date))]);
    let (enabled, scope) = settings(&conn).unwrap();
    assert!(!enabled);
    assert_eq!(scope, Some(test_date));

    let q = list_channel_settings_statement(&guild_id);
    let mut stmt = conn.prepare(&q.sql).unwrap();
    let list: Vec<(String, bool, Option<String>)> = stmt
        .query_map(rusqlite::params_from_iter(values(&q)), |row| Ok((row.get(0)?, row.get(1)?, row.get(2)?)))
        .unwrap()
        .map(|r| r.unwrap())
        .collect();
    assert_eq!(list.len(), 1);
    assert_eq!(list[0].0, channel_id);

    run_all(&conn, &[
        save_message_statement(&s("m1"), &guild_id, &channel_id, &s("u1"), &s("old"), 1600000000),
        save_message_statement(&s("m2"), &guild_id, &channel_id, &s("u1"), &s("new"), 1700000000),
    ]);

    let q = purge_messages_statement(&channel_id, None);
    let deleted = conn.execute(&q.sql, rusqlite::params_from_iter(values(&q))).unwrap();
    assert_eq!(deleted, 2);
}

#[test]
fn purge_before_a_date_keeps_newer_messages() {
    let conn = Connection::open_in_memory().unwrap();
    conn.execute_batch(SCHEMA).unwrap();
    let s = |x: &str| x.to_string();
    run_all(&conn, &[
        save_message_statement(&s("m1"), &s("g"), &s("c"), &s("u1"), &s("old"), 1600000000),
        save_message_statement(&s("m2"), &s("g"), &s("c"), &s("u1"), &s("new"), 1700000000),
    ]);
    let cut = s("2022-01-01 00:00:00");
    let q = purge_messages_statement(&s("c"), Some(&cut));
    assert_eq!(conn.execute(&q.sql, rusqlite::params_from_iter(values(&q))).unwrap(), 1);
}

#[test]
fn none_answer_clears_earlier_milestones() {
    let mut conn = milestone_store();
    replace(&mut conn, "c1", &["Decision A", "Constraint B"]);
    let parsed = mascord_memory::milestones::parse_milestones("None", 6);
    assert!(parsed.is_empty());
    let items: Vec<&str> = parsed.iter().map(|s| s.as_str()).collect();
    replace(&mut conn, "c1", &items);
    assert!(stored_milestones(&conn, "c1", 10).is_empty());
}
