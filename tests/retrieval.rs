use mascord_memory::retrieval::{
    effective_limit, keyword_query, merge_results, plan_search, rank_candidates, vector_query,
    MessageResult, ScoredMessage, SearchFilter, SqlParam, SqlQuery,
};
use rusqlite::types::Value;
use mascord_memory::store::{
    save_message_statement, set_channel_enabled_statement, set_memory_scope_statement, SCHEMA,
};
use rusqlite::Connection;


fn store() -> Connection {
    let conn = Connection::open_in_memory().unwrap();
    conn.execute_batch(SCHEMA).unwrap();
    conn
}

fn save(conn: &Connection, id: &str, channel: &str, content: &str, ts: i64) {
    save_in(conn, id, "g1", channel, content, ts);
}

fn values(q: &SqlQuery) -> Vec<Value> {
    q.params
        .iter()
        .map(|p| match p {
            SqlParam::Text(s) => Value::Text(s.clone()),
            SqlParam::Integer(i) => Value::Integer(*i),
            SqlParam::Blob(b) => Value::Blob(b.clone()),
            SqlParam::Null => Value::Null,
        })
        .collect()
}

fn run(conn: &Connection, q: &SqlQuery) -> Vec<MessageResult> {
    let mut stmt = conn.prepare(&q.sql).unwrap();
    let rows = stmt
        .query_map(rusqlite::params_from_iter(values(q)), |row| {
            Ok(MessageResult {
                content: row.get(0)?,
                user_id: row.get(1)?,
                timestamp: row.get(2)?,
                channel_id: row.get(3)?,
            })
        })
        .unwrap();
    rows.map(|r| r.unwrap()).collect()
}

fn result(content: &str, ts: &str) -> MessageResult {
    MessageResult {
        content: content.to_string(),
        user_id: "u1".to_string(),
        timestamp: ts.to_string(),
        channel_id: "c1".to_string(),
    }
}

fn scored(score: f32, content: &str, ts: &str) -> ScoredMessage {
    ScoredMessage { score: score.to_bits(), message: result(content, ts) }
}

#[test]
fn limits_default_and_clamp() {
    assert_eq!(effective_limit(0), 5);
    assert_eq!(effective_limit(7), 7);
    assert_eq!(effective_limit(100), 100);
    assert_eq!(effective_limit(101), 100);
}

fn exec(conn: &Connection, q: &SqlQuery) {
    conn.execute(&q.sql, rusqlite::params_from_iter(values(q))).unwrap();
}

fn save_in(conn: &Connection, id: &str, guild: &str, channel: &str, content: &str, ts: i64) {
    let s = |x: &str| x.to_string();
    exec(conn, &save_message_statement(&s(id), &s(guild), &s(channel), &s("u1"), &s(content), ts));
}

#[test]
fn test_search_with_special_chars() {
    let conn = store();
    save_in(&conn, "1", "g1", "c1", "normal message", 1600000000);

    let filter = SearchFilter::default().with_limit(10);
    let plan = plan_search("'; DROP TABLE messages; --", 0, &filter).unwrap();
    let q = plan.keyword.unwrap();
    assert!(!q.sql.contains("DROP"));
    let mut stmt = conn.prepare(&q.sql).unwrap();
    let result = stmt.query_map(rusqlite::params_from_iter(values(&q)), |row| row.get::<_, String>(0)).map(|rows| rows.count());
    assert!(result.is_ok());
    drop(stmt);

    assert!(conn.prepare("SELECT 1 FROM messages").is_ok());
}

#[test]
fn test_rag_filtering_with_settings() {
    let conn = store();
    let guild_id = "123";
    let s = |x: &str| x.to_string();
    exec(&conn, &set_channel_enabled_statement(&s(guild_id), &s("c2"), false));
    let start = s("2026-01-01 00:00:00");
    exec(&conn, &set_memory_scope_statement(&s(guild_id), &s("c3"), Some(&start)));

    save_in(&conn, "m1", guild_id, "c1", "msg in c1", 1700000000);
    save_in(&conn, "m2", guild_id, "c2", "msg in c2", 1700000000);
    save_in(&conn, "m3", guild_id, "c3", "old msg in c3", 1600000000);
    save_in(&conn, "m4", guild_id, "c3", "new msg in c3", 1800000000);

    let filter = SearchFilter::default().with_limit(10);
    let plan = plan_search("", 0, &filter).unwrap();
    let results = run(&conn, plan.keyword.as_ref().unwrap());

    assert_eq!(results.len(), 2);
    let contents: Vec<_> = results.iter().map(|r| r.content.as_str()).collect();
    assert!(contents.contains(&"msg in c1"));
    assert!(contents.contains(&"new msg in c3"));
    assert!(!contents.contains(&"msg in c2"));
    assert!(!contents.contains(&"old msg in c3"));
}

#[test]
fn keyword_match_is_a_plain_substring_match() {
    let conn = store();
    save(&conn, "1", "c1", "hello world", 1700000000);
    save(&conn, "2", "c1", "100% sure", 1700000001);
    save(&conn, "3", "c1", "snake_case", 1700000002);
    let filter = SearchFilter::default().with_limit(10);
    let hits = |q: &str| -> Vec<String> {
        run(&conn, &keyword_query(q, &filter).unwrap()).into_iter().map(|m| m.content).collect()
    };
    assert_eq!(hits("%"), vec!["100% sure".to_string()]);
    assert_eq!(hits("_"), vec!["snake_case".to_string()]);
    assert!(hits("HELLO").is_empty());
    assert_eq!(hits("lo wo"), vec!["hello world".to_string()]);
}

#[test]
fn keyword_statement_shape() {
    let filter = SearchFilter::default().with_channel("a".to_string()).with_channel("b".to_string());
    let q = keyword_query("hi", &filter).unwrap();
    assert!(q.sql.contains(" AND instr(m.content, ?) > 0 AND m.channel_id IN (?, ?) ORDER BY m.timestamp DESC LIMIT ?"));
    assert_eq!(q.params.len(), 4);
    assert!(matches!(&q.params[0], SqlParam::Text(s) if s == "hi"));
    assert!(matches!(&q.params[3], SqlParam::Integer(5)));
    let empty = keyword_query("", &SearchFilter::default()).unwrap();
    assert!(!empty.sql.contains("instr"));
    assert_eq!(empty.params.len(), 1);
}

#[test]
fn date_bounds_are_written_in_store_form() {
    let filter = SearchFilter::default().with_from_date(1700000000).with_to_date(1700003600);
    let q = keyword_query("", &filter).unwrap();
    assert!(matches!(&q.params[0], SqlParam::Text(s) if s == "2023-11-14 22:13:20"));
    assert!(matches!(&q.params[1], SqlParam::Text(s) if s == "2023-11-14 23:13:20"));
    let v = vector_query(&filter).unwrap();
    assert!(v.sql.contains("m.embedding IS NOT NULL"));
    assert!(matches!(&v.params[2], SqlParam::Integer(5000)));
}

#[test]
fn vector_ranking_puts_the_matching_embedding_first() {
    // cosine similarities of [0,1,0] with [1,0,0], [0,1,0], [0,0,1]
    let ranked = rank_candidates(
        vec![
            scored(0.0, "charlie", "2023-11-14 22:13:22"),
            scored(1.0, "bravo", "2023-11-14 22:13:21"),
            scored(0.0, "alpha", "2023-11-14 22:13:20"),
        ],
        3,
    );
    assert_eq!(ranked.len(), 3);
    assert_eq!(ranked[0].content, "bravo");
    assert_eq!(ranked[1].content, "charlie");
    assert_eq!(ranked[2].content, "alpha");
}

#[test]
fn recency_breaks_ties_in_ranking() {
    // equal similarity; the newer one carries the larger recency boost
    let newer = 1.0f32 * (1.0 + 0.05);
    let older = 1.0f32 * (1.0 + 0.05 * (1.0 - 10.0 / 30.0));
    let ranked = rank_candidates(vec![scored(older, "older", "a"), scored(newer, "newer", "b")], 2);
    assert_eq!(ranked[0].content, "newer");
    let equal = rank_candidates(vec![scored(0.5, "first", "a"), scored(0.5, "second", "b")], 2);
    assert_eq!(equal[0].content, "first");
}

#[test]
fn ranking_truncates_to_the_limit() {
    let ranked = rank_candidates(
        vec![scored(0.1, "a", "1"), scored(0.9, "b", "2"), scored(0.5, "c", "3")],
        2,
    );
    let names: Vec<String> = ranked.into_iter().map(|m| m.content).collect();
    assert_eq!(names, vec!["b".to_string(), "c".to_string()]);
}

#[test]
fn merge_keeps_vector_hits_first_and_drops_duplicates() {
    let vector = vec![result("alpha", "t1"), result("both", "t2")];
    let keyword = vec![result("both", "t2"), result("hello world", "t3")];
    let merged = merge_results(vector, keyword, 5);
    let names: Vec<String> = merged.into_iter().map(|m| m.content).collect();
    assert_eq!(names, vec!["alpha".to_string(), "both".to_string(), "hello world".to_string()]);
}

#[test]
fn merge_cuts_to_the_limit() {
    let vector = vec![result("a", "1"), result("b", "2")];
    let keyword = vec![result("c", "3")];
    assert_eq!(merge_results(vector, keyword, 2).len(), 2);
}

#[test]
fn merge_with_no_vector_results_returns_keyword_hits() {
    let conn = store();
    save(&conn, "m1", "c1", "hello world", 1700000000);
    save(&conn, "m2", "c1", "goodbye", 1700000001);
    let filter = SearchFilter::default().with_limit(5);
    let plan = plan_search("hello", 3, &filter).unwrap();
    assert!(plan.vector.is_some());
    let keyword = run(&conn, plan.keyword.as_ref().unwrap());
    let merged = merge_results(Vec::new(), keyword, plan.limit);
    assert_eq!(merged.len(), 1);
    assert_eq!(merged[0].content, "hello world");
}

#[test]
fn plan_skips_keyword_search_for_blank_query_with_embedding() {
    let filter = SearchFilter::default();
    let plan = plan_search("   ", 3, &filter).unwrap();
    assert!(plan.vector.is_some());
    assert!(plan.keyword.is_none());
    let plain = plan_search("", 0, &filter).unwrap();
    assert!(plain.vector.is_none());
    assert!(plain.keyword.is_some());
    assert_eq!(plain.limit, 5);
}
