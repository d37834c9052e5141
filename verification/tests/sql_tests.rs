use qfinder::plan::{plan_search, search_sql, Tier};
use qfinder::search::{fuzzy_score_parts, token_score};
use rusqlite::{functions::FunctionFlags, Connection};

fn database() -> Connection {
    let conn = Connection::open_in_memory().unwrap();
    conn.execute_batch(
        "CREATE TABLE items(
             id INTEGER PRIMARY KEY, type TEXT NOT NULL, title TEXT NOT NULL, path TEXT UNIQUE,
             content TEXT, fingerprint TEXT, created_at INTEGER,
             access_count INTEGER DEFAULT 0, last_accessed INTEGER);
         CREATE VIRTUAL TABLE search USING fts5(title, content, content='items', content_rowid='id', tokenize='trigram');
         CREATE TRIGGER items_ai AFTER INSERT ON items BEGIN
             INSERT INTO search(rowid, title, content) VALUES (new.id, new.title, new.content);
         END;",
    )
    .unwrap();
    let flags = FunctionFlags::SQLITE_DETERMINISTIC | FunctionFlags::SQLITE_UTF8;
    conn.create_scalar_function("token_score", 2, flags, |ctx| {
        let q: String = ctx.get(0)?;
        let t: String = ctx.get(1)?;
        Ok(token_score(&q, &t) as f64)
    })
    .unwrap();
    conn.create_scalar_function("fuzzy_score", 2, flags, |ctx| {
        let q: String = ctx.get(0)?;
        let t: String = ctx.get(1)?;
        Ok(match fuzzy_score_parts(&q, &t) {
            None => 0.0,
            Some((d, m)) => 1.0 - d as f64 / m as f64,
        })
    })
    .unwrap();
    conn
}

#[test]
fn full_text_tier_finds_a_match_in_the_content() {
    let conn = database();
    conn.execute(
        "INSERT INTO items (type, title, path, content, fingerprint, created_at, last_accessed, access_count)
         VALUES ('note', 'meeting-notes-jan.md', '/n/meeting-notes-jan.md', 'the budget for q1', '', 0, 0, 1)",
        [],
    )
    .unwrap();
    let plan = plan_search("budget", None).unwrap();
    let sql = search_sql(Tier::FullText, &plan.type_filter);
    let mut stmt = conn.prepare(&sql).unwrap();
    let ids: Vec<i64> = stmt
        .query_map(
            &[
                (":fts", &plan.fts_query as &dyn rusqlite::ToSql),
                (":nq", &plan.norm_query as &dyn rusqlite::ToSql),
                (":now", &0i64 as &dyn rusqlite::ToSql),
            ][..],
            |row| row.get(0),
        )
        .unwrap()
        .map(|r| r.unwrap())
        .collect();
    assert_eq!(ids, vec![1]);
}

#[test]
fn every_tier_statement_prepares() {
    let conn = database();
    for tier in [Tier::Short, Tier::FullText, Tier::Title, Tier::Fuzzy] {
        for filter in ["", "AND items.type = 'clipboard'"] {
            let sql = search_sql(tier, filter);
            assert!(conn.prepare(&sql).is_ok(), "{:?}: {}", tier, sql);
        }
    }
}
