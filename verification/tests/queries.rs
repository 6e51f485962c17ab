use gchat_takeout::queries::{
    assumed_kind, contains_pattern_of, decimal, group_dir_name, groups_query, messages_query,
    use_managed_copy, GROUPS_SEARCH_SQL, GROUPS_SQL, MESSAGES_SEARCH_SQL, MESSAGES_SQL,
};
use gchat_takeout::takeout::{classify_group_dir, GroupKind};
use rusqlite::Connection;

#[test]
fn group_list_without_search_is_unfiltered() {
    let q = groups_query(&None);
    assert_eq!(q.sql, GROUPS_SQL);
    assert!(q.params.is_empty());
    let q = groups_query(&Some(String::new()));
    assert_eq!(q.sql, GROUPS_SQL);
    assert!(q.params.is_empty());
}

#[test]
fn group_list_search_is_a_bound_lower_cased_pattern() {
    let q = groups_query(&Some("O'Brien".to_string()));
    assert_eq!(q.sql, GROUPS_SEARCH_SQL);
    assert_eq!(q.params, vec!["%o'brien%".to_string()]);
    assert!(!q.sql.contains("brien"));
}

#[test]
fn like_pattern_keeps_wildcards() {
    assert_eq!(contains_pattern_of(&"50%_off\\".to_string()), "%50%_off\\%");
    assert_eq!(contains_pattern_of(&String::new()), "%%");
}

#[test]
fn decimal_matches_to_string() {
    for n in [0i64, 7, -7, 10, 1234567890, -100, i64::MAX, i64::MIN] {
        assert_eq!(decimal(n), n.to_string());
    }
}

#[test]
fn message_page_parameters() {
    let q = messages_query(7, 50, -1, &None);
    assert_eq!(q.sql, MESSAGES_SQL);
    assert_eq!(q.params, vec!["7".to_string(), "50".to_string(), "-1".to_string()]);
}

#[test]
fn message_search_parameters() {
    let q = messages_query(12, 20, 40, &Some("Lunch_50%".to_string()));
    assert_eq!(q.sql, MESSAGES_SEARCH_SQL);
    assert_eq!(
        q.params,
        vec!["12".to_string(), "%lunch_50%%".to_string(), "20".to_string(), "40".to_string()]
    );
}

fn store() -> Connection {
    let conn = Connection::open_in_memory().unwrap();
    conn.execute_batch(
        "CREATE TABLE users (id INTEGER PRIMARY KEY AUTOINCREMENT, name TEXT NOT NULL, email TEXT, user_type TEXT, is_main_user INTEGER DEFAULT 0, UNIQUE(name, email));
         CREATE TABLE groups (id INTEGER PRIMARY KEY AUTOINCREMENT, google_id TEXT UNIQUE NOT NULL, name TEXT, type TEXT, last_message_at DATETIME);
         CREATE TABLE group_memberships (user_id INTEGER, group_id INTEGER, PRIMARY KEY (user_id, group_id));
         CREATE TABLE messages (id INTEGER PRIMARY KEY AUTOINCREMENT, group_id INTEGER, user_id INTEGER, text TEXT, created_at DATETIME, topic_id TEXT, google_message_id TEXT UNIQUE);
         INSERT INTO users (name, email) VALUES ('Me', 'me@x.org'), ('Seán O''Brien', 'sob@x.org'), ('Ann', 'ann@x.org');
         UPDATE users SET is_main_user = 1 WHERE name = 'Me';
         INSERT INTO groups (google_id, name, type, last_message_at) VALUES ('d1', NULL, 'DM', '2024-01-01 00:00:00'), ('s1', '100% fun', 'Space', '2024-02-01 00:00:00'), ('d2', NULL, 'DM', NULL);
         INSERT INTO group_memberships VALUES (1, 1), (2, 1), (1, 2), (3, 2), (1, 3), (3, 3);
         INSERT INTO messages (group_id, user_id, text, created_at, google_message_id) VALUES (1, 2, 'hi', '2024-01-01 00:00:00', 'm1');",
    )
    .unwrap();
    conn
}

fn group_ids(conn: &Connection, query: Option<&str>) -> Vec<String> {
    let q = groups_query(&query.map(|s| s.to_string()));
    let mut stmt = conn.prepare(&q.sql).unwrap();
    let rows = stmt
        .query_map(rusqlite::params_from_iter(q.params), |r| r.get::<_, String>(1))
        .unwrap();
    rows.map(|r| r.unwrap()).collect()
}

#[test]
fn search_finds_participant_with_apostrophe() {
    let conn = store();
    assert_eq!(group_ids(&conn, Some("o'brien")), vec!["d1".to_string()]);
    assert_eq!(group_ids(&conn, Some("O'BRIEN")), vec!["d1".to_string()]);
}

#[test]
fn search_treats_percent_and_underscore_as_wildcards() {
    let conn = store();
    assert_eq!(group_ids(&conn, Some("100%")), vec!["s1".to_string()]);
    assert_eq!(group_ids(&conn, Some("1_0")), vec!["s1".to_string()]);
    assert_eq!(group_ids(&conn, Some("_")), vec!["s1".to_string(), "d1".to_string(), "d2".to_string()]);
    assert_eq!(group_ids(&conn, Some("ANN@")), vec!["s1".to_string(), "d2".to_string()]);
}

#[test]
fn unfiltered_list_is_most_recent_first_and_names_dms() {
    let conn = store();
    assert_eq!(group_ids(&conn, None), vec!["s1".to_string(), "d1".to_string(), "d2".to_string()]);
    let q = groups_query(&None);
    let mut stmt = conn.prepare(&q.sql).unwrap();
    let names: Vec<Option<String>> = stmt
        .query_map([], |r| r.get(2))
        .unwrap()
        .map(|r| r.unwrap())
        .collect();
    assert_eq!(names[1].as_deref(), Some("Seán O'Brien"));
}

#[test]
fn message_search_runs_with_bound_pattern() {
    let conn = store();
    let q = messages_query(1, 10, 0, &Some("H_".to_string()));
    let mut stmt = conn.prepare(&q.sql).unwrap();
    let n = stmt
        .query_map(rusqlite::params_from_iter(q.params), |r| r.get::<_, i64>(0))
        .unwrap()
        .count();
    assert_eq!(n, 1);
}

#[test]
fn directory_names() {
    assert_eq!(group_dir_name("Space", "AAAA1234567"), "Space AAAA1234567");
    assert_eq!(group_dir_name("DM", "x"), "DM x");
}

#[test]
fn long_ids_are_assumed_to_be_spaces() {
    assert_eq!(assumed_kind("12345678901"), GroupKind::Dm);
    assert_eq!(assumed_kind("123456789012"), GroupKind::Space);
    assert_eq!(assumed_kind("ééééé"), GroupKind::Dm);
    assert_eq!(assumed_kind("éééééé"), GroupKind::Space);
}

#[test]
fn managed_copy_only_when_copied_and_present() {
    assert!(use_managed_copy(1, true));
    assert!(!use_managed_copy(1, false));
    assert!(!use_managed_copy(0, true));
    assert!(!use_managed_copy(2, true));
}

#[test]
fn directory_is_found_again_from_stored_kind_and_id() {
    for name in ["DM abc", "Space AAAAxyz"] {
        let d = classify_group_dir(name);
        assert_eq!(group_dir_name(&d.kind.label(), &d.google_id), name);
    }
    let odd = classify_group_dir("Notes");
    assert_eq!(group_dir_name(&odd.kind.label(), &odd.google_id), "Unknown Notes");
}

