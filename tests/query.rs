use bibrs::query::{multi_param, search_query};
use bibrs::store::SearchError;
use rusqlite::Connection;

fn library() -> Connection {
    let conn = Connection::open_in_memory().unwrap();
    conn.execute_batch(
        "CREATE TABLE persons (id INTEGER PRIMARY KEY, last_name TEXT, first_name TEXT, search_term TEXT);
         CREATE TABLE item_persons (item_id TEXT, person_id INTEGER, order_seq INTEGER, is_editor BOOLEAN);
         CREATE TABLE keywords (id INTEGER PRIMARY KEY, text TEXT UNIQUE);
         CREATE TABLE item_keywords (item_id TEXT, keyword_id INTEGER);
         INSERT INTO persons VALUES (1, 'rosa', 'marcello', 'rosa'), (2, 'casagrande', 'vivien', 'casagrande');
         INSERT INTO item_persons VALUES ('both1999', 1, 0, 0), ('both1999', 2, 1, 0), ('rosa2001', 1, 0, 0),
                                         ('casagrande1994', 2, 0, 0);
         INSERT INTO keywords VALUES (1, 'review'), (2, 'cortex');
         INSERT INTO item_keywords VALUES ('both1999', 1), ('rosa2001', 1), ('rosa2001', 2), ('casagrande1994', 2);",
    )
    .unwrap();
    conn
}

fn run(conn: &Connection, authors: &[&str], keywords: &[&str]) -> Vec<String> {
    let q = search_query(authors.len(), keywords.len()).unwrap();
    let mut values: Vec<rusqlite::types::Value> = Vec::new();
    if !authors.is_empty() {
        values.extend(authors.iter().map(|a| rusqlite::types::Value::Text((*a).to_owned())));
        values.push(rusqlite::types::Value::Integer(authors.len() as i64));
    }
    if !keywords.is_empty() {
        values.extend(keywords.iter().map(|k| rusqlite::types::Value::Text((*k).to_owned())));
        values.push(rusqlite::types::Value::Integer(keywords.len() as i64));
    }
    let mut stmt = conn.prepare(&q).unwrap();
    let mut ids: Vec<String> = stmt
        .query_map(rusqlite::params_from_iter(values.iter()), |row| row.get::<_, String>(0))
        .unwrap()
        .map(|x| x.unwrap())
        .collect();
    ids.sort();
    ids
}

#[test]
fn placeholders() {
    assert_eq!(multi_param(0), "");
    assert_eq!(multi_param(1), "?");
    assert_eq!(multi_param(3), "?, ?, ?");
}

#[test]
fn query_text_by_kinds_of_terms() {
    assert_eq!(search_query(0, 0), Err(SearchError::NoTerms));
    let a = search_query(2, 0).unwrap();
    assert!(a.contains("search_term IN (?, ?)"));
    assert!(!a.contains("INTERSECT"));
    let b = search_query(1, 2).unwrap();
    assert!(b.contains(" INTERSECT "));
    assert!(b.contains("keywords.text IN (?, ?)"));
}

#[test]
fn query_needs_all_authors_and_keywords() {
    let conn = library();
    assert_eq!(run(&conn, &["casagrande", "rosa"], &[]), vec!["both1999".to_owned()]);
    assert_eq!(run(&conn, &[], &["review"]), vec!["both1999".to_owned(), "rosa2001".to_owned()]);
    assert_eq!(run(&conn, &["rosa"], &["cortex"]), vec!["rosa2001".to_owned()]);
    assert_eq!(run(&conn, &["rosa"], &[]), vec!["both1999".to_owned(), "rosa2001".to_owned()]);
    assert!(run(&conn, &["casagrande"], &["review", "cortex"]).is_empty());
}
