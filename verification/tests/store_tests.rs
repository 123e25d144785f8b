use leaderboard::score::{Score, ScoreParams};
use leaderboard::store::{apply_limit, sort_column_ok, table_name_ok, Store, StoreError};

fn fresh(table: &str) -> Store {
    Store::new(table, Vec::new()).expect("table name should pass the allow-list")
}

#[test]
fn test_get_scores_ordering() {
    let mut store = fresh("23_3_1");
    store.insert_score("Charlie", "ls -l", 300);
    store.insert_score("Alice", "ls -l", 100);
    store.insert_score("Bob", "ls -l", 200);
    store.insert_score("Alice", "ls -l", 97);
    let scores = store.get_scores();
    let expected = vec![
        Score::new("Alice", "ls -l", 97),
        Score::new("Alice", "ls -l", 100),
        Score::new("Bob", "ls -l", 200),
        Score::new("Charlie", "ls -l", 300),
    ];
    assert_eq!(scores, expected);
}

#[test]
fn test_round_trip_contains_inserted_score() {
    let mut store = fresh("scores");
    store.insert_score("Alice", "cargo build", 12345);
    let scores = store.get_scores();
    assert!(scores.contains(&Score::new("Alice", "cargo build", 12345)));
}

#[test]
fn test_equal_times_keep_insertion_order() {
    let mut store = fresh("scores");
    store.insert_score("Alice", "ls", 100);
    store.insert_score("Bob", "ls", 100);
    let scores = store.get_scores();
    assert_eq!(scores[0].name, "Alice");
    assert_eq!(scores[1].name, "Bob");
}

#[test]
fn test_construct_keeps_existing_rows() {
    let existing = vec![
        Score::new("Alice", "ls", 10),
        Score::new("Bob", "ls", 5),
    ];
    let store = Store::new("scores", existing).expect("existing table should bind");
    let scores = store.get_scores();
    assert_eq!(scores.len(), 2);
    assert_eq!(scores[0], Score::new("Bob", "ls", 5));
    assert_eq!(scores[1], Score::new("Alice", "ls", 10));
}

#[test]
fn test_clear_then_get_scores_is_empty() {
    let mut store = fresh("scores");
    store.insert_score("Alice", "ls", 10);
    store.insert_score("Bob", "ls", 20);
    store.clear_table();
    let scores = store.get_scores();
    assert!(scores.is_empty());
}

#[test]
fn test_table_name_validation() {
    assert!(table_name_ok("23_3_1"));
    assert!(table_name_ok("scores"));
    assert!(table_name_ok("Scores_2024"));
    assert!(!table_name_ok(""));
    assert!(!table_name_ok("sco res"));
    assert!(!table_name_ok("scores; DROP TABLE users"));
    assert!(!table_name_ok("scores-1"));
    assert_eq!(
        Store::new("scores; DROP TABLE users", Vec::new()).err(),
        Some(StoreError::SchemaError)
    );
}

#[test]
fn test_sort_column_validation() {
    assert!(sort_column_ok("id"));
    assert!(sort_column_ok("name"));
    assert!(sort_column_ok("command"));
    assert!(sort_column_ok("time_ns"));
    assert!(!sort_column_ok("password"));
    assert!(!sort_column_ok("time_ns; --"));
}

#[test]
fn test_statements() {
    let store = fresh("23_3_1");
    assert_eq!(
        store.create_table_statement(),
        "CREATE TABLE if not exists 23_3_1 ( id INT NOT NULL AUTO_INCREMENT, name TEXT NOT NULL, command TEXT NOT NULL, time_ns INT NOT NULL, PRIMARY KEY (id) )"
    );
    assert_eq!(
        store.insert_statement(),
        "INSERT INTO 23_3_1 (name, command, time_ns) VALUES (:name, :command, :time_ns)"
    );
    assert_eq!(
        store.select_statement("time_ns"),
        Ok("SELECT name, command, time_ns FROM 23_3_1 ORDER BY time_ns ASC".to_string())
    );
    assert_eq!(
        store.select_statement("nonsense"),
        Err(StoreError::ReadError)
    );
    assert_eq!(store.clear_statement(), "DELETE FROM 23_3_1");
}

#[test]
fn test_apply_limit() {
    let scores = vec![
        Score::new("Alice", "ls", 1),
        Score::new("Bob", "ls", 2),
        Score::new("Carol", "ls", 3),
    ];
    let limited = apply_limit(scores, Some(2));
    assert_eq!(limited.len(), 2);
    assert_eq!(limited[0].name, "Alice");
    assert_eq!(limited[1].name, "Bob");

    let scores = vec![Score::new("Alice", "ls", 1)];
    let all = apply_limit(scores, None);
    assert_eq!(all.len(), 1);

    let scores = vec![Score::new("Alice", "ls", 1)];
    let generous = apply_limit(scores, Some(10));
    assert_eq!(generous.len(), 1);
}

#[test]
fn test_store_error_messages() {
    assert_eq!(
        StoreError::ConnectionError.message(),
        "cannot connect to the database".to_string()
    );
    assert_eq!(
        StoreError::SchemaError.message(),
        "cannot bind the score table".to_string()
    );
    assert_eq!(
        StoreError::WriteError.message(),
        "cannot write to the score table".to_string()
    );
    assert_eq!(
        StoreError::ReadError.message(),
        "cannot read from the score table".to_string()
    );
}

#[test]
fn test_score_as_insert() {
    let score = Score::new("Alice", "ls -l", 97);
    let (fragment, params) = score.as_insert();
    assert_eq!(
        fragment,
        "(name, command, time_ns) VALUES (:name, :command, :time_ns)"
    );
    let ScoreParams {
        name,
        command,
        time_ns,
    } = params;
    assert_eq!(name, "Alice");
    assert_eq!(command, "ls -l");
    assert_eq!(time_ns, 97);
}

#[test]
fn test_score_describe() {
    assert_eq!(
        Score::new("Alice", "ls -l", 97).describe(),
        "Alice ran ls -l in 97ns"
    );
    assert_eq!(
        Score::new("Bob", "sleep 0", 0).describe(),
        "Bob ran sleep 0 in 0ns"
    );
    assert_eq!(
        Score::new("Carol", "true", i32::MAX).describe(),
        "Carol ran true in 2147483647ns"
    );
}

#[test]
fn test_score_schema() {
    assert_eq!(
        Score::schema(),
        "id INT NOT NULL AUTO_INCREMENT, name TEXT NOT NULL, command TEXT NOT NULL, time_ns INT NOT NULL, PRIMARY KEY (id)"
    );
}
