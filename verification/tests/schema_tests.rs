use game_chronicle::schema::{update_table_schema, SchemaFieldUpdate, SchemaModifier};
use game_chronicle::Error;

fn chars(s: &str) -> Vec<char> {
    s.chars().collect()
}

fn text(v: &[char]) -> String {
    v.iter().collect()
}

fn field_update(update_type: i32) -> SchemaFieldUpdate {
    SchemaFieldUpdate {
        new_name: chars("points"),
        new_type: chars("INTEGER"),
        update_type,
        default: None,
        constraint_data: None,
    }
}

const SAMPLE_SCHEMA: &str = "CREATE TABLE logs (\nid INTEGER PRIMARY KEY,\nrating INTEGER,\nnotes TEXT\n)";

#[test]
fn change_table_name_replaces_first_occurrence() {
    let m = SchemaModifier::new(chars("logs"), chars(SAMPLE_SCHEMA));
    let renamed = m.change_table_name(&chars("new_logs"));
    assert_eq!(
        text(&renamed.schema),
        "CREATE TABLE new_logs (\nid INTEGER PRIMARY KEY,\nrating INTEGER,\nnotes TEXT\n)"
    );
    assert_eq!(text(&renamed.table_name), "new_logs");
}

#[test]
fn add_constraint_inserts_before_closing_lines() {
    let m = SchemaModifier::new(chars("logs"), chars(SAMPLE_SCHEMA));
    let with = m.add_constraint(&chars("rating_range"), &chars("CHECK (rating <= 10)"));
    assert_eq!(
        text(&with.schema),
        "CREATE TABLE logs (\nid INTEGER PRIMARY KEY,\nrating INTEGER,\nCONSTRAINT rating_range CHECK (rating <= 10)\nnotes TEXT\n)"
    );
}

#[test]
fn remove_constraint_drops_matching_lines() {
    let m = SchemaModifier::new(chars("logs"), chars(SAMPLE_SCHEMA));
    let with = m.add_constraint(&chars("rating_range"), &chars("CHECK (rating <= 10)"));
    let without = with.remove_constraint(&chars("rating_range"));
    assert_eq!(text(&without.commit()), SAMPLE_SCHEMA);
}

#[test]
fn add_column_plan_and_backfill() {
    let mut u = field_update(1);
    u.default = Some(chars("0"));
    let plan = update_table_schema(&chars("logs"), &chars("points"), &u, None).unwrap();
    assert!(!plan.rebuild);
    assert_eq!(plan.statements.len(), 2);
    assert_eq!(text(&plan.statements[0]), "ALTER TABLE logs ADD COLUMN points INTEGER");
    assert_eq!(text(&plan.statements[1]), "UPDATE logs SET points = 0");
}

#[test]
fn add_column_without_default_is_an_error() {
    let u = field_update(1);
    match update_table_schema(&chars("logs"), &chars("points"), &u, None) {
        Err(Error::Custom(msg)) => {
            assert_eq!(text(&msg), "No default value provided for points");
        }
        other => panic!("expected a configuration error, got {:?}", other.is_ok()),
    }
}

#[test]
fn rename_column_plan() {
    let u = field_update(2);
    let plan = update_table_schema(&chars("logs"), &chars("rating"), &u, None).unwrap();
    assert!(!plan.rebuild);
    assert_eq!(plan.statements.len(), 1);
    assert_eq!(text(&plan.statements[0]), "ALTER TABLE logs RENAME COLUMN rating TO points");
}

#[test]
fn drop_column_plan() {
    let u = field_update(3);
    let plan = update_table_schema(&chars("logs"), &chars("notes"), &u, None).unwrap();
    assert!(!plan.rebuild);
    assert_eq!(plan.statements.len(), 1);
    assert_eq!(text(&plan.statements[0]), "ALTER TABLE logs DROP COLUMN notes");
}

#[test]
fn constraint_without_data_is_an_error() {
    let schema = chars(SAMPLE_SCHEMA);
    let u = field_update(4);
    match update_table_schema(&chars("logs"), &chars("rating_range"), &u, Some(&schema)) {
        Err(Error::Custom(msg)) => {
            assert_eq!(text(&msg), "No constraint data provided for rating_range");
        }
        other => panic!("expected a configuration error, got {:?}", other.is_ok()),
    }
}

#[test]
fn add_constraint_plan_rebuilds_and_swaps() {
    let schema = chars(SAMPLE_SCHEMA);
    let mut u = field_update(4);
    u.constraint_data = Some(chars("CHECK (rating <= 10)"));
    let plan =
        update_table_schema(&chars("logs"), &chars("rating_range"), &u, Some(&schema)).unwrap();
    assert!(plan.rebuild);
    assert_eq!(plan.statements.len(), 4);
    assert_eq!(
        text(&plan.statements[0]),
        "CREATE TABLE new_logs (\nid INTEGER PRIMARY KEY,\nrating INTEGER,\nCONSTRAINT rating_range CHECK (rating <= 10)\nnotes TEXT\n)"
    );
    assert_eq!(text(&plan.statements[1]), "INSERT INTO new_logs SELECT * FROM logs");
    assert_eq!(text(&plan.statements[2]), "DROP TABLE logs");
    assert_eq!(text(&plan.statements[3]), "ALTER TABLE new_logs RENAME TO logs");
}

#[test]
fn unknown_update_type_yields_no_statements() {
    let u = field_update(9);
    let plan = update_table_schema(&chars("logs"), &chars("rating"), &u, None).unwrap();
    assert!(!plan.rebuild);
    assert_eq!(plan.statements.len(), 0);
}

fn run_plan(conn: &rusqlite::Connection, statements: &[Vec<char>]) {
    for s in statements {
        conn.execute(&text(s), []).unwrap();
    }
}

fn all_rows(conn: &rusqlite::Connection) -> Vec<(i32, i32, String)> {
    let mut stmt = conn.prepare("SELECT id, rating, notes FROM logs ORDER BY id").unwrap();
    let rows = stmt
        .query_map([], |row| Ok((row.get(0)?, row.get(1)?, row.get(2)?)))
        .unwrap()
        .collect::<Result<Vec<_>, _>>()
        .unwrap();
    rows
}

const LIVE_SCHEMA: &str =
    "CREATE TABLE logs (\nid INTEGER PRIMARY KEY,\nrating INTEGER,\nnotes TEXT,\nCHECK (id > 0)\n)";

#[test]
fn rebuild_round_trip_preserves_rows() {
    // Adding a constraint and later dropping it again leaves the row set
    // exactly as it was, through a real rebuild-and-swap on a real store.
    // The insertion point sits just before the closing lines, so the last
    // column line already carries its comma and the tail line is a table
    // constraint.
    let conn = rusqlite::Connection::open_in_memory().unwrap();
    conn.execute(LIVE_SCHEMA, []).unwrap();
    conn.execute("INSERT INTO logs (id, rating, notes) VALUES (1, 7, 'fine')", []).unwrap();
    conn.execute("INSERT INTO logs (id, rating, notes) VALUES (2, 9, 'great')", []).unwrap();
    let before = all_rows(&conn);

    let load_schema = |conn: &rusqlite::Connection| -> Vec<char> {
        let sql: String = conn
            .query_row(
                "SELECT sql FROM sqlite_master WHERE type='table' AND name='logs'",
                [],
                |row| row.get(0),
            )
            .unwrap();
        sql.chars().collect()
    };

    let mut add = field_update(4);
    add.constraint_data = Some(chars("CHECK (rating <= 10),"));
    let schema = load_schema(&conn);
    let plan =
        update_table_schema(&chars("logs"), &chars("rating_range"), &add, Some(&schema)).unwrap();
    assert!(plan.rebuild);
    run_plan(&conn, &plan.statements);
    assert_eq!(all_rows(&conn), before);

    let drop = field_update(6);
    let schema = load_schema(&conn);
    let plan =
        update_table_schema(&chars("logs"), &chars("rating_range"), &drop, Some(&schema)).unwrap();
    assert!(plan.rebuild);
    run_plan(&conn, &plan.statements);
    assert_eq!(all_rows(&conn), before);
}
