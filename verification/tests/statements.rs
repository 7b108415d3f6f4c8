use trip_scheduler_lib::errors::SeedError;
use trip_scheduler_lib::sqlgen::{get_migrations, seed_statements, upsert_statement};
use trip_scheduler_lib::trip::ITrip;

fn bare_trip(id: &str, title: &str) -> ITrip {
    ITrip {
        id: id.to_string(),
        title: title.to_string(),
        description: None,
        image_url: None,
        start_date: None,
        end_date: None,
        days: None,
        cities: None,
        status: None,
        budget_cents: None,
        currency: None,
        participants: None,
        tags: None,
        visibility: None,
    }
}

#[test]
fn migrations_hold_one_create_if_absent_statement() {
    let migrations = get_migrations();
    assert_eq!(migrations.len(), 1);
    assert_eq!(
        migrations[0].sql,
        "CREATE TABLE IF NOT EXISTS trips (id TEXT PRIMARY KEY, title TEXT NOT NULL, \
         description TEXT, image_url TEXT, start_date TEXT, end_date TEXT, days INTEGER, \
         cities TEXT, status TEXT, budget REAL, currency TEXT, participants TEXT, tags TEXT, \
         visibility TEXT);"
    );
}

#[test]
fn upsert_statement_with_defaults() {
    let trip = bare_trip("t1", "Weekend");
    assert_eq!(
        upsert_statement(&trip),
        "INSERT OR REPLACE INTO trips (id, title, description, image_url, start_date, \
         end_date, days, cities, status, budget, currency, participants, tags, visibility) \
         VALUES ('t1', 'Weekend', '', '', '', '', 0, '[]', '', 0.00, '', '[]', '[]', '');"
    );
}

#[test]
fn upsert_statement_fills_every_field() {
    let trip = ITrip {
        id: "t2".to_string(),
        title: "Tour".to_string(),
        description: Some("Two weeks".to_string()),
        image_url: Some("http://example.test/t2.png".to_string()),
        start_date: Some("2025-06-01".to_string()),
        end_date: Some("2025-06-14".to_string()),
        days: Some(14),
        cities: Some(vec!["Paris".to_string(), "Rome".to_string()]),
        status: Some("planned".to_string()),
        budget_cents: Some(150050),
        currency: Some("EUR".to_string()),
        participants: Some(vec!["Ada".to_string()]),
        tags: Some(vec!["summer".to_string()]),
        visibility: Some("private".to_string()),
    };
    assert_eq!(
        upsert_statement(&trip),
        "INSERT OR REPLACE INTO trips (id, title, description, image_url, start_date, \
         end_date, days, cities, status, budget, currency, participants, tags, visibility) \
         VALUES ('t2', 'Tour', 'Two weeks', 'http://example.test/t2.png', '2025-06-01', \
         '2025-06-14', 14, '[\"Paris\",\"Rome\"]', 'planned', 1500.50, 'EUR', '[\"Ada\"]', \
         '[\"summer\"]', 'private');"
    );
}

#[test]
fn upsert_statement_doubles_quotes() {
    let trip = bare_trip("t3", "O'Brien's Trip");
    let statement = upsert_statement(&trip);
    assert!(statement.contains("'O''Brien''s Trip'"));
}

#[test]
fn seed_statements_one_per_record_in_order() {
    let trips = vec![bare_trip("a", "A"), bare_trip("b", "B"), bare_trip("c", "C")];
    let statements = seed_statements(&trips);
    assert_eq!(statements.len(), 3);
    for (trip, statement) in trips.iter().zip(statements.iter()) {
        assert_eq!(*statement, upsert_statement(trip));
    }
}

#[test]
fn write_error_message_names_the_record() {
    let e = SeedError::Write { index: 1, detail: "NOT NULL constraint failed".to_string() };
    assert_eq!(e.message(), "failed to insert record 1: NOT NULL constraint failed");
}

#[test]
fn schema_error_message_names_the_statement() {
    let e = SeedError::Schema { index: 0, detail: "syntax error".to_string() };
    assert_eq!(e.message(), "failed to run schema statement 0: syntax error");
}

#[test]
fn reset_error_message_carries_the_diagnostic() {
    let e = SeedError::Reset { detail: "permission denied".to_string() };
    assert_eq!(e.message(), "failed to remove the store file: permission denied");
}

#[test]
fn serialization_error_message_carries_the_diagnostic() {
    let e = SeedError::Serialization { detail: "bad value".to_string() };
    assert_eq!(e.message(), "failed to serialize a record: bad value");
}
