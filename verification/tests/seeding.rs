use trip_scheduler_lib::errors::SeedError;
use trip_scheduler_lib::listfmt::decode_string_list;
use trip_scheduler_lib::store::Store;
use trip_scheduler_lib::trip::ITrip;

fn trip(id: &str, title: &str) -> ITrip {
    ITrip {
        id: id.to_string(),
        title: title.to_string(),
        description: None,
        image_url: None,
        start_date: None,
        end_date: None,
        days: None,
        cities: None,
        status: None,
        budget_cents: None,
        currency: None,
        participants: None,
        tags: None,
        visibility: None,
    }
}

fn fixture() -> Vec<ITrip> {
    let mut first = trip("t1", "City Break");
    first.cities = Some(vec!["Paris".to_string(), "Rome".to_string()]);
    first.days = Some(5);
    first.budget_cents = Some(120000);
    let second = trip("t2", "Hiking Week");
    let third = trip("t3", "O'Brien's Trip");
    vec![first, second, third]
}

#[test]
fn seeding_twice_leaves_one_row_per_id_with_latest_values() {
    let trips = fixture();
    let mut store = Store::new_absent();
    store.seed(&trips);
    assert_eq!(store.row_count(), 3);
    store.seed(&trips);
    assert_eq!(store.row_count(), 3);
    let row = store.get_row(&"t1".to_string()).unwrap();
    assert_eq!(row.title, "City Break");
}

#[test]
fn reseeding_overwrites_with_the_latest_values() {
    let trips = fixture();
    let mut store = Store::new_absent();
    store.seed(&trips);
    let mut renamed = fixture();
    renamed[0].title = "City Break, Extended".to_string();
    store.seed(&renamed);
    assert_eq!(store.row_count(), 3);
    let row = store.get_row(&"t1".to_string()).unwrap();
    assert_eq!(row.title, "City Break, Extended");
}

#[test]
fn duplicate_ids_collapse_to_the_last_record() {
    let mut trips = vec![trip("dup", "First"), trip("other", "Other"), trip("dup", "Last")];
    trips[2].days = Some(2);
    let mut store = Store::new_absent();
    store.seed(&trips);
    assert_eq!(store.row_count(), 2);
    let row = store.get_row(&"dup".to_string()).unwrap();
    assert_eq!(row.title, "Last");
    assert_eq!(row.days, 2);
}

#[test]
fn schema_creation_twice_keeps_the_rows() {
    let trips = fixture();
    let mut store = Store::new_absent();
    store.ensure_schema();
    store.ensure_schema();
    store.seed(&trips);
    store.ensure_schema();
    assert_eq!(store.row_count(), 3);
}

#[test]
fn reset_on_absent_store_succeeds_twice() {
    let mut store = Store::new_absent();
    assert!(!store.is_present());
    store.reset();
    assert!(!store.is_present());
    store.reset();
    assert!(!store.is_present());
}

#[test]
fn reset_removes_the_store_file() {
    let trips = fixture();
    let mut store = Store::new_absent();
    store.seed(&trips);
    assert!(store.is_present());
    store.reset();
    assert!(!store.is_present());
    assert_eq!(store.row_count(), 0);
}

#[test]
fn quoted_title_round_trips_through_seeding() {
    let trips = fixture();
    let mut store = Store::new_absent();
    store.seed(&trips);
    let row = store.get_row(&"t3".to_string()).unwrap();
    assert_eq!(row.title, "O'Brien's Trip");
}

#[test]
fn cities_round_trip_through_the_stored_column() {
    let trips = fixture();
    let mut store = Store::new_absent();
    store.seed(&trips);
    let row = store.get_row(&"t1".to_string()).unwrap();
    assert_eq!(row.cities, "[\"Paris\",\"Rome\"]");
    let decoded = decode_string_list(&row.cities).unwrap();
    assert_eq!(decoded, vec!["Paris".to_string(), "Rome".to_string()]);
}

#[test]
fn absent_cities_persist_as_the_empty_list() {
    let trips = fixture();
    let mut store = Store::new_absent();
    store.seed(&trips);
    let row = store.get_row(&"t2".to_string()).unwrap();
    assert_eq!(row.cities, "[]");
    let decoded = decode_string_list(&row.cities).unwrap();
    assert_eq!(decoded, Vec::<String>::new());
}

#[test]
fn a_run_that_fails_on_the_second_record_keeps_only_the_first() {
    let trips = fixture();
    let mut store = Store::new_absent();
    // The driver upserts record by record and stops at the first
    // rejection; here the store rejects the second record.
    let rejected: usize = 1;
    store.seed_prefix(&trips, rejected);
    let error = SeedError::Write { index: rejected, detail: "CHECK constraint failed".to_string() };
    assert!(store.get_row(&"t1".to_string()).is_some());
    assert!(store.get_row(&"t2".to_string()).is_none());
    assert!(store.get_row(&"t3".to_string()).is_none());
    match error {
        SeedError::Write { index, .. } => assert_eq!(index, 1),
        _ => panic!("wrong error kind"),
    }
}

#[test]
fn seed_then_query_then_reset_end_to_end() {
    let trips = fixture();
    let mut store = Store::new_absent();
    assert!(!store.is_present());
    store.seed(&trips);
    assert!(store.is_present());
    assert_eq!(store.row_count(), 3);
    for t in &trips {
        let row = store.get_row(&t.id).unwrap();
        assert_eq!(row.id, t.id);
        assert_eq!(row.title, t.title);
        assert_eq!(row.days, t.days.unwrap_or(0));
        assert_eq!(row.budget_cents, t.budget_cents.unwrap_or(0));
    }
    store.reset();
    assert!(!store.is_present());
}
