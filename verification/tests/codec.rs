use trip_scheduler_lib::escape::{sql_escape, sql_unescape};
use trip_scheduler_lib::listfmt::{decode_string_list, encode_string_list};
use trip_scheduler_lib::numfmt::{format_i64, format_money, format_u64};

#[test]
fn escape_doubles_quotes() {
    assert_eq!(sql_escape("O'Brien's Trip"), "O''Brien''s Trip");
}

#[test]
fn escape_leaves_plain_text() {
    assert_eq!(sql_escape("Paris and Rome"), "Paris and Rome");
    assert_eq!(sql_escape(""), "");
}

#[test]
fn escape_round_trip_keeps_quoted_title() {
    let title = "O'Brien's Trip";
    let escaped = sql_escape(title);
    assert_eq!(sql_unescape(&escaped), title);
}

#[test]
fn encode_two_cities() {
    let cities = vec!["Paris".to_string(), "Rome".to_string()];
    assert_eq!(encode_string_list(&cities), "[\"Paris\",\"Rome\"]");
}

#[test]
fn encode_empty_list() {
    let empty: Vec<String> = Vec::new();
    assert_eq!(encode_string_list(&empty), "[]");
}

#[test]
fn decode_two_cities() {
    let decoded = decode_string_list("[\"Paris\",\"Rome\"]").unwrap();
    assert_eq!(decoded, vec!["Paris".to_string(), "Rome".to_string()]);
}

#[test]
fn decode_empty_list() {
    let decoded = decode_string_list("[]").unwrap();
    assert_eq!(decoded, Vec::<String>::new());
}

#[test]
fn list_round_trip_with_escapes() {
    let items = vec![
        "plain".to_string(),
        "with \"quotes\"".to_string(),
        "back\\slash".to_string(),
        "".to_string(),
    ];
    let encoded = encode_string_list(&items);
    let decoded = decode_string_list(&encoded).unwrap();
    assert_eq!(decoded, items);
}

#[test]
fn decode_rejects_malformed_text() {
    assert!(decode_string_list("").is_none());
    assert!(decode_string_list("nope").is_none());
    assert!(decode_string_list("[").is_none());
    assert!(decode_string_list("[]x").is_none());
    assert!(decode_string_list("[\"open").is_none());
    assert!(decode_string_list("[\"a\",]").is_none());
}

#[test]
fn format_unsigned_decimal() {
    assert_eq!(format_u64(0), "0");
    assert_eq!(format_u64(7), "7");
    assert_eq!(format_u64(12034), "12034");
}

#[test]
fn format_signed_decimal() {
    assert_eq!(format_i64(14), "14");
    assert_eq!(format_i64(-5), "-5");
    assert_eq!(format_i64(0), "0");
}

#[test]
fn format_money_cents() {
    assert_eq!(format_money(0), "0.00");
    assert_eq!(format_money(5), "0.05");
    assert_eq!(format_money(150050), "1500.50");
}
