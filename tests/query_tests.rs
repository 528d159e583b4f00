use pgcdc::kinds::{apply_flag, str_to_change_type, ChangeType, DELETE, INSERT, UPDATE};
use pgcdc::query::{parse_ws_query, DataType, QueryError};

fn tables() -> Vec<String> {
    vec![
        "accounts".to_string(),
        "orders".to_string(),
        "events".to_string(),
    ]
}

#[test]
fn apply_flag_sets_each_kind() {
    let mut f: u8 = 0;
    apply_flag(&mut f, "insert");
    assert_eq!(f, INSERT);
    apply_flag(&mut f, "update");
    assert_eq!(f, INSERT | UPDATE);
    apply_flag(&mut f, "delete");
    assert_eq!(f, 14);
}

#[test]
fn apply_flag_star_and_unknown() {
    let mut f: u8 = 0;
    apply_flag(&mut f, "bogus");
    assert_eq!(f, 0);
    apply_flag(&mut f, "*");
    assert_eq!(f, INSERT | UPDATE | DELETE);
}

#[test]
fn change_type_tokens() {
    assert_eq!(str_to_change_type("insert"), ChangeType::INSERT);
    assert_eq!(str_to_change_type("update"), ChangeType::UPDATE);
    assert_eq!(str_to_change_type("delete"), ChangeType::DELETE);
    assert_eq!(str_to_change_type("*"), ChangeType::ALL);
    assert_eq!(str_to_change_type("truncate"), ChangeType::UNKNOWN);
}

#[test]
fn query_kinds_and_table_only() {
    let w = parse_ws_query("insert:accounts", &tables()).unwrap();
    assert_eq!(w.change_flag, INSERT);
    assert_eq!(w.change_table, "accounts");
    assert!(w.specific.is_none());
}

#[test]
fn query_star_is_all_kinds() {
    let w = parse_ws_query("*:orders", &tables()).unwrap();
    assert_eq!(w.change_flag, INSERT | UPDATE | DELETE);
}

#[test]
fn query_unknown_kinds_are_ignored() {
    let w = parse_ws_query("insert,truncate,delete:orders", &tables()).unwrap();
    assert_eq!(w.change_flag, INSERT | DELETE);
}

#[test]
fn query_no_known_kind_is_refused() {
    let r = parse_ws_query("truncate:orders", &tables());
    assert!(matches!(r, Err(QueryError::KindsMismatch)));
    let r = parse_ws_query(":orders", &tables());
    assert!(matches!(r, Err(QueryError::KindsMismatch)));
}

#[test]
fn query_missing_table_is_refused() {
    let r = parse_ws_query("insert", &tables());
    assert!(matches!(r, Err(QueryError::TableMissing)));
}

#[test]
fn query_unknown_table_is_refused() {
    let r = parse_ws_query("insert:nope", &tables());
    assert!(matches!(r, Err(QueryError::UnknownTable)));
}

#[test]
fn query_eq_filter() {
    let w = parse_ws_query("update,delete:orders:status.eq.PAID", &tables()).unwrap();
    assert_eq!(w.change_flag, UPDATE | DELETE);
    let f = w.specific.unwrap();
    assert_eq!(f.column, "status");
    match f.value {
        DataType::String(v) => assert_eq!(v, "PAID"),
        DataType::Array(_) => panic!("expected one literal"),
    }
}

#[test]
fn query_eq_literal_keeps_dots() {
    let w = parse_ws_query("insert:orders:host.eq.a.b.c", &tables()).unwrap();
    match w.specific.unwrap().value {
        DataType::String(v) => assert_eq!(v, "a.b.c"),
        DataType::Array(_) => panic!("expected one literal"),
    }
}

#[test]
fn query_in_filter() {
    let w = parse_ws_query("insert:events:category.in.A,B,C", &tables()).unwrap();
    let f = w.specific.unwrap();
    assert_eq!(f.column, "category");
    match f.value {
        DataType::Array(v) => assert_eq!(v, vec!["A".to_string(), "B".to_string(), "C".to_string()]),
        DataType::String(_) => panic!("expected a list"),
    }
}

#[test]
fn query_unknown_operator_gives_no_filter() {
    let w = parse_ws_query("insert:events:category.gt.5", &tables()).unwrap();
    assert!(w.specific.is_none());
    let w = parse_ws_query("insert:events:category.eq", &tables()).unwrap();
    assert!(w.specific.is_none());
}

#[test]
fn query_round_trip() {
    for q in [
        "insert:accounts",
        "delete,insert,*:orders",
        "update,delete:orders:status.eq.PAID",
        "insert:events:category.in.A,B,C",
        "insert:events:category.in.",
        "insert,bogus:events:category.lt.x",
        "update:orders:extra:parts",
    ] {
        let w = parse_ws_query(q, &tables()).unwrap();
        let text = w.to_query();
        let w2 = parse_ws_query(&text, &tables()).unwrap();
        assert_eq!(w2.change_flag, w.change_flag);
        assert_eq!(w2.change_table, w.change_table);
        assert_eq!(format!("{:?}", w2.specific), format!("{:?}", w.specific));
        assert_eq!(w2.to_query(), text);
    }
}

#[test]
fn to_query_text() {
    let w = parse_ws_query("delete,*:orders:status.in.A,B", &tables()).unwrap();
    assert_eq!(w.to_query(), "insert,update,delete:orders:status.in.A,B");
}
