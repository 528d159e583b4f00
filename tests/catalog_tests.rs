use pgcdc::catalog::{extract_hyper_idx, parse_i8, TableCatalog};

#[test]
fn hyper_index_is_third_part() {
    assert_eq!(extract_hyper_idx("_hyper_7_3_chunk"), Ok(7));
    assert_eq!(extract_hyper_idx("_hyper_12_300_chunk"), Ok(12));
    assert_eq!(extract_hyper_idx("_hyper_-4_1_chunk"), Ok(-4));
}

#[test]
fn hyper_index_missing_or_not_a_number() {
    assert_eq!(extract_hyper_idx("metrics"), Err(()));
    assert_eq!(extract_hyper_idx("_hyper"), Err(()));
    assert_eq!(extract_hyper_idx("_hyper_x_3_chunk"), Err(()));
    assert_eq!(extract_hyper_idx("_hyper_300_3_chunk"), Err(()));
}

#[test]
fn i8_text_edges() {
    assert_eq!(parse_i8("127"), Some(127));
    assert_eq!(parse_i8("128"), None);
    assert_eq!(parse_i8("-128"), Some(-128));
    assert_eq!(parse_i8("-129"), None);
    assert_eq!(parse_i8("+5"), Some(5));
    assert_eq!(parse_i8("007"), Some(7));
    assert_eq!(parse_i8(""), None);
    assert_eq!(parse_i8("-"), None);
    assert_eq!(parse_i8("1a"), None);
    assert_eq!(parse_i8("99999999999999999999"), None);
}

fn catalog() -> TableCatalog {
    let mut c = TableCatalog::new();
    c.add_table("metrics");
    c.add_partition("metrics", "_hyper_3");
    c.add_partition("disks", "_hyper_7");
    c
}

#[test]
fn partition_known_index_is_renamed() {
    let c = catalog();
    assert_eq!(c.get_table_name("_hyper_7_3_chunk"), "disks");
    assert_eq!(c.get_table_name("_hyper_3_14_chunk"), "metrics");
}

#[test]
fn partition_unknown_index_is_kept() {
    let c = catalog();
    assert_eq!(c.get_table_name("_hyper_99_3_chunk"), "_hyper_99_3_chunk");
    assert_eq!(c.get_table_name("_hyper_x_3_chunk"), "_hyper_x_3_chunk");
}

#[test]
fn plain_names_pass_through() {
    let c = catalog();
    assert_eq!(c.get_table_name("accounts"), "accounts");
    assert_eq!(c.get_table_name("hyper_7_3"), "hyper_7_3");
}

#[test]
fn prefix_without_index_is_passed_over() {
    let mut c = TableCatalog::new();
    c.add_partition("t", "nothing");
    assert!(c.partition_lookup.is_empty());
}

#[test]
fn detect_tables_and_lookup() {
    let mut c = TableCatalog::new();
    c.add_table("old");
    c.detect_tables(&vec![Some("a".to_string()), None, Some("b".to_string())]);
    assert_eq!(c.logical_tables, vec!["a".to_string(), "b".to_string()]);
    assert!(c.has_table("a"));
    assert!(!c.has_table("old"));
    c.detect_lookup(&vec![
        (Some("metrics".to_string()), Some("_hyper_3".to_string())),
        (None, Some("_hyper_4".to_string())),
        (Some("bad".to_string()), Some("nope".to_string())),
        (Some("disks".to_string()), Some("_hyper_3".to_string())),
    ]);
    assert_eq!(c.partition_lookup.len(), 1);
    assert_eq!(c.partition_lookup.get(&3).unwrap(), "disks");
}
