use pgcdc::catalog::TableCatalog;
use pgcdc::event::{change_elements, decode_change};
use pgcdc::kinds::{DELETE, INSERT, UPDATE};
use pgcdc::query::parse_ws_query;
use pgcdc::registry::ServerState;

fn catalog() -> TableCatalog {
    let mut c = TableCatalog::new();
    for t in ["accounts", "orders", "events", "metrics"] {
        c.add_table(t);
    }
    c.add_partition("metrics", "_hyper_3");
    c
}

fn subscribe(state: &mut ServerState, c: &TableCatalog, q: &str) -> usize {
    let w = parse_ws_query(q, &c.logical_tables).unwrap();
    state.insert(w).unwrap()
}

fn payload(elements: &[&str]) -> String {
    format!("{{\"xid\":1,\"change\":[{}]}}", elements.join(","))
}

const S1_EVENT: &str =
    r#"{"table":"accounts","kind":"insert","columnnames":["id","name"],"columnvalues":[1,"ada"]}"#;

#[test]
fn admission_indexes_the_session() {
    let c = catalog();
    let mut state = ServerState::new();
    state.next_id = 17;
    let id = subscribe(&mut state, &c, "insert:accounts");
    assert_eq!(id, 17);
    assert!(state.clients.contains_key(&17));
    assert_eq!(state.lookup_for_delivery(INSERT, "accounts"), vec![17]);
    assert!(state.lookup_for_delivery(UPDATE, "accounts").is_empty());
    assert!(state.lookup_for_delivery(DELETE, "accounts").is_empty());
}

#[test]
fn subscriber_receives_the_raw_element() {
    let c = catalog();
    let mut state = ServerState::new();
    state.next_id = 17;
    subscribe(&mut state, &c, "insert:accounts");
    let out = state.fan_out(&payload(&[S1_EVENT]), &c);
    assert_eq!(out.len(), 1);
    assert_eq!(out[0].id, 17);
    assert_eq!(out[0].text, S1_EVENT);
}

#[test]
fn closing_empties_the_registry() {
    let c = catalog();
    let mut state = ServerState::new();
    state.next_id = 17;
    subscribe(&mut state, &c, "insert:accounts");
    state.remove(17);
    assert!(state.clients.is_empty());
    assert!(state.lookup_for_delivery(INSERT, "accounts").is_empty());
    assert!(state.fan_out(&payload(&[S1_EVENT]), &c).is_empty());
}

#[test]
fn removing_an_absent_id_changes_nothing() {
    let c = catalog();
    let mut state = ServerState::new();
    let id = subscribe(&mut state, &c, "*:orders");
    state.remove(id + 5);
    assert_eq!(state.lookup_for_delivery(DELETE, "orders"), vec![id]);
}

#[test]
fn eq_filter_and_mask() {
    let c = catalog();
    let mut state = ServerState::new();
    let id = subscribe(&mut state, &c, "update,delete:orders:status.eq.PAID");
    let new = r#"{"table":"orders","kind":"update","columnnames":["id","status"],"columnvalues":[9,"NEW"]}"#;
    let paid = r#"{"table":"orders","kind":"update","columnnames":["id","status"],"columnvalues":[9,"PAID"]}"#;
    let insert = r#"{"table":"orders","kind":"insert","columnnames":["id","status"],"columnvalues":[10,"PAID"]}"#;
    assert!(state.fan_out(&payload(&[new]), &c).is_empty());
    let out = state.fan_out(&payload(&[paid]), &c);
    assert_eq!(out.len(), 1);
    assert_eq!(out[0].id, id);
    assert_eq!(out[0].text, paid);
    assert!(state.fan_out(&payload(&[insert]), &c).is_empty());
}

#[test]
fn eq_filter_needs_a_json_string() {
    let c = catalog();
    let mut state = ServerState::new();
    subscribe(&mut state, &c, "update:orders:status.eq.9");
    let number = r#"{"table":"orders","kind":"update","columnnames":["id","status"],"columnvalues":[1,9]}"#;
    assert!(state.fan_out(&payload(&[number]), &c).is_empty());
}

#[test]
fn in_filter_delivers_members_only() {
    let c = catalog();
    let mut state = ServerState::new();
    let id = subscribe(&mut state, &c, "insert:events:category.in.A,B,C");
    for (cat, wanted) in [("A", true), ("B", true), ("C", true), ("D", false), ("", false)] {
        let e = format!(
            r#"{{"table":"events","kind":"insert","columnnames":["category"],"columnvalues":["{}"]}}"#,
            cat
        );
        let out = state.fan_out(&payload(&[&e]), &c);
        assert_eq!(out.len(), if wanted { 1 } else { 0 });
        if wanted {
            assert_eq!(out[0].id, id);
        }
    }
}

#[test]
fn filter_column_absent_means_no_delivery() {
    let c = catalog();
    let mut state = ServerState::new();
    subscribe(&mut state, &c, "insert:events:category.eq.A");
    let e = r#"{"table":"events","kind":"insert","columnnames":["other"],"columnvalues":["A"]}"#;
    assert!(state.fan_out(&payload(&[e]), &c).is_empty());
    let e = r#"{"table":"events","kind":"insert"}"#;
    assert!(state.fan_out(&payload(&[e]), &c).is_empty());
}

#[test]
fn partition_chunk_reaches_logical_subscribers() {
    let c = catalog();
    let mut state = ServerState::new();
    let id = subscribe(&mut state, &c, "insert:metrics");
    let e = r#"{"table":"_hyper_3_14_chunk","kind":"insert","columnnames":["v"],"columnvalues":[1]}"#;
    let out = state.fan_out(&payload(&[e]), &c);
    assert_eq!(out.len(), 1);
    assert_eq!(out[0].id, id);
    assert_eq!(out[0].text, e);
    let unknown = r#"{"table":"_hyper_99_1_chunk","kind":"insert"}"#;
    assert!(state.fan_out(&payload(&[unknown]), &c).is_empty());
}

#[test]
fn delivery_keeps_emission_order() {
    let c = catalog();
    let mut state = ServerState::new();
    let a = subscribe(&mut state, &c, "*:orders");
    let b = subscribe(&mut state, &c, "insert:orders");
    let e1 = r#"{"table":"orders","kind":"insert","n":1}"#;
    let e2 = r#"{"table":"orders","kind":"update","n":2}"#;
    let e3 = r#"{"table":"orders","kind":"insert","n":3}"#;
    let bad = r#"{"table":"orders","kind":"truncate"}"#;
    let out = state.fan_out(&payload(&[e1, bad, e2, e3]), &c);
    let to_a: Vec<&str> = out.iter().filter(|d| d.id == a).map(|d| d.text.as_str()).collect();
    let to_b: Vec<&str> = out.iter().filter(|d| d.id == b).map(|d| d.text.as_str()).collect();
    assert_eq!(to_a, vec![e1, e2, e3]);
    assert_eq!(to_b, vec![e1, e3]);
}

#[test]
fn malformed_payloads_give_nothing() {
    let c = catalog();
    let mut state = ServerState::new();
    subscribe(&mut state, &c, "*:orders");
    assert!(state.fan_out("not json", &c).is_empty());
    assert!(state.fan_out(r#"{"nochange":[]}"#, &c).is_empty());
    assert!(state.fan_out(r#"{"change":{}}"#, &c).is_empty());
    assert!(change_elements("[1,2]").is_none());
}

#[test]
fn decode_reads_the_columns() {
    let c = catalog();
    let ev = decode_change(S1_EVENT, &c).unwrap();
    assert_eq!(ev.table, "accounts");
    assert_eq!(ev.kind, INSERT);
    assert_eq!(
        ev.column_names,
        Some(vec![Some("id".to_string()), Some("name".to_string())])
    );
    assert_eq!(ev.column_values, Some(vec![None, Some("ada".to_string())]));
    assert_eq!(ev.raw, S1_EVENT);
    assert!(decode_change(r#"{"table":3,"kind":"insert"}"#, &c).is_none());
    assert!(decode_change(r#"{"table":"a","kind":"merge"}"#, &c).is_none());
    assert!(decode_change(r#"["table"]"#, &c).is_none());
}

#[test]
fn escaped_strings_are_read() {
    let c = catalog();
    let ev = decode_change(r#"{"table":"accounts","kind":"delete"}"#, &c).unwrap();
    assert_eq!(ev.table, "accounts");
    assert_eq!(ev.kind, DELETE);
}
