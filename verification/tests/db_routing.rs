use vardadb::db_routing::{
    database_for_subscription, database_from_headers, database_in_message, Credentials, FieldValue, InitialMessage,
};

fn text(s: &str) -> FieldValue {
    FieldValue::Text(s.to_string())
}

fn no_credentials() -> Credentials {
    Credentials {
        upper_ns: FieldValue::Missing,
        lower_ns: FieldValue::Missing,
        upper_db: FieldValue::Missing,
        lower_db: FieldValue::Missing,
    }
}

fn message(kind: FieldValue, method: FieldValue) -> InitialMessage {
    InitialMessage { kind, method, payload: no_credentials(), params: vec![], first_param: no_credentials() }
}

#[test]
fn headers_take_the_first_present_value() {
    assert_eq!(database_from_headers(&vec![]), "default");
    assert_eq!(database_from_headers(&vec![FieldValue::Missing, text("shop"), text("crm")]), "shop");
    assert_eq!(database_from_headers(&vec![FieldValue::Other, text("crm")]), "default");
    assert_eq!(database_from_headers(&vec![text("sandbox")]), "archondb");
}

#[test]
fn connection_init_payload_prefers_db_over_ns() {
    let mut m = message(text("connection_init"), FieldValue::Missing);
    m.payload.lower_ns = text("space");
    assert_eq!(database_in_message(&m), Some("space".to_string()));
    m.payload.lower_db = text("shop");
    assert_eq!(database_in_message(&m), Some("shop".to_string()));
    // `DB` is read first; when it is not a string, `db` is not consulted.
    m.payload.upper_db = FieldValue::Other;
    assert_eq!(database_in_message(&m), Some("space".to_string()));
}

#[test]
fn use_call_reads_its_second_then_first_parameter() {
    let mut m = message(FieldValue::Missing, text("use"));
    m.params = vec![text("ns")];
    assert_eq!(database_in_message(&m), None);
    m.params = vec![text("ns"), text("db")];
    assert_eq!(database_in_message(&m), Some("db".to_string()));
    m.params = vec![text("ns"), FieldValue::Other];
    assert_eq!(database_in_message(&m), Some("ns".to_string()));
}

#[test]
fn signin_reads_the_first_parameter_credentials() {
    let mut m = message(FieldValue::Missing, text("signin"));
    assert_eq!(database_in_message(&m), None);
    m.first_param.upper_db = text("crm");
    assert_eq!(database_in_message(&m), Some("crm".to_string()));
    let other = message(text("ping"), text("query"));
    assert_eq!(database_in_message(&other), None);
}

#[test]
fn subscriptions_fall_back_to_the_header_database() {
    assert_eq!(database_for_subscription("shop", &None), "shop");
    let mut m = message(text("connection_init"), FieldValue::Missing);
    assert_eq!(database_for_subscription("shop", &Some(m.clone())), "shop");
    m.payload.upper_ns = text("sandbox");
    assert_eq!(database_for_subscription("shop", &Some(m)), "archondb");
}
