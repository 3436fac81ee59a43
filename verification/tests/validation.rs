use eventcast::Endpoint;
use eventcast::Event;
use eventcast::FieldValue;
use eventcast::Op;
use eventcast::ValidateError;

fn keys(names: &[&str]) -> Vec<String> {
    names.iter().map(|s| s.to_string()).collect()
}

fn string_event(pairs: &[(&str, &str)]) -> Event {
    let mut ev = Event::new();
    for (k, v) in pairs {
        ev.insert(k.to_string(), FieldValue::Str(v.to_string()));
    }
    ev
}

fn json_strings(items: &[&str]) -> Vec<serde_json::Value> {
    items.iter().map(|s| serde_json::Value::String(s.to_string())).collect()
}

#[test]
fn validate_array_fields() {
    let mut input = string_event(&[("field", r#"["one","two"]"#)]);
    input.insert(
        "expected".to_string(),
        FieldValue::Array(json_strings(&["one", "two"])),
    );

    let event = input.array_fields(&keys(&["field"])).expect("Validated event");

    assert_eq!(event.get("field"), event.get("expected"));
}

#[test]
fn validate_int_fields() {
    let mut input = string_event(&[("field", "123")]);
    input.insert("expected".to_string(), FieldValue::Int(123));

    let event = input.int_fields(&keys(&["field"])).expect("Validated event");

    assert_eq!(event.get("field"), event.get("expected"));
}

#[test]
fn array_fields_parses_literal_deeply() {
    let ev = string_event(&[("a", r#"[1, "x", [true, null]]"#)]);
    let ev = ev.array_fields(&keys(&["a"])).expect("valid literal");
    let want = vec![
        serde_json::Value::Number(serde_json::Number::from(1)),
        serde_json::Value::String("x".to_string()),
        serde_json::Value::Array(vec![
            serde_json::Value::Bool(true),
            serde_json::Value::Null,
        ]),
    ];
    assert_eq!(ev.get("a"), Some(&FieldValue::Array(want)));
}

#[test]
fn array_fields_malformed_names_field() {
    let ev = string_event(&[("good", "[]"), ("bad", "[unclosed")]);
    let err = ev
        .array_fields(&keys(&["good", "bad"]))
        .expect_err("malformed literal");
    assert_eq!(
        err,
        ValidateError::FieldFormat {
            field: "bad".to_string(),
            op: Op::ToArray,
            raw: "[unclosed".to_string(),
        }
    );
}

#[test]
fn array_fields_skips_absent_keys() {
    let ev = string_event(&[("present", "[]")]);
    let ev = ev
        .array_fields(&keys(&["missing", "present"]))
        .expect("absent keys are skipped");
    assert_eq!(ev.get("present"), Some(&FieldValue::Array(vec![])));
    assert_eq!(ev.get("missing"), None);
}

#[test]
fn int_fields_rejects_non_numeric() {
    let ev = string_event(&[("field", "abc")]);
    let err = ev.int_fields(&keys(&["field"])).expect_err("not a number");
    assert_eq!(
        err,
        ValidateError::FieldFormat {
            field: "field".to_string(),
            op: Op::ToInt,
            raw: "abc".to_string(),
        }
    );
}

#[test]
fn int_fields_bounds() {
    let ev = string_event(&[
        ("min", "-9223372036854775808"),
        ("max", "9223372036854775807"),
        ("plus", "+42"),
    ]);
    let ev = ev.int_fields(&keys(&["min", "max", "plus"])).expect("all in range");
    assert_eq!(ev.get("min"), Some(&FieldValue::Int(i64::MIN)));
    assert_eq!(ev.get("max"), Some(&FieldValue::Int(i64::MAX)));
    assert_eq!(ev.get("plus"), Some(&FieldValue::Int(42)));
}

#[test]
fn int_fields_rejects_overflow_and_empty_sign() {
    for bad in ["9223372036854775808", "-9223372036854775809", "", "-", "+", "4 2", "0x10"] {
        let ev = string_event(&[("field", bad)]);
        assert!(
            ev.int_fields(&keys(&["field"])).is_err(),
            "accepted {:?}",
            bad
        );
    }
}

#[test]
fn bool_fields_parse_exact_literals() {
    let ev = string_event(&[("t", "true"), ("f", "false")]);
    let ev = ev.bool_fields(&keys(&["t", "f"])).expect("boolean literals");
    assert_eq!(ev.get("t"), Some(&FieldValue::Bool(true)));
    assert_eq!(ev.get("f"), Some(&FieldValue::Bool(false)));

    for bad in ["True", "FALSE", "1", ""] {
        let ev = string_event(&[("b", bad)]);
        let err = ev.bool_fields(&keys(&["b"])).expect_err("not a boolean literal");
        assert_eq!(
            err,
            ValidateError::FieldFormat {
                field: "b".to_string(),
                op: Op::ToBool,
                raw: bad.to_string(),
            }
        );
    }
}

#[test]
fn float_fields_accept_the_float_grammar() {
    for good in [
        "1", "-1.5", "+.5", "5.", "2.5e10", "1E-3", "inf", "-Infinity", "NaN", "3e+7",
    ] {
        let ev = string_event(&[("f", good)]);
        let ev = ev.float_fields(&keys(&["f"])).expect("float literal");
        assert_eq!(ev.get("f"), Some(&FieldValue::Float(good.to_string())));
        assert_eq!(good.parse::<f64>().is_ok(), true, "grammar check for {:?}", good);
    }
}

#[test]
fn float_fields_reject_what_the_grammar_rejects() {
    for bad in ["", ".", "1e", "1.2.3", "--1", "1f", "e5", "in", "infx", " 1"] {
        let ev = string_event(&[("f", bad)]);
        assert!(ev.float_fields(&keys(&["f"])).is_err(), "accepted {:?}", bad);
        assert!(bad.parse::<f64>().is_err(), "grammar check for {:?}", bad);
    }
}

#[test]
fn str_fields_keep_text_unchanged() {
    let ev = string_event(&[("s", "hello")]);
    let ev = ev.str_fields(&keys(&["s"])).expect("never fails on text");
    assert_eq!(ev.get("s"), Some(&FieldValue::Str("hello".to_string())));
}

#[test]
fn drop_is_idempotent_and_ignores_absent_keys() {
    let ev = string_event(&[("keep", "v"), ("gone", "w")]);
    let ks = keys(&["gone", "gone", "never_there"]);
    let once = ev.clone().drop_fields(&ks).expect("drop never fails");
    let twice = once.clone().drop_fields(&ks).expect("drop never fails");
    assert_eq!(once, twice);
    assert_eq!(once.get("gone"), None);
    assert_eq!(once.get("never_there"), None);
    assert_eq!(once.get("keep"), Some(&FieldValue::Str("v".to_string())));
}

#[test]
fn disjoint_operators_commute() {
    let ev = string_event(&[("n", "7"), ("b", "true"), ("s", "text")]);
    let ab = ev
        .clone()
        .int_fields(&keys(&["n"]))
        .and_then(|e| e.bool_fields(&keys(&["b"])))
        .expect("both succeed");
    let ba = ev
        .bool_fields(&keys(&["b"]))
        .and_then(|e| e.int_fields(&keys(&["n"])))
        .expect("both succeed");
    assert_eq!(ab, ba);
    assert_eq!(ab.get("n"), Some(&FieldValue::Int(7)));
    assert_eq!(ab.get("b"), Some(&FieldValue::Bool(true)));
    assert_eq!(ab.get("s"), Some(&FieldValue::Str("text".to_string())));
}

#[test]
fn coercing_an_already_coerced_field_is_malformed_input() {
    let ev = string_event(&[("n", "7")]);
    let ev = ev.int_fields(&keys(&["n"])).expect("first pass");
    let err = ev.bool_fields(&keys(&["n"])).expect_err("no longer text");
    assert_eq!(err, ValidateError::MalformedInput);
}

#[test]
fn coercing_a_null_field_is_malformed_input() {
    let mut ev = Event::new();
    ev.insert("n".to_string(), FieldValue::Null);
    let err = ev.int_fields(&keys(&["n"])).expect_err("not text");
    assert_eq!(err, ValidateError::MalformedInput);
}

#[test]
fn from_row_zips_headers_with_values() {
    let headers = keys(&["a", "b"]);
    let values = keys(&["1", "2"]);
    let ev = Event::from_row(&headers, &values).expect("equal lengths");
    assert_eq!(ev.get("a"), Some(&FieldValue::Str("1".to_string())));
    assert_eq!(ev.get("b"), Some(&FieldValue::Str("2".to_string())));
    assert_eq!(ev.get("c"), None);
    assert!(ev.contains_key("a"));
    assert!(!ev.contains_key("c"));
}

#[test]
fn from_row_rejects_length_mismatch() {
    let err = Event::from_row(&keys(&["a", "b"]), &keys(&["1"])).expect_err("short row");
    assert_eq!(err, ValidateError::MalformedInput);
}

#[test]
fn from_row_duplicate_headers_last_wins() {
    let ev = Event::from_row(&keys(&["a", "a"]), &keys(&["1", "2"])).expect("equal lengths");
    assert_eq!(ev.get("a"), Some(&FieldValue::Str("2".to_string())));
}

#[test]
fn reference_data_account_end_to_end() {
    let headers = keys(&[
        "key",
        "event_external_id",
        "account_cards",
        "account_number_of_cards",
        "account_open_date",
        "account_active",
    ]);
    let values = keys(&["k1", "e1", r#"["c1","c2"]"#, "2", "20200101", "true"]);
    let ev = Event::from_row(&headers, &values).expect("row fits the header");
    let schema = Endpoint::ReferenceDataAccount.validator().expect("implemented");
    let ev = ev.validate(&schema).expect("row matches the schema");

    assert_eq!(ev.get("key"), None);
    assert_eq!(ev.get("event_external_id"), None);
    assert_eq!(
        ev.get("account_cards"),
        Some(&FieldValue::Array(json_strings(&["c1", "c2"])))
    );
    assert_eq!(ev.get("account_number_of_cards"), Some(&FieldValue::Int(2)));
    assert_eq!(ev.get("account_open_date"), Some(&FieldValue::Int(20200101)));
    assert_eq!(
        ev.get("account_active"),
        Some(&FieldValue::Str("true".to_string()))
    );
}

#[test]
fn unimplemented_endpoints_fail_before_any_row() {
    let headers = keys(&["account_number_of_cards"]);
    let rows = vec![keys(&["not a number at all"])];
    let others = [
        Endpoint::ReferenceDataCard,
        Endpoint::ReferenceDataCustomer,
        Endpoint::ReferenceDataDevice,
        Endpoint::CardAuthorization,
        Endpoint::CardClearing,
        Endpoint::TransferInitiation,
        Endpoint::TransferSettlement,
    ];
    for endpoint in others {
        let err = eventcast::validate_batch(endpoint, &headers, &rows).expect_err("no schema");
        assert_eq!(err, ValidateError::UnimplementedSchema { endpoint });
    }
}

#[test]
fn one_failing_row_fails_the_whole_batch() {
    let headers = keys(&["account_number_of_cards"]);
    for n in 1..5usize {
        for k in 0..n {
            let rows: Vec<Vec<String>> = (0..n)
                .map(|i| keys(if i == k { &["bad"] } else { &["3"] }))
                .collect();
            let r = eventcast::validate_batch(Endpoint::ReferenceDataAccount, &headers, &rows);
            let err = r.expect_err("row k fails coercion");
            assert_eq!(
                err,
                ValidateError::FieldFormat {
                    field: "account_number_of_cards".to_string(),
                    op: Op::ToInt,
                    raw: "bad".to_string(),
                }
            );
        }
    }
}

#[test]
fn whole_batch_validates_in_row_order() {
    let headers = keys(&["account_number_of_cards", "account_active"]);
    let rows = vec![keys(&["1", "x"]), keys(&["2", "y"])];
    let evs = eventcast::validate_batch(Endpoint::ReferenceDataAccount, &headers, &rows)
        .expect("all rows valid");
    assert_eq!(evs.len(), 2);
    assert_eq!(evs[0].get("account_number_of_cards"), Some(&FieldValue::Int(1)));
    assert_eq!(evs[1].get("account_number_of_cards"), Some(&FieldValue::Int(2)));
    assert_eq!(evs[1].get("account_active"), Some(&FieldValue::Str("y".to_string())));
}

#[test]
fn endpoint_tokens_round_trip() {
    let all = [
        (Endpoint::ReferenceDataAccount, "ref_account"),
        (Endpoint::ReferenceDataCard, "ref_card"),
        (Endpoint::ReferenceDataCustomer, "ref_customer"),
        (Endpoint::ReferenceDataDevice, "ref_device"),
        (Endpoint::CardAuthorization, "card_auth"),
        (Endpoint::CardClearing, "card_clear"),
        (Endpoint::TransferInitiation, "transfer_init"),
        (Endpoint::TransferSettlement, "transfer_settle"),
    ];
    for (endpoint, token) in all {
        assert_eq!(endpoint.token(), token);
        assert_eq!(Endpoint::from_token(token), Some(endpoint));
    }
    assert_eq!(Endpoint::from_token("ref_accounts"), None);
    assert_eq!(Endpoint::from_token(""), None);
}

#[test]
fn log_level_follows_debug_flag() {
    assert_eq!(eventcast::Args { debug: true }.log_level(), eventcast::LogLevel::Debug);
    assert_eq!(eventcast::Args { debug: false }.log_level(), eventcast::LogLevel::Info);
}
