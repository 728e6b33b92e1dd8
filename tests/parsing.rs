use satya_vault::domain::{InteractionType, UpiIntent, PROTOCOL_VERSION};
use satya_vault::error::VaultError;
use satya_vault::parser::parse_upi_url;
use satya_vault::service::{canonical_payload_bytes, payment_payload_at, InteractionService};

fn fields(u: &UpiIntent) -> (&str, &str, &str, &str) {
    (&u.vpa, &u.name, &u.amount, &u.currency)
}

#[test]
fn parses_full_request() {
    let u = parse_upi_url("upi://pay?pa=merchant@bank&pn=Seller&am=100&cu=INR").expect("parse");
    assert_eq!(fields(&u), ("merchant@bank", "Seller", "100", "INR"));
}

#[test]
fn missing_fields_take_defaults() {
    let u = parse_upi_url("upi://pay?pa=shop@upi").expect("parse");
    assert_eq!(fields(&u), ("shop@upi", "", "", "INR"));
    let u = parse_upi_url("upi://pay?pa=shop@upi&am=5.50&cu=USD").expect("parse");
    assert_eq!(fields(&u), ("shop@upi", "", "5.50", "USD"));
    let u = parse_upi_url("upi://pay?pa=shop@upi&pn=Tea Stall&tn=note&am=5").expect("parse");
    assert_eq!(fields(&u), ("shop@upi", "Tea Stall", "", "INR"));
}

#[test]
fn payee_needs_a_value() {
    let u = parse_upi_url("upi://pay?pa=&x=1&pa=second@bank&pn=Café").expect("parse");
    assert_eq!(fields(&u), ("second@bank", "Café", "", "INR"));
    assert!(matches!(parse_upi_url("upi://pay?pa=&pn=x"), Err(VaultError::InvalidIntent)));
}

#[test]
fn rejects_other_schemes() {
    assert!(matches!(parse_upi_url("https://pay?pa=x"), Err(VaultError::InvalidIntent)));
    assert!(matches!(parse_upi_url("upi://collect?pa=x"), Err(VaultError::InvalidIntent)));
    assert!(matches!(parse_upi_url(""), Err(VaultError::InvalidIntent)));
    assert!(matches!(parse_upi_url("upi://pay"), Err(VaultError::InvalidIntent)));
}

#[test]
fn canonical_payload_is_fixed_json() {
    let u = parse_upi_url("upi://pay?pa=merchant@bank&pn=Seller&am=100&cu=INR").expect("parse");
    let payload = payment_payload_at(u, 1_700_000_000);
    assert_eq!(payload.version, PROTOCOL_VERSION);
    assert_eq!(payload.interaction_type, InteractionType::PaymentIntent);
    let bytes = canonical_payload_bytes(&payload);
    assert_eq!(
        String::from_utf8(bytes).unwrap(),
        "{\"version\":\"1.0.0\",\"interaction_type\":\"PaymentIntent\",\"timestamp\":1700000000,\"upi_data\":{\"vpa\":\"merchant@bank\",\"name\":\"Seller\",\"amount\":\"100\",\"currency\":\"INR\"}}"
    );
}

#[test]
fn canonical_payload_escapes_text() {
    let u = UpiIntent {
        vpa: "a\"b".to_string(),
        name: "line\nbreak".to_string(),
        amount: "0".to_string(),
        currency: "\\".to_string(),
    };
    let bytes = canonical_payload_bytes(&payment_payload_at(u, 0));
    assert_eq!(
        String::from_utf8(bytes).unwrap(),
        "{\"version\":\"1.0.0\",\"interaction_type\":\"PaymentIntent\",\"timestamp\":0,\"upi_data\":{\"vpa\":\"a\\\"b\",\"name\":\"line\\nbreak\",\"amount\":\"0\",\"currency\":\"\\\\\"}}"
    );
}

#[test]
fn payment_payload_uses_current_time() {
    let u = parse_upi_url("upi://pay?pa=x@y").expect("parse");
    let payload = InteractionService::create_payment_payload(u).expect("payload");
    assert_eq!(payload.version, "1.0.0");
    assert!(payload.timestamp > 1_600_000_000);
    assert_eq!(payload.upi_data.vpa, "x@y");
}

#[test]
fn canonical_payload_largest_timestamp() {
    let u = parse_upi_url("upi://pay?pa=x@y").expect("parse");
    let bytes = canonical_payload_bytes(&payment_payload_at(u, u64::MAX));
    let text = String::from_utf8(bytes).unwrap();
    assert!(text.contains(",\"timestamp\":18446744073709551615,"));
    assert!(text.ends_with("\"currency\":\"INR\"}}"));
}

#[test]
fn canonical_payload_escapes_control_characters() {
    let u = UpiIntent {
        vpa: "\u{1}\u{8}\t\r\u{c}\u{1f}".to_string(),
        name: "/é\u{7f}".to_string(),
        amount: "".to_string(),
        currency: "INR".to_string(),
    };
    let bytes = canonical_payload_bytes(&payment_payload_at(u, 7));
    let text = String::from_utf8(bytes).unwrap();
    assert!(text.contains("\"vpa\":\"\\u0001\\b\\t\\r\\f\\u001f\""));
    assert!(text.contains("\"name\":\"/é\u{7f}\""));
    assert!(text.contains("\"amount\":\"\""));
}
