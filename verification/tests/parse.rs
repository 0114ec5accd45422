use scale_to_zero::model::WorkloadKind;
use scale_to_zero::parse::{kind_name, parse_ipv4, parse_reference, parse_seconds, ReferenceError};

#[test]
fn dotted_quads() {
    assert_eq!(parse_ipv4("10.0.0.5"), Some(0x0A000005));
    assert_eq!(parse_ipv4("8.8.8.8"), Some(0x08080808));
    assert_eq!(parse_ipv4("0.0.0.0"), Some(0));
    assert_eq!(parse_ipv4("255.255.255.255"), Some(u32::MAX));
    assert_eq!(parse_ipv4("127.0.0.1"), Some(0x7F000001));
    assert_eq!(parse_ipv4("192.168.1.200"), Some(0xC0A801C8));
    assert_eq!(parse_ipv4("1.2.3.4"), Some(0x01020304));
}

#[test]
fn not_dotted_quads() {
    for text in [
        "", ".", "...", "1", "1.2", "1.2.3", "1.2.3.", ".1.2.3", "1.2.3.4.", "1.2.3.4.5",
        "1..2.3", "256.0.0.1", "1.2.3.256", "1.2.3.999", "1.2.3.1000", "01.2.3.4", "1.2.3.04",
        "1.2.3.00", "1.2.3.4 ", " 1.2.3.4", "1.2.3.-4", "1.2.3.+4", "a.b.c.d", "1,2,3,4",
        "None", "::1", "1.2.3.4/32", "1.2.3.٤", "0x1.0.0.0", "1.2.3.4\n",
    ] {
        assert_eq!(parse_ipv4(text), None, "{:?}", text);
    }
}

#[test]
fn every_octet_value_in_every_place() {
    for v in 0u32..=255 {
        assert_eq!(parse_ipv4(&format!("{}.0.0.0", v)), Some(v << 24));
        assert_eq!(parse_ipv4(&format!("0.{}.0.0", v)), Some(v << 16));
        assert_eq!(parse_ipv4(&format!("0.0.{}.0", v)), Some(v << 8));
        assert_eq!(parse_ipv4(&format!("0.0.0.{}", v)), Some(v));
    }
    for v in 256u32..=1200 {
        assert_eq!(parse_ipv4(&format!("0.0.0.{}", v)), None);
    }
}

#[test]
fn seconds() {
    assert_eq!(parse_seconds("60"), Some(60));
    assert_eq!(parse_seconds("0"), Some(0));
    assert_eq!(parse_seconds("3"), Some(3));
    assert_eq!(parse_seconds("+15"), Some(15));
    assert_eq!(parse_seconds("-15"), Some(-15));
    assert_eq!(parse_seconds("-0"), Some(0));
    assert_eq!(parse_seconds("007"), Some(7));
    assert_eq!(parse_seconds("9223372036854775807"), Some(i64::MAX));
    assert_eq!(parse_seconds("-9223372036854775808"), Some(i64::MIN));
    assert_eq!(parse_seconds("0000000000000000000000000000000000009"), Some(9));
}

#[test]
fn not_seconds() {
    for text in [
        "", "+", "-", "+-1", "--1", "1-", "1.5", "1e3", " 1", "1 ", "one", "0x10", "1_000",
        "9223372036854775808", "-9223372036854775809", "99999999999999999999999999999999",
        "-99999999999999999999999999999999", "٣", "1s", "60s",
    ] {
        assert_eq!(parse_seconds(text), None, "{:?}", text);
    }
}

#[test]
fn seconds_agree_with_the_standard_parser() {
    for text in [
        "0", "1", "-1", "+1", "10", "123456789", "-123456789", "9223372036854775807",
        "9223372036854775808", "-9223372036854775808", "-9223372036854775809", "", "+", "-",
        "00", "-00", "+00012", "12a", "a12", "1 2", "18446744073709551616",
    ] {
        assert_eq!(parse_seconds(text), text.parse::<i64>().ok(), "{:?}", text);
    }
}

#[test]
fn references() {
    assert_eq!(
        parse_reference("deployment/foo"),
        Ok((WorkloadKind::Deployment, "foo".to_string()))
    );
    assert_eq!(
        parse_reference("statefulset/db-0"),
        Ok((WorkloadKind::StatefulSet, "db-0".to_string()))
    );
    assert_eq!(parse_reference("deployment/"), Ok((WorkloadKind::Deployment, String::new())));
    assert_eq!(
        parse_reference("deployment/приклад"),
        Ok((WorkloadKind::Deployment, "приклад".to_string()))
    );
}

#[test]
fn malformed_references() {
    for text in ["", "deployment", "foo", "deployment/foo/bar", "//", "deployment//foo", "a/b/c/d"] {
        assert_eq!(parse_reference(text), Err(ReferenceError::Malformed), "{:?}", text);
    }
}

#[test]
fn references_to_unknown_kinds() {
    for text in [
        "/", "/foo", "pod/foo", "Deployment/foo", "deployments/foo", "stateful_set/foo",
        "daemonset/foo", " deployment/foo", "deployment /foo", "statefulse/t",
    ] {
        assert_eq!(parse_reference(text), Err(ReferenceError::UnknownKind), "{:?}", text);
    }
}

#[test]
fn kind_names_read_back() {
    for kind in [WorkloadKind::Deployment, WorkloadKind::StatefulSet] {
        let text = format!("{}/x", kind_name(kind));
        assert_eq!(parse_reference(&text), Ok((kind, "x".to_string())));
    }
    assert_eq!(kind_name(WorkloadKind::Deployment), "deployment");
    assert_eq!(kind_name(WorkloadKind::StatefulSet), "statefulset");
}
