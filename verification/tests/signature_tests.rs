use otlp_ingest::labels::sanitize_name;
use otlp_ingest::signature::{default_exclude_labels, record_signature};
use otlp_ingest::text::{bytes_to_hex, i64_to_string, u64_to_hex16, u64_to_string};
use otlp_ingest::value::{Record, RecordValue, ScalarValue};

fn labeled(pairs: &[(&str, &str)]) -> Record {
    let mut r = Record::new();
    for (k, v) in pairs {
        r.set(
            k.to_string(),
            RecordValue::Scalar(ScalarValue::Str(v.to_string())),
        );
    }
    r
}

#[test]
fn hash_ignores_excluded_labels() {
    // Two rows identical except for a label in the exclusion set produce
    // the same hash.
    let excl = default_exclude_labels();
    let a = labeled(&[("__name__", "m"), ("job", "x"), ("value", "1")]);
    let b = labeled(&[("__name__", "m"), ("job", "x"), ("value", "2")]);
    assert_eq!(record_signature(&a, &excl), record_signature(&b, &excl));

    // Presence of an excluded label does not matter either.
    let mut c = labeled(&[("__name__", "m"), ("job", "x")]);
    c.set(
        "_timestamp".to_string(),
        RecordValue::Scalar(ScalarValue::Uint(9)),
    );
    let d = labeled(&[("__name__", "m"), ("job", "x")]);
    assert_eq!(record_signature(&c, &excl), record_signature(&d, &excl));
}

#[test]
fn hash_changes_with_non_excluded_labels() {
    let excl = default_exclude_labels();
    let a = labeled(&[("__name__", "m"), ("job", "x")]);
    let b = labeled(&[("__name__", "m"), ("job", "y")]);
    let c = labeled(&[("__name__", "m")]);
    assert_ne!(record_signature(&a, &excl), record_signature(&b, &excl));
    assert_ne!(record_signature(&a, &excl), record_signature(&c, &excl));
}

#[test]
fn hash_covers_the_metric_name() {
    let excl = default_exclude_labels();
    let a = labeled(&[("__name__", "m1"), ("job", "x")]);
    let b = labeled(&[("__name__", "m2"), ("job", "x")]);
    assert_ne!(record_signature(&a, &excl), record_signature(&b, &excl));
}

#[test]
fn sanitizer_keeps_word_characters() {
    assert_eq!(sanitize_name("http_requests"), "http_requests");
    assert_eq!(sanitize_name("my.metric/2"), "my_metric_2");
    assert_eq!(sanitize_name("ABC_09"), "ABC_09");
    assert_eq!(sanitize_name(""), "");
    assert_eq!(sanitize_name("naïve"), "na_ve");
}

#[test]
fn integer_renderings() {
    assert_eq!(u64_to_string(0), "0");
    assert_eq!(u64_to_string(1_234_567), "1234567");
    assert_eq!(u64_to_string(u64::MAX), "18446744073709551615");
    assert_eq!(i64_to_string(-42), "-42");
    assert_eq!(i64_to_string(i64::MIN), "-9223372036854775808");
    assert_eq!(u64_to_hex16(0), "0000000000000000");
    assert_eq!(u64_to_hex16(0xdeadbeef), "00000000deadbeef");
    assert_eq!(bytes_to_hex(&vec![0x00, 0xab, 0x10]), "00ab10");
}
