use otlp_ingest::context::PartialSuccess;
use otlp_ingest::response::{decode_response, encode_response, format_response};

use opentelemetry_proto::tonic::collector::metrics::v1::{
    ExportMetricsPartialSuccess, ExportMetricsServiceResponse,
};
use prost::Message;

#[test]
fn non_partial_response_decodes_to_absent_partial_success() {
    let partial = PartialSuccess { rejected_data_points: 0, error_message: String::new() };
    let plan = format_response(&partial, false);
    assert_eq!(plan.status, 200);
    assert!(!plan.is_partial);
    assert_eq!(plan.body.len(), 0);
    let decoded = decode_response(&plan.body).expect("well-formed");
    assert!(decoded.is_none());
}

#[test]
fn partial_response_round_trips_with_nonzero_count() {
    let partial = PartialSuccess { rejected_data_points: 5, error_message: "internal".to_string() };
    let plan = format_response(&partial, false);
    assert_eq!(plan.status, 200);
    assert!(plan.is_partial);
    // The internal reason is replaced by the fixed message.
    assert_eq!(
        plan.message,
        "Some data points were rejected due to exceeding the allowed retention period"
    );
    let decoded = decode_response(&plan.body).expect("well-formed").expect("partial present");
    assert_eq!(decoded.0, 5);
    assert!(decoded.0 > 0);
    assert_eq!(
        String::from_utf8(decoded.1).unwrap(),
        "Some data points were rejected due to exceeding the allowed retention period"
    );
}

#[test]
fn json_partial_reports_206_binary_reports_200() {
    let partial = PartialSuccess { rejected_data_points: 1, error_message: String::new() };
    assert_eq!(format_response(&partial, true).status, 206);
    assert_eq!(format_response(&partial, false).status, 200);
    let ok = PartialSuccess { rejected_data_points: 0, error_message: String::new() };
    assert_eq!(format_response(&ok, true).status, 200);
    assert_eq!(format_response(&ok, false).status, 200);
}

#[test]
fn our_encoding_matches_the_wire_decoder() {
    // The bytes the verified encoder writes are read back by the standard
    // wire decoder with the same fields.
    let msg = b"Some data points were rejected".to_vec();
    let body = encode_response(Some((42, &msg)));
    let decoded = ExportMetricsServiceResponse::decode(body.as_slice()).expect("wire-valid");
    let ps = decoded.partial_success.expect("present");
    assert_eq!(ps.rejected_data_points, 42);
    assert_eq!(ps.error_message, "Some data points were rejected");

    let empty = encode_response(None);
    let decoded = ExportMetricsServiceResponse::decode(empty.as_slice()).expect("wire-valid");
    assert!(decoded.partial_success.is_none());
}

#[test]
fn the_wire_encoder_matches_our_decoder() {
    let resp = ExportMetricsServiceResponse {
        partial_success: Some(ExportMetricsPartialSuccess {
            rejected_data_points: 123456789,
            error_message: "too much".to_string(),
        }),
    };
    let mut bytes = Vec::new();
    resp.encode(&mut bytes).unwrap();
    let decoded = decode_response(&bytes).expect("well-formed").expect("partial present");
    assert_eq!(decoded.0, 123456789);
    assert_eq!(String::from_utf8(decoded.1).unwrap(), "too much");
}

#[test]
fn large_and_small_counts_round_trip() {
    for rej in [1i64, 127, 128, 300, i64::MAX] {
        let msg: Vec<u8> = b"m".to_vec();
        let body = encode_response(Some((rej, &msg)));
        let decoded = decode_response(&body).expect("well-formed").expect("present");
        assert_eq!(decoded.0, rej);
        let wire = ExportMetricsServiceResponse::decode(body.as_slice()).expect("wire-valid");
        assert_eq!(wire.partial_success.unwrap().rejected_data_points, rej);
    }
}

#[test]
fn malformed_bytes_are_refused() {
    let garbage = vec![0x99u8, 1, 2, 3];
    assert!(decode_response(&garbage).is_none());
    // Truncated length prefix.
    let truncated = vec![0x0au8, 5, 8];
    assert!(decode_response(&truncated).is_none());
}
