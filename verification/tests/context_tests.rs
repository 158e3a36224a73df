use otlp_ingest::context::{Granularity, IngestContext, PipelineOutput, StreamInfo};
use otlp_ingest::flatten::FlatRow;
use otlp_ingest::value::{Record, RecordValue, ScalarValue};

fn info(has_pipeline: bool, alert_count: usize) -> StreamInfo {
    StreamInfo {
        schema_fields: vec!["_timestamp".to_string(), "value".to_string()],
        has_metadata: false,
        partition_keys: vec![],
        granularity: Granularity::Hourly,
        has_pipeline,
        alert_count,
    }
}

fn row(name: &str, ts: u64) -> Record {
    let mut r = Record::new();
    r.set(
        "__name__".to_string(),
        RecordValue::Scalar(ScalarValue::Str(name.to_string())),
    );
    r.set("_timestamp".to_string(), RecordValue::Scalar(ScalarValue::Uint(ts)));
    r.set("value".to_string(), RecordValue::Scalar(ScalarValue::Uint(1)));
    r
}

#[test]
fn pipeline_failure_rejects_exactly_the_batch() {
    // A failing pipeline for stream s rejects exactly its N buffered inputs
    // and commits none of them.
    let mut ctx = IngestContext::new("org".to_string());
    ctx.admit_stream("s".to_string(), info(true, 0));
    for i in 0..3u64 {
        ctx.route_row(FlatRow { stream: "s".to_string(), row: row("s", 1000 + i) });
    }
    assert_eq!(ctx.pipeline_batch("s").len(), 3);
    ctx.apply_pipeline_failure("s", "pipeline broke".to_string());
    assert_eq!(ctx.partial.rejected_data_points, 3);
    assert_eq!(ctx.partial.error_message, "pipeline broke");
    assert_eq!(ctx.pipeline_batch("s").len(), 0);
    // Nothing was staged and nothing can be committed for s.
    let batch = ctx.take_commit_batch("s", false);
    assert!(batch.is_none());
}

#[test]
fn pipeline_success_routes_metrics_outputs() {
    let mut ctx = IngestContext::new("org".to_string());
    ctx.admit_stream("s".to_string(), info(true, 0));
    ctx.admit_stream("d".to_string(), info(false, 0));
    ctx.route_row(FlatRow { stream: "s".to_string(), row: row("s", 1) });
    let outputs = vec![
        PipelineOutput { stream: "d".to_string(), is_metrics: true, row: row("d", 2) },
        PipelineOutput { stream: "d".to_string(), is_metrics: false, row: row("d", 3) },
        PipelineOutput { stream: "unknown".to_string(), is_metrics: true, row: row("u", 4) },
    ];
    ctx.apply_pipeline_success("s", outputs);
    assert_eq!(ctx.pipeline_batch("s").len(), 0);
    assert_eq!(ctx.partial.rejected_data_points, 0);
    // Only the kept metrics output was buffered for d.
    let staged = ctx.stage_next_record("d", 0);
    assert!(staged.is_none());
    assert!(ctx.stage_next_record("d", 0).is_none());
    let batch = ctx.take_commit_batch("d", false).expect("one batch");
    let mut n = 0;
    for b in &batch.buffers {
        n += b.records.len();
    }
    assert_eq!(n, 1);
}

#[test]
fn deleting_stream_is_skipped_without_rejection() {
    // Records bound for a stream flagged for deletion never reach the
    // writer and are not counted as rejected.
    let mut ctx = IngestContext::new("org".to_string());
    ctx.admit_stream("s".to_string(), info(false, 0));
    ctx.route_row(FlatRow { stream: "s".to_string(), row: row("s", 1) });
    ctx.stage_next_record("s", 0);
    let before = ctx.partial.rejected_data_points;
    let batch = ctx.take_commit_batch("s", true);
    assert!(batch.is_none());
    assert_eq!(ctx.partial.rejected_data_points, before);
    // The buffers are gone: a second, non-deleting take finds nothing.
    assert!(ctx.take_commit_batch("s", false).is_none());
}

#[test]
fn same_series_lands_in_one_buffer_schema_change_opens_another() {
    let mut ctx = IngestContext::new("org".to_string());
    ctx.admit_stream("s".to_string(), info(false, 0));
    ctx.route_row(FlatRow { stream: "s".to_string(), row: row("s", 1_000_000) });
    ctx.route_row(FlatRow { stream: "s".to_string(), row: row("s", 2_000_000) });
    ctx.route_row(FlatRow { stream: "s".to_string(), row: row("s", 3_000_000) });
    ctx.stage_next_record("s", 0);
    ctx.stage_next_record("s", 0);
    // Two records staged under the same schema and hour share one buffer.
    assert_eq!(ctx.staging.len(), 1);
    assert_eq!(ctx.staging[0].records.len(), 2);
    // A schema evolution changes the fingerprint: the next record opens a
    // new buffer even though the hour is the same.
    ctx.note_schema_checked(
        "s",
        true,
        vec!["_timestamp".to_string(), "value".to_string(), "extra".to_string()],
    );
    ctx.stage_next_record("s", 0);
    assert_eq!(ctx.staging.len(), 2);
    assert_ne!(ctx.staging[0].fingerprint, ctx.staging[1].fingerprint);
}

#[test]
fn needs_schema_check_only_for_new_columns() {
    let mut ctx = IngestContext::new("org".to_string());
    ctx.admit_stream("s".to_string(), info(false, 0));
    let mut r = row("s", 1);
    r.set("newcol".to_string(), RecordValue::Scalar(ScalarValue::Bool(true)));
    ctx.route_row(FlatRow { stream: "s".to_string(), row: row("s", 1) });
    ctx.route_row(FlatRow { stream: "s".to_string(), row: r });
    // Not yet evolved: the first record asks for a check whatever it holds.
    assert!(ctx.needs_schema_check("s"));
    ctx.note_schema_checked(
        "s",
        true,
        vec![
            "__name__".to_string(),
            "_timestamp".to_string(),
            "value".to_string(),
        ],
    );
    assert!(!ctx.needs_schema_check("s"));
    ctx.stage_next_record("s", 0);
    // The second record carries a column the schema does not know.
    assert!(ctx.needs_schema_check("s"));
}

#[test]
fn alert_record_issued_once_per_stream() {
    let mut ctx = IngestContext::new("org".to_string());
    ctx.admit_stream("s".to_string(), info(false, 2));
    ctx.route_row(FlatRow { stream: "s".to_string(), row: row("s", 1) });
    ctx.route_row(FlatRow { stream: "s".to_string(), row: row("s", 2) });
    let first = ctx.stage_next_record("s", 0);
    assert!(first.is_some());
    let second = ctx.stage_next_record("s", 0);
    assert!(second.is_none());
    ctx.record_alert_result("s", vec![7, 9]);
    // A second evaluation result is ignored.
    ctx.record_alert_result("s", vec![1]);
    let fired = ctx.take_triggers();
    assert_eq!(fired.len(), 1);
    assert_eq!(fired[0].0, "s");
    assert_eq!(fired[0].1, vec![7, 9]);
    // Triggers fire once: nothing is left.
    assert_eq!(ctx.take_triggers().len(), 0);
}

#[test]
fn metadata_written_once() {
    let mut ctx = IngestContext::new("org".to_string());
    ctx.admit_stream("s".to_string(), info(false, 0));
    assert!(ctx.metadata_due("s"));
    ctx.note_metadata_written("s");
    assert!(!ctx.metadata_due("s"));
    // A stream whose metadata already exists never asks.
    let mut with_meta = info(false, 0);
    with_meta.has_metadata = true;
    ctx.admit_stream("t".to_string(), with_meta);
    assert!(!ctx.metadata_due("t"));
}

#[test]
fn default_timestamp_is_now_when_column_missing() {
    let mut ctx = IngestContext::new("org".to_string());
    ctx.admit_stream("s".to_string(), info(false, 0));
    let mut r = Record::new();
    r.set(
        "__name__".to_string(),
        RecordValue::Scalar(ScalarValue::Str("s".to_string())),
    );
    ctx.route_row(FlatRow { stream: "s".to_string(), row: r });
    // now = two hours after the epoch, hourly buckets: bucket 2.
    ctx.stage_next_record("s", 7_200_000_000);
    assert_eq!(ctx.staging.len(), 1);
    assert_eq!(ctx.staging[0].time_bucket, 2);
}

#[test]
fn batch_stats_count_records_and_bytes() {
    let mut ctx = IngestContext::new("org".to_string());
    ctx.admit_stream("s".to_string(), info(false, 0));
    ctx.route_row(FlatRow { stream: "s".to_string(), row: row("s", 1) });
    ctx.route_row(FlatRow { stream: "s".to_string(), row: row("s", 2) });
    ctx.stage_next_record("s", 0);
    ctx.stage_next_record("s", 0);
    let batch = ctx.take_commit_batch("s", false).expect("batch");
    let (records, bytes) = otlp_ingest::context::batch_stats(&batch);
    assert_eq!(records, 2);
    assert!(bytes > 0);
}
