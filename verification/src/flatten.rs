//! The flattener: one metric family's nested data points become a sequence
//! of flat row records, one logical row per data point, or several derived
//! rows for histograms and summaries.  Every row-building step is specified
//! exactly as a fold of column stores over the base record.

use vstd::prelude::*;

verus! {

use crate::codec::exp_le_text;
use crate::labels::{sanitize_name, sanitize_str};
use crate::model::{
    Attribute, ExemplarData, ExpBuckets, ExpHistogramPoint, FamilyMetadata, FloatVal,
    HistogramPoint, MetricFamily, MetricData, MetricType, MetricsRequest, NumberPoint, QuantileValue,
    ResourceGroup, Scope, ScopeGroup, SummaryPoint,
};
use crate::signature::{record_signature, signature_spec};
use crate::text::{
    all_zero, bool_str, bool_to_string, bytes_hex, bytes_to_hex, dec_str, is_all_zero,
    strings_view, u64_to_string,
};
use crate::value::{
    ExemplarRecord, Record, RecordValue, ScalarValue, ScalarView, ValueView, store, lookup,
    lemma_record_entries_view, lemma_scalar_entries_view, lemma_exemplars_view, exemplars_view,
};

/// The specification-level contents of a list of rows.
pub open spec fn rows_view(s: Seq<Record>) -> Seq<Seq<(Seq<char>, ValueView)>>
    decreases s.len(),
{
    if s.len() == 0 {
        Seq::<Seq<(Seq<char>, ValueView)>>::empty()
    } else {
        rows_view(s.drop_last()).push(s.last()@)
    }
}

pub broadcast proof fn lemma_rows_view(s: Seq<Record>)
    ensures
        (#[trigger] rows_view(s)).len() == s.len(),
        forall|j: int| 0 <= j < s.len() ==> #[trigger] rows_view(s)[j] == s[j]@,
    decreases s.len(),
{
    if s.len() > 0 {
        lemma_rows_view(s.drop_last());
    }
}

/// Every row in the list satisfies the key-uniqueness invariant.
pub open spec fn rows_wf(s: Seq<Record>) -> bool {
    forall|j: int| 0 <= j < s.len() ==> (#[trigger] s[j]).wf()
}

/// The wire name of an aggregation temporality.
pub open spec fn temporality_text(v: int) -> Seq<char> {
    if v == 1 {
        "AGGREGATION_TEMPORALITY_DELTA"@
    } else if v == 2 {
        "AGGREGATION_TEMPORALITY_CUMULATIVE"@
    } else {
        "AGGREGATION_TEMPORALITY_UNSPECIFIED"@
    }
}

/// The wire name of a data-point flag word.
pub open spec fn flag_text(f: u32) -> Seq<char> {
    if f == 1 {
        "DATA_POINT_FLAGS_NO_RECORDED_VALUE_MASK"@
    } else {
        "DATA_POINT_FLAGS_DO_NOT_USE"@
    }
}

/// The key under which an attribute lands: label keys are normalized,
/// exemplar attribute keys are kept verbatim.
pub open spec fn attr_key_view(a: crate::model::Attribute, sanitize: bool) -> Seq<char> {
    if sanitize {
        sanitize_str(a.key@)
    } else {
        a.key@
    }
}

/// Attributes copied onto a record, in order, as label columns.
pub open spec fn apply_attrs(
    base: Seq<(Seq<char>, ValueView)>,
    attrs: Seq<crate::model::Attribute>,
    sanitize: bool,
) -> Seq<(Seq<char>, ValueView)>
    decreases attrs.len(),
{
    if attrs.len() == 0 {
        base
    } else {
        apply_attrs(
            store(base, attr_key_view(attrs[0], sanitize), ValueView::Scalar(attrs[0].value@)),
            attrs.drop_first(),
            sanitize,
        )
    }
}

/// The scalar columns of a row, in order: how an exemplar row is read back
/// out of the general record builder.
pub open spec fn scalars_of(s: Seq<(Seq<char>, ValueView)>) -> Seq<(Seq<char>, ScalarView)>
    decreases s.len(),
{
    if s.len() == 0 {
        Seq::<(Seq<char>, ScalarView)>::empty()
    } else {
        match s[0].1 {
            ValueView::Scalar(v) => seq![(s[0].0, v)].add(scalars_of(s.drop_first())),
            ValueView::Exemplars(_) => scalars_of(s.drop_first()),
        }
    }
}

/// One exemplar flattened: its filtered attributes verbatim, its value, its
/// microsecond timestamp, and its trace and span identifiers in hexadecimal,
/// each omitted when absent or all zero.
pub open spec fn exemplar_row(x: ExemplarData) -> Seq<(Seq<char>, ValueView)> {
    let a = apply_attrs(Seq::<(Seq<char>, ValueView)>::empty(), x.filtered_attributes@, false);
    let b = store(a, "value"@, ValueView::Scalar(x.value@));
    let c = store(
        b,
        "_timestamp"@,
        ValueView::Scalar(ScalarView::Uint((x.time_unix_nano / 1000) as int)),
    );
    let d = if x.trace_id@.len() == 16 && !all_zero(x.trace_id@) {
        store(c, "trace_id"@, ValueView::Scalar(ScalarView::Str(bytes_hex(x.trace_id@))))
    } else {
        c
    };
    if x.span_id@.len() == 8 && !all_zero(x.span_id@) {
        store(d, "span_id"@, ValueView::Scalar(ScalarView::Str(bytes_hex(x.span_id@))))
    } else {
        d
    }
}

/// The exemplar list flattened, one scalar map per exemplar.
pub open spec fn exemplars_rows(xs: Seq<ExemplarData>) -> Seq<Seq<(Seq<char>, ScalarView)>>
    decreases xs.len(),
{
    if xs.len() == 0 {
        Seq::<Seq<(Seq<char>, ScalarView)>>::empty()
    } else {
        seq![scalars_of(exemplar_row(xs[0]))].add(exemplars_rows(xs.drop_first()))
    }
}

/// A number data point applied to a base record: attributes, value,
/// microsecond timestamp, stringified start time, flag and exemplars.
pub open spec fn number_point_applied(
    base: Seq<(Seq<char>, ValueView)>,
    dp: NumberPoint,
) -> Seq<(Seq<char>, ValueView)> {
    let a = apply_attrs(base, dp.attributes@, true);
    let b = store(a, "value"@, ValueView::Scalar(dp.value@));
    let c = store(
        b,
        "_timestamp"@,
        ValueView::Scalar(ScalarView::Uint((dp.time_unix_nano / 1000) as int)),
    );
    let d = store(
        c,
        "start_time"@,
        ValueView::Scalar(ScalarView::Str(dec_str(dp.start_time_unix_nano as nat))),
    );
    let e = store(d, "flag"@, ValueView::Scalar(ScalarView::Str(flag_text(dp.flags as u32))));
    store(e, "exemplars"@, ValueView::Exemplars(exemplars_rows(dp.exemplars@)))
}

/// A finished row receives its content fingerprint, computed over the row as
/// it stands, under the exclusion set.
pub open spec fn with_hash(e: Seq<(Seq<char>, ValueView)>, excl: Seq<Seq<char>>) -> Seq<
    (Seq<char>, ValueView),
> {
    store(e, "__hash__"@, ValueView::Scalar(ScalarView::Uint(signature_spec(e, excl) as int)))
}

/// The gauge rows: one independent row per data point, each built from the
/// base record alone — clone then mutate, so no label of one data point
/// leaks into another point's row — with the value copied verbatim.
pub open spec fn gauge_rows(
    base: Seq<(Seq<char>, ValueView)>,
    dps: Seq<NumberPoint>,
    excl: Seq<Seq<char>>,
) -> Seq<Seq<(Seq<char>, ValueView)>>
    decreases dps.len(),
{
    if dps.len() == 0 {
        Seq::<Seq<(Seq<char>, ValueView)>>::empty()
    } else {
        seq![with_hash(number_point_applied(base, dps[0]), excl)].add(
            gauge_rows(base, dps.drop_first(), excl),
        )
    }
}

/// The sum rows from the tagged base: one independent row per data point.
pub open spec fn sum_rows_from(
    base: Seq<(Seq<char>, ValueView)>,
    dps: Seq<NumberPoint>,
    excl: Seq<Seq<char>>,
) -> Seq<Seq<(Seq<char>, ValueView)>>
    decreases dps.len(),
{
    if dps.len() == 0 {
        Seq::<Seq<(Seq<char>, ValueView)>>::empty()
    } else {
        seq![with_hash(number_point_applied(base, dps[0]), excl)].add(
            sum_rows_from(base, dps.drop_first(), excl),
        )
    }
}

/// The sum rows: the base is tagged with the aggregation temporality and the
/// stringified monotonicity, then one row per data point.
pub open spec fn sum_rows(
    base: Seq<(Seq<char>, ValueView)>,
    temporality: int,
    monotonic: bool,
    dps: Seq<NumberPoint>,
    excl: Seq<Seq<char>>,
) -> Seq<Seq<(Seq<char>, ValueView)>> {
    let tagged = store(
        store(
            base,
            "aggregation_temporality"@,
            ValueView::Scalar(ScalarView::Str(temporality_text(temporality))),
        ),
        "is_monotonic"@,
        ValueView::Scalar(ScalarView::Str(bool_str(monotonic))),
    );
    sum_rows_from(tagged, dps, excl)
}

/// Tags a record with the wire name of an aggregation temporality.
pub fn apply_temporality(rec: Record, val: i32) -> (r: Record)
    requires
        rec.wf(),
    ensures
        r@ == store(
            rec@,
            "aggregation_temporality"@,
            ValueView::Scalar(ScalarView::Str(temporality_text(val as int))),
        ),
        r.wf(),
{
    let t: &str = if val == 1 {
        "AGGREGATION_TEMPORALITY_DELTA"
    } else if val == 2 {
        "AGGREGATION_TEMPORALITY_CUMULATIVE"
    } else {
        "AGGREGATION_TEMPORALITY_UNSPECIFIED"
    };
    let mut rec = rec;
    rec.set(
        String::from_str("aggregation_temporality"),
        RecordValue::Scalar(ScalarValue::Str(String::from_str(t))),
    );
    rec
}

/// Copies attributes onto a record as label columns, normalizing the keys
/// for data-point labels and keeping them verbatim for exemplars.
#[verifier::loop_isolation(false)]
fn apply_attributes(rec: Record, attrs: &Vec<crate::model::Attribute>, sanitize: bool) -> (r:
    Record)
    requires
        rec.wf(),
    ensures
        r@ == apply_attrs(rec@, attrs@, sanitize),
        r.wf(),
{
    let ghost base = rec@;
    let mut cur = rec;
    let n = attrs.len();
    let mut i: usize = 0;
    proof {
        assert(attrs@.skip(0) =~= attrs@);
    }
    while i < n
        invariant
            n == attrs.len(),
            i <= n,
            cur.wf(),
            apply_attrs(base, attrs@, sanitize) == apply_attrs(cur@, attrs@.skip(i as int), sanitize),
        decreases n - i,
    {
        proof {
            assert(attrs@.skip(i as int)[0] == attrs@[i as int]);
            assert(attrs@.skip(i as int).drop_first() =~= attrs@.skip(i as int + 1));
        }
        let key: String = if sanitize {
            sanitize_name(attrs[i].key.as_str())
        } else {
            attrs[i].key.clone()
        };
        cur.set(key, RecordValue::Scalar(attrs[i].value.duplicate()));
        i += 1;
    }
    proof {
        assert(attrs@.skip(n as int) =~= Seq::<crate::model::Attribute>::empty());
    }
    cur
}

/// Reads the scalar columns back out of a built exemplar row.
#[verifier::loop_isolation(false)]
fn record_to_exemplar(rec: &Record) -> (r: ExemplarRecord)
    ensures
        r@ == scalars_of(rec@),
{
    proof {
        lemma_record_entries_view(rec.entries@);
    }
    let ghost rv = rec@;
    let mut out = ExemplarRecord::new();
    let n = rec.entries.len();
    let mut i: usize = 0;
    proof {
        assert(rv.skip(0) =~= rv);
        assert(Seq::<(Seq<char>, ScalarView)>::empty().add(scalars_of(rv)) =~= scalars_of(rv));
    }
    while i < n
        invariant
            n == rec.entries.len(),
            rv == rec@,
            rv.len() == n,
            forall|j: int|
                0 <= j < n ==> #[trigger] rv[j] == (rec.entries@[j].0@, rec.entries@[j].1@),
            i <= n,
            scalars_of(rv) == out@.add(scalars_of(rv.skip(i as int))),
        decreases n - i,
    {
        proof {
            assert(rv.skip(i as int)[0] == rv[i as int]);
            assert(rv.skip(i as int).drop_first() =~= rv.skip(i as int + 1));
        }
        match &rec.entries[i].1 {
            RecordValue::Scalar(v) => {
                let ghost pre = out@;
                out.push(rec.entries[i].0.clone(), v.duplicate());
                proof {
                    assert(scalars_of(rv.skip(i as int)) =~= seq![
                        (rv[i as int].0, rv[i as int].1->Scalar_0),
                    ].add(scalars_of(rv.skip(i as int + 1))));
                    assert(out@ =~= pre.push((rv[i as int].0, rv[i as int].1->Scalar_0)));
                    assert(out@.add(scalars_of(rv.skip(i as int + 1))) =~= pre.add(
                        scalars_of(rv.skip(i as int)),
                    ));
                }
            },
            RecordValue::Exemplars(_) => {},
        }
        i += 1;
    }
    proof {
        assert(rv.skip(n as int) =~= Seq::<(Seq<char>, ValueView)>::empty());
        assert(out@.add(scalars_of(rv.skip(n as int))) =~= out@);
    }
    out
}

/// Builds the flattened exemplar list of a data point.
#[verifier::loop_isolation(false)]
fn build_exemplars(xs: &Vec<ExemplarData>) -> (r: Vec<ExemplarRecord>)
    ensures
        exemplars_view(r@) == exemplars_rows(xs@),
{
    let mut out: Vec<ExemplarRecord> = Vec::new();
    let n = xs.len();
    let mut i: usize = 0;
    proof {
        lemma_exemplars_view(out@);
        assert(xs@.skip(0) =~= xs@);
        assert(exemplars_view(out@) =~= Seq::<Seq<(Seq<char>, ScalarView)>>::empty());
    }
    while i < n
        invariant
            n == xs.len(),
            i <= n,
            exemplars_rows(xs@) == exemplars_view(out@).add(
                exemplars_rows(xs@.skip(i as int)),
            ),
        decreases n - i,
    {
        proof {
            assert(xs@.skip(i as int)[0] == xs@[i as int]);
            assert(xs@.skip(i as int).drop_first() =~= xs@.skip(i as int + 1));
        }
        let x = &xs[i];
        let mut row = Record::new();
        let row1 = apply_attributes(row, &x.filtered_attributes, false);
        let mut row = row1;
        row.set(String::from_str("value"), RecordValue::Scalar(x.value.duplicate()));
        row.set(
            String::from_str("_timestamp"),
            RecordValue::Scalar(ScalarValue::Uint(x.time_unix_nano / 1000)),
        );
        if x.trace_id.len() == 16 && !is_all_zero(&x.trace_id) {
            row.set(
                String::from_str("trace_id"),
                RecordValue::Scalar(ScalarValue::Str(bytes_to_hex(&x.trace_id))),
            );
        }
        if x.span_id.len() == 8 && !is_all_zero(&x.span_id) {
            row.set(
                String::from_str("span_id"),
                RecordValue::Scalar(ScalarValue::Str(bytes_to_hex(&x.span_id))),
            );
        }
        proof {
            assert(row@ == exemplar_row(xs@[i as int]));
        }
        let ghost pre = out@;
        let ex = record_to_exemplar(&row);
        out.push(ex);
        proof {
            lemma_exemplars_view(out@);
            lemma_exemplars_view(pre);
            assert(out@.drop_last() =~= pre);
            assert(exemplars_view(out@) =~= exemplars_view(pre).push(
                scalars_of(exemplar_row(xs@[i as int])),
            ));
            assert(exemplars_rows(xs@.skip(i as int)) =~= seq![
                scalars_of(exemplar_row(xs@[i as int])),
            ].add(exemplars_rows(xs@.skip(i as int + 1))));
            assert(exemplars_view(out@).add(exemplars_rows(xs@.skip(i as int + 1)))
                =~= exemplars_view(pre).add(exemplars_rows(xs@.skip(i as int))));
        }
        i += 1;
    }
    proof {
        assert(xs@.skip(n as int) =~= Seq::<ExemplarData>::empty());
        assert(exemplars_view(out@).add(exemplars_rows(xs@.skip(n as int))) =~= exemplars_view(
            out@,
        ));
    }
    out
}

/// Applies one number data point to a record: attributes, value, timestamp,
/// start time, flag and exemplars, exactly as `number_point_applied` states.
pub fn number_point_apply(rec: Record, dp: &NumberPoint) -> (r: Record)
    requires
        rec.wf(),
    ensures
        r@ == number_point_applied(rec@, *dp),
        r.wf(),
{
    let rec1 = apply_attributes(rec, &dp.attributes, true);
    let mut rec = rec1;
    rec.set(String::from_str("value"), RecordValue::Scalar(dp.value.duplicate()));
    rec.set(
        String::from_str("_timestamp"),
        RecordValue::Scalar(ScalarValue::Uint(dp.time_unix_nano / 1000)),
    );
    rec.set(
        String::from_str("start_time"),
        RecordValue::Scalar(ScalarValue::Str(u64_to_string(dp.start_time_unix_nano))),
    );
    let flag: &str = if dp.flags == 1 {
        "DATA_POINT_FLAGS_NO_RECORDED_VALUE_MASK"
    } else {
        "DATA_POINT_FLAGS_DO_NOT_USE"
    };
    rec.set(String::from_str("flag"), RecordValue::Scalar(ScalarValue::Str(String::from_str(flag))));
    rec.set(String::from_str("exemplars"), RecordValue::Exemplars(build_exemplars(&dp.exemplars)));
    rec
}

/// Computes and stores the row fingerprint.
pub fn add_hash(rec: Record, excl: &Vec<String>) -> (r: Record)
    requires
        rec.wf(),
    ensures
        r@ == with_hash(rec@, strings_view(excl@)),
        r.wf(),
{
    let h = record_signature(&rec, excl);
    let mut rec = rec;
    rec.set(String::from_str("__hash__"), RecordValue::Scalar(ScalarValue::Uint(h)));
    rec
}

/// Flattens a gauge: one independent row per data point, built from the
/// base record alone, value copied verbatim, each row's timestamp the
/// point's `time_unix_nano / 1000`.
#[verifier::loop_isolation(false)]
pub fn process_gauge(base: &Record, dps: &Vec<NumberPoint>, excl: &Vec<String>) -> (rows: Vec<
    Record,
>)
    requires
        base.wf(),
    ensures
        rows_view(rows@) == gauge_rows(base@, dps@, strings_view(excl@)),
        rows_wf(rows@),
        rows@.len() == dps@.len(),
{
    let ghost ex = strings_view(excl@);
    let mut rows: Vec<Record> = Vec::new();
    let n = dps.len();
    let mut i: usize = 0;
    proof {
        lemma_rows_view(rows@);
        assert(dps@.skip(0) =~= dps@);
        assert(rows_view(rows@) =~= Seq::<Seq<(Seq<char>, ValueView)>>::empty());
    }
    while i < n
        invariant
            n == dps.len(),
            i <= n,
            rows@.len() == i,
            rows_wf(rows@),
            gauge_rows(base@, dps@, ex) == rows_view(rows@).add(
                gauge_rows(base@, dps@.skip(i as int), ex),
            ),
        decreases n - i,
    {
        proof {
            assert(dps@.skip(i as int)[0] == dps@[i as int]);
            assert(dps@.skip(i as int).drop_first() =~= dps@.skip(i as int + 1));
        }
        let row = add_hash(number_point_apply(base.duplicate(), &dps[i]), excl);
        let ghost pre = rows@;
        rows.push(row);
        proof {
            lemma_rows_view(rows@);
            lemma_rows_view(pre);
            assert(rows@.drop_last() =~= pre);
            assert(rows_view(rows@) =~= rows_view(pre).push(rows@.last()@));
            assert(gauge_rows(base@, dps@.skip(i as int), ex) =~= seq![
                with_hash(number_point_applied(base@, dps@[i as int]), ex),
            ].add(gauge_rows(base@, dps@.skip(i as int + 1), ex)));
            assert(rows_view(rows@).add(gauge_rows(base@, dps@.skip(i as int + 1), ex))
                =~= rows_view(pre).add(gauge_rows(base@, dps@.skip(i as int), ex)));
        }
        i += 1;
    }
    proof {
        assert(dps@.skip(n as int) =~= Seq::<NumberPoint>::empty());
        assert(rows_view(rows@).add(gauge_rows(base@, dps@.skip(n as int), ex)) =~= rows_view(
            rows@,
        ));
    }
    rows
}

/// Flattens a sum: tags temporality and monotonicity on the base, then one
/// independent row per data point.
#[verifier::loop_isolation(false)]
pub fn process_sum(
    base: &Record,
    dps: &Vec<NumberPoint>,
    temporality: i32,
    monotonic: bool,
    excl: &Vec<String>,
) -> (rows: Vec<Record>)
    requires
        base.wf(),
    ensures
        rows_view(rows@) == sum_rows(base@, temporality as int, monotonic, dps@, strings_view(excl@)),
        rows_wf(rows@),
        rows@.len() == dps@.len(),
{
    let ghost ex = strings_view(excl@);
    let tagged0 = apply_temporality(base.duplicate(), temporality);
    let mut tagged = tagged0;
    tagged.set(
        String::from_str("is_monotonic"),
        RecordValue::Scalar(ScalarValue::Str(bool_to_string(monotonic))),
    );
    let mut rows: Vec<Record> = Vec::new();
    let n = dps.len();
    let mut i: usize = 0;
    proof {
        lemma_rows_view(rows@);
        assert(dps@.skip(0) =~= dps@);
        assert(rows_view(rows@) =~= Seq::<Seq<(Seq<char>, ValueView)>>::empty());
    }
    while i < n
        invariant
            n == dps.len(),
            i <= n,
            tagged.wf(),
            rows@.len() == i,
            rows_wf(rows@),
            sum_rows(base@, temporality as int, monotonic, dps@, ex) == rows_view(rows@).add(
                sum_rows_from(tagged@, dps@.skip(i as int), ex),
            ),
        decreases n - i,
    {
        proof {
            assert(dps@.skip(i as int)[0] == dps@[i as int]);
            assert(dps@.skip(i as int).drop_first() =~= dps@.skip(i as int + 1));
        }
        let row = add_hash(number_point_apply(tagged.duplicate(), &dps[i]), excl);
        let ghost pre = rows@;
        rows.push(row);
        proof {
            lemma_rows_view(rows@);
            lemma_rows_view(pre);
            assert(rows@.drop_last() =~= pre);
            assert(rows_view(rows@) =~= rows_view(pre).push(rows@.last()@));
            assert(sum_rows_from(tagged@, dps@.skip(i as int), ex) =~= seq![
                with_hash(number_point_applied(tagged@, dps@[i as int]), ex),
            ].add(sum_rows_from(tagged@, dps@.skip(i as int + 1), ex)));
            assert(rows_view(rows@).add(sum_rows_from(tagged@, dps@.skip(i as int + 1), ex))
                =~= rows_view(pre).add(sum_rows_from(tagged@, dps@.skip(i as int), ex)));
        }
        i += 1;
    }
    proof {
        assert(dps@.skip(n as int) =~= Seq::<NumberPoint>::empty());
        assert(rows_view(rows@).add(sum_rows_from(tagged@, dps@.skip(n as int), ex)) =~= rows_view(
            rows@,
        ));
    }
    rows
}

/// The common columns of a histogram, exponential-histogram or summary data
/// point: attributes, microsecond timestamp, stringified start time, flag.
pub open spec fn point_common(
    base: Seq<(Seq<char>, ValueView)>,
    attrs: Seq<Attribute>,
    time_unix_nano: u64,
    start_time_unix_nano: u64,
    flags: u32,
) -> Seq<(Seq<char>, ValueView)> {
    let a = apply_attrs(base, attrs, true);
    let b = store(
        a,
        "_timestamp"@,
        ValueView::Scalar(ScalarView::Uint((time_unix_nano / 1000) as int)),
    );
    let c = store(
        b,
        "start_time"@,
        ValueView::Scalar(ScalarView::Str(dec_str(start_time_unix_nano as nat))),
    );
    store(c, "flag"@, ValueView::Scalar(ScalarView::Str(flag_text(flags))))
}

/// The exemplars column added to a record.
pub open spec fn with_exemplars(
    e: Seq<(Seq<char>, ValueView)>,
    xs: Seq<ExemplarData>,
) -> Seq<(Seq<char>, ValueView)> {
    store(e, "exemplars"@, ValueView::Exemplars(exemplars_rows(xs)))
}

/// The metric name a record carries, or empty when it has none.
pub open spec fn name_text(e: Seq<(Seq<char>, ValueView)>) -> Seq<char> {
    match lookup(e, "__name__"@) {
        Some(v) => match v {
            ValueView::Scalar(sv) => match sv {
                ScalarView::Str(s) => s,
                _ => Seq::<char>::empty(),
            },
            _ => Seq::<char>::empty(),
        },
        _ => Seq::<char>::empty(),
    }
}

/// An optional float as a column value: null when absent.
pub open spec fn float_scalar_opt(v: Option<FloatVal>) -> ScalarView {
    match v {
        Some(f) => ScalarView::Float { bits: f.bits, text: f.text@ },
        None => ScalarView::Null,
    }
}

/// A derived row: the value column is set, then the name is replaced by the
/// suffixed family name.
pub open spec fn named_value_row(
    common: Seq<(Seq<char>, ValueView)>,
    name: Seq<char>,
    value: ScalarView,
) -> Seq<(Seq<char>, ValueView)> {
    store(
        store(common, "value"@, ValueView::Scalar(value)),
        "__name__"@,
        ValueView::Scalar(ScalarView::Str(name)),
    )
}

/// The running total of the first `m` bucket counts, with wraparound.
pub open spec fn cum_counts(counts: Seq<u64>, m: int) -> u64
    decreases m,
{
    if m <= 0 || m > counts.len() {
        0u64
    } else {
        cum_counts(counts, m - 1).wrapping_add(counts[m - 1])
    }
}

/// One explicit-bounds bucket row: the suffixed name, the bound as `le`, and
/// the cumulative count so far.
pub open spec fn hist_bucket_row(
    common: Seq<(Seq<char>, ValueView)>,
    name: Seq<char>,
    counts: Seq<u64>,
    bounds: Seq<FloatVal>,
    i: int,
) -> Seq<(Seq<char>, ValueView)> {
    let m = if i + 1 < counts.len() {
        i + 1
    } else {
        counts.len() as int
    };
    store(
        store(
            store(common, "__name__"@, ValueView::Scalar(ScalarView::Str(name))),
            "le"@,
            ValueView::Scalar(ScalarView::Str(bounds[i].text@)),
        ),
        "value"@,
        ValueView::Scalar(ScalarView::Uint(cum_counts(counts, m) as int)),
    )
}

/// The bucket rows from position `i` on: exactly one row per explicit bound.
pub open spec fn hist_bucket_rows(
    common: Seq<(Seq<char>, ValueView)>,
    name: Seq<char>,
    counts: Seq<u64>,
    bounds: Seq<FloatVal>,
    i: int,
) -> Seq<Seq<(Seq<char>, ValueView)>>
    decreases bounds.len() - i,
{
    if i < 0 || i >= bounds.len() {
        Seq::<Seq<(Seq<char>, ValueView)>>::empty()
    } else {
        seq![hist_bucket_row(common, name, counts, bounds, i)].add(
            hist_bucket_rows(common, name, counts, bounds, i + 1),
        )
    }
}

/// The rows of one histogram data point, before hashing: a `_count`, `_sum`,
/// `_min` and `_max` row, then one `_bucket` row per explicit bound.
pub open spec fn hist_point_rows_raw(
    base: Seq<(Seq<char>, ValueView)>,
    dp: HistogramPoint,
) -> Seq<Seq<(Seq<char>, ValueView)>> {
    let common = with_exemplars(
        point_common(base, dp.attributes@, dp.time_unix_nano, dp.start_time_unix_nano, dp.flags),
        dp.exemplars@,
    );
    let nm = name_text(common);
    seq![
        named_value_row(common, nm.add("_count"@), ScalarView::Uint(dp.count as int)),
        named_value_row(common, nm.add("_sum"@), float_scalar_opt(dp.sum)),
        named_value_row(common, nm.add("_min"@), float_scalar_opt(dp.min)),
        named_value_row(common, nm.add("_max"@), float_scalar_opt(dp.max)),
    ].add(hist_bucket_rows(common, nm.add("_bucket"@), dp.bucket_counts@, dp.explicit_bounds@, 0))
}

/// Every row given its fingerprint.
pub open spec fn hashed_rows(
    rs: Seq<Seq<(Seq<char>, ValueView)>>,
    excl: Seq<Seq<char>>,
) -> Seq<Seq<(Seq<char>, ValueView)>> {
    Seq::new(rs.len(), |i: int| with_hash(rs[i], excl))
}

/// The histogram rows from the tagged base, one data point after another.
pub open spec fn hist_rows_from(
    tagged: Seq<(Seq<char>, ValueView)>,
    dps: Seq<HistogramPoint>,
    excl: Seq<Seq<char>>,
) -> Seq<Seq<(Seq<char>, ValueView)>>
    decreases dps.len(),
{
    if dps.len() == 0 {
        Seq::<Seq<(Seq<char>, ValueView)>>::empty()
    } else {
        hashed_rows(hist_point_rows_raw(tagged, dps[0]), excl).add(
            hist_rows_from(tagged, dps.drop_first(), excl),
        )
    }
}

/// The histogram rows: the base is tagged with the aggregation temporality,
/// then every data point contributes its derived rows.
pub open spec fn hist_rows(
    base: Seq<(Seq<char>, ValueView)>,
    temporality: int,
    dps: Seq<HistogramPoint>,
    excl: Seq<Seq<char>>,
) -> Seq<Seq<(Seq<char>, ValueView)>> {
    hist_rows_from(
        store(
            base,
            "aggregation_temporality"@,
            ValueView::Scalar(ScalarView::Str(temporality_text(temporality))),
        ),
        dps,
        excl,
    )
}

/// A value clamped into the 32-bit signed range.
pub open spec fn clamp_i32(n: int) -> int {
    if n < -0x80000000 {
        -0x80000000
    } else if n > 0x7fffffff {
        0x7fffffff
    } else {
        n
    }
}

/// One exponential bucket row: the suffixed name, the bucket's own count,
/// and the upper boundary `base ^ (offset + i + 1)` with
/// `base = 2 ^ (2 ^ -scale)`, the index clamped into 32 bits.
pub open spec fn exp_bucket_row(
    common: Seq<(Seq<char>, ValueView)>,
    name: Seq<char>,
    scale: i32,
    offset: i32,
    counts: Seq<u64>,
    i: int,
) -> Seq<(Seq<char>, ValueView)> {
    let idx = if i < 0x7fffffff {
        i
    } else {
        0x7fffffff
    };
    store(
        store(
            store(common, "__name__"@, ValueView::Scalar(ScalarView::Str(name))),
            "value"@,
            ValueView::Scalar(ScalarView::Uint(counts[i] as int)),
        ),
        "le"@,
        ValueView::Scalar(
            ScalarView::Str(
                exp_le_text(clamp_i32(-(scale as int)), clamp_i32(offset as int + idx + 1)),
            ),
        ),
    )
}

/// The exponential bucket rows of one side, from position `i` on.
pub open spec fn exp_bucket_rows(
    common: Seq<(Seq<char>, ValueView)>,
    name: Seq<char>,
    scale: i32,
    offset: i32,
    counts: Seq<u64>,
    i: int,
) -> Seq<Seq<(Seq<char>, ValueView)>>
    decreases counts.len() - i,
{
    if i < 0 || i >= counts.len() {
        Seq::<Seq<(Seq<char>, ValueView)>>::empty()
    } else {
        seq![exp_bucket_row(common, name, scale, offset, counts, i)].add(
            exp_bucket_rows(common, name, scale, offset, counts, i + 1),
        )
    }
}

/// The rows of one exponential-histogram data point, before hashing: a
/// `_count` and `_sum` row, then one `_bucket` row per populated negative
/// bucket and per populated positive bucket.
pub open spec fn exp_point_rows_raw(
    base: Seq<(Seq<char>, ValueView)>,
    dp: ExpHistogramPoint,
) -> Seq<Seq<(Seq<char>, ValueView)>> {
    let common = with_exemplars(
        point_common(base, dp.attributes@, dp.time_unix_nano, dp.start_time_unix_nano, dp.flags),
        dp.exemplars@,
    );
    let nm = name_text(common);
    let neg = match dp.negative {
        Some(b) => exp_bucket_rows(common, nm.add("_bucket"@), dp.scale, b.offset, b.bucket_counts@, 0),
        None => Seq::<Seq<(Seq<char>, ValueView)>>::empty(),
    };
    let pos = match dp.positive {
        Some(b) => exp_bucket_rows(common, nm.add("_bucket"@), dp.scale, b.offset, b.bucket_counts@, 0),
        None => Seq::<Seq<(Seq<char>, ValueView)>>::empty(),
    };
    seq![
        named_value_row(common, nm.add("_count"@), ScalarView::Uint(dp.count as int)),
        named_value_row(common, nm.add("_sum"@), float_scalar_opt(dp.sum)),
    ].add(neg).add(pos)
}

/// The exponential-histogram rows from the tagged base.
pub open spec fn exp_rows_from(
    tagged: Seq<(Seq<char>, ValueView)>,
    dps: Seq<ExpHistogramPoint>,
    excl: Seq<Seq<char>>,
) -> Seq<Seq<(Seq<char>, ValueView)>>
    decreases dps.len(),
{
    if dps.len() == 0 {
        Seq::<Seq<(Seq<char>, ValueView)>>::empty()
    } else {
        hashed_rows(exp_point_rows_raw(tagged, dps[0]), excl).add(
            exp_rows_from(tagged, dps.drop_first(), excl),
        )
    }
}

/// The exponential-histogram rows: temporality tagged, then per-point rows.
pub open spec fn exp_rows(
    base: Seq<(Seq<char>, ValueView)>,
    temporality: int,
    dps: Seq<ExpHistogramPoint>,
    excl: Seq<Seq<char>>,
) -> Seq<Seq<(Seq<char>, ValueView)>> {
    exp_rows_from(
        store(
            base,
            "aggregation_temporality"@,
            ValueView::Scalar(ScalarView::Str(temporality_text(temporality))),
        ),
        dps,
        excl,
    )
}

/// One quantile row: the quantile's value, and the quantile itself as text.
pub open spec fn quantile_row(
    common: Seq<(Seq<char>, ValueView)>,
    q: QuantileValue,
) -> Seq<(Seq<char>, ValueView)> {
    store(
        store(
            common,
            "value"@,
            ValueView::Scalar(ScalarView::Float { bits: q.value.bits, text: q.value.text@ }),
        ),
        "quantile"@,
        ValueView::Scalar(ScalarView::Str(q.quantile.text@)),
    )
}

/// The quantile rows from position `i` on.
pub open spec fn quantile_rows(
    common: Seq<(Seq<char>, ValueView)>,
    qs: Seq<QuantileValue>,
    i: int,
) -> Seq<Seq<(Seq<char>, ValueView)>>
    decreases qs.len() - i,
{
    if i < 0 || i >= qs.len() {
        Seq::<Seq<(Seq<char>, ValueView)>>::empty()
    } else {
        seq![quantile_row(common, qs[i])].add(quantile_rows(common, qs, i + 1))
    }
}

/// The rows of one summary data point, before hashing: a `_count` and `_sum`
/// row, then one row per reported quantile.  Summaries carry no exemplars.
pub open spec fn summary_point_rows_raw(
    base: Seq<(Seq<char>, ValueView)>,
    dp: SummaryPoint,
) -> Seq<Seq<(Seq<char>, ValueView)>> {
    let common = point_common(
        base,
        dp.attributes@,
        dp.time_unix_nano,
        dp.start_time_unix_nano,
        dp.flags,
    );
    let nm = name_text(common);
    seq![
        named_value_row(common, nm.add("_count"@), ScalarView::Uint(dp.count as int)),
        named_value_row(
            common,
            nm.add("_sum"@),
            ScalarView::Float { bits: dp.sum.bits, text: dp.sum.text@ },
        ),
    ].add(quantile_rows(common, dp.quantile_values@, 0))
}

/// The summary rows: one data point after another, no temporality tag.
pub open spec fn summary_rows(
    base: Seq<(Seq<char>, ValueView)>,
    dps: Seq<SummaryPoint>,
    excl: Seq<Seq<char>>,
) -> Seq<Seq<(Seq<char>, ValueView)>>
    decreases dps.len(),
{
    if dps.len() == 0 {
        Seq::<Seq<(Seq<char>, ValueView)>>::empty()
    } else {
        hashed_rows(summary_point_rows_raw(base, dps[0]), excl).add(
            summary_rows(base, dps.drop_first(), excl),
        )
    }
}


proof fn lemma_rows_view_concat(a: Seq<Record>, b: Seq<Record>)
    ensures
        rows_view(a.add(b)) == rows_view(a).add(rows_view(b)),
{
    lemma_rows_view(a);
    lemma_rows_view(b);
    lemma_rows_view(a.add(b));
    assert(rows_view(a.add(b)) =~= rows_view(a).add(rows_view(b)));
}

/// Applies the common columns of a histogram, exponential-histogram or
/// summary data point.
pub fn apply_point_common(
    rec: Record,
    attrs: &Vec<Attribute>,
    time_unix_nano: u64,
    start_time_unix_nano: u64,
    flags: u32,
) -> (r: Record)
    requires
        rec.wf(),
    ensures
        r@ == point_common(rec@, attrs@, time_unix_nano, start_time_unix_nano, flags),
        r.wf(),
{
    let rec1 = apply_attributes(rec, attrs, true);
    let mut rec = rec1;
    rec.set(
        String::from_str("_timestamp"),
        RecordValue::Scalar(ScalarValue::Uint(time_unix_nano / 1000)),
    );
    rec.set(
        String::from_str("start_time"),
        RecordValue::Scalar(ScalarValue::Str(u64_to_string(start_time_unix_nano))),
    );
    let flag: &str = if flags == 1 {
        "DATA_POINT_FLAGS_NO_RECORDED_VALUE_MASK"
    } else {
        "DATA_POINT_FLAGS_DO_NOT_USE"
    };
    rec.set(String::from_str("flag"), RecordValue::Scalar(ScalarValue::Str(String::from_str(flag))));
    rec
}

/// Adds the flattened exemplar list as the `exemplars` column.
pub fn apply_exemplars_col(rec: Record, xs: &Vec<ExemplarData>) -> (r: Record)
    requires
        rec.wf(),
    ensures
        r@ == with_exemplars(rec@, xs@),
        r.wf(),
{
    let mut rec = rec;
    rec.set(String::from_str("exemplars"), RecordValue::Exemplars(build_exemplars(xs)));
    rec
}

/// The metric family name the record carries, or empty when it has none.
pub fn get_name(rec: &Record) -> (r: String)
    ensures
        r@ == name_text(rec@),
{
    match rec.get("__name__") {
        Some(v) => match v {
            RecordValue::Scalar(sv) => match sv {
                ScalarValue::Str(s) => s.clone(),
                _ => String::new(),
            },
            _ => String::new(),
        },
        None => String::new(),
    }
}

/// An optional float as a column value: null when absent.
fn opt_float_scalar(v: &Option<FloatVal>) -> (r: ScalarValue)
    ensures
        r@ == float_scalar_opt(*v),
{
    match v {
        Some(f) => ScalarValue::Float { bits: f.bits, text: f.text.clone() },
        None => ScalarValue::Null,
    }
}

/// Builds a `_count`/`_sum`/`_min`/`_max` style row: the value column, then
/// the suffixed family name.
fn make_named_value_row(common: &Record, suffix: &str, value: ScalarValue) -> (r: Record)
    requires
        common.wf(),
    ensures
        r@ == named_value_row(common@, name_text(common@).add(suffix@), value@),
        r.wf(),
{
    let nm = get_name(common).concat(suffix);
    let mut r = common.duplicate();
    r.set(String::from_str("value"), RecordValue::Scalar(value));
    r.set(String::from_str("__name__"), RecordValue::Scalar(ScalarValue::Str(nm)));
    r
}

/// Gives every row its content fingerprint.
#[verifier::loop_isolation(false)]
pub fn hash_rows(rows: Vec<Record>, excl: &Vec<String>) -> (r: Vec<Record>)
    requires
        rows_wf(rows@),
    ensures
        rows_view(r@) == hashed_rows(rows_view(rows@), strings_view(excl@)),
        rows_wf(r@),
        r@.len() == rows@.len(),
{
    let ghost ex = strings_view(excl@);
    let mut r: Vec<Record> = Vec::new();
    let n = rows.len();
    let mut i: usize = 0;
    while i < n
        invariant
            n == rows.len(),
            i <= n,
            r@.len() == i,
            rows_wf(r@),
            forall|j: int| 0 <= j < i ==> #[trigger] r@[j]@ == with_hash(rows@[j]@, ex),
        decreases n - i,
    {
        proof {
            assert(rows@[i as int].wf());
        }
        r.push(add_hash(rows[i].duplicate(), excl));
        i += 1;
    }
    proof {
        lemma_rows_view(r@);
        lemma_rows_view(rows@);
        assert(rows_view(r@) =~= hashed_rows(rows_view(rows@), ex));
    }
    r
}

/// Flattens one histogram data point into its derived rows, before hashing:
/// `_count`, `_sum`, `_min`, `_max`, then exactly one `_bucket` row per
/// explicit bound, with the cumulative count and the bound as `le`.
#[verifier::loop_isolation(false)]
pub fn process_hist_data_point(base: Record, dp: &HistogramPoint) -> (rows: Vec<Record>)
    requires
        base.wf(),
    ensures
        rows_view(rows@) == hist_point_rows_raw(base@, *dp),
        rows_wf(rows@),
        rows@.len() == 4 + dp.explicit_bounds@.len(),
{
    let ghost b0 = base@;
    let c1 = apply_point_common(base, &dp.attributes, dp.time_unix_nano, dp.start_time_unix_nano, dp.flags);
    let common = apply_exemplars_col(c1, &dp.exemplars);
    let ghost cm = common@;
    let ghost nm = name_text(cm);
    let mut rows: Vec<Record> = Vec::new();
    rows.push(make_named_value_row(&common, "_count", ScalarValue::Uint(dp.count)));
    rows.push(make_named_value_row(&common, "_sum", opt_float_scalar(&dp.sum)));
    rows.push(make_named_value_row(&common, "_min", opt_float_scalar(&dp.min)));
    rows.push(make_named_value_row(&common, "_max", opt_float_scalar(&dp.max)));
    let ghost first4 = rows_view(rows@);
    proof {
        lemma_rows_view(rows@);
        assert(first4 =~= hist_point_rows_raw(b0, *dp).take(4));
    }
    let bucket_name = get_name(&common).concat("_bucket");
    let ghost nmb = nm.add("_bucket"@);
    let ghost counts = dp.bucket_counts@;
    let ghost bounds = dp.explicit_bounds@;
    let mut acc: u64 = 0;
    let nb = dp.explicit_bounds.len();
    let mut i: usize = 0;
    while i < nb
        invariant
            nb == bounds.len(),
            i <= nb,
            rows@.len() == 4 + i,
            rows_wf(rows@),
            acc == cum_counts(counts, if i <= counts.len() { i as int } else { counts.len() as int }),
            first4.add(hist_bucket_rows(cm, nmb, counts, bounds, 0)) == rows_view(rows@).add(
                hist_bucket_rows(cm, nmb, counts, bounds, i as int),
            ),
        decreases nb - i,
    {
        if i < dp.bucket_counts.len() {
            acc = acc.wrapping_add(dp.bucket_counts[i]);
        }
        let mut row = common.duplicate();
        row.set(String::from_str("__name__"), RecordValue::Scalar(ScalarValue::Str(bucket_name.clone())));
        row.set(
            String::from_str("le"),
            RecordValue::Scalar(ScalarValue::Str(dp.explicit_bounds[i].text.clone())),
        );
        row.set(String::from_str("value"), RecordValue::Scalar(ScalarValue::Uint(acc)));
        let ghost pre = rows@;
        rows.push(row);
        proof {
            lemma_rows_view(rows@);
            lemma_rows_view(pre);
            assert(rows@.drop_last() =~= pre);
            assert(rows_view(rows@) =~= rows_view(pre).push(rows@.last()@));
            assert(rows@.last()@ == hist_bucket_row(cm, nmb, counts, bounds, i as int));
            assert(hist_bucket_rows(cm, nmb, counts, bounds, i as int) =~= seq![
                hist_bucket_row(cm, nmb, counts, bounds, i as int),
            ].add(hist_bucket_rows(cm, nmb, counts, bounds, i as int + 1)));
            assert(rows_view(rows@).add(hist_bucket_rows(cm, nmb, counts, bounds, i as int + 1))
                =~= rows_view(pre).add(hist_bucket_rows(cm, nmb, counts, bounds, i as int)));
        }
        i += 1;
    }
    proof {
        assert(hist_bucket_rows(cm, nmb, counts, bounds, nb as int) =~= Seq::<
            Seq<(Seq<char>, ValueView)>,
        >::empty());
        assert(rows_view(rows@) =~= first4.add(hist_bucket_rows(cm, nmb, counts, bounds, 0)));
        assert(rows_view(rows@) =~= hist_point_rows_raw(b0, *dp));
    }
    rows
}

/// Flattens a histogram: temporality tagged on the base, then every data
/// point's derived rows, each row fingerprinted.
#[verifier::loop_isolation(false)]
pub fn process_histogram(
    base: &Record,
    dps: &Vec<HistogramPoint>,
    temporality: i32,
    excl: &Vec<String>,
) -> (rows: Vec<Record>)
    requires
        base.wf(),
    ensures
        rows_view(rows@) == hist_rows(base@, temporality as int, dps@, strings_view(excl@)),
        rows_wf(rows@),
{
    let ghost ex = strings_view(excl@);
    let tagged = apply_temporality(base.duplicate(), temporality);
    let ghost tg = tagged@;
    let mut rows: Vec<Record> = Vec::new();
    let n = dps.len();
    let mut i: usize = 0;
    proof {
        lemma_rows_view(rows@);
        assert(dps@.skip(0) =~= dps@);
        assert(rows_view(rows@) =~= Seq::<Seq<(Seq<char>, ValueView)>>::empty());
    }
    while i < n
        invariant
            n == dps.len(),
            i <= n,
            rows_wf(rows@),
            hist_rows_from(tg, dps@, ex) == rows_view(rows@).add(
                hist_rows_from(tg, dps@.skip(i as int), ex),
            ),
        decreases n - i,
    {
        proof {
            assert(dps@.skip(i as int)[0] == dps@[i as int]);
            assert(dps@.skip(i as int).drop_first() =~= dps@.skip(i as int + 1));
        }
        let pr = process_hist_data_point(tagged.duplicate(), &dps[i]);
        let mut hr = hash_rows(pr, excl);
        let ghost pre = rows@;
        let ghost hrv = hr@;
        rows.append(&mut hr);
        proof {
            assert(rows@ == pre.add(hrv));
            lemma_rows_view_concat(pre, hrv);
            assert(rows_view(rows@).add(hist_rows_from(tg, dps@.skip(i as int + 1), ex))
                =~= rows_view(pre).add(hist_rows_from(tg, dps@.skip(i as int), ex)));
        }
        i += 1;
    }
    proof {
        assert(dps@.skip(n as int) =~= Seq::<HistogramPoint>::empty());
        assert(rows_view(rows@).add(hist_rows_from(tg, dps@.skip(n as int), ex)) =~= rows_view(
            rows@,
        ));
    }
    rows
}

/// The negated scale, clamped into 32 bits.
fn neg_clamped(scale: i32) -> (r: i32)
    ensures
        r as int == clamp_i32(-(scale as int)),
{
    let min_i32: i32 = -2147483647 - 1;
    if scale == min_i32 {
        2147483647
    } else {
        -scale
    }
}

/// Clamps a 64-bit value into the 32-bit signed range.
fn clamp64_to_i32(n: i64) -> (r: i32)
    ensures
        r as int == clamp_i32(n as int),
{
    if n > 2147483647 {
        2147483647
    } else if n < -2147483647 - 1 {
        -2147483647 - 1
    } else {
        n as i32
    }
}

/// The bucket rows of one side of an exponential histogram.
#[verifier::loop_isolation(false)]
fn exp_side_rows(common: &Record, bucket_name: &String, scale: i32, side: &ExpBuckets) -> (rows:
    Vec<Record>)
    requires
        common.wf(),
        bucket_name@ == name_text(common@).add("_bucket"@),
    ensures
        rows_view(rows@) == exp_bucket_rows(
            common@,
            name_text(common@).add("_bucket"@),
            scale,
            side.offset,
            side.bucket_counts@,
            0,
        ),
        rows_wf(rows@),
{
    let ghost cm = common@;
    let ghost nmb = name_text(cm).add("_bucket"@);
    let ghost counts = side.bucket_counts@;
    let ns = neg_clamped(scale);
    let mut rows: Vec<Record> = Vec::new();
    let n = side.bucket_counts.len();
    let mut i: usize = 0;
    let mut ki: i32 = 0;
    proof {
        lemma_rows_view(rows@);
        assert(rows_view(rows@) =~= Seq::<Seq<(Seq<char>, ValueView)>>::empty());
    }
    while i < n
        invariant
            n == counts.len(),
            i <= n,
            rows_wf(rows@),
            ki as int == if i < 0x7fffffff {
                i as int
            } else {
                0x7fffffff
            },
            exp_bucket_rows(cm, nmb, scale, side.offset, counts, 0) == rows_view(rows@).add(
                exp_bucket_rows(cm, nmb, scale, side.offset, counts, i as int),
            ),
        decreases n - i,
    {
        let k = clamp64_to_i32(side.offset as i64 + ki as i64 + 1);
        let le = crate::codec::exp_bucket_le(ns, k);
        let mut row = common.duplicate();
        row.set(String::from_str("__name__"), RecordValue::Scalar(ScalarValue::Str(bucket_name.clone())));
        row.set(
            String::from_str("value"),
            RecordValue::Scalar(ScalarValue::Uint(side.bucket_counts[i])),
        );
        row.set(String::from_str("le"), RecordValue::Scalar(ScalarValue::Str(le)));
        let ghost pre = rows@;
        rows.push(row);
        proof {
            lemma_rows_view(rows@);
            lemma_rows_view(pre);
            assert(rows@.drop_last() =~= pre);
            assert(rows_view(rows@) =~= rows_view(pre).push(rows@.last()@));
            assert(rows@.last()@ == exp_bucket_row(cm, nmb, scale, side.offset, counts, i as int));
            assert(exp_bucket_rows(cm, nmb, scale, side.offset, counts, i as int) =~= seq![
                exp_bucket_row(cm, nmb, scale, side.offset, counts, i as int),
            ].add(exp_bucket_rows(cm, nmb, scale, side.offset, counts, i as int + 1)));
            assert(rows_view(rows@).add(
                exp_bucket_rows(cm, nmb, scale, side.offset, counts, i as int + 1),
            ) =~= rows_view(pre).add(exp_bucket_rows(cm, nmb, scale, side.offset, counts, i as int)));
        }
        if ki < 2147483647 {
            ki = ki + 1;
        }
        i += 1;
    }
    proof {
        assert(exp_bucket_rows(cm, nmb, scale, side.offset, counts, n as int) =~= Seq::<
            Seq<(Seq<char>, ValueView)>,
        >::empty());
        assert(rows_view(rows@).add(exp_bucket_rows(cm, nmb, scale, side.offset, counts, n as int))
            =~= rows_view(rows@));
    }
    rows
}

/// Flattens one exponential-histogram data point, before hashing: `_count`
/// and `_sum` rows, then the negative-side and positive-side bucket rows.
pub fn process_exp_hist_data_point(base: Record, dp: &ExpHistogramPoint) -> (rows: Vec<Record>)
    requires
        base.wf(),
    ensures
        rows_view(rows@) == exp_point_rows_raw(base@, *dp),
        rows_wf(rows@),
{
    let ghost b0 = base@;
    let c1 = apply_point_common(base, &dp.attributes, dp.time_unix_nano, dp.start_time_unix_nano, dp.flags);
    let common = apply_exemplars_col(c1, &dp.exemplars);
    let ghost cm = common@;
    let ghost nm = name_text(cm);
    let mut rows: Vec<Record> = Vec::new();
    rows.push(make_named_value_row(&common, "_count", ScalarValue::Uint(dp.count)));
    rows.push(make_named_value_row(&common, "_sum", opt_float_scalar(&dp.sum)));
    let ghost first2 = rows_view(rows@);
    proof {
        lemma_rows_view(rows@);
    }
    let bucket_name = get_name(&common).concat("_bucket");
    match &dp.negative {
        Some(b) => {
            let mut v = exp_side_rows(&common, &bucket_name, dp.scale, b);
            let ghost pre = rows@;
            let ghost vv = v@;
            rows.append(&mut v);
            proof {
                lemma_rows_view_concat(pre, vv);
            }
        },
        None => {},
    }
    match &dp.positive {
        Some(b) => {
            let mut v = exp_side_rows(&common, &bucket_name, dp.scale, b);
            let ghost pre = rows@;
            let ghost vv = v@;
            rows.append(&mut v);
            proof {
                lemma_rows_view_concat(pre, vv);
            }
        },
        None => {},
    }
    proof {
        assert(rows_view(rows@) =~= exp_point_rows_raw(b0, *dp));
    }
    rows
}

/// Flattens an exponential histogram: temporality tagged, then every data
/// point's derived rows, each row fingerprinted.
#[verifier::loop_isolation(false)]
pub fn process_exponential_histogram(
    base: &Record,
    dps: &Vec<ExpHistogramPoint>,
    temporality: i32,
    excl: &Vec<String>,
) -> (rows: Vec<Record>)
    requires
        base.wf(),
    ensures
        rows_view(rows@) == exp_rows(base@, temporality as int, dps@, strings_view(excl@)),
        rows_wf(rows@),
{
    let ghost ex = strings_view(excl@);
    let tagged = apply_temporality(base.duplicate(), temporality);
    let ghost tg = tagged@;
    let mut rows: Vec<Record> = Vec::new();
    let n = dps.len();
    let mut i: usize = 0;
    proof {
        lemma_rows_view(rows@);
        assert(dps@.skip(0) =~= dps@);
        assert(rows_view(rows@) =~= Seq::<Seq<(Seq<char>, ValueView)>>::empty());
    }
    while i < n
        invariant
            n == dps.len(),
            i <= n,
            rows_wf(rows@),
            exp_rows_from(tg, dps@, ex) == rows_view(rows@).add(
                exp_rows_from(tg, dps@.skip(i as int), ex),
            ),
        decreases n - i,
    {
        proof {
            assert(dps@.skip(i as int)[0] == dps@[i as int]);
            assert(dps@.skip(i as int).drop_first() =~= dps@.skip(i as int + 1));
        }
        let pr = process_exp_hist_data_point(tagged.duplicate(), &dps[i]);
        let mut hr = hash_rows(pr, excl);
        let ghost pre = rows@;
        let ghost hrv = hr@;
        rows.append(&mut hr);
        proof {
            lemma_rows_view_concat(pre, hrv);
            assert(rows_view(rows@).add(exp_rows_from(tg, dps@.skip(i as int + 1), ex))
                =~= rows_view(pre).add(exp_rows_from(tg, dps@.skip(i as int), ex)));
        }
        i += 1;
    }
    proof {
        assert(dps@.skip(n as int) =~= Seq::<ExpHistogramPoint>::empty());
        assert(rows_view(rows@).add(exp_rows_from(tg, dps@.skip(n as int), ex)) =~= rows_view(
            rows@,
        ));
    }
    rows
}

/// Flattens one summary data point, before hashing: `_count` and `_sum`
/// rows, then one row per reported quantile.
#[verifier::loop_isolation(false)]
pub fn process_summary_data_point(base: Record, dp: &SummaryPoint) -> (rows: Vec<Record>)
    requires
        base.wf(),
    ensures
        rows_view(rows@) == summary_point_rows_raw(base@, *dp),
        rows_wf(rows@),
{
    let ghost b0 = base@;
    let common = apply_point_common(
        base,
        &dp.attributes,
        dp.time_unix_nano,
        dp.start_time_unix_nano,
        dp.flags,
    );
    let ghost cm = common@;
    let ghost qs = dp.quantile_values@;
    let mut rows: Vec<Record> = Vec::new();
    rows.push(make_named_value_row(&common, "_count", ScalarValue::Uint(dp.count)));
    rows.push(
        make_named_value_row(
            &common,
            "_sum",
            ScalarValue::Float { bits: dp.sum.bits, text: dp.sum.text.clone() },
        ),
    );
    let ghost first2 = rows_view(rows@);
    proof {
        lemma_rows_view(rows@);
        assert(first2 =~= summary_point_rows_raw(b0, *dp).take(2));
    }
    let nq = dp.quantile_values.len();
    let mut i: usize = 0;
    while i < nq
        invariant
            nq == qs.len(),
            i <= nq,
            rows@.len() == 2 + i,
            rows_wf(rows@),
            first2.add(quantile_rows(cm, qs, 0)) == rows_view(rows@).add(
                quantile_rows(cm, qs, i as int),
            ),
        decreases nq - i,
    {
        let mut row = common.duplicate();
        row.set(
            String::from_str("value"),
            RecordValue::Scalar(
                ScalarValue::Float {
                    bits: dp.quantile_values[i].value.bits,
                    text: dp.quantile_values[i].value.text.clone(),
                },
            ),
        );
        row.set(
            String::from_str("quantile"),
            RecordValue::Scalar(ScalarValue::Str(dp.quantile_values[i].quantile.text.clone())),
        );
        let ghost pre = rows@;
        rows.push(row);
        proof {
            lemma_rows_view(rows@);
            lemma_rows_view(pre);
            assert(rows@.drop_last() =~= pre);
            assert(rows_view(rows@) =~= rows_view(pre).push(rows@.last()@));
            assert(rows@.last()@ == quantile_row(cm, qs[i as int]));
            assert(quantile_rows(cm, qs, i as int) =~= seq![quantile_row(cm, qs[i as int])].add(
                quantile_rows(cm, qs, i as int + 1),
            ));
            assert(rows_view(rows@).add(quantile_rows(cm, qs, i as int + 1)) =~= rows_view(
                pre,
            ).add(quantile_rows(cm, qs, i as int)));
        }
        i += 1;
    }
    proof {
        assert(quantile_rows(cm, qs, nq as int) =~= Seq::<Seq<(Seq<char>, ValueView)>>::empty());
        assert(rows_view(rows@) =~= first2.add(quantile_rows(cm, qs, 0)));
        assert(rows_view(rows@) =~= summary_point_rows_raw(b0, *dp));
    }
    rows
}

/// Flattens a summary: no temporality tag, every data point's derived rows,
/// each row fingerprinted.
#[verifier::loop_isolation(false)]
pub fn process_summary(base: &Record, dps: &Vec<SummaryPoint>, excl: &Vec<String>) -> (rows: Vec<
    Record,
>)
    requires
        base.wf(),
    ensures
        rows_view(rows@) == summary_rows(base@, dps@, strings_view(excl@)),
        rows_wf(rows@),
{
    let ghost ex = strings_view(excl@);
    let ghost b0 = base@;
    let mut rows: Vec<Record> = Vec::new();
    let n = dps.len();
    let mut i: usize = 0;
    proof {
        lemma_rows_view(rows@);
        assert(dps@.skip(0) =~= dps@);
        assert(rows_view(rows@) =~= Seq::<Seq<(Seq<char>, ValueView)>>::empty());
    }
    while i < n
        invariant
            n == dps.len(),
            i <= n,
            rows_wf(rows@),
            summary_rows(b0, dps@, ex) == rows_view(rows@).add(
                summary_rows(b0, dps@.skip(i as int), ex),
            ),
        decreases n - i,
    {
        proof {
            assert(dps@.skip(i as int)[0] == dps@[i as int]);
            assert(dps@.skip(i as int).drop_first() =~= dps@.skip(i as int + 1));
        }
        let pr = process_summary_data_point(base.duplicate(), &dps[i]);
        let mut hr = hash_rows(pr, excl);
        let ghost pre = rows@;
        let ghost hrv = hr@;
        rows.append(&mut hr);
        proof {
            lemma_rows_view_concat(pre, hrv);
            assert(rows_view(rows@).add(summary_rows(b0, dps@.skip(i as int + 1), ex))
                =~= rows_view(pre).add(summary_rows(b0, dps@.skip(i as int), ex)));
        }
        i += 1;
    }
    proof {
        assert(dps@.skip(n as int) =~= Seq::<SummaryPoint>::empty());
        assert(rows_view(rows@).add(summary_rows(b0, dps@.skip(n as int), ex)) =~= rows_view(
            rows@,
        ));
    }
    rows
}


/// The base record of one metric: resource attributes as labels, the scope
/// identifying fields, and the normalized metric name.
pub open spec fn metric_base(
    resource_attrs: Seq<Attribute>,
    scope: Option<Scope>,
    name: Seq<char>,
) -> Seq<(Seq<char>, ValueView)> {
    let a = apply_attrs(Seq::<(Seq<char>, ValueView)>::empty(), resource_attrs, true);
    let b = match scope {
        Some(sc) => store(
            store(
                a,
                "instrumentation_library_name"@,
                ValueView::Scalar(ScalarView::Str(sc.name@)),
            ),
            "instrumentation_library_version"@,
            ValueView::Scalar(ScalarView::Str(sc.version@)),
        ),
        None => a,
    };
    store(b, "__name__"@, ValueView::Scalar(ScalarView::Str(name)))
}

/// The family type a metric's shape determines.
pub open spec fn metric_type_of(data: Option<MetricData>) -> MetricType {
    match data {
        None => MetricType::Unknown,
        Some(d) => match d {
            MetricData::Gauge { .. } => MetricType::Gauge,
            MetricData::Sum { .. } => MetricType::Counter,
            MetricData::Histogram { .. } => MetricType::Histogram,
            MetricData::ExponentialHistogram { .. } => MetricType::ExponentialHistogram,
            MetricData::Summary { .. } => MetricType::Summary,
        },
    }
}

/// All rows of one metric, by its shape.
pub open spec fn metric_rows(
    resource_attrs: Seq<Attribute>,
    scope: Option<Scope>,
    m: MetricFamily,
    excl: Seq<Seq<char>>,
) -> Seq<Seq<(Seq<char>, ValueView)>> {
    let base = metric_base(resource_attrs, scope, sanitize_str(m.name@));
    match m.data {
        None => Seq::<Seq<(Seq<char>, ValueView)>>::empty(),
        Some(d) => match d {
            MetricData::Gauge { data_points } => gauge_rows(base, data_points@, excl),
            MetricData::Sum { data_points, aggregation_temporality, is_monotonic } => sum_rows(
                base,
                aggregation_temporality as int,
                is_monotonic,
                data_points@,
                excl,
            ),
            MetricData::Histogram { data_points, aggregation_temporality } => hist_rows(
                base,
                aggregation_temporality as int,
                data_points@,
                excl,
            ),
            MetricData::ExponentialHistogram { data_points, aggregation_temporality } => exp_rows(
                base,
                aggregation_temporality as int,
                data_points@,
                excl,
            ),
            MetricData::Summary { data_points } => summary_rows(base, data_points@, excl),
        },
    }
}

/// The destination stream of a finished row: its own normalized name, which
/// for derived rows differs from the family's stream.
pub open spec fn row_stream(row: Seq<(Seq<char>, ValueView)>) -> Seq<char> {
    sanitize_str(name_text(row))
}

/// Rows tagged with their destination streams.
pub open spec fn tagged_rows(rows: Seq<Seq<(Seq<char>, ValueView)>>) -> Seq<
    (Seq<char>, Seq<(Seq<char>, ValueView)>),
> {
    Seq::new(rows.len(), |i: int| (row_stream(rows[i]), rows[i]))
}

/// The family metadata of one metric, in specification form: normalized
/// family name, type, help text and unit.
pub open spec fn metric_meta_view(m: MetricFamily) -> (Seq<char>, MetricType, Seq<char>, Seq<char>) {
    (sanitize_str(m.name@), metric_type_of(m.data), m.description@, m.unit@)
}

/// The tagged rows of a metric list.
pub open spec fn metrics_tagged(
    resource_attrs: Seq<Attribute>,
    scope: Option<Scope>,
    ms: Seq<MetricFamily>,
    excl: Seq<Seq<char>>,
) -> Seq<(Seq<char>, Seq<(Seq<char>, ValueView)>)>
    decreases ms.len(),
{
    if ms.len() == 0 {
        Seq::<(Seq<char>, Seq<(Seq<char>, ValueView)>)>::empty()
    } else {
        tagged_rows(metric_rows(resource_attrs, scope, ms[0], excl)).add(
            metrics_tagged(resource_attrs, scope, ms.drop_first(), excl),
        )
    }
}

/// The family metadata of a metric list, one entry per metric.
pub open spec fn metrics_metas(ms: Seq<MetricFamily>) -> Seq<(Seq<char>, MetricType, Seq<char>, Seq<char>)>
    decreases ms.len(),
{
    if ms.len() == 0 {
        Seq::<(Seq<char>, MetricType, Seq<char>, Seq<char>)>::empty()
    } else {
        seq![metric_meta_view(ms[0])].add(metrics_metas(ms.drop_first()))
    }
}

/// The tagged rows of one resource's scope list.
pub open spec fn scopes_tagged(
    resource_attrs: Seq<Attribute>,
    ss: Seq<ScopeGroup>,
    excl: Seq<Seq<char>>,
) -> Seq<(Seq<char>, Seq<(Seq<char>, ValueView)>)>
    decreases ss.len(),
{
    if ss.len() == 0 {
        Seq::<(Seq<char>, Seq<(Seq<char>, ValueView)>)>::empty()
    } else {
        metrics_tagged(resource_attrs, ss[0].scope, ss[0].metrics@, excl).add(
            scopes_tagged(resource_attrs, ss.drop_first(), excl),
        )
    }
}

/// The family metadata of one resource's scope list.
pub open spec fn scopes_metas(ss: Seq<ScopeGroup>) -> Seq<
    (Seq<char>, MetricType, Seq<char>, Seq<char>),
>
    decreases ss.len(),
{
    if ss.len() == 0 {
        Seq::<(Seq<char>, MetricType, Seq<char>, Seq<char>)>::empty()
    } else {
        metrics_metas(ss[0].metrics@).add(scopes_metas(ss.drop_first()))
    }
}

/// The tagged rows of a resource list.
pub open spec fn resources_tagged(rs: Seq<ResourceGroup>, excl: Seq<Seq<char>>) -> Seq<
    (Seq<char>, Seq<(Seq<char>, ValueView)>),
>
    decreases rs.len(),
{
    if rs.len() == 0 {
        Seq::<(Seq<char>, Seq<(Seq<char>, ValueView)>)>::empty()
    } else {
        scopes_tagged(rs[0].resource_attributes@, rs[0].scope_metrics@, excl).add(
            resources_tagged(rs.drop_first(), excl),
        )
    }
}

/// The family metadata of a resource list.
pub open spec fn resources_metas(rs: Seq<ResourceGroup>) -> Seq<
    (Seq<char>, MetricType, Seq<char>, Seq<char>),
>
    decreases rs.len(),
{
    if rs.len() == 0 {
        Seq::<(Seq<char>, MetricType, Seq<char>, Seq<char>)>::empty()
    } else {
        scopes_metas(rs[0].scope_metrics@).add(resources_metas(rs.drop_first()))
    }
}

/// Every tagged row of a whole request, in encounter order.
pub open spec fn request_tagged(req: MetricsRequest, excl: Seq<Seq<char>>) -> Seq<
    (Seq<char>, Seq<(Seq<char>, ValueView)>),
> {
    resources_tagged(req.resource_metrics@, excl)
}

/// Every family-metadata entry of a whole request, in encounter order.
pub open spec fn request_metas(req: MetricsRequest) -> Seq<
    (Seq<char>, MetricType, Seq<char>, Seq<char>),
> {
    resources_metas(req.resource_metrics@)
}

/// One row bound for one destination stream.
pub struct FlatRow {
    pub stream: String,
    pub row: Record,
}

/// The specification-level contents of a tagged-row list.
pub open spec fn flat_rows_view(s: Seq<FlatRow>) -> Seq<(Seq<char>, Seq<(Seq<char>, ValueView)>)>
    decreases s.len(),
{
    if s.len() == 0 {
        Seq::<(Seq<char>, Seq<(Seq<char>, ValueView)>)>::empty()
    } else {
        flat_rows_view(s.drop_last()).push((s.last().stream@, s.last().row@))
    }
}

pub broadcast proof fn lemma_flat_rows_view(s: Seq<FlatRow>)
    ensures
        (#[trigger] flat_rows_view(s)).len() == s.len(),
        forall|j: int|
            0 <= j < s.len() ==> #[trigger] flat_rows_view(s)[j] == (s[j].stream@, s[j].row@),
    decreases s.len(),
{
    if s.len() > 0 {
        lemma_flat_rows_view(s.drop_last());
    }
}

/// Every tagged row satisfies the key-uniqueness invariant.
pub open spec fn flat_rows_wf(s: Seq<FlatRow>) -> bool {
    forall|j: int| 0 <= j < s.len() ==> (#[trigger] s[j]).row.wf()
}

proof fn lemma_flat_rows_view_concat(a: Seq<FlatRow>, b: Seq<FlatRow>)
    ensures
        flat_rows_view(a.add(b)) == flat_rows_view(a).add(flat_rows_view(b)),
{
    lemma_flat_rows_view(a);
    lemma_flat_rows_view(b);
    lemma_flat_rows_view(a.add(b));
    assert(flat_rows_view(a.add(b)) =~= flat_rows_view(a).add(flat_rows_view(b)));
}

/// The specification-level contents of a family-metadata list.
pub open spec fn metas_view(s: Seq<FamilyMetadata>) -> Seq<
    (Seq<char>, MetricType, Seq<char>, Seq<char>),
>
    decreases s.len(),
{
    if s.len() == 0 {
        Seq::<(Seq<char>, MetricType, Seq<char>, Seq<char>)>::empty()
    } else {
        metas_view(s.drop_last()).push(
            (s.last().family_name@, s.last().metric_type, s.last().help@, s.last().unit@),
        )
    }
}

pub broadcast proof fn lemma_metas_view(s: Seq<FamilyMetadata>)
    ensures
        (#[trigger] metas_view(s)).len() == s.len(),
        forall|j: int|
            0 <= j < s.len() ==> #[trigger] metas_view(s)[j] == (
                s[j].family_name@,
                s[j].metric_type,
                s[j].help@,
                s[j].unit@,
            ),
    decreases s.len(),
{
    if s.len() > 0 {
        lemma_metas_view(s.drop_last());
    }
}

proof fn lemma_metas_view_concat(a: Seq<FamilyMetadata>, b: Seq<FamilyMetadata>)
    ensures
        metas_view(a.add(b)) == metas_view(a).add(metas_view(b)),
{
    lemma_metas_view(a);
    lemma_metas_view(b);
    lemma_metas_view(a.add(b));
    assert(metas_view(a.add(b)) =~= metas_view(a).add(metas_view(b)));
}

/// Builds one metric's base record and flattens its data points by shape;
/// also computes the family metadata recorded for the metric's stream.
pub fn flatten_metric(
    resource_attrs: &Vec<Attribute>,
    scope: &Option<Scope>,
    m: &MetricFamily,
    excl: &Vec<String>,
) -> (r: (FamilyMetadata, Vec<Record>))
    ensures
        rows_view(r.1@) == metric_rows(resource_attrs@, *scope, *m, strings_view(excl@)),
        rows_wf(r.1@),
        r.0.family_name@ == sanitize_str(m.name@),
        r.0.metric_type == metric_type_of(m.data),
        r.0.help@ == m.description@,
        r.0.unit@ == m.unit@,
{
    let base0 = Record::new();
    let base1 = apply_attributes(base0, resource_attrs, true);
    let mut base = base1;
    match scope {
        Some(sc) => {
            base.set(
                String::from_str("instrumentation_library_name"),
                RecordValue::Scalar(ScalarValue::Str(sc.name.clone())),
            );
            base.set(
                String::from_str("instrumentation_library_version"),
                RecordValue::Scalar(ScalarValue::Str(sc.version.clone())),
            );
        },
        None => {},
    }
    let family_name = sanitize_name(m.name.as_str());
    base.set(
        String::from_str("__name__"),
        RecordValue::Scalar(ScalarValue::Str(family_name.clone())),
    );
    let (mtype, rows) = match &m.data {
        None => {
            let empty_rows: Vec<Record> = Vec::new();
            proof {
                lemma_rows_view(empty_rows@);
                assert(rows_view(empty_rows@) =~= metric_rows(
                    resource_attrs@,
                    *scope,
                    *m,
                    strings_view(excl@),
                ));
            }
            (MetricType::Unknown, empty_rows)
        },
        Some(d) => match d {
            MetricData::Gauge { data_points } => (
                MetricType::Gauge,
                process_gauge(&base, data_points, excl),
            ),
            MetricData::Sum { data_points, aggregation_temporality, is_monotonic } => (
                MetricType::Counter,
                process_sum(&base, data_points, *aggregation_temporality, *is_monotonic, excl),
            ),
            MetricData::Histogram { data_points, aggregation_temporality } => (
                MetricType::Histogram,
                process_histogram(&base, data_points, *aggregation_temporality, excl),
            ),
            MetricData::ExponentialHistogram { data_points, aggregation_temporality } => (
                MetricType::ExponentialHistogram,
                process_exponential_histogram(&base, data_points, *aggregation_temporality, excl),
            ),
            MetricData::Summary { data_points } => (
                MetricType::Summary,
                process_summary(&base, data_points, excl),
            ),
        },
    };
    let meta = FamilyMetadata {
        family_name,
        metric_type: mtype,
        help: m.description.clone(),
        unit: m.unit.clone(),
    };
    (meta, rows)
}

/// Tags each finished row with its destination stream: the row's own
/// normalized metric name.
#[verifier::loop_isolation(false)]
fn tag_rows(rows: Vec<Record>) -> (r: Vec<FlatRow>)
    requires
        rows_wf(rows@),
    ensures
        flat_rows_view(r@) == tagged_rows(rows_view(rows@)),
        flat_rows_wf(r@),
{
    let mut out: Vec<FlatRow> = Vec::new();
    let n = rows.len();
    let mut i: usize = 0;
    proof {
        lemma_rows_view(rows@);
    }
    while i < n
        invariant
            n == rows.len(),
            i <= n,
            out@.len() == i,
            flat_rows_wf(out@),
            rows_view(rows@).len() == n,
            forall|j: int| 0 <= j < n ==> #[trigger] rows_view(rows@)[j] == rows@[j]@,
            forall|j: int|
                0 <= j < i ==> #[trigger] out@[j].stream@ == row_stream(rows@[j]@) && out@[j].row@
                    == rows@[j]@,
        decreases n - i,
    {
        proof {
            assert(rows@[i as int].wf());
        }
        let name = get_name(&rows[i]);
        let stream = sanitize_name(name.as_str());
        out.push(FlatRow { stream, row: rows[i].duplicate() });
        i += 1;
    }
    proof {
        lemma_flat_rows_view(out@);
        assert(flat_rows_view(out@) =~= tagged_rows(rows_view(rows@)));
    }
    out
}

/// Flattens every metric of one scope.
#[verifier::loop_isolation(false)]
fn flatten_scope(
    resource_attrs: &Vec<Attribute>,
    sm: &ScopeGroup,
    excl: &Vec<String>,
    metas: &mut Vec<FamilyMetadata>,
    out: &mut Vec<FlatRow>,
)
    requires
        flat_rows_wf(old(out)@),
    ensures
        metas_view(final(metas)@) == metas_view(old(metas)@).add(metrics_metas(sm.metrics@)),
        flat_rows_view(final(out)@) == flat_rows_view(old(out)@).add(
            metrics_tagged(resource_attrs@, sm.scope, sm.metrics@, strings_view(excl@)),
        ),
        flat_rows_wf(final(out)@),
{
    let ghost ex = strings_view(excl@);
    let ghost ms = sm.metrics@;
    let ghost metas0 = metas@;
    let ghost out0 = out@;
    let n = sm.metrics.len();
    let mut i: usize = 0;
    proof {
        assert(ms.skip(0) =~= ms);
    }
    while i < n
        invariant
            n == ms.len(),
            i <= n,
            flat_rows_wf(out@),
            metas_view(metas0).add(metrics_metas(ms)) == metas_view(metas@).add(
                metrics_metas(ms.skip(i as int)),
            ),
            flat_rows_view(out0).add(metrics_tagged(resource_attrs@, sm.scope, ms, ex))
                == flat_rows_view(out@).add(
                metrics_tagged(resource_attrs@, sm.scope, ms.skip(i as int), ex),
            ),
        decreases n - i,
    {
        proof {
            assert(ms.skip(i as int)[0] == ms[i as int]);
            assert(ms.skip(i as int).drop_first() =~= ms.skip(i as int + 1));
        }
        let (meta, rows) = flatten_metric(resource_attrs, &sm.scope, &sm.metrics[i], excl);
        let ghost mpre = metas@;
        metas.push(meta);
        proof {
            lemma_metas_view(metas@);
            lemma_metas_view(mpre);
            assert(metas@.drop_last() =~= mpre);
            assert(metas_view(metas@) =~= metas_view(mpre).push(metric_meta_view(ms[i as int])));
            assert(metrics_metas(ms.skip(i as int)) =~= seq![metric_meta_view(ms[i as int])].add(
                metrics_metas(ms.skip(i as int + 1)),
            ));
            assert(metas_view(metas@).add(metrics_metas(ms.skip(i as int + 1))) =~= metas_view(
                mpre,
            ).add(metrics_metas(ms.skip(i as int))));
        }
        let mut tagged = tag_rows(rows);
        let ghost opre = out@;
        let ghost tv = tagged@;
        out.append(&mut tagged);
        proof {
            lemma_flat_rows_view_concat(opre, tv);
            assert(flat_rows_view(out@).add(
                metrics_tagged(resource_attrs@, sm.scope, ms.skip(i as int + 1), ex),
            ) =~= flat_rows_view(opre).add(
                metrics_tagged(resource_attrs@, sm.scope, ms.skip(i as int), ex),
            ));
        }
        i += 1;
    }
    proof {
        assert(ms.skip(n as int) =~= Seq::<MetricFamily>::empty());
        assert(metas_view(metas@).add(metrics_metas(ms.skip(n as int))) =~= metas_view(metas@));
        assert(flat_rows_view(out@).add(
            metrics_tagged(resource_attrs@, sm.scope, ms.skip(n as int), ex),
        ) =~= flat_rows_view(out@));
    }
}

/// Flattens a whole request: every resource, scope and metric, in encounter
/// order, each row tagged with its destination stream, plus one
/// family-metadata entry per metric.
#[verifier::loop_isolation(false)]
pub fn flatten_request(req: &MetricsRequest, excl: &Vec<String>) -> (r: (
    Vec<FamilyMetadata>,
    Vec<FlatRow>,
))
    ensures
        metas_view(r.0@) == request_metas(*req),
        flat_rows_view(r.1@) == request_tagged(*req, strings_view(excl@)),
        flat_rows_wf(r.1@),
{
    let ghost ex = strings_view(excl@);
    let ghost rs = req.resource_metrics@;
    let mut metas: Vec<FamilyMetadata> = Vec::new();
    let mut out: Vec<FlatRow> = Vec::new();
    let nr = req.resource_metrics.len();
    let mut i: usize = 0;
    proof {
        lemma_metas_view(metas@);
        lemma_flat_rows_view(out@);
        assert(rs.skip(0) =~= rs);
        assert(metas_view(metas@) =~= Seq::<
            (Seq<char>, MetricType, Seq<char>, Seq<char>),
        >::empty());
        assert(flat_rows_view(out@) =~= Seq::<(Seq<char>, Seq<(Seq<char>, ValueView)>)>::empty());
    }
    while i < nr
        invariant
            nr == rs.len(),
            i <= nr,
            flat_rows_wf(out@),
            resources_metas(rs) == metas_view(metas@).add(resources_metas(rs.skip(i as int))),
            resources_tagged(rs, ex) == flat_rows_view(out@).add(
                resources_tagged(rs.skip(i as int), ex),
            ),
        decreases nr - i,
    {
        proof {
            assert(rs.skip(i as int)[0] == rs[i as int]);
            assert(rs.skip(i as int).drop_first() =~= rs.skip(i as int + 1));
        }
        let rm = &req.resource_metrics[i];
        let ghost ss = rm.scope_metrics@;
        let ns = rm.scope_metrics.len();
        let mut j: usize = 0;
        proof {
            assert(ss.skip(0) =~= ss);
        }
        let ghost metas_res0 = metas@;
        let ghost out_res0 = out@;
        while j < ns
            invariant
                ns == ss.len(),
                j <= ns,
                flat_rows_wf(out@),
                metas_view(metas_res0).add(scopes_metas(ss)) == metas_view(metas@).add(
                    scopes_metas(ss.skip(j as int)),
                ),
                flat_rows_view(out_res0).add(scopes_tagged(rm.resource_attributes@, ss, ex))
                    == flat_rows_view(out@).add(
                    scopes_tagged(rm.resource_attributes@, ss.skip(j as int), ex),
                ),
            decreases ns - j,
        {
            proof {
                assert(ss.skip(j as int)[0] == ss[j as int]);
                assert(ss.skip(j as int).drop_first() =~= ss.skip(j as int + 1));
            }
            flatten_scope(&rm.resource_attributes, &rm.scope_metrics[j], excl, &mut metas, &mut out);
            proof {
                assert(scopes_metas(ss.skip(j as int)) =~= metrics_metas(
                    ss[j as int].metrics@,
                ).add(scopes_metas(ss.skip(j as int + 1))));
                assert(scopes_tagged(rm.resource_attributes@, ss.skip(j as int), ex)
                    =~= metrics_tagged(
                    rm.resource_attributes@,
                    ss[j as int].scope,
                    ss[j as int].metrics@,
                    ex,
                ).add(scopes_tagged(rm.resource_attributes@, ss.skip(j as int + 1), ex)));
            }
            j += 1;
        }
        proof {
            assert(ss.skip(ns as int) =~= Seq::<ScopeGroup>::empty());
            assert(metas_view(metas@).add(scopes_metas(ss.skip(ns as int))) =~= metas_view(metas@));
            assert(flat_rows_view(out@).add(
                scopes_tagged(rm.resource_attributes@, ss.skip(ns as int), ex),
            ) =~= flat_rows_view(out@));
            assert(resources_metas(rs.skip(i as int)) =~= scopes_metas(ss).add(
                resources_metas(rs.skip(i as int + 1)),
            ));
            assert(resources_tagged(rs.skip(i as int), ex) =~= scopes_tagged(
                rm.resource_attributes@,
                ss,
                ex,
            ).add(resources_tagged(rs.skip(i as int + 1), ex)));
        }
        i += 1;
    }
    proof {
        assert(rs.skip(nr as int) =~= Seq::<ResourceGroup>::empty());
        assert(metas_view(metas@).add(resources_metas(rs.skip(nr as int))) =~= metas_view(metas@));
        assert(flat_rows_view(out@).add(resources_tagged(rs.skip(nr as int), ex))
            =~= flat_rows_view(out@));
    }
    (metas, out)
}


/// Every data-point row's timestamp is the point's `time_unix_nano / 1000`,
/// by integer truncation: the `_timestamp` column a number point stores is
/// exactly that quotient, whatever the base record held.
pub proof fn lemma_point_timestamp_is_micros(base: Seq<(Seq<char>, ValueView)>, dp: NumberPoint)
    ensures
        lookup(number_point_applied(base, dp), "_timestamp"@) == Some(
            ValueView::Scalar(ScalarView::Uint((dp.time_unix_nano / 1000) as int)),
        ),
{
    let a = apply_attrs(base, dp.attributes@, true);
    let b = store(a, "value"@, ValueView::Scalar(dp.value@));
    let tsv = ValueView::Scalar(ScalarView::Uint((dp.time_unix_nano / 1000) as int));
    let c = store(b, "_timestamp"@, tsv);
    let d = store(
        c,
        "start_time"@,
        ValueView::Scalar(ScalarView::Str(dec_str(dp.start_time_unix_nano as nat))),
    );
    let e = store(d, "flag"@, ValueView::Scalar(ScalarView::Str(flag_text(dp.flags as u32))));
    proof_distinct_point_keys();
    crate::value::lemma_lookup_store_same(b, "_timestamp"@, tsv);
    crate::value::lemma_lookup_store_other(
        c,
        "start_time"@,
        ValueView::Scalar(ScalarView::Str(dec_str(dp.start_time_unix_nano as nat))),
        "_timestamp"@,
    );
    crate::value::lemma_lookup_store_other(
        d,
        "flag"@,
        ValueView::Scalar(ScalarView::Str(flag_text(dp.flags as u32))),
        "_timestamp"@,
    );
    crate::value::lemma_lookup_store_other(
        e,
        "exemplars"@,
        ValueView::Exemplars(exemplars_rows(dp.exemplars@)),
        "_timestamp"@,
    );
}

/// The fixed point-column names are pairwise distinct.
proof fn proof_distinct_point_keys()
    ensures
        "_timestamp"@ != "start_time"@,
        "_timestamp"@ != "flag"@,
        "_timestamp"@ != "exemplars"@,
{
    reveal_strlit("_timestamp");
    reveal_strlit("start_time");
    reveal_strlit("flag");
    reveal_strlit("exemplars");
    assert(("_timestamp"@)[0] != ("start_time"@)[0]);
    assert(("_timestamp"@).len() != ("flag"@).len());
    assert(("_timestamp"@)[0] != ("exemplars"@)[0]);
}

proof fn lemma_hist_bucket_rows_len(
    common: Seq<(Seq<char>, ValueView)>,
    name: Seq<char>,
    counts: Seq<u64>,
    bounds: Seq<FloatVal>,
    i: int,
)
    requires
        0 <= i <= bounds.len(),
    ensures
        hist_bucket_rows(common, name, counts, bounds, i).len() == bounds.len() - i,
    decreases bounds.len() - i,
{
    if i < bounds.len() {
        lemma_hist_bucket_rows_len(common, name, counts, bounds, i + 1);
    }
}

/// A histogram data point with B explicit bounds produces exactly 4 + B
/// rows: `_count`, `_sum`, `_min`, `_max`, then one `_bucket` row per
/// declared bound and no final overflow row beyond them.
pub proof fn lemma_hist_point_row_count(base: Seq<(Seq<char>, ValueView)>, dp: HistogramPoint)
    ensures
        hist_point_rows_raw(base, dp).len() == 4 + dp.explicit_bounds@.len(),
{
    let common = with_exemplars(
        point_common(base, dp.attributes@, dp.time_unix_nano, dp.start_time_unix_nano, dp.flags),
        dp.exemplars@,
    );
    let nm = name_text(common);
    lemma_hist_bucket_rows_len(
        common,
        nm.add("_bucket"@),
        dp.bucket_counts@,
        dp.explicit_bounds@,
        0,
    );
}

} // verus!
