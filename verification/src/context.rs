//! The request-scoped context: one object owning every per-request cache —
//! stream state (schema, partitioning, pipeline, alerts), the pipeline input
//! buffers, the staging buffers bound for the write-ahead log, and the
//! running partial-success counters.  The surrounding application drives the
//! external collaborators and feeds their answers in; every decision taken
//! on those answers is specified here.

use vstd::prelude::*;

verus! {

use crate::signature::{FNV_OFFSET_BASIS, chars_u64, fnv_fold};
use crate::text::{bool_str, dec_str, dec_str_signed, hex_str};
use crate::value::{Record, RecordValue, ScalarValue, ScalarView, ValueView, lookup};

/// The time granularity of a stream's buckets.
#[derive(Clone, Copy, PartialEq, Eq, Structural)]
pub enum Granularity {
    Hourly,
    Daily,
}

/// What the collaborators report about a stream, fetched once per stream per
/// request: its cached schema, its partitioning, whether it has a pipeline,
/// and how many alert rules watch it.
pub struct StreamInfo {
    pub schema_fields: Vec<String>,
    pub has_metadata: bool,
    pub partition_keys: Vec<String>,
    pub granularity: Granularity,
    pub has_pipeline: bool,
    pub alert_count: usize,
}

/// The per-stream state the context tracks for one request.
pub struct StreamState {
    pub name: String,
    pub schema_fields: Vec<String>,
    pub has_metadata: bool,
    pub metadata_written: bool,
    pub schema_evolved: bool,
    pub partition_keys: Vec<String>,
    pub granularity: Granularity,
    pub has_pipeline: bool,
    pub alert_count: usize,
    pub alert_record_issued: bool,
    pub trigger: Option<Vec<u64>>,
    pub pipeline_inputs: Vec<Record>,
    pub direct_rows: Vec<Record>,
    pub staged_count: usize,
}

/// One transformed record coming back from the pipeline engine: its
/// destination stream, whether that destination is a metrics stream, and the
/// record itself.
pub struct PipelineOutput {
    pub stream: String,
    pub is_metrics: bool,
    pub row: Record,
}

/// The running partial-success counters of the request.
pub struct PartialSuccess {
    pub rejected_data_points: i64,
    pub error_message: String,
}

/// Position of the state for stream `k`, or -1 when none exists.
pub open spec fn ss_find(s: Seq<StreamState>, k: Seq<char>) -> int
    decreases s.len(),
{
    if s.len() == 0 {
        -1
    } else if s[0].name@ == k {
        0
    } else {
        let r = ss_find(s.drop_first(), k);
        if r < 0 {
            -1
        } else {
            r + 1
        }
    }
}

pub proof fn lemma_ss_find_props(s: Seq<StreamState>, k: Seq<char>)
    ensures
        -1 <= ss_find(s, k) < s.len(),
        ss_find(s, k) == -1 ==> forall|j: int| 0 <= j < s.len() ==> (#[trigger] s[j]).name@ != k,
        ss_find(s, k) >= 0 ==> s[ss_find(s, k)].name@ == k,
        ss_find(s, k) >= 0 ==> forall|j: int|
            0 <= j < ss_find(s, k) ==> (#[trigger] s[j]).name@ != k,
    decreases s.len(),
{
    if s.len() > 0 && s[0].name@ != k {
        lemma_ss_find_props(s.drop_first(), k);
        assert(forall|j: int| 1 <= j < s.len() ==> s[j] == s.drop_first()[j - 1]);
    }
}

pub proof fn lemma_ss_find_at(s: Seq<StreamState>, k: Seq<char>, i: int)
    requires
        0 <= i < s.len(),
        s[i].name@ == k,
        forall|j: int| 0 <= j < i ==> (#[trigger] s[j]).name@ != k,
    ensures
        ss_find(s, k) == i,
    decreases s.len(),
{
    if i > 0 {
        assert forall|j: int| 0 <= j < i - 1 implies (#[trigger] s.drop_first()[j]).name@ != k by {
            assert(s.drop_first()[j] == s[j + 1]);
        }
        assert(s.drop_first()[i - 1] == s[i]);
        lemma_ss_find_at(s.drop_first(), k, i - 1);
    }
}

pub proof fn lemma_ss_find_absent(s: Seq<StreamState>, k: Seq<char>)
    requires
        forall|j: int| 0 <= j < s.len() ==> (#[trigger] s[j]).name@ != k,
    ensures
        ss_find(s, k) == -1,
    decreases s.len(),
{
    if s.len() > 0 {
        assert forall|j: int| 0 <= j < s.drop_first().len() implies (#[trigger] s.drop_first()[j]).name@
            != k by {
            assert(s.drop_first()[j] == s[j + 1]);
        }
        lemma_ss_find_absent(s.drop_first(), k);
    }
}

/// The stream names are pairwise distinct.
pub open spec fn ss_wf(s: Seq<StreamState>) -> bool {
    forall|i: int, j: int|
        0 <= i < j < s.len() ==> (#[trigger] s[i]).name@ != (#[trigger] s[j]).name@
}

/// The record buffered for one destination stream and one bucket, tagged
/// with the schema fingerprint and schema snapshot valid for that bucket.
pub struct StagingBuffer {
    pub stream: String,
    pub time_bucket: u64,
    pub partition: Vec<(String, String)>,
    pub fingerprint: String,
    pub schema_fields: Vec<String>,
    pub records: Vec<Record>,
    pub records_size: u64,
}

/// The staged records of one stream and one bucket, handed to the durable
/// writer as one unit.
pub struct CommitBatch {
    pub stream: String,
    pub buffers: Vec<StagingBuffer>,
}

/// The whole request-scoped context.
pub struct IngestContext {
    pub org_id: String,
    pub streams: Vec<StreamState>,
    pub staging: Vec<StagingBuffer>,
    pub partial: PartialSuccess,
}

impl IngestContext {
    /// Stream names are distinct and every staging cursor is in range.
    pub open spec fn wf(&self) -> bool {
        &&& ss_wf(self.streams@)
        &&& forall|j: int|
            0 <= j < self.streams@.len() ==> (#[trigger] self.streams@[j]).staged_count
                <= self.streams@[j].direct_rows.len()
    }

    /// Whether the context already holds state for the stream.
    pub open spec fn has_stream(&self, name: Seq<char>) -> bool {
        ss_find(self.streams@, name) >= 0
    }

    /// The state of a stream the context holds.
    pub open spec fn stream_at(&self, name: Seq<char>) -> StreamState {
        self.streams@[ss_find(self.streams@, name)]
    }

    pub fn new(org_id: String) -> (r: IngestContext)
        ensures
            r.org_id == org_id,
            r.streams@ == Seq::<StreamState>::empty(),
            r.staging@ == Seq::<StagingBuffer>::empty(),
            r.partial.rejected_data_points == 0,
            r.partial.error_message@ == Seq::<char>::empty(),
            r.wf(),
    {
        let r = IngestContext {
            org_id,
            streams: Vec::new(),
            staging: Vec::new(),
            partial: PartialSuccess { rejected_data_points: 0, error_message: String::new() },
        };
        r
    }

    /// Position of the state for the stream, if any.
    #[verifier::loop_isolation(false)]
    fn find_stream(&self, name: &str) -> (r: Option<usize>)
        ensures
            match r {
                Some(i) => ss_find(self.streams@, name@) == i as int,
                None => ss_find(self.streams@, name@) == -1,
            },
    {
        let mut i: usize = 0;
        let n = self.streams.len();
        while i < n
            invariant
                n == self.streams.len(),
                i <= n,
                forall|j: int| 0 <= j < i ==> (#[trigger] self.streams@[j]).name@ != name@,
            decreases n - i,
        {
            if crate::text::str_eq(self.streams[i].name.as_str(), name) {
                proof {
                    lemma_ss_find_at(self.streams@, name@, i as int);
                }
                return Some(i);
            }
            i += 1;
        }
        proof {
            lemma_ss_find_absent(self.streams@, name@);
        }
        None
    }

    /// Whether the collaborator answers for this stream are still missing,
    /// and so must be fetched: each stream is fetched at most once.
    pub fn needs_stream(&self, name: &str) -> (r: bool)
        ensures
            r == !self.has_stream(name@),
    {
        match self.find_stream(name) {
            Some(_) => false,
            None => true,
        }
    }

    /// Admits the collaborator answers for a new stream.  Admission happens
    /// at most once per stream per request: the state is created here and
    /// only updated afterwards.
    pub fn admit_stream(&mut self, name: String, info: StreamInfo)
        requires
            old(self).wf(),
            !old(self).has_stream(name@),
        ensures
            final(self).streams@.len() == old(self).streams@.len() + 1,
            final(self).streams@.subrange(0, old(self).streams@.len() as int) == old(self).streams@,
            ({
                let st = final(self).streams@.last();
                &&& st.name == name
                &&& st.schema_fields == info.schema_fields
                &&& st.has_metadata == info.has_metadata
                &&& !st.metadata_written
                &&& !st.schema_evolved
                &&& st.partition_keys == info.partition_keys
                &&& st.granularity == info.granularity
                &&& st.has_pipeline == info.has_pipeline
                &&& st.alert_count == info.alert_count
                &&& !st.alert_record_issued
                &&& st.trigger is None
                &&& st.pipeline_inputs@ == Seq::<Record>::empty()
                &&& st.direct_rows@ == Seq::<Record>::empty()
                &&& st.staged_count == 0
            }),
            final(self).org_id == old(self).org_id,
            final(self).staging == old(self).staging,
            final(self).partial == old(self).partial,
            final(self).wf(),
            final(self).has_stream(name@),
    {
        proof {
            lemma_ss_find_props(self.streams@, name@);
        }
        let st = StreamState {
            name,
            schema_fields: info.schema_fields,
            has_metadata: info.has_metadata,
            metadata_written: false,
            schema_evolved: false,
            partition_keys: info.partition_keys,
            granularity: info.granularity,
            has_pipeline: info.has_pipeline,
            alert_count: info.alert_count,
            alert_record_issued: false,
            trigger: None,
            pipeline_inputs: Vec::new(),
            direct_rows: Vec::new(),
            staged_count: 0,
        };
        let ghost nk = st.name@;
        self.streams.push(st);
        proof {
            assert forall|i: int, j: int| 0 <= i < j < self.streams@.len() implies (
            #[trigger] self.streams@[i]).name@ != (#[trigger] self.streams@[j]).name@ by {
                if j < self.streams@.len() - 1 {
                } else {
                    assert(self.streams@[j].name@ == nk);
                }
            }
            lemma_ss_find_at(self.streams@, nk, self.streams@.len() - 1);
        }
    }
}

/// The records of a pipeline result that land in the given stream: the
/// outputs destined for it whose destination is a metrics stream.
pub open spec fn outputs_for(outs: Seq<PipelineOutput>, name: Seq<char>) -> Seq<Record>
    decreases outs.len(),
{
    if outs.len() == 0 {
        Seq::<Record>::empty()
    } else if outs[0].is_metrics && outs[0].stream@ == name {
        seq![outs[0].row].add(outputs_for(outs.drop_first(), name))
    } else {
        outputs_for(outs.drop_first(), name)
    }
}

/// A rejected-points counter bumped by a batch size, saturating at the top.
pub open spec fn bump_rejected(rejected: int, n: int) -> int {
    let m = if n > 0x7fffffffffffffff {
        0x7fffffffffffffff
    } else {
        n
    };
    if rejected + m > 0x7fffffffffffffff {
        0x7fffffffffffffff
    } else {
        rejected + m
    }
}

/// Whether the row carries a column the schema does not know.
pub open spec fn row_has_new_column(row: Record, fields: Seq<Seq<char>>) -> bool {
    exists|j: int| 0 <= j < row@.len() && !fields.contains((#[trigger] row@[j]).0)
}

/// Every field of the two states agrees except the row buffers.
pub open spec fn same_except_buffers(st: StreamState, nst: StreamState) -> bool {
    &&& nst.name == st.name
    &&& nst.schema_fields == st.schema_fields
    &&& nst.has_metadata == st.has_metadata
    &&& nst.metadata_written == st.metadata_written
    &&& nst.schema_evolved == st.schema_evolved
    &&& nst.partition_keys == st.partition_keys
    &&& nst.granularity == st.granularity
    &&& nst.has_pipeline == st.has_pipeline
    &&& nst.alert_count == st.alert_count
    &&& nst.alert_record_issued == st.alert_record_issued
    &&& nst.trigger == st.trigger
    &&& nst.staged_count == st.staged_count
}

/// Distributes the pipeline outputs over the stream states: each kept
/// record is appended to its destination's direct buffer, in order.
#[verifier::loop_isolation(false)]
fn route_outputs_exec(streams: Vec<StreamState>, outputs: Vec<PipelineOutput>) -> (r: Vec<
    StreamState,
>)
    requires
        ss_wf(streams@),
    ensures
        r@.len() == streams@.len(),
        forall|j: int|
            0 <= j < streams@.len() ==> {
                let st = streams@[j];
                let nst = #[trigger] r@[j];
                &&& same_except_buffers(st, nst)
                &&& nst.pipeline_inputs == st.pipeline_inputs
                &&& nst.direct_rows@ == st.direct_rows@.add(outputs_for(outputs@, st.name@))
            },
{
    let ghost outs = outputs@;
    let ghost pre = streams@;
    let mut streams = streams;
    let mut outputs = outputs;
    let ghost mut k: int = 0;
    proof {
        assert(outs.skip(0) =~= outs);
        assert forall|j: int| 0 <= j < pre.len() implies (#[trigger] pre[j]).direct_rows@.add(
            Seq::<Record>::empty(),
        ) == pre[j].direct_rows@ by {
            assert(pre[j].direct_rows@.add(Seq::<Record>::empty()) =~= pre[j].direct_rows@);
        }
    }
    while outputs.len() > 0
        invariant
            0 <= k <= outs.len(),
            outputs@ == outs.skip(k),
            streams@.len() == pre.len(),
            forall|j: int|
                0 <= j < pre.len() ==> {
                    let st = pre[j];
                    let cst = #[trigger] streams@[j];
                    &&& same_except_buffers(st, cst)
                    &&& cst.pipeline_inputs == st.pipeline_inputs
                    &&& st.direct_rows@.add(outputs_for(outs, st.name@)) == cst.direct_rows@.add(
                        outputs_for(outs.skip(k), st.name@),
                    )
                },
        decreases outputs@.len(),
    {
        proof {
            assert(outs.skip(k)[0] == outs[k]);
            assert(outs.skip(k).drop_first() =~= outs.skip(k + 1));
        }
        let o = outputs.remove(0);
        let ghost cur = streams@;
        if o.is_metrics {
            let mut d: usize = 0;
            let nd = streams.len();
            let mut found = false;
            while d < nd
                invariant
                    nd == streams@.len(),
                    d <= nd,
                    streams@ == cur,
                    !found,
                    forall|j: int| 0 <= j < d ==> (#[trigger] streams@[j]).name@ != o.stream@,
                decreases nd - d,
            {
                if crate::text::str_eq(streams[d].name.as_str(), o.stream.as_str()) {
                    found = true;
                    break ;
                }
                d += 1;
            }
            if found {
                let ghost row = o.row;
                streams[d].direct_rows.push(o.row);
                proof {
                    assert forall|j: int| 0 <= j < pre.len() implies {
                        let st = pre[j];
                        let cst = #[trigger] streams@[j];
                        &&& same_except_buffers(st, cst)
                        &&& cst.pipeline_inputs == st.pipeline_inputs
                        &&& st.direct_rows@.add(outputs_for(outs, st.name@))
                            == cst.direct_rows@.add(outputs_for(outs.skip(k + 1), st.name@))
                    } by {
                        if j == d {
                            assert(streams@[j].direct_rows@ == cur[j].direct_rows@.push(row));
                            assert(outputs_for(outs.skip(k), pre[j].name@) =~= seq![row].add(
                                outputs_for(outs.skip(k + 1), pre[j].name@),
                            ));
                            assert(cur[j].direct_rows@.add(outputs_for(outs.skip(k), pre[j].name@))
                                =~= streams@[j].direct_rows@.add(
                                outputs_for(outs.skip(k + 1), pre[j].name@),
                            ));
                        } else {
                            assert(streams@[j] == cur[j]);
                            assert(pre[j].name@ != pre[d as int].name@);
                            assert(pre[j].name@ != o.stream@);
                            assert(outputs_for(outs.skip(k), pre[j].name@) == outputs_for(
                                outs.skip(k + 1),
                                pre[j].name@,
                            ));
                        }
                    }
                }
            } else {
                proof {
                    assert forall|j: int| 0 <= j < pre.len() implies outputs_for(
                        outs.skip(k),
                        (#[trigger] pre[j]).name@,
                    ) == outputs_for(outs.skip(k + 1), pre[j].name@) by {
                        assert(streams@[j].name@ != o.stream@);
                        assert(pre[j].name@ != o.stream@);
                    }
                }
            }
        } else {
            proof {
                assert forall|j: int| 0 <= j < pre.len() implies outputs_for(
                    outs.skip(k),
                    (#[trigger] pre[j]).name@,
                ) == outputs_for(outs.skip(k + 1), pre[j].name@) by {}
            }
        }
        proof {
            k = k + 1;
        }
    }
    proof {
        assert(k == outs.len());
        assert(outs.skip(k) =~= Seq::<PipelineOutput>::empty());
        assert forall|j: int| 0 <= j < pre.len() implies (#[trigger] streams@[j]).direct_rows@
            == pre[j].direct_rows@.add(outputs_for(outs, pre[j].name@)) by {
            assert(streams@[j].direct_rows@.add(outputs_for(outs.skip(k), pre[j].name@))
                =~= streams@[j].direct_rows@);
        }
    }
    streams
}

impl IngestContext {
    /// Routes one flattened row: a stream with a pipeline buffers it as a
    /// pipeline input, any other stream buffers it for staging directly.
    pub fn route_row(&mut self, fr: crate::flatten::FlatRow)
        requires
            old(self).wf(),
            old(self).has_stream(fr.stream@),
        ensures
            ({
                let i = ss_find(old(self).streams@, fr.stream@);
                let st = old(self).streams@[i];
                &&& final(self).streams@.len() == old(self).streams@.len()
                &&& forall|j: int|
                    0 <= j < old(self).streams@.len() && j != i ==> final(self).streams@[j] == old(self).streams@[j]
                &&& same_except_buffers(st, final(self).streams@[i])
                &&& if st.has_pipeline {
                    final(self).streams@[i].pipeline_inputs@ == st.pipeline_inputs@.push(fr.row)
                        && final(self).streams@[i].direct_rows == st.direct_rows
                } else {
                    final(self).streams@[i].direct_rows@ == st.direct_rows@.push(fr.row) && final(self).streams@[i].pipeline_inputs == st.pipeline_inputs
                }
            }),
            final(self).org_id == old(self).org_id,
            final(self).staging == old(self).staging,
            final(self).partial == old(self).partial,
            final(self).wf(),
    {
        let i = match self.find_stream(fr.stream.as_str()) {
            Some(i) => i,
            None => {
                proof {
                    assert(false);
                }
                0
            },
        };
        proof {
            lemma_ss_find_props(self.streams@, fr.stream@);
        }
        let ghost pre = self.streams@;
        if self.streams[i].has_pipeline {
            self.streams[i].pipeline_inputs.push(fr.row);
        } else {
            self.streams[i].direct_rows.push(fr.row);
        }
        proof {
            assert forall|a: int, b: int| 0 <= a < b < self.streams@.len() implies (
            #[trigger] self.streams@[a]).name@ != (#[trigger] self.streams@[b]).name@ by {
                assert(self.streams@[a].name@ == pre[a].name@);
                assert(self.streams@[b].name@ == pre[b].name@);
            }
        }
    }

    /// The records currently buffered as the stream's pipeline batch.
    pub fn pipeline_batch(&self, stream: &str) -> (r: &Vec<Record>)
        requires
            self.wf(),
            self.has_stream(stream@),
        ensures
            r == self.stream_at(stream@).pipeline_inputs,
    {
        let i = match self.find_stream(stream) {
            Some(i) => i,
            None => {
                proof {
                    assert(false);
                }
                0
            },
        };
        proof {
            lemma_ss_find_props(self.streams@, stream@);
        }
        &self.streams[i].pipeline_inputs
    }

    /// A pipeline failure for one stream: none of its buffered inputs go any
    /// further, the rejected count grows by exactly the batch size, and the
    /// error message is replaced, last writer wins.
    pub fn apply_pipeline_failure(&mut self, stream: &str, message: String)
        requires
            old(self).wf(),
            old(self).has_stream(stream@),
        ensures
            ({
                let i = ss_find(old(self).streams@, stream@);
                let st = old(self).streams@[i];
                &&& final(self).partial.rejected_data_points as int == bump_rejected(
                    old(self).partial.rejected_data_points as int,
                    st.pipeline_inputs@.len() as int,
                )
                &&& final(self).partial.error_message == message
                &&& final(self).streams@.len() == old(self).streams@.len()
                &&& forall|j: int|
                    0 <= j < old(self).streams@.len() && j != i ==> final(self).streams@[j] == old(self).streams@[j]
                &&& same_except_buffers(st, final(self).streams@[i])
                &&& final(self).streams@[i].pipeline_inputs@ == Seq::<Record>::empty()
                &&& final(self).streams@[i].direct_rows == st.direct_rows
            }),
            final(self).staging == old(self).staging,
            final(self).org_id == old(self).org_id,
            final(self).wf(),
    {
        let i = match self.find_stream(stream) {
            Some(i) => i,
            None => {
                proof {
                    assert(false);
                }
                0
            },
        };
        proof {
            lemma_ss_find_props(self.streams@, stream@);
        }
        let ghost pre = self.streams@;
        let n = self.streams[i].pipeline_inputs.len();
        let add: i64 = if (n as u64) > 0x7fffffffffffffffu64 {
            0x7fffffffffffffffi64
        } else {
            n as i64
        };
        let rejected = self.partial.rejected_data_points;
        self.partial.rejected_data_points = if rejected > 0x7fffffffffffffffi64 - add {
            0x7fffffffffffffffi64
        } else {
            rejected + add
        };
        self.partial.error_message = message;
        self.streams[i].pipeline_inputs.clear();
        proof {
            assert(self.streams@[i as int].pipeline_inputs@ =~= Seq::<Record>::empty());
            assert forall|a: int, b: int| 0 <= a < b < self.streams@.len() implies (
            #[trigger] self.streams@[a]).name@ != (#[trigger] self.streams@[b]).name@ by {
                assert(self.streams@[a].name@ == pre[a].name@);
                assert(self.streams@[b].name@ == pre[b].name@);
            }
        }
    }

    /// A pipeline success for one stream: its buffered inputs are consumed,
    /// and each returned record whose destination is an already-admitted
    /// metrics stream is buffered for that stream; the rest are dropped.
    pub fn apply_pipeline_success(&mut self, stream: &str, outputs: Vec<PipelineOutput>)
        requires
            old(self).wf(),
            old(self).has_stream(stream@),
        ensures
            final(self).streams@.len() == old(self).streams@.len(),
            ({
                let i = ss_find(old(self).streams@, stream@);
                forall|j: int|
                    0 <= j < old(self).streams@.len() ==> {
                        let st = old(self).streams@[j];
                        let nst = #[trigger] final(self).streams@[j];
                        &&& same_except_buffers(st, nst)
                        &&& nst.direct_rows@ == st.direct_rows@.add(
                            outputs_for(outputs@, st.name@),
                        )
                        &&& nst.pipeline_inputs@ == if j == i {
                            Seq::<Record>::empty()
                        } else {
                            st.pipeline_inputs@
                        }
                    }
            }),
            final(self).staging == old(self).staging,
            final(self).partial == old(self).partial,
            final(self).org_id == old(self).org_id,
            final(self).wf(),
    {
        let i = match self.find_stream(stream) {
            Some(i) => i,
            None => {
                proof {
                    assert(false);
                }
                0
            },
        };
        proof {
            lemma_ss_find_props(self.streams@, stream@);
        }
        let ghost pre = self.streams@;
        self.streams[i].pipeline_inputs.clear();
        proof {
            assert(self.streams@[i as int].pipeline_inputs@ =~= Seq::<Record>::empty());
            assert forall|j: int| 0 <= j < self.streams@.len() implies (
            #[trigger] self.streams@[j]).name@ == pre[j].name@ by {}
            assert(ss_wf(self.streams@)) by {
                assert forall|a: int, b: int| 0 <= a < b < self.streams@.len() implies (
                #[trigger] self.streams@[a]).name@ != (#[trigger] self.streams@[b]).name@ by {
                    assert(self.streams@[a].name@ == pre[a].name@);
                    assert(self.streams@[b].name@ == pre[b].name@);
                }
            }
        }
        let mut s: Vec<StreamState> = Vec::new();
        core::mem::swap(&mut self.streams, &mut s);
        let s2 = route_outputs_exec(s, outputs);
        self.streams = s2;
        proof {
            assert forall|a: int, b: int| 0 <= a < b < self.streams@.len() implies (
            #[trigger] self.streams@[a]).name@ != (#[trigger] self.streams@[b]).name@ by {
                assert(self.streams@[a].name@ == pre[a].name@);
                assert(self.streams@[b].name@ == pre[b].name@);
            }
        }
    }

    /// Whether family metadata must still be persisted for this stream: only
    /// when the stream reported none, and at most once per request.
    pub fn metadata_due(&self, stream: &str) -> (r: bool)
        requires
            self.wf(),
        ensures
            r == (self.has_stream(stream@) && !self.stream_at(stream@).has_metadata
                && !self.stream_at(stream@).metadata_written),
    {
        match self.find_stream(stream) {
            Some(i) => {
                proof {
                    lemma_ss_find_props(self.streams@, stream@);
                }
                !self.streams[i].has_metadata && !self.streams[i].metadata_written
            },
            None => false,
        }
    }

    /// Notes that the family metadata write was attempted, so it is never
    /// repeated within the request; failures are non-fatal and final.
    pub fn note_metadata_written(&mut self, stream: &str)
        requires
            old(self).wf(),
            old(self).has_stream(stream@),
        ensures
            ({
                let i = ss_find(old(self).streams@, stream@);
                let st = old(self).streams@[i];
                &&& final(self).streams@.len() == old(self).streams@.len()
                &&& forall|j: int|
                    0 <= j < old(self).streams@.len() && j != i ==> final(self).streams@[j] == old(self).streams@[j]
                &&& final(self).streams@[i] == StreamState { metadata_written: true, ..st }
            }),
            final(self).staging == old(self).staging,
            final(self).partial == old(self).partial,
            final(self).org_id == old(self).org_id,
            final(self).wf(),
    {
        let i = match self.find_stream(stream) {
            Some(i) => i,
            None => {
                proof {
                    assert(false);
                }
                0
            },
        };
        proof {
            lemma_ss_find_props(self.streams@, stream@);
        }
        let ghost pre = self.streams@;
        self.streams[i].metadata_written = true;
        proof {
            assert forall|a: int, b: int| 0 <= a < b < self.streams@.len() implies (
            #[trigger] self.streams@[a]).name@ != (#[trigger] self.streams@[b]).name@ by {
                assert(self.streams@[a].name@ == pre[a].name@);
                assert(self.streams@[b].name@ == pre[b].name@);
            }
        }
    }
}

/// Microseconds per bucket of a granularity.
pub open spec fn gran_micros(g: Granularity) -> int {
    match g {
        Granularity::Hourly => 3600000000,
        Granularity::Daily => 86400000000,
    }
}

/// The timestamp a record carries in its `_timestamp` column, clamped into
/// the signed 64-bit range, or the current time when it carries none.
pub open spec fn ts_of_row(row: Seq<(Seq<char>, ValueView)>, now: i64) -> int {
    match lookup(row, "_timestamp"@) {
        Some(v) => match v {
            ValueView::Scalar(sv) => match sv {
                ScalarView::Uint(n) => if n > 0x7fffffffffffffff {
                    0x7fffffffffffffff
                } else {
                    n
                },
                ScalarView::Int(n) => n,
                _ => now as int,
            },
            _ => now as int,
        },
        None => now as int,
    }
}

/// The time bucket of a timestamp: timestamps at or before the epoch share
/// bucket zero.
pub open spec fn bucket_of(ts: int, g: Granularity) -> int {
    if ts <= 0 {
        0
    } else {
        ts / gran_micros(g)
    }
}

/// The canonical text of a scalar, used for partition-key values.
pub open spec fn scalar_text(v: ScalarView) -> Seq<char> {
    match v {
        ScalarView::Null => "null"@,
        ScalarView::Bool(b) => bool_str(b),
        ScalarView::Int(n) => dec_str_signed(n),
        ScalarView::Uint(n) => if n < 0 {
            dec_str_signed(n)
        } else {
            dec_str(n as nat)
        },
        ScalarView::Float { bits, text } => text,
        ScalarView::Str(s) => s,
    }
}

/// The text a record offers for one partition key; non-scalar or missing
/// columns read as null.
pub open spec fn row_value_text(row: Seq<(Seq<char>, ValueView)>, key: Seq<char>) -> Seq<char> {
    match lookup(row, key) {
        Some(v) => match v {
            ValueView::Scalar(sv) => scalar_text(sv),
            _ => "null"@,
        },
        None => "null"@,
    }
}

/// The partition-key values of a record, in key order.
pub open spec fn partition_pairs(
    row: Seq<(Seq<char>, ValueView)>,
    keys: Seq<String>,
) -> Seq<(Seq<char>, Seq<char>)> {
    Seq::new(keys.len(), |i: int| (keys[i]@, row_value_text(row, keys[i]@)))
}

/// The word stream of a schema's field names, for fingerprinting.
pub open spec fn fields_words(fields: Seq<String>) -> Seq<u64>
    decreases fields.len(),
{
    if fields.len() == 0 {
        Seq::<u64>::empty()
    } else {
        seq![fields[0]@.len() as u64].add(chars_u64(fields[0]@)).add(
            fields_words(fields.drop_first()),
        )
    }
}

/// The schema fingerprint: sixteen hexadecimal digits of the FNV-1a hash of
/// the field names.  It is embedded in every bucket key, so buffers never
/// mix records staged under different schema versions.
pub open spec fn schema_fingerprint(fields: Seq<String>) -> Seq<char> {
    hex_str(fnv_fold(FNV_OFFSET_BASIS, fields_words(fields)) as nat, 16)
}

/// The specification-level contents of a partition-pair list.
pub open spec fn pairs_view(s: Seq<(String, String)>) -> Seq<(Seq<char>, Seq<char>)>
    decreases s.len(),
{
    if s.len() == 0 {
        Seq::<(Seq<char>, Seq<char>)>::empty()
    } else {
        pairs_view(s.drop_last()).push((s.last().0@, s.last().1@))
    }
}

pub broadcast proof fn lemma_pairs_view(s: Seq<(String, String)>)
    ensures
        (#[trigger] pairs_view(s)).len() == s.len(),
        forall|j: int| 0 <= j < s.len() ==> #[trigger] pairs_view(s)[j] == (s[j].0@, s[j].1@),
    decreases s.len(),
{
    if s.len() > 0 {
        lemma_pairs_view(s.drop_last());
    }
}

/// Whether a staging buffer is the one for the given stream and bucket key:
/// the same stream, time bucket, partition values and schema fingerprint.
pub open spec fn sb_matches(
    b: StagingBuffer,
    stream: Seq<char>,
    tb: int,
    part: Seq<(Seq<char>, Seq<char>)>,
    fp: Seq<char>,
) -> bool {
    &&& b.stream@ == stream
    &&& b.time_bucket as int == tb
    &&& pairs_view(b.partition@) == part
    &&& b.fingerprint@ == fp
}

/// Position of the buffer for the given stream and bucket key, or -1.
pub open spec fn sb_find(
    s: Seq<StagingBuffer>,
    stream: Seq<char>,
    tb: int,
    part: Seq<(Seq<char>, Seq<char>)>,
    fp: Seq<char>,
) -> int
    decreases s.len(),
{
    if s.len() == 0 {
        -1
    } else if sb_matches(s[0], stream, tb, part, fp) {
        0
    } else {
        let r = sb_find(s.drop_first(), stream, tb, part, fp);
        if r < 0 {
            -1
        } else {
            r + 1
        }
    }
}

pub proof fn lemma_sb_find_props(
    s: Seq<StagingBuffer>,
    stream: Seq<char>,
    tb: int,
    part: Seq<(Seq<char>, Seq<char>)>,
    fp: Seq<char>,
)
    ensures
        -1 <= sb_find(s, stream, tb, part, fp) < s.len(),
        sb_find(s, stream, tb, part, fp) >= 0 ==> sb_matches(
            s[sb_find(s, stream, tb, part, fp)],
            stream,
            tb,
            part,
            fp,
        ),
    decreases s.len(),
{
    if s.len() > 0 && !sb_matches(s[0], stream, tb, part, fp) {
        lemma_sb_find_props(s.drop_first(), stream, tb, part, fp);
        assert(forall|j: int| 1 <= j < s.len() ==> s[j] == s.drop_first()[j - 1]);
    }
}

pub proof fn lemma_sb_find_at(
    s: Seq<StagingBuffer>,
    stream: Seq<char>,
    tb: int,
    part: Seq<(Seq<char>, Seq<char>)>,
    fp: Seq<char>,
    i: int,
)
    requires
        0 <= i < s.len(),
        sb_matches(s[i], stream, tb, part, fp),
        forall|j: int| 0 <= j < i ==> !sb_matches(#[trigger] s[j], stream, tb, part, fp),
    ensures
        sb_find(s, stream, tb, part, fp) == i,
    decreases s.len(),
{
    if i > 0 {
        assert forall|j: int| 0 <= j < i - 1 implies !sb_matches(
            #[trigger] s.drop_first()[j],
            stream,
            tb,
            part,
            fp,
        ) by {
            assert(s.drop_first()[j] == s[j + 1]);
        }
        assert(s.drop_first()[i - 1] == s[i]);
        lemma_sb_find_at(s.drop_first(), stream, tb, part, fp, i - 1);
    }
}

pub proof fn lemma_sb_find_absent(
    s: Seq<StagingBuffer>,
    stream: Seq<char>,
    tb: int,
    part: Seq<(Seq<char>, Seq<char>)>,
    fp: Seq<char>,
)
    requires
        forall|j: int| 0 <= j < s.len() ==> !sb_matches(#[trigger] s[j], stream, tb, part, fp),
    ensures
        sb_find(s, stream, tb, part, fp) == -1,
    decreases s.len(),
{
    if s.len() > 0 {
        assert forall|j: int| 0 <= j < s.drop_first().len() implies !sb_matches(
            #[trigger] s.drop_first()[j],
            stream,
            tb,
            part,
            fp,
        ) by {
            assert(s.drop_first()[j] == s[j + 1]);
        }
        lemma_sb_find_absent(s.drop_first(), stream, tb, part, fp);
    }
}

/// The bucket key is a function of the partition values, the time bucket
/// and the schema fingerprint alone: records that agree on those three land
/// in the same buffer.
pub proof fn lemma_bucket_key_deterministic(
    s: Seq<StagingBuffer>,
    stream: Seq<char>,
    tb1: int,
    tb2: int,
    part1: Seq<(Seq<char>, Seq<char>)>,
    part2: Seq<(Seq<char>, Seq<char>)>,
    fp1: Seq<char>,
    fp2: Seq<char>,
)
    requires
        tb1 == tb2,
        part1 == part2,
        fp1 == fp2,
    ensures
        sb_find(s, stream, tb1, part1, fp1) == sb_find(s, stream, tb2, part2, fp2),
{
}

/// A schema change produces a new bucket even for the same time window: no
/// buffer matches two different fingerprints, so buffers never mix records
/// staged under different schema versions.
pub proof fn lemma_schema_change_new_bucket(
    b: StagingBuffer,
    stream: Seq<char>,
    tb: int,
    part: Seq<(Seq<char>, Seq<char>)>,
    fp1: Seq<char>,
    fp2: Seq<char>,
)
    requires
        fp1 != fp2,
        sb_matches(b, stream, tb, part, fp1),
    ensures
        !sb_matches(b, stream, tb, part, fp2),
{
}

/// The accounted size of a scalar column value.
pub open spec fn scalar_size(v: ScalarView) -> int {
    match v {
        ScalarView::Null => 4,
        ScalarView::Bool(b) => 5,
        ScalarView::Int(n) => 20,
        ScalarView::Uint(n) => 20,
        ScalarView::Float { bits, text } => text.len() as int,
        ScalarView::Str(s) => s.len() as int + 2,
    }
}

/// The accounted size of a column value; exemplar payloads count as a
/// constant, they are not measured.
pub open spec fn value_size(v: ValueView) -> int {
    match v {
        ValueView::Scalar(sv) => scalar_size(sv),
        ValueView::Exemplars(e) => 2,
    }
}

/// The accounted byte size of a record.
pub open spec fn record_size(row: Seq<(Seq<char>, ValueView)>) -> int
    decreases row.len(),
{
    if row.len() == 0 {
        0
    } else {
        row[0].0.len() + value_size(row[0].1) + 2 + record_size(row.drop_first())
    }
}

/// A sum clamped at the top of the unsigned 64-bit range.
pub open spec fn sat_u64(n: int) -> int {
    if n > 0xffffffffffffffff {
        0xffffffffffffffff
    } else {
        n
    }
}

fn sat_add_u64(a: u64, b: u64) -> (r: u64)
    ensures
        r as int == sat_u64(a as int + b as int),
{
    if a > 0xffffffffffffffffu64 - b {
        0xffffffffffffffffu64
    } else {
        a + b
    }
}

/// Reads a record's timestamp, defaulting to the given current time.
fn row_ts(row: &Record, now: i64) -> (r: i64)
    ensures
        r as int == ts_of_row(row@, now),
{
    match row.get("_timestamp") {
        Some(v) => match v {
            RecordValue::Scalar(sv) => match sv {
                ScalarValue::Uint(n) => if *n > 0x7fffffffffffffffu64 {
                    0x7fffffffffffffffi64
                } else {
                    *n as i64
                },
                ScalarValue::Int(n) => *n,
                _ => now,
            },
            _ => now,
        },
        None => now,
    }
}

/// Computes a timestamp's bucket under a granularity.
fn time_bucket(ts: i64, g: Granularity) -> (r: u64)
    ensures
        r as int == bucket_of(ts as int, g),
{
    if ts <= 0 {
        0
    } else {
        let m: u64 = match g {
            Granularity::Hourly => 3600000000,
            Granularity::Daily => 86400000000,
        };
        (ts as u64) / m
    }
}

/// Renders a scalar for use as a partition-key value.
fn scalar_text_exec(v: &ScalarValue) -> (r: String)
    ensures
        r@ == scalar_text(v@),
{
    match v {
        ScalarValue::Null => String::from_str("null"),
        ScalarValue::Bool(b) => crate::text::bool_to_string(*b),
        ScalarValue::Int(n) => crate::text::i64_to_string(*n),
        ScalarValue::Uint(n) => crate::text::u64_to_string(*n),
        ScalarValue::Float { bits, text } => text.clone(),
        ScalarValue::Str(s) => s.clone(),
    }
}

/// Collects a record's partition-key values, in key order.
#[verifier::loop_isolation(false)]
fn partition_pairs_exec(row: &Record, keys: &Vec<String>) -> (r: Vec<(String, String)>)
    ensures
        pairs_view(r@) == partition_pairs(row@, keys@),
{
    let mut out: Vec<(String, String)> = Vec::new();
    let n = keys.len();
    let mut i: usize = 0;
    while i < n
        invariant
            n == keys.len(),
            i <= n,
            out@.len() == i,
            forall|j: int|
                0 <= j < i ==> (#[trigger] out@[j]).0@ == keys@[j]@ && out@[j].1@ == row_value_text(
                    row@,
                    keys@[j]@,
                ),
        decreases n - i,
    {
        let text: String = match row.get(keys[i].as_str()) {
            Some(v) => match v {
                RecordValue::Scalar(sv) => scalar_text_exec(sv),
                _ => String::from_str("null"),
            },
            None => String::from_str("null"),
        };
        out.push((keys[i].clone(), text));
        i += 1;
    }
    proof {
        lemma_pairs_view(out@);
        assert(pairs_view(out@) =~= partition_pairs(row@, keys@));
    }
    out
}

/// Computes the schema fingerprint of a field list.
#[verifier::loop_isolation(false)]
pub fn schema_fingerprint_exec(fields: &Vec<String>) -> (r: String)
    ensures
        r@ == schema_fingerprint(fields@),
{
    let ghost fs = fields@;
    let mut words: Vec<u64> = Vec::new();
    let n = fields.len();
    let mut i: usize = 0;
    proof {
        assert(fs.skip(0) =~= fs);
        assert(Seq::<u64>::empty().add(fields_words(fs)) =~= fields_words(fs));
    }
    while i < n
        invariant
            n == fs.len(),
            i <= n,
            fields@ == fs,
            fields_words(fs) == words@.add(fields_words(fs.skip(i as int))),
        decreases n - i,
    {
        proof {
            assert(fs.skip(i as int)[0] == fs[i as int]);
            assert(fs.skip(i as int).drop_first() =~= fs.skip(i as int + 1));
        }
        let ghost pre = words@;
        words.push(fields[i].as_str().unicode_len() as u64);
        crate::signature::push_chars(&mut words, fields[i].as_str());
        proof {
            assert(words@ =~= pre.add(seq![fs[i as int]@.len() as u64].add(chars_u64(fs[i as int]@))));
            assert(fields_words(fs.skip(i as int)) =~= seq![fs[i as int]@.len() as u64].add(
                chars_u64(fs[i as int]@),
            ).add(fields_words(fs.skip(i as int + 1))));
            assert(words@.add(fields_words(fs.skip(i as int + 1))) =~= pre.add(
                fields_words(fs.skip(i as int)),
            ));
        }
        i += 1;
    }
    proof {
        assert(fs.skip(n as int) =~= Seq::<String>::empty());
        assert(words@ =~= fields_words(fs));
    }
    let h = crate::signature::fnv_fold_vec(FNV_OFFSET_BASIS, &words);
    crate::text::u64_to_hex16(h)
}

/// Measures a record for the staging size counter, saturating at the top.
#[verifier::loop_isolation(false)]
fn record_size_exec(row: &Record) -> (r: u64)
    ensures
        r as int == sat_u64(record_size(row@)),
{
    proof {
        crate::value::lemma_record_entries_view(row.entries@);
    }
    let ghost rv = row@;
    let mut acc: u64 = 0;
    let n = row.entries.len();
    let mut i: usize = 0;
    proof {
        assert(rv.skip(0) =~= rv);
        lemma_record_size_split(rv, 0);
    }
    while i < n
        invariant
            n == row.entries.len(),
            rv == row@,
            rv.len() == n,
            forall|j: int|
                0 <= j < n ==> #[trigger] rv[j] == (row.entries@[j].0@, row.entries@[j].1@),
            i <= n,
            acc as int == sat_u64(record_size(rv) - record_size(rv.skip(i as int))),
            record_size(rv.skip(i as int)) >= 0,
            record_size(rv) - record_size(rv.skip(i as int)) >= 0,
        decreases n - i,
    {
        proof {
            assert(rv.skip(i as int)[0] == rv[i as int]);
            assert(rv.skip(i as int).drop_first() =~= rv.skip(i as int + 1));
            lemma_record_size_nonneg(rv.skip(i as int + 1));
        }
        let key_len = row.entries[i].0.as_str().unicode_len();
        let vsz: u64 = match &row.entries[i].1 {
            RecordValue::Scalar(sv) => match sv {
                ScalarValue::Null => 4,
                ScalarValue::Bool(_) => 5,
                ScalarValue::Int(_) => 20,
                ScalarValue::Uint(_) => 20,
                ScalarValue::Float { bits: _, text } => text.as_str().unicode_len() as u64,
                ScalarValue::Str(s) => sat_add_u64(s.as_str().unicode_len() as u64, 2),
            },
            RecordValue::Exemplars(_) => 2,
        };
        acc = sat_add_u64(acc, sat_add_u64(sat_add_u64(key_len as u64, vsz), 2));
        i += 1;
    }
    proof {
        assert(rv.skip(n as int) =~= Seq::<(Seq<char>, ValueView)>::empty());
    }
    acc
}

proof fn lemma_record_size_nonneg(row: Seq<(Seq<char>, ValueView)>)
    ensures
        record_size(row) >= 0,
    decreases row.len(),
{
    if row.len() > 0 {
        lemma_record_size_nonneg(row.drop_first());
        assert(value_size(row[0].1) >= 0);
    }
}

proof fn lemma_record_size_split(row: Seq<(Seq<char>, ValueView)>, i: int)
    requires
        0 <= i <= row.len(),
    ensures
        record_size(row.skip(i)) >= 0,
        record_size(row) - record_size(row.skip(i)) >= 0,
    decreases i,
{
    lemma_record_size_nonneg(row.skip(i));
    if i == 0 {
        assert(row.skip(0) =~= row);
    } else {
        lemma_record_size_split(row, i - 1);
        assert(row.skip(i - 1)[0] == row[i - 1]);
        assert(row.skip(i - 1).drop_first() =~= row.skip(i));
        assert(value_size(row[i - 1].1) >= 0);
    }
}

/// Whether a staging buffer carries exactly the given stream and bucket key.
fn buffer_matches(
    b: &StagingBuffer,
    stream: &str,
    tb: u64,
    part: &Vec<(String, String)>,
    fp: &str,
) -> (r: bool)
    ensures
        r == sb_matches(*b, stream@, tb as int, pairs_view(part@), fp@),
{
    proof {
        lemma_pairs_view(b.partition@);
        lemma_pairs_view(part@);
    }
    if !crate::text::str_eq(b.stream.as_str(), stream) {
        return false;
    }
    if b.time_bucket != tb {
        return false;
    }
    if !crate::text::str_eq(b.fingerprint.as_str(), fp) {
        return false;
    }
    let n = b.partition.len();
    if n != part.len() {
        proof {
            assert(pairs_view(b.partition@).len() != pairs_view(part@).len());
        }
        return false;
    }
    let mut i: usize = 0;
    while i < n
        invariant
            n == b.partition@.len(),
            n == part@.len(),
            i <= n,
            pairs_view(b.partition@).len() == n,
            pairs_view(part@).len() == n,
            forall|j: int|
                0 <= j < n ==> #[trigger] pairs_view(b.partition@)[j] == (
                    b.partition@[j].0@,
                    b.partition@[j].1@,
                ),
            forall|j: int|
                0 <= j < n ==> #[trigger] pairs_view(part@)[j] == (part@[j].0@, part@[j].1@),
            forall|j: int| 0 <= j < i ==> pairs_view(b.partition@)[j] == pairs_view(part@)[j],
        decreases n - i,
    {
        if !crate::text::str_eq(b.partition[i].0.as_str(), part[i].0.as_str()) {
            proof {
                assert(pairs_view(b.partition@)[i as int] != pairs_view(part@)[i as int]);
            }
            return false;
        }
        if !crate::text::str_eq(b.partition[i].1.as_str(), part[i].1.as_str()) {
            proof {
                assert(pairs_view(b.partition@)[i as int] != pairs_view(part@)[i as int]);
            }
            return false;
        }
        i += 1;
    }
    proof {
        assert(pairs_view(b.partition@) =~= pairs_view(part@));
    }
    true
}

impl IngestContext {
    /// Position of the staging buffer for the given stream and bucket key.
    #[verifier::loop_isolation(false)]
    fn find_buffer(&self, stream: &str, tb: u64, part: &Vec<(String, String)>, fp: &str) -> (r:
        Option<usize>)
        ensures
            match r {
                Some(i) => sb_find(self.staging@, stream@, tb as int, pairs_view(part@), fp@)
                    == i as int,
                None => sb_find(self.staging@, stream@, tb as int, pairs_view(part@), fp@) == -1,
            },
    {
        let mut i: usize = 0;
        let n = self.staging.len();
        while i < n
            invariant
                n == self.staging@.len(),
                i <= n,
                forall|j: int|
                    0 <= j < i ==> !sb_matches(
                        #[trigger] self.staging@[j],
                        stream@,
                        tb as int,
                        pairs_view(part@),
                        fp@,
                    ),
            decreases n - i,
        {
            if buffer_matches(&self.staging[i], stream, tb, part, fp) {
                proof {
                    lemma_sb_find_at(
                        self.staging@,
                        stream@,
                        tb as int,
                        pairs_view(part@),
                        fp@,
                        i as int,
                    );
                }
                return Some(i);
            }
            i += 1;
        }
        proof {
            lemma_sb_find_absent(self.staging@, stream@, tb as int, pairs_view(part@), fp@);
        }
        None
    }

    /// Whether the next record bound for the stream requires a schema check:
    /// the stream has not been marked evolved this request, or the record
    /// carries a column the cached schema does not know.
    #[verifier::loop_isolation(false)]
    pub fn needs_schema_check(&self, stream: &str) -> (r: bool)
        requires
            self.wf(),
        ensures
            r == (self.has_stream(stream@) && {
                let st = self.stream_at(stream@);
                st.staged_count < st.direct_rows@.len() && (!st.schema_evolved
                    || row_has_new_column(
                    st.direct_rows@[st.staged_count as int],
                    crate::text::strings_view(st.schema_fields@),
                ))
            }),
    {
        let i = match self.find_stream(stream) {
            Some(i) => i,
            None => {
                return false;
            },
        };
        proof {
            lemma_ss_find_props(self.streams@, stream@);
        }
        let st = &self.streams[i];
        if st.staged_count >= st.direct_rows.len() {
            return false;
        }
        if !st.schema_evolved {
            return true;
        }
        let row = &st.direct_rows[st.staged_count];
        proof {
            crate::value::lemma_record_entries_view(row.entries@);
        }
        let n = row.entries.len();
        let mut j: usize = 0;
        while j < n
            invariant
                n == row.entries@.len(),
                row@.len() == n,
                forall|k: int|
                    0 <= k < n ==> #[trigger] row@[k] == (row.entries@[k].0@, row.entries@[k].1@),
                j <= n,
                forall|k: int|
                    0 <= k < j ==> crate::text::strings_view(st.schema_fields@).contains(
                        (#[trigger] row@[k]).0,
                    ),
            decreases n - j,
        {
            if !crate::signature::contains_name(&st.schema_fields, row.entries[j].0.as_str()) {
                proof {
                    assert(row_has_new_column(
                        *row,
                        crate::text::strings_view(st.schema_fields@),
                    )) by {
                        assert(!crate::text::strings_view(st.schema_fields@).contains(
                            row@[j as int].0,
                        ));
                    }
                }
                return true;
            }
            j += 1;
        }
        false
    }

    /// Records the outcome of a schema check: on success the stream is
    /// marked evolved for the rest of the request and the cached schema is
    /// replaced by the merged one; a failure changes nothing, the record is
    /// still written under the pre-evolution schema.
    pub fn note_schema_checked(&mut self, stream: &str, ok: bool, merged_fields: Vec<String>)
        requires
            old(self).wf(),
            old(self).has_stream(stream@),
        ensures
            ({
                let i = ss_find(old(self).streams@, stream@);
                let st = old(self).streams@[i];
                &&& final(self).streams@.len() == old(self).streams@.len()
                &&& forall|j: int|
                    0 <= j < old(self).streams@.len() && j != i ==> final(self).streams@[j] == old(self).streams@[j]
                &&& final(self).streams@[i] == if ok {
                    StreamState { schema_fields: merged_fields, schema_evolved: true, ..st }
                } else {
                    st
                }
            }),
            final(self).staging == old(self).staging,
            final(self).partial == old(self).partial,
            final(self).org_id == old(self).org_id,
            final(self).wf(),
    {
        let i = match self.find_stream(stream) {
            Some(i) => i,
            None => {
                proof {
                    assert(false);
                }
                0
            },
        };
        proof {
            lemma_ss_find_props(self.streams@, stream@);
        }
        let ghost pre = self.streams@;
        if ok {
            self.streams[i].schema_fields = merged_fields;
            self.streams[i].schema_evolved = true;
        }
        proof {
            assert forall|a: int, b: int| 0 <= a < b < self.streams@.len() implies (
            #[trigger] self.streams@[a]).name@ != (#[trigger] self.streams@[b]).name@ by {
                assert(self.streams@[a].name@ == pre[a].name@);
                assert(self.streams@[b].name@ == pre[b].name@);
            }
        }
    }

    /// Stages the next buffered record of the stream: computes the schema
    /// fingerprint, the time bucket and the partition values, and appends
    /// the record to the buffer for that exact key, creating it if absent —
    /// so a buffer only ever holds records staged under its own fingerprint.
    /// Returns a copy of the record exactly when this stream's alert rules
    /// are still waiting for their one representative record.
    #[verifier::loop_isolation(false)]
    pub fn stage_next_record(&mut self, stream: &str, now: i64) -> (r: Option<Record>)
        requires
            old(self).wf(),
            old(self).has_stream(stream@),
        ensures
            final(self).wf(),
            final(self).org_id == old(self).org_id,
            final(self).partial == old(self).partial,
            ({
                let i = ss_find(old(self).streams@, stream@);
                let st = old(self).streams@[i];
                if st.staged_count >= st.direct_rows@.len() {
                    *final(self) == *old(self) && r is None
                } else {
                    let row = st.direct_rows@[st.staged_count as int];
                    let fp = schema_fingerprint(st.schema_fields@);
                    let tb = bucket_of(ts_of_row(row@, now), st.granularity);
                    let part = partition_pairs(row@, st.partition_keys@);
                    let b = sb_find(old(self).staging@, st.name@, tb, part, fp);
                    let issued = st.alert_count > 0 && st.trigger is None
                        && !st.alert_record_issued;
                    &&& final(self).streams@.len() == old(self).streams@.len()
                    &&& forall|j: int|
                        0 <= j < old(self).streams@.len() && j != i ==> final(self).streams@[j]
                            == old(self).streams@[j]
                    &&& final(self).streams@[i] == StreamState {
                        staged_count: (st.staged_count + 1) as usize,
                        alert_record_issued: st.alert_record_issued || issued,
                        ..st
                    }
                    &&& (match r {
                        Some(x) => issued && x@ == row@,
                        None => !issued,
                    })
                    &&& if b >= 0 {
                        let ob = old(self).staging@[b];
                        &&& ob.fingerprint@ == fp
                        &&& final(self).staging@.len() == old(self).staging@.len()
                        &&& forall|j: int|
                            0 <= j < old(self).staging@.len() && j != b ==> final(self).staging@[j]
                                == old(self).staging@[j]
                        &&& ({
                            let nb = final(self).staging@[b];
                            &&& nb.stream == ob.stream
                            &&& nb.time_bucket == ob.time_bucket
                            &&& nb.partition == ob.partition
                            &&& nb.fingerprint == ob.fingerprint
                            &&& nb.schema_fields == ob.schema_fields
                            &&& nb.records@.len() == ob.records@.len() + 1
                            &&& nb.records@.subrange(0, ob.records@.len() as int) == ob.records@
                            &&& nb.records@.last()@ == row@
                            &&& nb.records_size as int == sat_u64(
                                ob.records_size + sat_u64(record_size(row@)),
                            )
                        })
                    } else {
                        &&& final(self).staging@.len() == old(self).staging@.len() + 1
                        &&& final(self).staging@.subrange(0, old(self).staging@.len() as int)
                            == old(self).staging@
                        &&& ({
                            let nb = final(self).staging@.last();
                            &&& nb.stream@ == st.name@
                            &&& nb.time_bucket as int == tb
                            &&& pairs_view(nb.partition@) == part
                            &&& nb.fingerprint@ == fp
                            &&& crate::text::strings_view(nb.schema_fields@)
                                == crate::text::strings_view(st.schema_fields@)
                            &&& nb.records@.len() == 1
                            &&& nb.records@[0]@ == row@
                            &&& nb.records_size as int == sat_u64(record_size(row@))
                        })
                    }
                }
            }),
    {
        let i = match self.find_stream(stream) {
            Some(i) => i,
            None => {
                proof {
                    assert(false);
                }
                0
            },
        };
        proof {
            lemma_ss_find_props(self.streams@, stream@);
        }
        let sc = self.streams[i].staged_count;
        if sc >= self.streams[i].direct_rows.len() {
            return None;
        }
        let ghost pre = self.streams@;
        let ghost prestaging = self.staging@;
        let ts = row_ts(&self.streams[i].direct_rows[sc], now);
        let tb = time_bucket(ts, self.streams[i].granularity);
        let part = partition_pairs_exec(
            &self.streams[i].direct_rows[sc],
            &self.streams[i].partition_keys,
        );
        let fp = schema_fingerprint_exec(&self.streams[i].schema_fields);
        let size = record_size_exec(&self.streams[i].direct_rows[sc]);
        let rowcopy = self.streams[i].direct_rows[sc].duplicate();
        let bidx = self.find_buffer(self.streams[i].name.as_str(), tb, &part, fp.as_str());
        match bidx {
            Some(b) => {
                proof {
                    lemma_sb_find_props(
                        self.staging@,
                        pre[i as int].name@,
                        tb as int,
                        pairs_view(part@),
                        fp@,
                    );
                }
                self.staging[b].records.push(rowcopy);
                let s0 = self.staging[b].records_size;
                self.staging[b].records_size = sat_add_u64(s0, size);
                proof {
                    assert(self.staging@[b as int].records@.subrange(
                        0,
                        prestaging[b as int].records@.len() as int,
                    ) =~= prestaging[b as int].records@);
                }
            },
            None => {
                let mut records: Vec<Record> = Vec::new();
                records.push(rowcopy);
                let nb = StagingBuffer {
                    stream: self.streams[i].name.clone(),
                    time_bucket: tb,
                    partition: part,
                    fingerprint: fp,
                    schema_fields: self.streams[i].schema_fields.clone(),
                    records,
                    records_size: size,
                };
                proof {
                    crate::text::lemma_strings_view(nb.schema_fields@);
                    crate::text::lemma_strings_view(pre[i as int].schema_fields@);
                    assert(crate::text::strings_view(nb.schema_fields@)
                        =~= crate::text::strings_view(pre[i as int].schema_fields@));
                }
                self.staging.push(nb);
                proof {
                    assert(self.staging@.subrange(0, prestaging.len() as int) =~= prestaging);
                }
            },
        }
        self.streams[i].staged_count = sc + 1;
        let issued = self.streams[i].alert_count > 0 && self.streams[i].trigger.is_none()
            && !self.streams[i].alert_record_issued;
        let r = if issued {
            self.streams[i].alert_record_issued = true;
            Some(self.streams[i].direct_rows[sc].duplicate())
        } else {
            None
        };
        proof {
            assert forall|a: int, b: int| 0 <= a < b < self.streams@.len() implies (
            #[trigger] self.streams@[a]).name@ != (#[trigger] self.streams@[b]).name@ by {
                assert(self.streams@[a].name@ == pre[a].name@);
                assert(self.streams@[b].name@ == pre[b].name@);
            }
        }
        r
    }

    /// Stages the alert-evaluation outcome for a stream, at most once per
    /// request: a second result for the same stream is ignored.
    pub fn record_alert_result(&mut self, stream: &str, fired_rules: Vec<u64>)
        requires
            old(self).wf(),
            old(self).has_stream(stream@),
        ensures
            ({
                let i = ss_find(old(self).streams@, stream@);
                let st = old(self).streams@[i];
                &&& final(self).streams@.len() == old(self).streams@.len()
                &&& forall|j: int|
                    0 <= j < old(self).streams@.len() && j != i ==> final(self).streams@[j] == old(self).streams@[j]
                &&& final(self).streams@[i] == if st.trigger is None {
                    StreamState { trigger: Some(fired_rules), ..st }
                } else {
                    st
                }
            }),
            final(self).staging == old(self).staging,
            final(self).partial == old(self).partial,
            final(self).org_id == old(self).org_id,
            final(self).wf(),
    {
        let i = match self.find_stream(stream) {
            Some(i) => i,
            None => {
                proof {
                    assert(false);
                }
                0
            },
        };
        proof {
            lemma_ss_find_props(self.streams@, stream@);
        }
        let ghost pre = self.streams@;
        if self.streams[i].trigger.is_none() {
            self.streams[i].trigger = Some(fired_rules);
        }
        proof {
            assert forall|a: int, b: int| 0 <= a < b < self.streams@.len() implies (
            #[trigger] self.streams@[a]).name@ != (#[trigger] self.streams@[b]).name@ by {
                assert(self.streams@[a].name@ == pre[a].name@);
                assert(self.streams@[b].name@ == pre[b].name@);
            }
        }
    }
}

/// The staged trigger batches from position `i` on: one entry per stream
/// whose alert evaluation fired, in stream order.
pub open spec fn fired_from(ss: Seq<StreamState>, i: int) -> Seq<(Seq<char>, Seq<u64>)>
    decreases ss.len() - i,
{
    if i < 0 || i >= ss.len() {
        Seq::<(Seq<char>, Seq<u64>)>::empty()
    } else {
        match ss[i].trigger {
            Some(ids) => seq![(ss[i].name@, ids@)].add(fired_from(ss, i + 1)),
            None => fired_from(ss, i + 1),
        }
    }
}

/// The specification-level contents of a trigger list.
pub open spec fn trig_view(s: Seq<(String, Vec<u64>)>) -> Seq<(Seq<char>, Seq<u64>)>
    decreases s.len(),
{
    if s.len() == 0 {
        Seq::<(Seq<char>, Seq<u64>)>::empty()
    } else {
        trig_view(s.drop_last()).push((s.last().0@, s.last().1@))
    }
}

pub broadcast proof fn lemma_trig_view(s: Seq<(String, Vec<u64>)>)
    ensures
        (#[trigger] trig_view(s)).len() == s.len(),
        forall|j: int| 0 <= j < s.len() ==> #[trigger] trig_view(s)[j] == (s[j].0@, s[j].1@),
    decreases s.len(),
{
    if s.len() > 0 {
        lemma_trig_view(s.drop_last());
    }
}

/// The buffers of the given stream, in staging order.
pub open spec fn sb_keep(s: Seq<StagingBuffer>, name: Seq<char>) -> Seq<StagingBuffer>
    decreases s.len(),
{
    if s.len() == 0 {
        Seq::<StagingBuffer>::empty()
    } else if s[0].stream@ == name {
        seq![s[0]].add(sb_keep(s.drop_first(), name))
    } else {
        sb_keep(s.drop_first(), name)
    }
}

/// The staging buffers that remain when one stream's are taken out.
pub open spec fn sb_drop(s: Seq<StagingBuffer>, name: Seq<char>) -> Seq<StagingBuffer>
    decreases s.len(),
{
    if s.len() == 0 {
        Seq::<StagingBuffer>::empty()
    } else if s[0].stream@ == name {
        sb_drop(s.drop_first(), name)
    } else {
        seq![s[0]].add(sb_drop(s.drop_first(), name))
    }
}

/// The record count of a batch's buffers.
pub open spec fn batch_records(bufs: Seq<StagingBuffer>) -> int
    decreases bufs.len(),
{
    if bufs.len() == 0 {
        0
    } else {
        bufs[0].records@.len() + batch_records(bufs.drop_first())
    }
}

/// The accounted byte size of a batch's buffers.
pub open spec fn batch_bytes(bufs: Seq<StagingBuffer>) -> int
    decreases bufs.len(),
{
    if bufs.len() == 0 {
        0
    } else {
        bufs[0].records_size + batch_bytes(bufs.drop_first())
    }
}

proof fn lemma_batch_sums_nonneg(bufs: Seq<StagingBuffer>)
    ensures
        batch_records(bufs) >= 0,
        batch_bytes(bufs) >= 0,
    decreases bufs.len(),
{
    if bufs.len() > 0 {
        lemma_batch_sums_nonneg(bufs.drop_first());
    }
}

/// The per-stream usage statistics of a commit batch: how many records it
/// carries and their accounted byte size, both saturating at the top.
#[verifier::loop_isolation(false)]
pub fn batch_stats(b: &CommitBatch) -> (r: (u64, u64))
    ensures
        r.0 as int == sat_u64(batch_records(b.buffers@)),
        r.1 as int == sat_u64(batch_bytes(b.buffers@)),
{
    let ghost bufs = b.buffers@;
    let mut records: u64 = 0;
    let mut bytes: u64 = 0;
    let n = b.buffers.len();
    let mut i: usize = 0;
    proof {
        assert(bufs.skip(0) =~= bufs);
        lemma_batch_sums_nonneg(bufs);
        lemma_batch_sums_nonneg(bufs.skip(0));
    }
    while i < n
        invariant
            n == bufs.len(),
            i <= n,
            b.buffers@ == bufs,
            records as int == sat_u64(batch_records(bufs) - batch_records(bufs.skip(i as int))),
            bytes as int == sat_u64(batch_bytes(bufs) - batch_bytes(bufs.skip(i as int))),
            batch_records(bufs.skip(i as int)) >= 0,
            batch_bytes(bufs.skip(i as int)) >= 0,
            batch_records(bufs) - batch_records(bufs.skip(i as int)) >= 0,
            batch_bytes(bufs) - batch_bytes(bufs.skip(i as int)) >= 0,
        decreases n - i,
    {
        proof {
            assert(bufs.skip(i as int)[0] == bufs[i as int]);
            assert(bufs.skip(i as int).drop_first() =~= bufs.skip(i as int + 1));
            lemma_batch_sums_nonneg(bufs.skip(i as int + 1));
        }
        records = sat_add_u64(records, b.buffers[i].records.len() as u64);
        bytes = sat_add_u64(bytes, b.buffers[i].records_size);
        i += 1;
    }
    proof {
        assert(bufs.skip(n as int) =~= Seq::<StagingBuffer>::empty());
    }
    (records, bytes)
}

impl IngestContext {
    /// Takes every staged trigger batch, each fired exactly once after the
    /// whole request's writes were attempted.
    #[verifier::loop_isolation(false)]
    pub fn take_triggers(&mut self) -> (r: Vec<(String, Vec<u64>)>)
        requires
            old(self).wf(),
        ensures
            trig_view(r@) == fired_from(old(self).streams@, 0),
            final(self).streams@.len() == old(self).streams@.len(),
            forall|j: int|
                0 <= j < old(self).streams@.len() ==> #[trigger] final(self).streams@[j] == (
                StreamState { trigger: Option::None, ..old(self).streams@[j] }),
            final(self).staging == old(self).staging,
            final(self).partial == old(self).partial,
            final(self).org_id == old(self).org_id,
            final(self).wf(),
    {
        let ghost pre = self.streams@;
        let mut out: Vec<(String, Vec<u64>)> = Vec::new();
        let n = self.streams.len();
        let mut i: usize = 0;
        proof {
            lemma_trig_view(out@);
            assert(trig_view(out@) =~= Seq::<(Seq<char>, Seq<u64>)>::empty());
        }
        while i < n
            invariant
                n == pre.len(),
                i <= n,
                self.streams@.len() == n,
                forall|j: int|
                    0 <= j < i ==> #[trigger] self.streams@[j] == (StreamState {
                        trigger: Option::None,
                        ..pre[j]
                    }),
                forall|j: int| i <= j < n ==> #[trigger] self.streams@[j] == pre[j],
                fired_from(pre, 0) == trig_view(out@).add(fired_from(pre, i as int)),
                self.staging == old(self).staging,
                self.partial == old(self).partial,
                self.org_id == old(self).org_id,
            decreases n - i,
        {
            let mut tmp: Option<Vec<u64>> = None;
            core::mem::swap(&mut self.streams[i].trigger, &mut tmp);
            match tmp {
                Some(ids) => {
                    let ghost idsg = ids;
                    let ghost opre = out@;
                    out.push((self.streams[i].name.clone(), ids));
                    proof {
                        lemma_trig_view(out@);
                        lemma_trig_view(opre);
                        assert(out@.drop_last() =~= opre);
                        assert(trig_view(out@) =~= trig_view(opre).push(
                            (pre[i as int].name@, idsg@),
                        ));
                        assert(fired_from(pre, i as int) =~= seq![
                            (pre[i as int].name@, idsg@),
                        ].add(fired_from(pre, i as int + 1)));
                        assert(trig_view(out@).add(fired_from(pre, i as int + 1)) =~= trig_view(
                            opre,
                        ).add(fired_from(pre, i as int)));
                    }
                },
                None => {
                    proof {
                        assert(fired_from(pre, i as int) =~= fired_from(pre, i as int + 1));
                    }
                },
            }
            i += 1;
        }
        proof {
            assert(fired_from(pre, n as int) =~= Seq::<(Seq<char>, Seq<u64>)>::empty());
            assert(trig_view(out@).add(fired_from(pre, n as int)) =~= trig_view(out@));
            assert forall|a: int, b: int| 0 <= a < b < self.streams@.len() implies (
            #[trigger] self.streams@[a]).name@ != (#[trigger] self.streams@[b]).name@ by {
                assert(self.streams@[a].name@ == pre[a].name@);
                assert(self.streams@[b].name@ == pre[b].name@);
            }
        }
        out
    }

    /// The commit decision for one stream: a stream being deleted is skipped
    /// entirely — its buffers never reach the writer, and nothing is added
    /// to the rejected count; otherwise its staged buffers leave as one
    /// batch for the durable writer.
    #[verifier::loop_isolation(false)]
    pub fn take_commit_batch(&mut self, stream: &str, is_deleting: bool) -> (r: Option<
        CommitBatch,
    >)
        requires
            old(self).wf(),
        ensures
            final(self).staging@ == sb_drop(old(self).staging@, stream@),
            final(self).streams == old(self).streams,
            final(self).partial == old(self).partial,
            final(self).org_id == old(self).org_id,
            final(self).wf(),
            is_deleting ==> r is None,
            !is_deleting ==> match r {
                Some(b) => sb_keep(old(self).staging@, stream@).len() > 0 && b.stream@ == stream@
                    && b.buffers@ == sb_keep(old(self).staging@, stream@),
                None => sb_keep(old(self).staging@, stream@).len() == 0,
            },
    {
        let ghost orig = self.staging@;
        let mut kept: Vec<StagingBuffer> = Vec::new();
        let mut rest: Vec<StagingBuffer> = Vec::new();
        let ghost mut k: int = 0;
        proof {
            assert(orig.skip(0) =~= orig);
            assert(kept@.add(sb_keep(orig.skip(0), stream@)) =~= sb_keep(orig, stream@));
            assert(rest@.add(sb_drop(orig.skip(0), stream@)) =~= sb_drop(orig, stream@));
        }
        while self.staging.len() > 0
            invariant
                0 <= k <= orig.len(),
                self.staging@ == orig.skip(k),
                sb_keep(orig, stream@) == kept@.add(sb_keep(orig.skip(k), stream@)),
                sb_drop(orig, stream@) == rest@.add(sb_drop(orig.skip(k), stream@)),
                self.streams == old(self).streams,
                self.partial == old(self).partial,
                self.org_id == old(self).org_id,
            decreases self.staging@.len(),
        {
            proof {
                assert(orig.skip(k)[0] == orig[k]);
                assert(orig.skip(k).drop_first() =~= orig.skip(k + 1));
            }
            let b = self.staging.remove(0);
            let ghost bg = b;
            if crate::text::str_eq(b.stream.as_str(), stream) {
                let ghost kpre = kept@;
                kept.push(b);
                proof {
                    assert(sb_keep(orig.skip(k), stream@) =~= seq![bg].add(
                        sb_keep(orig.skip(k + 1), stream@),
                    ));
                    assert(sb_drop(orig.skip(k), stream@) =~= sb_drop(orig.skip(k + 1), stream@));
                    assert(kept@.add(sb_keep(orig.skip(k + 1), stream@)) =~= kpre.add(
                        sb_keep(orig.skip(k), stream@),
                    ));
                }
            } else {
                let ghost rpre = rest@;
                rest.push(b);
                proof {
                    assert(sb_drop(orig.skip(k), stream@) =~= seq![bg].add(
                        sb_drop(orig.skip(k + 1), stream@),
                    ));
                    assert(sb_keep(orig.skip(k), stream@) =~= sb_keep(orig.skip(k + 1), stream@));
                    assert(rest@.add(sb_drop(orig.skip(k + 1), stream@)) =~= rpre.add(
                        sb_drop(orig.skip(k), stream@),
                    ));
                }
            }
            proof {
                k = k + 1;
            }
        }
        proof {
            assert(k == orig.len());
            assert(orig.skip(k) =~= Seq::<StagingBuffer>::empty());
            assert(kept@ =~= sb_keep(orig, stream@));
            assert(rest@ =~= sb_drop(orig, stream@));
        }
        self.staging = rest;
        if is_deleting {
            return None;
        }
        if kept.len() == 0 {
            return None;
        }
        Some(CommitBatch { stream: stream.to_owned(), buffers: kept })
    }
}

} // verus!
