//! The computational pieces of the latest-traces query: query-parameter
//! parsing and validation, the query-range restriction, the per-span
//! aggregation into per-trace summaries, the pagination decision, and the
//! final ordering.  The searches themselves are an external collaborator;
//! the surrounding application runs them and feeds the hits through these
//! functions.

use vstd::prelude::*;

verus! {

use vstd::multiset::Multiset;

use crate::text::dec_str_signed;
use crate::value::Record;

/// The numeric value of a digit string, most significant first.
pub open spec fn dec_value(s: Seq<char>) -> int
    decreases s.len(),
{
    if s.len() == 0 {
        0
    } else {
        dec_value(s.drop_last()) * 10 + (s.last() as int - 48)
    }
}

/// Whether every character is a decimal digit, and there is at least one.
pub open spec fn all_digits(s: Seq<char>) -> bool {
    s.len() > 0 && forall|i: int| 0 <= i < s.len() ==> 48 <= (#[trigger] s[i]) as int <= 57
}

/// What a decimal string parses to: an optional leading minus sign, then
/// digits, within the signed 64-bit range; anything else is nothing.
pub open spec fn parse_i64_spec(s: Seq<char>) -> Option<int> {
    if s.len() > 0 && s[0] == '-' {
        if all_digits(s.drop_first()) && dec_value(s.drop_first()) <= 0x8000000000000000 {
            Some(-dec_value(s.drop_first()))
        } else {
            None
        }
    } else if all_digits(s) && dec_value(s) <= 0x7fffffffffffffff {
        Some(dec_value(s))
    } else {
        None
    }
}

/// Accumulates the digits of `s` from position `from` on as an unsigned
/// magnitude, refusing anything beyond the smallest signed value's.
#[verifier::loop_isolation(false)]
fn parse_digits_mag(s: &str, from: usize) -> (r: Option<u64>)
    requires
        from < s@.len(),
    ensures
        match r {
            Some(m) => all_digits(s@.skip(from as int)) && m as int == dec_value(
                s@.skip(from as int),
            ) && m <= 0x8000000000000000,
            None => !all_digits(s@.skip(from as int)) || dec_value(s@.skip(from as int))
                > 0x8000000000000000,
        },
{
    let n = s.unicode_len();
    let ghost ds = s@.skip(from as int);
    let mut acc: u64 = 0;
    let mut i: usize = from;
    proof {
        assert(ds.take(0) =~= Seq::<char>::empty());
    }
    while i < n
        invariant
            from <= i <= n,
            n == s@.len(),
            from < n,
            ds == s@.skip(from as int),
            ds.len() == n - from,
            forall|j: int| 0 <= j < i - from ==> 48 <= (#[trigger] ds[j]) as int <= 57,
            acc as int == dec_value(ds.take(i - from)),
            acc <= 0x8000000000000000,
        decreases n - i,
    {
        let c = s.get_char(i);
        let u = c as u32;
        if u < 48 || u > 57 {
            proof {
                assert(ds[i - from] == s@[i as int]);
                assert(!all_digits(ds));
            }
            return None;
        }
        proof {
            assert(ds.take(i - from + 1).drop_last() =~= ds.take(i - from));
            assert(ds.take(i - from + 1).last() == ds[i - from]);
            assert(ds[i - from] == s@[i as int]);
        }
        let next: u128 = acc as u128 * 10 + (u - 48) as u128;
        if next > 0x8000000000000000u128 {
            proof {
                if all_digits(ds) {
                    lemma_dec_value_grows(ds, ds.len() as int);
                    assert(ds.take(ds.len() as int) =~= ds);
                    assert(dec_value(ds.take(i - from + 1)) <= dec_value(ds));
                }
            }
            return None;
        }
        acc = next as u64;
        i += 1;
    }
    proof {
        assert(ds.take(n - from) =~= ds);
    }
    Some(acc)
}

/// A longer digit prefix never shrinks the value.
proof fn lemma_dec_value_grows(s: Seq<char>, m: int)
    requires
        0 <= m <= s.len(),
        forall|j: int| 0 <= j < m ==> 48 <= (#[trigger] s[j]) as int <= 57,
    ensures
        dec_value(s.take(m)) >= 0,
        forall|k: int| 0 <= k <= m ==> #[trigger] dec_value(s.take(k)) <= dec_value(s.take(m)),
    decreases m,
{
    if m > 0 {
        lemma_dec_value_grows(s, m - 1);
        assert(s.take(m).drop_last() =~= s.take(m - 1));
        assert(s.take(m).last() == s[m - 1]);
        assert(dec_value(s.take(m)) == dec_value(s.take(m - 1)) * 10 + (s[m - 1] as int - 48));
        assert forall|k: int| 0 <= k <= m implies #[trigger] dec_value(s.take(k)) <= dec_value(
            s.take(m),
        ) by {
            if k < m {
                assert(dec_value(s.take(k)) <= dec_value(s.take(m - 1)));
            }
        }
    }
}

/// Parses a decimal query parameter, falling back to the given default for
/// anything that does not parse as a signed 64-bit number.
pub fn parse_i64_or(s: &str, default: i64) -> (r: i64)
    ensures
        r as int == match parse_i64_spec(s@) {
            Some(v) => v,
            None => default as int,
        },
{
    let n = s.unicode_len();
    if n == 0 {
        return default;
    }
    if s.get_char(0) == '-' {
        if n == 1 {
            proof {
                assert(s@.drop_first().len() == 0);
                assert(!all_digits(s@.drop_first()));
            }
            return default;
        }
        proof {
            assert(s@.skip(1) =~= s@.drop_first());
        }
        match parse_digits_mag(s, 1) {
            Some(m) => {
                if m == 0x8000000000000000u64 {
                    -0x7fffffffffffffffi64 - 1
                } else {
                    -(m as i64)
                }
            },
            None => default,
        }
    } else {
        proof {
            assert(s@.skip(0) =~= s@);
        }
        match parse_digits_mag(s, 0) {
            Some(m) => {
                if m == 0x8000000000000000u64 {
                    default
                } else {
                    m as i64
                }
            },
            None => default,
        }
    }
}

/// Why a latest-traces query is refused.
#[derive(Clone, Copy, Debug, PartialEq, Eq, Structural)]
pub enum TraceQueryError {
    EmptyStartTime,
    EmptyEndTime,
}

/// A query must carry both ends of its time window.
pub fn check_times(start_time: i64, end_time: i64) -> (r: Result<(), TraceQueryError>)
    ensures
        start_time == 0 ==> r == Result::<(), TraceQueryError>::Err(TraceQueryError::EmptyStartTime),
        start_time != 0 && end_time == 0 ==> r == Result::<(), TraceQueryError>::Err(
            TraceQueryError::EmptyEndTime,
        ),
        start_time != 0 && end_time != 0 ==> r is Ok,
{
    if start_time == 0 {
        Err(TraceQueryError::EmptyStartTime)
    } else if end_time == 0 {
        Err(TraceQueryError::EmptyEndTime)
    } else {
        Ok(())
    }
}

/// The query window after the range restriction: a window longer than the
/// allowed number of hours is cut back from its end.
pub fn clamp_query_range(start_time: i64, end_time: i64, max_query_range: i64) -> (r: (i64, bool))
    ensures
        max_query_range > 0 && end_time as int - start_time as int > max_query_range as int
            * 3600000000 ==> r.0 as int == end_time as int - max_query_range as int * 3600000000
            && r.1,
        !(max_query_range > 0 && end_time as int - start_time as int > max_query_range as int
            * 3600000000) ==> r.0 == start_time && !r.1,
{
    if max_query_range <= 0 {
        return (start_time, false);
    }
    let window: i128 = end_time as i128 - start_time as i128;
    let allowed: i128 = max_query_range as i128 * 3600000000i128;
    if window > allowed {
        let clamped: i128 = end_time as i128 - allowed;
        proof {
            assert(end_time as int - max_query_range as int * 3600000000
                >= -0x8000000000000000) by (nonlinear_arith)
                requires
                    max_query_range as int > 0,
                    end_time as int - start_time as int > max_query_range as int * 3600000000,
                    start_time >= -0x8000000000000000,
            ;
        }
        ((clamped) as i64, true)
    } else {
        (start_time, false)
    }
}

/// The warning handed back when the window was cut.
pub fn range_warning(max_query_range: i64) -> (r: String)
    ensures
        r@ == "Query duration is modified due to query range restriction of "@.add(
            dec_str_signed(max_query_range as int),
        ).add(" hours"@),
{
    let mut s = String::from_str("Query duration is modified due to query range restriction of ");
    s.append(crate::text::i64_to_string(max_query_range).as_str());
    s.append(" hours");
    s
}

/// One per-trace summary: span counts, the trace's time span, its service
/// mix, and the first event seen.
pub struct TraceSummary {
    pub trace_id: String,
    pub start_time: i64,
    pub end_time: i64,
    pub duration: i64,
    pub spans: u64,
    pub error_spans: u64,
    pub service_name: Vec<(String, u64)>,
    pub first_event: Option<Record>,
}

/// A fresh summary, as the first summary query seeds it.
pub fn seed_trace(trace_id: String, start_time: i64, end_time: i64) -> (r: TraceSummary)
    ensures
        r.trace_id == trace_id,
        r.start_time == start_time,
        r.end_time == end_time,
        r.duration == 0,
        r.spans == 0,
        r.error_spans == 0,
        r.service_name@ == Seq::<(String, u64)>::empty(),
        r.first_event is None,
{
    TraceSummary {
        trace_id,
        start_time,
        end_time,
        duration: 0,
        spans: 0,
        error_spans: 0,
        service_name: Vec::new(),
        first_event: None,
    }
}

/// Division by 1000 truncating toward zero, as the original computes it on
/// signed nanosecond times.
pub open spec fn div_trunc_1000(n: int) -> int {
    if n >= 0 {
        n / 1000
    } else {
        -((-n) / 1000)
    }
}

/// Widens the query window so the detail query covers the whole trace:
/// trace times are nanoseconds, the window microseconds.
pub fn widen_window(start_time: i64, end_time: i64, trace_start: i64, trace_end: i64) -> (r: (
    i64,
    i64,
))
    ensures
        r.0 as int == if div_trunc_1000(trace_start as int) < start_time as int {
            div_trunc_1000(trace_start as int)
        } else {
            start_time as int
        },
        r.1 as int == if div_trunc_1000(trace_end as int) > end_time as int {
            div_trunc_1000(trace_end as int)
        } else {
            end_time as int
        },
{
    let ts = div_1000(trace_start);
    let te = div_1000(trace_end);
    (
        if ts < start_time {
            ts
        } else {
            start_time
        },
        if te > end_time {
            te
        } else {
            end_time
        },
    )
}

/// Signed division by 1000, truncating toward zero.
fn div_1000(n: i64) -> (r: i64)
    ensures
        r as int == div_trunc_1000(n as int),
{
    if n >= 0 {
        ((n as u64) / 1000) as i64
    } else {
        let m: u64 = (((-(n + 1)) as u64) + 1) / 1000;
        proof {
            assert(m == ((-(n as int)) as nat) / 1000);
        }
        -(m as i64)
    }
}

/// Position of the first service-mix entry for the named service, or -1.
pub open spec fn svc_find(s: Seq<(String, u64)>, name: Seq<char>) -> int
    decreases s.len(),
{
    if s.len() == 0 {
        -1
    } else if s[0].0@ == name {
        0
    } else {
        let r = svc_find(s.drop_first(), name);
        if r < 0 {
            -1
        } else {
            r + 1
        }
    }
}

proof fn lemma_svc_find_at(s: Seq<(String, u64)>, name: Seq<char>, i: int)
    requires
        0 <= i < s.len(),
        s[i].0@ == name,
        forall|j: int| 0 <= j < i ==> (#[trigger] s[j]).0@ != name,
    ensures
        svc_find(s, name) == i,
    decreases s.len(),
{
    if i > 0 {
        assert forall|j: int| 0 <= j < i - 1 implies (#[trigger] s.drop_first()[j]).0@ != name by {
            assert(s.drop_first()[j] == s[j + 1]);
        }
        assert(s.drop_first()[i - 1] == s[i]);
        lemma_svc_find_at(s.drop_first(), name, i - 1);
    }
}

proof fn lemma_svc_find_absent(s: Seq<(String, u64)>, name: Seq<char>)
    requires
        forall|j: int| 0 <= j < s.len() ==> (#[trigger] s[j]).0@ != name,
    ensures
        svc_find(s, name) == -1,
    decreases s.len(),
{
    if s.len() > 0 {
        assert forall|j: int| 0 <= j < s.drop_first().len() implies (#[trigger] s.drop_first()[
        j]).0@ != name by {
            assert(s.drop_first()[j] == s[j + 1]);
        }
        lemma_svc_find_absent(s.drop_first(), name);
    }
}

/// One span of the named service added to the service mix: the first entry
/// for that service grows by one, saturating at the top; a service not yet
/// in the mix enters at the end with count one.
pub open spec fn svc_bump(s: Seq<(String, u64)>, name: String) -> Seq<(String, u64)> {
    let i = svc_find(s, name@);
    if i >= 0 {
        s.update(
            i,
            (
                s[i].0,
                if s[i].1 == 0xffffffffffffffffu64 {
                    s[i].1
                } else {
                    (s[i].1 + 1) as u64
                },
            ),
        )
    } else {
        s.push((name, 1u64))
    }
}

/// Adds one span of the given service to the service mix.
#[verifier::loop_isolation(false)]
fn bump_service(list: Vec<(String, u64)>, service_name: String) -> (r: Vec<(String, u64)>)
    ensures
        r@ == svc_bump(list@, service_name),
{
    let ghost pre = list@;
    let mut list = list;
    let n = list.len();
    let mut i: usize = 0;
    while i < n
        invariant
            n == list@.len(),
            list@ == pre,
            i <= n,
            forall|j: int| 0 <= j < i ==> (#[trigger] pre[j]).0@ != service_name@,
        decreases n - i,
    {
        if crate::text::str_eq(list[i].0.as_str(), service_name.as_str()) {
            proof {
                lemma_svc_find_at(pre, service_name@, i as int);
            }
            let c = list[i].1;
            list[i].1 = if c == 0xffffffffffffffffu64 {
                c
            } else {
                c + 1
            };
            proof {
                assert(list@ =~= svc_bump(pre, service_name));
            }
            return list;
        }
        i += 1;
    }
    proof {
        lemma_svc_find_absent(pre, service_name@);
    }
    list.push((service_name, 1));
    proof {
        assert(list@ =~= svc_bump(pre, service_name));
    }
    list
}

/// Folds one detail span into its trace's summary: the span counters, the
/// error counter, the widest duration and time span, the per-service span
/// count, and the first event, which is kept once and never replaced.
pub fn merge_span(
    t: TraceSummary,
    span_start: i64,
    span_end: i64,
    duration: i64,
    service_name: String,
    is_error: bool,
    event: Record,
) -> (r: TraceSummary)
    ensures
        r.trace_id == t.trace_id,
        r.spans as int == if t.spans as int + 1 > 0xffffffffffffffff {
            0xffffffffffffffff as int
        } else {
            t.spans as int + 1
        },
        r.error_spans as int == if is_error {
            if t.error_spans as int + 1 > 0xffffffffffffffff {
                0xffffffffffffffff as int
            } else {
                t.error_spans as int + 1
            }
        } else {
            t.error_spans as int
        },
        r.duration == if t.duration < duration {
            duration
        } else {
            t.duration
        },
        r.start_time == if t.start_time == 0 || t.start_time > span_start {
            span_start
        } else {
            t.start_time
        },
        r.end_time == if t.end_time < span_end {
            span_end
        } else {
            t.end_time
        },
        r.first_event == if t.first_event is None {
            Some(event)
        } else {
            t.first_event
        },
        r.service_name@ == svc_bump(t.service_name@, service_name),
{
    TraceSummary {
        trace_id: t.trace_id,
        spans: if t.spans == 0xffffffffffffffffu64 {
            t.spans
        } else {
            t.spans + 1
        },
        error_spans: if is_error && t.error_spans != 0xffffffffffffffffu64 {
            t.error_spans + 1
        } else {
            t.error_spans
        },
        duration: if t.duration < duration {
            duration
        } else {
            t.duration
        },
        start_time: if t.start_time == 0 || t.start_time > span_start {
            span_start
        } else {
            t.start_time
        },
        end_time: if t.end_time < span_end {
            span_end
        } else {
            t.end_time
        },
        first_event: match t.first_event {
            None => Some(event),
            Some(e) => Some(e),
        },
        service_name: bump_service(t.service_name, service_name),
    }
}

/// The pagination decision: a full page asks for the next one, from moved
/// past it; a short page ends the loop.
pub fn next_page(from: i64, size: i64, got: i64) -> (r: Option<i64>)
    ensures
        got < size ==> r is None,
        got >= size ==> ({
            let sum = from as int + size as int;
            let target = if sum > 0x7fffffffffffffff {
                0x7fffffffffffffff as int
            } else {
                if sum < -0x8000000000000000 {
                    -(0x8000000000000000 as int)
                } else {
                    sum
                }
            };
            &&& r matches Some(nf)
            &&& nf as int == target
        }),
{
    if got < size {
        None
    } else {
        let sum: i128 = from as i128 + size as i128;
        if sum > 0x7fffffffffffffffi128 {
            Some(0x7fffffffffffffffi64)
        } else if sum < -0x7fffffffffffffffi128 - 1 {
            Some(-0x7fffffffffffffffi64 - 1)
        } else {
            Some(sum as i64)
        }
    }
}

/// Descending order by trace start time.
pub open spec fn sorted_by_start_desc(s: Seq<TraceSummary>) -> bool {
    forall|i: int, j: int|
        0 <= i < j < s.len() ==> (#[trigger] s[i]).start_time >= (#[trigger] s[j]).start_time
}

/// Sorts the summaries by start time, newest first; the result holds
/// exactly the input summaries.
#[verifier::loop_isolation(false)]
pub fn sort_traces_desc(input: Vec<TraceSummary>) -> (r: Vec<TraceSummary>)
    ensures
        sorted_by_start_desc(r@),
        r@.to_multiset() == input@.to_multiset(),
        r@.len() == input@.len(),
{
    broadcast use vstd::seq_lib::group_to_multiset_ensures;

    let mut remaining = input;
    let mut out: Vec<TraceSummary> = Vec::new();
    proof {
        assert(out@.to_multiset().add(remaining@.to_multiset()) =~= input@.to_multiset());
    }
    while remaining.len() > 0
        invariant
            out@.to_multiset().add(remaining@.to_multiset()) == input@.to_multiset(),
            out@.len() + remaining@.len() == input@.len(),
            sorted_by_start_desc(out@),
            forall|a: int, b: int|
                0 <= a < out@.len() && 0 <= b < remaining@.len() ==> (#[trigger] out@[a]).start_time
                    >= (#[trigger] remaining@[b]).start_time,
        decreases remaining@.len(),
    {
        let mut best: usize = 0;
        let mut i: usize = 1;
        while i < remaining.len()
            invariant
                remaining@.len() > 0,
                best < i <= remaining@.len(),
                forall|k: int|
                    0 <= k < i ==> remaining@[best as int].start_time >= (
                    #[trigger] remaining@[k]).start_time,
            decreases remaining@.len() - i,
        {
            if remaining[i].start_time > remaining[best].start_time {
                best = i;
            }
            i += 1;
        }
        let ghost rpre = remaining@;
        let ghost opre = out@;
        let x = remaining.remove(best);
        out.push(x);
        proof {
            assert(remaining@.to_multiset() =~= rpre.to_multiset().remove(rpre[best as int]));
            assert(out@.to_multiset() =~= opre.to_multiset().insert(rpre[best as int]));
            assert(out@.to_multiset().add(remaining@.to_multiset()) =~= opre.to_multiset().add(
                rpre.to_multiset(),
            ));
            assert forall|b: int| 0 <= b < remaining@.len() implies x.start_time >= (
            #[trigger] remaining@[b]).start_time by {
                if b < best {
                    assert(remaining@[b] == rpre[b]);
                } else {
                    assert(remaining@[b] == rpre[b + 1]);
                }
            }
        }
    }
    proof {
        assert(remaining@.to_multiset() =~= Multiset::<TraceSummary>::empty());
        assert(out@.to_multiset() =~= input@.to_multiset());
    }
    out
}

} // verus!
