//! The content fingerprint of a row: a 64-bit FNV-1a hash over the row's
//! columns, skipping a configured exclusion set.  The fingerprint identifies
//! a metric series, so the per-point columns (value, timestamp, flags, the
//! exemplar list and the hash column itself) are excluded by default.
//!
//! Exemplar lists never contribute to the fingerprint, whatever the exclusion
//! set says: they are per-point payload, not series identity.

use vstd::prelude::*;

verus! {

use crate::text::{str_eq, strings_view, lemma_strings_view};
use crate::value::{
    Record, RecordValue, ScalarValue, ScalarView, ValueView, store, find_key, lemma_find_key_props,
};

pub const FNV_OFFSET_BASIS: u64 = 0xcbf29ce484222325;

pub const FNV_PRIME: u64 = 0x100000001b3;

/// One step of the FNV-1a fold.
pub open spec fn fnv_step(h: u64, x: u64) -> u64 {
    (h ^ x).wrapping_mul(FNV_PRIME)
}

/// The FNV-1a fold over a word stream.
pub open spec fn fnv_fold(h: u64, s: Seq<u64>) -> u64
    decreases s.len(),
{
    if s.len() == 0 {
        h
    } else {
        fnv_fold(fnv_step(h, s[0]), s.drop_first())
    }
}

/// A string's characters as a word stream.
pub open spec fn chars_u64(s: Seq<char>) -> Seq<u64> {
    Seq::new(s.len(), |i: int| s[i] as u64)
}

/// The word encoding of a scalar value.  The float's rendering is skipped:
/// the bit pattern determines it.
pub open spec fn enc_scalar(v: ScalarView) -> Seq<u64> {
    match v {
        ScalarView::Null => seq![0u64],
        ScalarView::Bool(b) => seq![
            1u64,
            if b {
                1u64
            } else {
                0u64
            },
        ],
        ScalarView::Int(n) => seq![2u64, n as u64],
        ScalarView::Uint(n) => seq![3u64, n as u64],
        ScalarView::Float { bits, text } => seq![4u64, bits],
        ScalarView::Str(s) => seq![5u64, s.len() as u64].add(chars_u64(s)),
    }
}

/// The word encoding of a column value.
pub open spec fn enc_value(v: ValueView) -> Seq<u64> {
    match v {
        ValueView::Scalar(s) => seq![0u64].add(enc_scalar(s)),
        ValueView::Exemplars(e) => seq![1u64],
    }
}

/// The word encoding of one column.
pub open spec fn enc_entry(p: (Seq<char>, ValueView)) -> Seq<u64> {
    seq![p.0.len() as u64].add(chars_u64(p.0)).add(enc_value(p.1))
}

/// The columns that survive the exclusion set, in row order.
pub open spec fn drop_excluded(s: Seq<(Seq<char>, ValueView)>, excl: Seq<Seq<char>>) -> Seq<
    (Seq<char>, ValueView),
>
    decreases s.len(),
{
    if s.len() == 0 {
        Seq::<(Seq<char>, ValueView)>::empty()
    } else if excl.contains(s[0].0) {
        drop_excluded(s.drop_first(), excl)
    } else {
        seq![s[0]].add(drop_excluded(s.drop_first(), excl))
    }
}

/// The word encoding of a column list.
pub open spec fn enc_entries(s: Seq<(Seq<char>, ValueView)>) -> Seq<u64>
    decreases s.len(),
{
    if s.len() == 0 {
        Seq::<u64>::empty()
    } else {
        enc_entry(s[0]).add(enc_entries(s.drop_first()))
    }
}

/// The row fingerprint: the FNV-1a hash of the kept columns' encoding.
pub open spec fn signature_spec(s: Seq<(Seq<char>, ValueView)>, excl: Seq<Seq<char>>) -> u64 {
    fnv_fold(FNV_OFFSET_BASIS, enc_entries(drop_excluded(s, excl)))
}

proof fn lemma_enc_entries_cons(p: (Seq<char>, ValueView), t: Seq<(Seq<char>, ValueView)>)
    ensures
        enc_entries(seq![p].add(t)) == enc_entry(p).add(enc_entries(t)),
{
    let s = seq![p].add(t);
    assert(s[0] == p);
    assert(s.drop_first() =~= t);
}

/// Rows whose non-excluded columns agree have the same fingerprint: the
/// fingerprint never depends on an excluded column.
pub proof fn lemma_signature_ignores_excluded(
    r1: Seq<(Seq<char>, ValueView)>,
    r2: Seq<(Seq<char>, ValueView)>,
    excl: Seq<Seq<char>>,
)
    requires
        drop_excluded(r1, excl) == drop_excluded(r2, excl),
    ensures
        signature_spec(r1, excl) == signature_spec(r2, excl),
{
}

/// Replacing or adding a column whose name is excluded leaves the kept
/// columns, and therefore the fingerprint, unchanged.
pub proof fn lemma_store_excluded_keeps_signature(
    s: Seq<(Seq<char>, ValueView)>,
    k: Seq<char>,
    v: ValueView,
    excl: Seq<Seq<char>>,
)
    requires
        excl.contains(k),
    ensures
        drop_excluded(store(s, k, v), excl) == drop_excluded(s, excl),
        signature_spec(store(s, k, v), excl) == signature_spec(s, excl),
{
    lemma_find_key_props(s, k);
    let i = find_key(s, k);
    if i >= 0 {
        lemma_drop_excluded_update(s, i, (k, v), excl);
    } else {
        lemma_drop_excluded_push(s, (k, v), excl);
    }
}

proof fn lemma_drop_excluded_update(
    s: Seq<(Seq<char>, ValueView)>,
    i: int,
    p: (Seq<char>, ValueView),
    excl: Seq<Seq<char>>,
)
    requires
        0 <= i < s.len(),
        excl.contains(s[i].0),
        excl.contains(p.0),
    ensures
        drop_excluded(s.update(i, p), excl) == drop_excluded(s, excl),
    decreases s.len(),
{
    let s2 = s.update(i, p);
    if i == 0 {
        assert(s2.drop_first() =~= s.drop_first());
    } else {
        assert(s2[0] == s[0]);
        assert(s2.drop_first() =~= s.drop_first().update(i - 1, p));
        assert(s.drop_first()[i - 1] == s[i]);
        lemma_drop_excluded_update(s.drop_first(), i - 1, p, excl);
        if excl.contains(s[0].0) {
        } else {
            assert(drop_excluded(s2, excl) =~= drop_excluded(s, excl));
        }
    }
}

proof fn lemma_drop_excluded_push(
    s: Seq<(Seq<char>, ValueView)>,
    p: (Seq<char>, ValueView),
    excl: Seq<Seq<char>>,
)
    requires
        excl.contains(p.0),
    ensures
        drop_excluded(s.push(p), excl) == drop_excluded(s, excl),
    decreases s.len(),
{
    let s2 = s.push(p);
    if s.len() == 0 {
        assert(s2[0] == p);
        assert(s2.drop_first() =~= s);
        assert(drop_excluded(s2, excl) == drop_excluded(s, excl));
    } else {
        assert(s2[0] == s[0]);
        assert(s2.drop_first() =~= s.drop_first().push(p));
        lemma_drop_excluded_push(s.drop_first(), p, excl);
        if excl.contains(s[0].0) {
        } else {
            assert(drop_excluded(s2, excl) =~= drop_excluded(s, excl));
        }
    }
}

/// Whether `key` occurs in the exclusion list.
pub fn contains_name(excl: &Vec<String>, key: &str) -> (r: bool)
    ensures
        r == strings_view(excl@).contains(key@),
{
    proof {
        lemma_strings_view(excl@);
    }
    let mut i: usize = 0;
    let n = excl.len();
    while i < n
        invariant
            n == excl.len(),
            i <= n,
            forall|j: int| 0 <= j < i ==> strings_view(excl@)[j] != key@,
            strings_view(excl@).len() == n,
            forall|j: int| 0 <= j < n ==> #[trigger] strings_view(excl@)[j] == excl@[j]@,
        decreases n - i,
    {
        if str_eq(excl[i].as_str(), key) {
            proof {
                assert(strings_view(excl@).contains(key@)) by {
                    assert(strings_view(excl@)[i as int] == key@);
                }
            }
            return true;
        }
        i += 1;
    }
    proof {
        if strings_view(excl@).contains(key@) {
            let j = choose|j: int|
                0 <= j < strings_view(excl@).len() && strings_view(excl@)[j] == key@;
            assert(false);
        }
    }
    false
}

pub fn fnv_fold_vec(h0: u64, xs: &Vec<u64>) -> (h: u64)
    ensures
        h == fnv_fold(h0, xs@),
{
    let mut h = h0;
    let mut i: usize = 0;
    let n = xs.len();
    proof {
        assert(xs@.skip(0) =~= xs@);
    }
    while i < n
        invariant
            n == xs.len(),
            i <= n,
            fnv_fold(h0, xs@) == fnv_fold(h, xs@.skip(i as int)),
        decreases n - i,
    {
        proof {
            assert(xs@.skip(i as int)[0] == xs@[i as int]);
            assert(xs@.skip(i as int).drop_first() =~= xs@.skip(i as int + 1));
        }
        h = (h ^ xs[i]).wrapping_mul(FNV_PRIME);
        i += 1;
    }
    proof {
        assert(xs@.skip(n as int) =~= Seq::<u64>::empty());
    }
    h
}

#[verifier::loop_isolation(false)]
pub fn push_chars(buf: &mut Vec<u64>, s: &str)
    ensures
        final(buf)@ == old(buf)@.add(chars_u64(s@)),
{
    let n = s.unicode_len();
    let mut i: usize = 0;
    while i < n
        invariant
            n == s@.len(),
            i <= n,
            buf@ =~= old(buf)@.add(chars_u64(s@).take(i as int)),
        decreases n - i,
    {
        let c = s.get_char(i);
        buf.push(c as u64);
        proof {
            assert(buf@ =~= old(buf)@.add(chars_u64(s@).take(i as int + 1)));
        }
        i += 1;
    }
    proof {
        assert(chars_u64(s@).take(n as int) =~= chars_u64(s@));
    }
}

fn push_enc_scalar(buf: &mut Vec<u64>, v: &ScalarValue)
    ensures
        final(buf)@ == old(buf)@.add(enc_scalar(v@)),
{
    match v {
        ScalarValue::Null => {
            buf.push(0);
            proof {
                assert(buf@ =~= old(buf)@.add(enc_scalar(v@)));
            }
        },
        ScalarValue::Bool(b) => {
            buf.push(1);
            buf.push(if *b {
                1
            } else {
                0
            });
            proof {
                assert(buf@ =~= old(buf)@.add(enc_scalar(v@)));
            }
        },
        ScalarValue::Int(n) => {
            buf.push(2);
            buf.push(*n as u64);
            proof {
                assert(buf@ =~= old(buf)@.add(enc_scalar(v@)));
            }
        },
        ScalarValue::Uint(n) => {
            buf.push(3);
            buf.push(*n);
            proof {
                assert(buf@ =~= old(buf)@.add(enc_scalar(v@)));
            }
        },
        ScalarValue::Float { bits, text } => {
            buf.push(4);
            buf.push(*bits);
            proof {
                assert(buf@ =~= old(buf)@.add(enc_scalar(v@)));
            }
        },
        ScalarValue::Str(s) => {
            buf.push(5);
            buf.push(s.as_str().unicode_len() as u64);
            push_chars(buf, s.as_str());
            proof {
                assert(buf@ =~= old(buf)@.add(enc_scalar(v@)));
            }
        },
    }
}

fn push_enc_value(buf: &mut Vec<u64>, v: &RecordValue)
    ensures
        final(buf)@ == old(buf)@.add(enc_value(v@)),
{
    match v {
        RecordValue::Scalar(s) => {
            buf.push(0);
            push_enc_scalar(buf, s);
            proof {
                assert(buf@ =~= old(buf)@.add(enc_value(v@)));
            }
        },
        RecordValue::Exemplars(e) => {
            buf.push(1);
            proof {
                assert(buf@ =~= old(buf)@.add(enc_value(v@)));
            }
        },
    }
}

/// Computes the row fingerprint over the columns not named in `excl`.
#[verifier::loop_isolation(false)]
pub fn record_signature(rec: &Record, excl: &Vec<String>) -> (h: u64)
    ensures
        h == signature_spec(rec@, strings_view(excl@)),
{
    proof {
        crate::value::lemma_record_entries_view(rec.entries@);
    }
    let ghost rv = rec@;
    let ghost ex = strings_view(excl@);
    let mut buf: Vec<u64> = Vec::new();
    let n = rec.entries.len();
    let mut i: usize = 0;
    proof {
        assert(rv.skip(0) =~= rv);
        assert(Seq::<u64>::empty().add(enc_entries(drop_excluded(rv, ex))) =~= enc_entries(
            drop_excluded(rv, ex),
        ));
    }
    while i < n
        invariant
            n == rec.entries.len(),
            i <= n,
            rv == rec@,
            ex == strings_view(excl@),
            rv.len() == n,
            forall|j: int| 0 <= j < n ==> #[trigger] rv[j] == (rec.entries@[j].0@, rec.entries@[j].1@),
            enc_entries(drop_excluded(rv, ex)) == buf@.add(
                enc_entries(drop_excluded(rv.skip(i as int), ex)),
            ),
        decreases n - i,
    {
        proof {
            assert(rv.skip(i as int)[0] == rv[i as int]);
            assert(rv.skip(i as int).drop_first() =~= rv.skip(i as int + 1));
        }
        let excluded = contains_name(excl, rec.entries[i].0.as_str());
        if !excluded {
            let ghost pre = buf@;
            buf.push(rec.entries[i].0.as_str().unicode_len() as u64);
            push_chars(&mut buf, rec.entries[i].0.as_str());
            push_enc_value(&mut buf, &rec.entries[i].1);
            proof {
                assert(buf@ =~= pre.add(enc_entry(rv[i as int])));
                assert(drop_excluded(rv.skip(i as int), ex) == seq![rv[i as int]].add(
                    drop_excluded(rv.skip(i as int + 1), ex),
                ));
                lemma_enc_entries_cons(rv[i as int], drop_excluded(rv.skip(i as int + 1), ex));
            }
        }
        i += 1;
    }
    proof {
        assert(rv.skip(n as int) =~= Seq::<(Seq<char>, ValueView)>::empty());
        assert(enc_entries(drop_excluded(rv, ex)) =~= buf@);
    }
    fnv_fold_vec(FNV_OFFSET_BASIS, &buf)
}

/// The default exclusion set: the hash column itself and the per-point
/// columns that do not identify a series.
pub fn default_exclude_labels() -> (r: Vec<String>)
    ensures
        strings_view(r@) =~= seq![
            "__hash__"@,
            "value"@,
            "_timestamp"@,
            "start_time"@,
            "flag"@,
            "exemplars"@,
        ],
{
    let mut v: Vec<String> = Vec::new();
    v.push(String::from_str("__hash__"));
    v.push(String::from_str("value"));
    v.push(String::from_str("_timestamp"));
    v.push(String::from_str("start_time"));
    v.push(String::from_str("flag"));
    v.push(String::from_str("exemplars"));
    proof {
        lemma_strings_view(v@);
    }
    v
}

} // verus!
