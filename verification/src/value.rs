//! The row model: a flattened metric record is an ordered mapping from column
//! names to tagged values, as the flattener builds it one column at a time.
//!
//! A scalar column holds a string, an integer, a floating-point value carried
//! as its IEEE-754 bit pattern together with its decimal rendering, a boolean,
//! or null.  The one structured column is the exemplar list, whose elements
//! are themselves small key/scalar maps.

use vstd::prelude::*;

verus! {

use crate::text::str_eq;

/// A scalar column value.
///
/// Floating-point numbers are carried opaquely: `bits` is the IEEE-754 bit
/// pattern and `text` its decimal rendering, both produced at the decoding
/// boundary.  The library never does floating-point arithmetic.
pub enum ScalarValue {
    Null,
    Bool(bool),
    Int(i64),
    Uint(u64),
    Float { bits: u64, text: String },
    Str(String),
}

/// Specification-level form of a scalar value.
pub enum ScalarView {
    Null,
    Bool(bool),
    Int(int),
    Uint(int),
    Float { bits: u64, text: Seq<char> },
    Str(Seq<char>),
}

impl View for ScalarValue {
    type V = ScalarView;

    open spec fn view(&self) -> ScalarView {
        match self {
            ScalarValue::Null => ScalarView::Null,
            ScalarValue::Bool(b) => ScalarView::Bool(*b),
            ScalarValue::Int(n) => ScalarView::Int(*n as int),
            ScalarValue::Uint(n) => ScalarView::Uint(*n as int),
            ScalarValue::Float { bits, text } => ScalarView::Float { bits: *bits, text: text@ },
            ScalarValue::Str(s) => ScalarView::Str(s@),
        }
    }
}

impl ScalarValue {
    /// Deep copy with an identical specification-level value.
    pub fn duplicate(&self) -> (r: ScalarValue)
        ensures
            r@ == self@,
    {
        match self {
            ScalarValue::Null => ScalarValue::Null,
            ScalarValue::Bool(b) => ScalarValue::Bool(*b),
            ScalarValue::Int(n) => ScalarValue::Int(*n),
            ScalarValue::Uint(n) => ScalarValue::Uint(*n),
            ScalarValue::Float { bits, text } => ScalarValue::Float {
                bits: *bits,
                text: text.clone(),
            },
            ScalarValue::Str(s) => ScalarValue::Str(s.clone()),
        }
    }
}

/// The specification-level contents of a key/scalar entry list.
pub open spec fn scalar_entries_view(s: Seq<(String, ScalarValue)>) -> Seq<
    (Seq<char>, ScalarView),
>
    decreases s.len(),
{
    if s.len() == 0 {
        Seq::<(Seq<char>, ScalarView)>::empty()
    } else {
        scalar_entries_view(s.drop_last()).push((s.last().0@, s.last().1@))
    }
}

pub broadcast proof fn lemma_scalar_entries_view(s: Seq<(String, ScalarValue)>)
    ensures
        (#[trigger] scalar_entries_view(s)).len() == s.len(),
        forall|j: int|
            0 <= j < s.len() ==> #[trigger] scalar_entries_view(s)[j] == (s[j].0@, s[j].1@),
    decreases s.len(),
{
    if s.len() > 0 {
        lemma_scalar_entries_view(s.drop_last());
    }
}

/// One exemplar attached to a data point: a small map from column names to
/// scalar values (its filtered attributes, value, timestamp, and optional
/// trace and span identifiers).
pub struct ExemplarRecord {
    pub entries: Vec<(String, ScalarValue)>,
}

impl View for ExemplarRecord {
    type V = Seq<(Seq<char>, ScalarView)>;

    open spec fn view(&self) -> Seq<(Seq<char>, ScalarView)> {
        scalar_entries_view(self.entries@)
    }
}

impl ExemplarRecord {
    pub fn new() -> (r: ExemplarRecord)
        ensures
            r@ == Seq::<(Seq<char>, ScalarView)>::empty(),
    {
        ExemplarRecord { entries: Vec::new() }
    }

    /// Appends a column; the exemplar builder never repeats a key.
    pub fn push(&mut self, key: String, value: ScalarValue)
        ensures
            final(self)@ == old(self)@.push((key@, value@)),
    {
        broadcast use {lemma_scalar_entries_view, lemma_exemplars_view, lemma_record_entries_view};

        let ghost ki = key@;
        let ghost vi = value@;
        self.entries.push((key, value));
        proof {
            assert(self@ =~= old(self)@.push((ki, vi)));
        }
    }

    #[verifier::loop_isolation(false)]
    pub fn duplicate(&self) -> (r: ExemplarRecord)
        ensures
            r@ == self@,
    {
        broadcast use {lemma_scalar_entries_view, lemma_exemplars_view, lemma_record_entries_view};

        let mut entries: Vec<(String, ScalarValue)> = Vec::new();
        let n = self.entries.len();
        let mut i: usize = 0;
        while i < n
            invariant
                n == self.entries.len(),
                i <= n,
                entries@.len() == i,
                forall|j: int|
                    0 <= j < i ==> #[trigger] entries@[j].0@ == self.entries@[j].0@
                        && entries@[j].1@ == self.entries@[j].1@,
            decreases n - i,
        {
            let k = self.entries[i].0.clone();
            let v = self.entries[i].1.duplicate();
            entries.push((k, v));
            i += 1;
        }
        let r = ExemplarRecord { entries };
        proof {
            assert(r@ =~= self@);
        }
        r
    }
}

/// The specification-level contents of an exemplar list.
pub open spec fn exemplars_view(s: Seq<ExemplarRecord>) -> Seq<Seq<(Seq<char>, ScalarView)>>
    decreases s.len(),
{
    if s.len() == 0 {
        Seq::<Seq<(Seq<char>, ScalarView)>>::empty()
    } else {
        exemplars_view(s.drop_last()).push(s.last()@)
    }
}

pub broadcast proof fn lemma_exemplars_view(s: Seq<ExemplarRecord>)
    ensures
        (#[trigger] exemplars_view(s)).len() == s.len(),
        forall|j: int| 0 <= j < s.len() ==> #[trigger] exemplars_view(s)[j] == s[j]@,
    decreases s.len(),
{
    if s.len() > 0 {
        lemma_exemplars_view(s.drop_last());
    }
}

/// A column value: either a scalar or the exemplar list.
pub enum RecordValue {
    Scalar(ScalarValue),
    Exemplars(Vec<ExemplarRecord>),
}

/// Specification-level form of a column value.
pub enum ValueView {
    Scalar(ScalarView),
    Exemplars(Seq<Seq<(Seq<char>, ScalarView)>>),
}

impl View for RecordValue {
    type V = ValueView;

    open spec fn view(&self) -> ValueView {
        match self {
            RecordValue::Scalar(s) => ValueView::Scalar(s@),
            RecordValue::Exemplars(v) => ValueView::Exemplars(exemplars_view(v@)),
        }
    }
}

impl RecordValue {
    #[verifier::loop_isolation(false)]
    pub fn duplicate(&self) -> (r: RecordValue)
        ensures
            r@ == self@,
    {
        broadcast use {lemma_scalar_entries_view, lemma_exemplars_view, lemma_record_entries_view};

        match self {
            RecordValue::Scalar(s) => RecordValue::Scalar(s.duplicate()),
            RecordValue::Exemplars(v) => {
                let mut out: Vec<ExemplarRecord> = Vec::new();
                let n = v.len();
                let mut i: usize = 0;
                while i < n
                    invariant
                        n == v.len(),
                        i <= n,
                        out@.len() == i,
                        forall|j: int| 0 <= j < i ==> #[trigger] out@[j]@ == v@[j]@,
                    decreases n - i,
                {
                    out.push(v[i].duplicate());
                    i += 1;
                }
                let r = RecordValue::Exemplars(out);
                proof {
                    assert(exemplars_view(out@) =~= exemplars_view(v@));
                }
                r
            },
        }
    }
}

/// The specification-level contents of a record's entry list.
pub open spec fn record_entries_view(s: Seq<(String, RecordValue)>) -> Seq<(Seq<char>, ValueView)>
    decreases s.len(),
{
    if s.len() == 0 {
        Seq::<(Seq<char>, ValueView)>::empty()
    } else {
        record_entries_view(s.drop_last()).push((s.last().0@, s.last().1@))
    }
}

pub broadcast proof fn lemma_record_entries_view(s: Seq<(String, RecordValue)>)
    ensures
        (#[trigger] record_entries_view(s)).len() == s.len(),
        forall|j: int|
            0 <= j < s.len() ==> #[trigger] record_entries_view(s)[j] == (s[j].0@, s[j].1@),
    decreases s.len(),
{
    if s.len() > 0 {
        lemma_record_entries_view(s.drop_last());
    }
}

/// Position of the first entry with key `k`, or -1 when no entry has it.
pub open spec fn find_key(s: Seq<(Seq<char>, ValueView)>, k: Seq<char>) -> int
    decreases s.len(),
{
    if s.len() == 0 {
        -1
    } else if s[0].0 == k {
        0
    } else {
        let r = find_key(s.drop_first(), k);
        if r < 0 {
            -1
        } else {
            r + 1
        }
    }
}

/// The value stored under key `k`, if any.
pub open spec fn lookup(s: Seq<(Seq<char>, ValueView)>, k: Seq<char>) -> Option<ValueView> {
    let i = find_key(s, k);
    if i >= 0 {
        Some(s[i].1)
    } else {
        None
    }
}

/// Storing under an existing key replaces the value in place; a new key is
/// appended at the end.  This is exactly how the row builder behaves.
pub open spec fn store(s: Seq<(Seq<char>, ValueView)>, k: Seq<char>, v: ValueView) -> Seq<
    (Seq<char>, ValueView),
> {
    let i = find_key(s, k);
    if i >= 0 {
        s.update(i, (k, v))
    } else {
        s.push((k, v))
    }
}

pub proof fn lemma_find_key_props(s: Seq<(Seq<char>, ValueView)>, k: Seq<char>)
    ensures
        -1 <= find_key(s, k) < s.len(),
        find_key(s, k) == -1 ==> forall|j: int| 0 <= j < s.len() ==> s[j].0 != k,
        find_key(s, k) >= 0 ==> s[find_key(s, k)].0 == k,
        find_key(s, k) >= 0 ==> forall|j: int| 0 <= j < find_key(s, k) ==> s[j].0 != k,
    decreases s.len(),
{
    if s.len() > 0 && s[0].0 != k {
        lemma_find_key_props(s.drop_first(), k);
        assert(forall|j: int| 1 <= j < s.len() ==> s[j] == s.drop_first()[j - 1]);
    }
}

/// A scan that saw no match before position `i`, and a match at `i`, has found
/// the first occurrence.
pub proof fn lemma_find_key_at(s: Seq<(Seq<char>, ValueView)>, k: Seq<char>, i: int)
    requires
        0 <= i < s.len(),
        s[i].0 == k,
        forall|j: int| 0 <= j < i ==> s[j].0 != k,
    ensures
        find_key(s, k) == i,
    decreases s.len(),
{
    if i > 0 {
        assert forall|j: int| 0 <= j < i - 1 implies s.drop_first()[j].0 != k by {
            assert(s.drop_first()[j] == s[j + 1]);
        }
        assert(s.drop_first()[i - 1] == s[i]);
        lemma_find_key_at(s.drop_first(), k, i - 1);
    }
}

/// A scan that saw no match anywhere reports absence.
pub proof fn lemma_find_key_absent(s: Seq<(Seq<char>, ValueView)>, k: Seq<char>)
    requires
        forall|j: int| 0 <= j < s.len() ==> s[j].0 != k,
    ensures
        find_key(s, k) == -1,
    decreases s.len(),
{
    if s.len() > 0 {
        assert forall|j: int| 0 <= j < s.drop_first().len() implies s.drop_first()[j].0 != k by {
            assert(s.drop_first()[j] == s[j + 1]);
        }
        lemma_find_key_absent(s.drop_first(), k);
    }
}

/// No two entries share a key.
pub open spec fn wf_entries(s: Seq<(Seq<char>, ValueView)>) -> bool {
    forall|i: int, j: int| 0 <= i < j < s.len() ==> (#[trigger] s[i].0) != (#[trigger] s[j].0)
}

/// Reading back the key just stored gives the stored value.
pub proof fn lemma_lookup_store_same(s: Seq<(Seq<char>, ValueView)>, k: Seq<char>, v: ValueView)
    ensures
        lookup(store(s, k, v), k) == Some(v),
{
    lemma_find_key_props(s, k);
    let i = find_key(s, k);
    if i >= 0 {
        let s2 = s.update(i, (k, v));
        assert forall|j: int| 0 <= j < i implies s2[j].0 != k by {
            assert(s2[j] == s[j]);
        }
        lemma_find_key_at(s2, k, i);
    } else {
        let s2 = s.push((k, v));
        assert forall|j: int| 0 <= j < s.len() implies s2[j].0 != k by {
            assert(s2[j] == s[j]);
        }
        lemma_find_key_at(s2, k, s.len() as int);
    }
}

/// Storing under one key leaves every other key's binding unchanged.
pub proof fn lemma_lookup_store_other(
    s: Seq<(Seq<char>, ValueView)>,
    k: Seq<char>,
    v: ValueView,
    k2: Seq<char>,
)
    requires
        k2 != k,
    ensures
        lookup(store(s, k, v), k2) == lookup(s, k2),
{
    lemma_find_key_props(s, k);
    lemma_find_key_props(s, k2);
    let i = find_key(s, k);
    let i2 = find_key(s, k2);
    let s2 = store(s, k, v);
    if i >= 0 {
        if i2 >= 0 {
            assert(i2 != i);
            assert forall|j: int| 0 <= j < i2 implies s2[j].0 != k2 by {
                if j == i {
                    assert(s2[j].0 == k);
                } else {
                    assert(s2[j] == s[j]);
                }
            }
            assert(s2[i2] == s[i2]);
            lemma_find_key_at(s2, k2, i2);
        } else {
            assert forall|j: int| 0 <= j < s2.len() implies s2[j].0 != k2 by {
                if j == i {
                    assert(s2[j].0 == k);
                } else {
                    assert(s2[j] == s[j]);
                }
            }
            lemma_find_key_absent(s2, k2);
        }
    } else {
        if i2 >= 0 {
            assert forall|j: int| 0 <= j < i2 implies s2[j].0 != k2 by {
                assert(s2[j] == s[j]);
            }
            assert(s2[i2] == s[i2]);
            lemma_find_key_at(s2, k2, i2);
        } else {
            assert forall|j: int| 0 <= j < s2.len() implies s2[j].0 != k2 by {
                if j < s.len() {
                    assert(s2[j] == s[j]);
                } else {
                    assert(s2[j].0 == k);
                }
            }
            lemma_find_key_absent(s2, k2);
        }
    }
}

/// Storing never breaks key uniqueness.
pub proof fn lemma_store_wf(s: Seq<(Seq<char>, ValueView)>, k: Seq<char>, v: ValueView)
    requires
        wf_entries(s),
    ensures
        wf_entries(store(s, k, v)),
{
    lemma_find_key_props(s, k);
    let i = find_key(s, k);
    let s2 = store(s, k, v);
    if i >= 0 {
        assert forall|a: int, b: int| 0 <= a < b < s2.len() implies (#[trigger] s2[a].0)
            != (#[trigger] s2[b].0) by {
            if a != i && b != i {
                assert(s2[a] == s[a] && s2[b] == s[b]);
            } else if a == i {
                assert(s2[b] == s[b]);
                assert(s[i].0 == k);
            } else {
                assert(s2[a] == s[a]);
                assert(s[i].0 == k);
            }
        }
    } else {
        assert forall|a: int, b: int| 0 <= a < b < s2.len() implies (#[trigger] s2[a].0)
            != (#[trigger] s2[b].0) by {
            if b < s.len() {
                assert(s2[a] == s[a] && s2[b] == s[b]);
            } else {
                assert(s2[a] == s[a]);
            }
        }
    }
}

/// A flattened metric record: an ordered map from column names to values.
pub struct Record {
    pub entries: Vec<(String, RecordValue)>,
}

impl View for Record {
    type V = Seq<(Seq<char>, ValueView)>;

    open spec fn view(&self) -> Seq<(Seq<char>, ValueView)> {
        record_entries_view(self.entries@)
    }
}

impl Record {
    /// Key uniqueness, established by `new` and kept by `set`.
    pub open spec fn wf(&self) -> bool {
        wf_entries(self@)
    }

    pub fn new() -> (r: Record)
        ensures
            r@ == Seq::<(Seq<char>, ValueView)>::empty(),
            r.wf(),
    {
        let r = Record { entries: Vec::new() };
        proof {
                assert(r@ =~= Seq::<(Seq<char>, ValueView)>::empty());
        }
        r
    }

    pub fn len(&self) -> (n: usize)
        ensures
            n == self@.len(),
    {
        proof {
            lemma_record_entries_view(self.entries@);
        }
        self.entries.len()
    }

    /// Position of the entry holding `key`, if any.
    #[verifier::loop_isolation(false)]
    fn find_idx(&self, key: &str) -> (r: Option<usize>)
        ensures
            match r {
                Some(i) => find_key(self@, key@) == i as int,
                None => find_key(self@, key@) == -1,
            },
    {
        broadcast use {lemma_scalar_entries_view, lemma_exemplars_view, lemma_record_entries_view};

        let mut i: usize = 0;
        let n = self.entries.len();
        while i < n
            invariant
                n == self.entries.len(),
                i <= n,
                forall|j: int| 0 <= j < i ==> self@[j].0 != key@,
            decreases n - i,
        {
            if str_eq(self.entries[i].0.as_str(), key) {
                proof {
                    lemma_find_key_at(self@, key@, i as int);
                }
                return Some(i);
            }
            i += 1;
        }
        proof {
            lemma_find_key_absent(self@, key@);
        }
        None
    }

    /// Sets a column: replaces the value under an existing key in place, or
    /// appends a new column at the end.
    pub fn set(&mut self, key: String, value: RecordValue)
        requires
            old(self).wf(),
        ensures
            final(self)@ == store(old(self)@, key@, value@),
            final(self).wf(),
            lookup(final(self)@, key@) == Some(value@),
            forall|k2: Seq<char>| k2 != key@ ==> #[trigger] lookup(final(self)@, k2) == lookup(
                old(self)@,
                k2,
            ),
    {
        broadcast use {lemma_scalar_entries_view, lemma_exemplars_view, lemma_record_entries_view};

        let ghost pre = self@;
        let ghost ki = key@;
        let ghost vi = value@;
        let idx = self.find_idx(key.as_str());
        match idx {
            Some(i) => {
                proof {
                    lemma_find_key_props(pre, ki);
                }
                self.entries[i] = (key, value);
                proof {
                    assert(self@ =~= pre.update(i as int, (ki, vi)));
                }
            },
            None => {
                self.entries.push((key, value));
                proof {
                    assert(self@ =~= pre.push((ki, vi)));
                }
            },
        }
        proof {
            assert(self@ == store(pre, ki, vi));
            lemma_store_wf(pre, ki, vi);
            lemma_lookup_store_same(pre, ki, vi);
            assert forall|k2: Seq<char>| k2 != ki implies #[trigger] lookup(self@, k2) == lookup(
                pre,
                k2,
            ) by {
                lemma_lookup_store_other(pre, ki, vi, k2);
            }
        }
    }

    /// Reads the column stored under `key`, if any.
    pub fn get(&self, key: &str) -> (r: Option<&RecordValue>)
        ensures
            match r {
                Some(v) => lookup(self@, key@) == Some(v@),
                None => lookup(self@, key@) is None,
            },
    {
        broadcast use {lemma_scalar_entries_view, lemma_exemplars_view, lemma_record_entries_view};

        match self.find_idx(key) {
            Some(i) => {
                proof {
                    lemma_find_key_props(self@, key@);
                }
                Some(&self.entries[i].1)
            },
            None => None,
        }
    }

    /// Deep copy with an identical specification-level value.
    #[verifier::loop_isolation(false)]
    pub fn duplicate(&self) -> (r: Record)
        ensures
            r@ == self@,
            r.wf() == self.wf(),
    {
        broadcast use {lemma_scalar_entries_view, lemma_exemplars_view, lemma_record_entries_view};

        let mut entries: Vec<(String, RecordValue)> = Vec::new();
        let n = self.entries.len();
        let mut i: usize = 0;
        while i < n
            invariant
                n == self.entries.len(),
                i <= n,
                entries@.len() == i,
                forall|j: int|
                    0 <= j < i ==> #[trigger] entries@[j].0@ == self.entries@[j].0@
                        && entries@[j].1@ == self.entries@[j].1@,
            decreases n - i,
        {
            let k = self.entries[i].0.clone();
            let v = self.entries[i].1.duplicate();
            entries.push((k, v));
            i += 1;
        }
        let r = Record { entries };
        proof {
            assert(r@ =~= self@);
        }
        r
    }
}

} // verus!
