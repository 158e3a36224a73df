//! The partial-success response: its binary wire encoding, written and read
//! by verified code, and the response-formatting decision.  The wire format
//! is the standard one for the export response message: field 1 nests the
//! partial-success message, whose field 1 is the rejected count as a varint
//! and whose field 2 is the error message as length-delimited bytes; zero
//! and empty values are omitted.

use vstd::prelude::*;

verus! {

use crate::context::PartialSuccess;

/// The little-endian base-128 varint encoding of a 64-bit value.
pub open spec fn varint(n: u64) -> Seq<u8>
    decreases n,
{
    if n < 128 {
        seq![n as u8]
    } else {
        seq![(n % 128 + 128) as u8].add(varint(n / 128))
    }
}

/// Reads a varint at `pos`; yields the value and the position after it.
pub open spec fn dec_varint_at(s: Seq<u8>, pos: int) -> Option<(u64, int)>
    decreases s.len() - pos,
{
    if pos < 0 || pos >= s.len() {
        None
    } else if s[pos] < 128 {
        Some((s[pos] as u64, pos + 1))
    } else {
        match dec_varint_at(s, pos + 1) {
            Some((v, p)) => Some(
                (v.wrapping_mul(128).wrapping_add((s[pos] - 128) as u64), p),
            ),
            None => None,
        }
    }
}

/// The wire encoding of the partial-success message body.
pub open spec fn enc_partial(rej: i64, msg: Seq<u8>) -> Seq<u8> {
    let f1 = if rej != 0 {
        seq![8u8].add(varint(rej as u64))
    } else {
        Seq::<u8>::empty()
    };
    let f2 = if msg.len() > 0 {
        seq![0x12u8].add(varint(msg.len() as u64)).add(msg)
    } else {
        Seq::<u8>::empty()
    };
    f1.add(f2)
}

/// The wire encoding of the whole export response: empty when no
/// partial-success message is present.
pub open spec fn enc_response(r: Option<(i64, Seq<u8>)>) -> Seq<u8> {
    match r {
        None => Seq::<u8>::empty(),
        Some((rej, msg)) => {
            let inner = enc_partial(rej, msg);
            seq![0x0au8].add(varint(inner.len() as u64)).add(inner)
        },
    }
}

/// Reads the partial-success fields from `pos` to the end; unknown tags
/// refuse the message.  Repeated fields follow the usual rule: the last
/// occurrence wins.
pub open spec fn dec_partial_at(s: Seq<u8>, pos: int, rej: i64, msg: Seq<u8>) -> Option<
    (i64, Seq<u8>),
>
    decreases s.len() - pos,
{
    if pos < 0 {
        None
    } else if pos >= s.len() {
        Some((rej, msg))
    } else if s[pos] == 8 {
        match dec_varint_at(s, pos + 1) {
            Some((v, p)) => if p > pos && p <= s.len() {
                dec_partial_at(s, p, v as i64, msg)
            } else {
                None
            },
            None => None,
        }
    } else if s[pos] == 0x12 {
        match dec_varint_at(s, pos + 1) {
            Some((len, p)) => if p > pos && p + len <= s.len() {
                dec_partial_at(s, p + len, rej, s.subrange(p, p + len as int))
            } else {
                None
            },
            None => None,
        }
    } else {
        None
    }
}

/// Decodes a whole export response: empty input means no partial-success
/// message; otherwise field 1 must hold the nested message, with nothing
/// after it.
pub open spec fn dec_response(s: Seq<u8>) -> Option<Option<(i64, Seq<u8>)>> {
    if s.len() == 0 {
        Some(None)
    } else if s[0] == 0x0a {
        match dec_varint_at(s, 1) {
            Some((len, p)) => if p + len == s.len() {
                match dec_partial_at(s.subrange(p, p + len as int), 0, 0, Seq::<u8>::empty()) {
                    Some(pm) => Some(Some(pm)),
                    None => None,
                }
            } else {
                None
            },
            None => None,
        }
    } else {
        None
    }
}

/// Reading a varint back from where it was written yields the written value.
pub proof fn lemma_varint_roundtrip(s: Seq<u8>, pos: int, n: u64)
    requires
        0 <= pos,
        pos + varint(n).len() <= s.len(),
        s.subrange(pos, pos + varint(n).len() as int) == varint(n),
    ensures
        varint(n).len() >= 1,
        dec_varint_at(s, pos) == Some((n, pos + varint(n).len() as int)),
    decreases n,
{
    if n < 128 {
        assert(s[pos] == varint(n)[0]);
    } else {
        let b = varint(n)[0];
        assert(s[pos] == b);
        assert(b == (n % 128 + 128) as u8);
        assert(n % 128 + 128 < 256);
        assert(b >= 128);
        let rest = varint(n / 128);
        assert(varint(n) =~= seq![b].add(rest));
        assert(s.subrange(pos + 1, pos + 1 + rest.len() as int) =~= rest) by {
            assert forall|j: int| 0 <= j < rest.len() implies s.subrange(
                pos + 1,
                pos + 1 + rest.len() as int,
            )[j] == rest[j] by {
                assert(s.subrange(pos, pos + varint(n).len() as int)[j + 1] == varint(n)[j + 1]);
            }
        }
        lemma_varint_roundtrip(s, pos + 1, n / 128);
        let v = n / 128;
        assert(v.wrapping_mul(128) == v * 128) by {
            assert(v * 128 <= n) by (nonlinear_arith)
                requires
                    v == n / 128,
                    n >= 128,
            ;
        }
        assert(v * 128 + (n % 128) == n);
        assert((b - 128) as u64 == n % 128);
        assert(v.wrapping_mul(128).wrapping_add((b - 128) as u64) == n);
    }
}

proof fn lemma_varint_len_le(n: u64, k: nat)
    requires
        1 <= k,
        (n as nat) < vstd::arithmetic::power2::pow2(7 * k),
    ensures
        1 <= varint(n).len() <= k,
    decreases k,
{
    if n < 128 {
    } else {
        vstd::arithmetic::power2::lemma2_to64();
        if k == 1 {
            assert(false);
        }
        vstd::arithmetic::power2::lemma_pow2_adds((7 * (k - 1)) as nat, 7);
        assert((n as nat) / 128 < vstd::arithmetic::power2::pow2(7 * (k - 1) as nat))
            by (nonlinear_arith)
            requires
                (n as nat) < vstd::arithmetic::power2::pow2(7 * (k - 1) as nat) * 128,
        ;
        lemma_varint_len_le(n / 128, (k - 1) as nat);
    }
}

/// A varint is between one and ten bytes long.
pub proof fn lemma_varint_len(n: u64)
    ensures
        1 <= varint(n).len() <= 10,
{
    vstd::arithmetic::power2::lemma2_to64();
    vstd::arithmetic::power2::lemma_pow2_strictly_increases(64, 70);
    lemma_varint_len_le(n, 10);
}

/// Round trip of the partial-success body: decoding what was encoded gives
/// back the rejected count and the message bytes.
pub proof fn lemma_partial_roundtrip(rej: i64, msg: Seq<u8>)
    requires
        msg.len() < 0x100000000,
    ensures
        dec_partial_at(enc_partial(rej, msg), 0, 0, Seq::<u8>::empty()) == Some((rej, msg)),
{
    lemma_varint_len(rej as u64);
    lemma_varint_len(msg.len() as u64);
    let s = enc_partial(rej, msg);
    if rej != 0 {
        let vr = varint(rej as u64);
        assert(s[0] == 8);
        assert(s.subrange(1, 1 + vr.len() as int) =~= vr);
        lemma_varint_roundtrip(s, 1, rej as u64);
        let p = 1 + vr.len() as int;
        assert(((rej as u64) as i64) == rej) by (bit_vector);
        if msg.len() > 0 {
            let vl = varint(msg.len() as u64);
            assert(s[p] == 0x12);
            assert(s.subrange(p + 1, p + 1 + vl.len() as int) =~= vl);
            lemma_varint_roundtrip(s, p + 1, msg.len() as u64);
            let q = p + 1 + vl.len() as int;
            assert(q + msg.len() == s.len());
            assert(s.subrange(q, q + msg.len() as int) =~= msg);
            assert(dec_partial_at(s, q + msg.len() as int, rej, msg) == Some((rej, msg)));
            assert(dec_partial_at(s, p, rej, Seq::<u8>::empty()) == Some((rej, msg)));
            assert(dec_partial_at(s, 0, 0, Seq::<u8>::empty()) == Some((rej, msg)));
        } else {
            assert(p == s.len());
            assert(msg =~= Seq::<u8>::empty());
            assert(dec_partial_at(s, p, rej, Seq::<u8>::empty()) == Some((rej, msg)));
            assert(dec_partial_at(s, 0, 0, Seq::<u8>::empty()) == Some((rej, msg)));
        }
    } else {
        if msg.len() > 0 {
            let vl = varint(msg.len() as u64);
            assert(s[0] == 0x12);
            assert(s.subrange(1, 1 + vl.len() as int) =~= vl);
            lemma_varint_roundtrip(s, 1, msg.len() as u64);
            let q = 1 + vl.len() as int;
            assert(q + msg.len() == s.len());
            assert(s.subrange(q, q + msg.len() as int) =~= msg);
            assert(dec_partial_at(s, q + msg.len() as int, 0, msg) == Some((0i64, msg)));
            assert(dec_partial_at(s, 0, 0, Seq::<u8>::empty()) == Some((0i64, msg)));
        } else {
            assert(s.len() == 0);
            assert(msg =~= Seq::<u8>::empty());
            assert(dec_partial_at(s, 0, 0, Seq::<u8>::empty()) == Some((0i64, Seq::<u8>::empty())));
        }
    }
}

/// Round trip of the whole response: a response without a partial-success
/// message decodes to one whose partial-success field is absent, and a
/// partial response decodes to exactly the rejected count and message that
/// were encoded.
pub proof fn lemma_response_roundtrip(r: Option<(i64, Seq<u8>)>)
    requires
        r matches Some(p) ==> p.1.len() < 0x100000000,
    ensures
        dec_response(enc_response(r)) == Some(r),
{
    match r {
        None => {
            assert(enc_response(r).len() == 0);
        },
        Some((rej, msg)) => {
            let inner = enc_partial(rej, msg);
            lemma_varint_len(rej as u64);
            lemma_varint_len(msg.len() as u64);
            lemma_varint_len(inner.len() as u64);
            let vl = varint(inner.len() as u64);
            let s = enc_response(r);
            assert(s[0] == 0x0a);
            assert(s.subrange(1, 1 + vl.len() as int) =~= vl);
            lemma_varint_roundtrip(s, 1, inner.len() as u64);
            let p = 1 + vl.len() as int;
            assert(p + inner.len() == s.len());
            assert(s.subrange(p, p + inner.len() as int) =~= inner);
            lemma_partial_roundtrip(rej, msg);
        },
    }
}

/// A partial response always decodes to a nonzero rejected count: the
/// partial-success message is encoded only with the count that was
/// rejected, and decoding gives that count back.
pub proof fn lemma_partial_response_nonzero(rej: i64, msg: Seq<u8>)
    requires
        rej > 0,
        msg.len() < 0x100000000,
    ensures
        ({
            let d = dec_response(enc_response(Some((rej, msg))));
            &&& d matches Some(p)
            &&& p matches Some(q)
            &&& q.0 == rej
            &&& q.0 > 0
            &&& q.1 == msg
        }),
{
    lemma_response_roundtrip(Some((rej, msg)));
}

/// Appends the varint encoding of a value.
fn push_varint(out: &mut Vec<u8>, n: u64)
    ensures
        final(out)@ == old(out)@.add(varint(n)),
    decreases n,
{
    if n < 128 {
        out.push(n as u8);
        proof {
            assert(out@ =~= old(out)@.add(varint(n)));
        }
    } else {
        out.push((n % 128 + 128) as u8);
        push_varint(out, n / 128);
        proof {
            assert(out@ =~= old(out)@.add(varint(n)));
        }
    }
}

/// Encodes the export response: empty when there is nothing partial to
/// report, else the nested partial-success message.
pub fn encode_response(partial: Option<(i64, &Vec<u8>)>) -> (r: Vec<u8>)
    ensures
        r@ == enc_response(
            match partial {
                Some((rej, msg)) => Some((rej, msg@)),
                None => None,
            },
        ),
{
    let mut out: Vec<u8> = Vec::new();
    match partial {
        None => {
            proof {
                assert(out@ =~= enc_response(None));
            }
            out
        },
        Some((rej, msg)) => {
            let mut inner: Vec<u8> = Vec::new();
            if rej != 0 {
                inner.push(8);
                push_varint(&mut inner, rej as u64);
            }
            if msg.len() > 0 {
                inner.push(0x12);
                push_varint(&mut inner, msg.len() as u64);
                let ghost ipre = inner@;
                let n = msg.len();
                let mut i: usize = 0;
                while i < n
                    invariant
                        n == msg@.len(),
                        i <= n,
                        inner@ =~= ipre.add(msg@.take(i as int)),
                    decreases n - i,
                {
                    inner.push(msg[i]);
                    proof {
                        assert(inner@ =~= ipre.add(msg@.take(i as int + 1)));
                    }
                    i += 1;
                }
                proof {
                    assert(msg@.take(n as int) =~= msg@);
                }
            }
            proof {
                assert(inner@ =~= enc_partial(rej, msg@));
            }
            out.push(0x0a);
            push_varint(&mut out, inner.len() as u64);
            let ghost pre = out@;
            out.append(&mut inner);
            proof {
                assert(out@ =~= enc_response(Some((rej, msg@))));
            }
            out
        },
    }
}

/// Reads a varint; yields the value and the position after it.
fn read_varint(bytes: &Vec<u8>, pos: usize) -> (r: Option<(u64, usize)>)
    ensures
        match r {
            Some((v, p)) => dec_varint_at(bytes@, pos as int) == Some((v, p as int)) && pos < p
                <= bytes@.len(),
            None => dec_varint_at(bytes@, pos as int) is None,
        },
    decreases bytes@.len() - pos,
{
    if pos >= bytes.len() {
        return None;
    }
    let b = bytes[pos];
    if b < 128 {
        Some((b as u64, pos + 1))
    } else {
        match read_varint(bytes, pos + 1) {
            Some((v, p)) => Some((v.wrapping_mul(128).wrapping_add((b - 128) as u64), p)),
            None => None,
        }
    }
}

/// Reads the partial-success fields from `pos` to the end.
fn read_partial(bytes: &Vec<u8>, pos: usize, rej: i64, msg: Vec<u8>) -> (r: Option<
    (i64, Vec<u8>),
>)
    requires
        pos <= bytes@.len(),
    ensures
        match r {
            Some((orej, omsg)) => dec_partial_at(bytes@, pos as int, rej, msg@) == Some(
                (orej, omsg@),
            ),
            None => dec_partial_at(bytes@, pos as int, rej, msg@) is None,
        },
    decreases bytes@.len() - pos,
{
    if pos >= bytes.len() {
        return Some((rej, msg));
    }
    let b = bytes[pos];
    if b == 8 {
        match read_varint(bytes, pos + 1) {
            Some((v, p)) => read_partial(bytes, p, v as i64, msg),
            None => None,
        }
    } else if b == 0x12 {
        match read_varint(bytes, pos + 1) {
            Some((len, p)) => {
                if len <= (bytes.len() - p) as u64 {
                    let end = p + (len as usize);
                    let mut field: Vec<u8> = Vec::new();
                    let mut i: usize = p;
                    while i < end
                        invariant
                            p <= i <= end,
                            end <= bytes@.len(),
                            field@ =~= bytes@.subrange(p as int, i as int),
                        decreases end - i,
                    {
                        field.push(bytes[i]);
                        proof {
                            assert(field@ =~= bytes@.subrange(p as int, i as int + 1));
                        }
                        i += 1;
                    }
                    proof {
                        assert(field@ =~= bytes@.subrange(p as int, p as int + len as int));
                    }
                    read_partial(bytes, end, rej, field)
                } else {
                    None
                }
            },
            None => None,
        }
    } else {
        None
    }
}

/// Decodes an export response: `None` for a malformed message, otherwise
/// the partial-success message when one is present.
pub fn decode_response(bytes: &Vec<u8>) -> (r: Option<Option<(i64, Vec<u8>)>>)
    ensures
        match r {
            Some(d) => match d {
                Some((rej, msg)) => dec_response(bytes@) == Some(Some((rej, msg@))),
                None => dec_response(bytes@) == Some(None::<(i64, Seq<u8>)>),
            },
            None => dec_response(bytes@) is None,
        },
{
    if bytes.len() == 0 {
        return Some(None);
    }
    if bytes[0] != 0x0a {
        return None;
    }
    match read_varint(bytes, 1) {
        Some((len, p)) => {
            if len == (bytes.len() - p) as u64 {
                let end = bytes.len();
                let mut inner: Vec<u8> = Vec::new();
                let mut i: usize = p;
                while i < end
                    invariant
                        p <= i <= end,
                        end == bytes@.len(),
                        inner@ =~= bytes@.subrange(p as int, i as int),
                    decreases end - i,
                {
                    inner.push(bytes[i]);
                    proof {
                        assert(inner@ =~= bytes@.subrange(p as int, i as int + 1));
                    }
                    i += 1;
                }
                proof {
                    assert(inner@ =~= bytes@.subrange(p as int, p as int + len as int));
                }
                match read_partial(&inner, 0, 0, Vec::new()) {
                    Some((rej, msg)) => Some(Some((rej, msg))),
                    None => None,
                }
            } else {
                None
            }
        },
        None => None,
    }
}

/// The fixed explanatory message a partial response carries, as its wire
/// bytes: the internal error text is logged, never sent.
pub open spec fn retention_message_bytes() -> Seq<u8> {
    seq![
        83u8, 111u8, 109u8, 101u8, 32u8, 100u8, 97u8, 116u8, 97u8, 32u8, 112u8, 111u8, 105u8,
        110u8, 116u8, 115u8, 32u8, 119u8, 101u8, 114u8, 101u8, 32u8, 114u8, 101u8, 106u8, 101u8,
        99u8, 116u8, 101u8, 100u8, 32u8, 100u8, 117u8, 101u8, 32u8, 116u8, 111u8, 32u8, 101u8,
        120u8, 99u8, 101u8, 101u8, 100u8, 105u8, 110u8, 103u8, 32u8, 116u8, 104u8, 101u8, 32u8,
        97u8, 108u8, 108u8, 111u8, 119u8, 101u8, 100u8, 32u8, 114u8, 101u8, 116u8, 101u8, 110u8,
        116u8, 105u8, 111u8, 110u8, 32u8, 112u8, 101u8, 114u8, 105u8, 111u8, 100u8
    ]
}

/// Builds the fixed partial-response message bytes.
#[verifier::rlimit(30)]
fn retention_message_vec() -> (v: Vec<u8>)
    ensures
        v@ == retention_message_bytes(),
{
    let mut v: Vec<u8> = Vec::new();
    v.push(83);
    v.push(111);
    v.push(109);
    v.push(101);
    v.push(32);
    v.push(100);
    v.push(97);
    v.push(116);
    v.push(97);
    v.push(32);
    v.push(112);
    v.push(111);
    v.push(105);
    v.push(110);
    v.push(116);
    v.push(115);
    v.push(32);
    v.push(119);
    v.push(101);
    v.push(114);
    v.push(101);
    v.push(32);
    v.push(114);
    v.push(101);
    v.push(106);
    v.push(101);
    v.push(99);
    v.push(116);
    v.push(101);
    v.push(100);
    v.push(32);
    v.push(100);
    v.push(117);
    v.push(101);
    v.push(32);
    v.push(116);
    v.push(111);
    v.push(32);
    v.push(101);
    v.push(120);
    v.push(99);
    v.push(101);
    v.push(101);
    v.push(100);
    v.push(105);
    v.push(110);
    v.push(103);
    v.push(32);
    v.push(116);
    v.push(104);
    v.push(101);
    v.push(32);
    v.push(97);
    v.push(108);
    v.push(108);
    v.push(111);
    v.push(119);
    v.push(101);
    v.push(100);
    v.push(32);
    v.push(114);
    v.push(101);
    v.push(116);
    v.push(101);
    v.push(110);
    v.push(116);
    v.push(105);
    v.push(111);
    v.push(110);
    v.push(32);
    v.push(112);
    v.push(101);
    v.push(114);
    v.push(105);
    v.push(111);
    v.push(100);
    proof {
        assert(v@ =~= retention_message_bytes());
    }
    v
}

/// The response the caller sees: the HTTP status, the partial-success
/// payload when any data point was rejected, and the binary body for the
/// wire-format path.
pub struct ResponsePlan {
    pub status: u16,
    pub rejected_data_points: i64,
    pub message: String,
    pub is_partial: bool,
    pub body: Vec<u8>,
}

/// Builds the response: when any data point was rejected the payload
/// carries the total count and a fixed explanatory message — the internal
/// error text is not leaked — and the JSON path answers 206; otherwise both
/// paths answer 200, and the binary path always answers 200, the
/// partial-success structure itself carrying the rejection signal.
pub fn format_response(partial: &PartialSuccess, json: bool) -> (r: ResponsePlan)
    ensures
        r.is_partial == (partial.rejected_data_points > 0),
        r.status == if json && partial.rejected_data_points > 0 {
            206u16
        } else {
            200u16
        },
        r.is_partial ==> r.rejected_data_points == partial.rejected_data_points && r.message@
            == "Some data points were rejected due to exceeding the allowed retention period"@,
        !r.is_partial ==> r.rejected_data_points == 0 && r.message@ == Seq::<char>::empty(),
        r.is_partial ==> ({
            let d = dec_response(r.body@);
            &&& d matches Some(dd)
            &&& dd matches Some(q)
            &&& q.0 == partial.rejected_data_points
            &&& q.0 > 0
            &&& q.1 == retention_message_bytes()
        }),
        !r.is_partial ==> dec_response(r.body@) == Some(None::<(i64, Seq<u8>)>),
{
    let is_partial = partial.rejected_data_points > 0;
    if is_partial {
        let msg = String::from_str(
            "Some data points were rejected due to exceeding the allowed retention period",
        );
        let msg_bytes = retention_message_vec();
        let body = encode_response(Some((partial.rejected_data_points, &msg_bytes)));
        proof {
            lemma_response_roundtrip(Some((partial.rejected_data_points, msg_bytes@)));
        }
        ResponsePlan {
            status: if json {
                206
            } else {
                200
            },
            rejected_data_points: partial.rejected_data_points,
            message: msg,
            is_partial: true,
            body,
        }
    } else {
        let body = encode_response(None);
        proof {
            lemma_response_roundtrip(None);
        }
        ResponsePlan {
            status: 200,
            rejected_data_points: 0,
            message: String::new(),
            is_partial: false,
            body,
        }
    }
}

} // verus!
