//! Small text utilities: character-exact string equality, and decimal and
//! hexadecimal renderings of integers, used for stringified columns and for
//! fingerprint embedding.

use vstd::prelude::*;

verus! {

/// Character-by-character string equality.
pub fn str_eq(a: &str, b: &str) -> (r: bool)
    ensures
        r == (a@ == b@),
{
    let la = a.unicode_len();
    let lb = b.unicode_len();
    if la != lb {
        return false;
    }
    let mut i: usize = 0;
    while i < la
        invariant
            la == a@.len(),
            la == b@.len(),
            i <= la,
            forall|j: int| 0 <= j < i ==> a@[j] == b@[j],
        decreases la - i,
    {
        if a.get_char(i) != b.get_char(i) {
            return false;
        }
        i += 1;
    }
    proof {
        assert(a@ =~= b@);
    }
    true
}

/// The character for one decimal digit.
pub open spec fn dec_digit(d: int) -> char {
    if d == 0 {
        '0'
    } else if d == 1 {
        '1'
    } else if d == 2 {
        '2'
    } else if d == 3 {
        '3'
    } else if d == 4 {
        '4'
    } else if d == 5 {
        '5'
    } else if d == 6 {
        '6'
    } else if d == 7 {
        '7'
    } else if d == 8 {
        '8'
    } else {
        '9'
    }
}

/// The usual decimal rendering of a natural number, without leading zeros.
pub open spec fn dec_str(n: nat) -> Seq<char>
    decreases n,
{
    if n < 10 {
        seq![dec_digit(n as int)]
    } else {
        dec_str(n / 10).push(dec_digit((n % 10) as int))
    }
}

/// The decimal rendering of a signed number: a minus sign, then the digits.
pub open spec fn dec_str_signed(n: int) -> Seq<char> {
    if n >= 0 {
        dec_str(n as nat)
    } else {
        seq!['-'].add(dec_str((-n) as nat))
    }
}

fn append_dec_digit(s: &mut String, d: u64)
    requires
        d < 10,
    ensures
        final(s)@ == old(s)@.push(dec_digit(d as int)),
{
    let t: &str = match d {
        0 => "0",
        1 => "1",
        2 => "2",
        3 => "3",
        4 => "4",
        5 => "5",
        6 => "6",
        7 => "7",
        8 => "8",
        _ => "9",
    };
    proof {
        reveal_strlit("0");
        reveal_strlit("1");
        reveal_strlit("2");
        reveal_strlit("3");
        reveal_strlit("4");
        reveal_strlit("5");
        reveal_strlit("6");
        reveal_strlit("7");
        reveal_strlit("8");
        reveal_strlit("9");
        assert(t@ =~= seq![dec_digit(d as int)]);
    }
    s.append(t);
    proof {
        assert(final(s)@ =~= old(s)@.push(dec_digit(d as int)));
    }
}

fn append_dec(s: &mut String, n: u64)
    ensures
        final(s)@ == old(s)@.add(dec_str(n as nat)),
    decreases n,
{
    if n < 10 {
        append_dec_digit(s, n);
        proof {
            assert(old(s)@.push(dec_digit(n as int)) =~= old(s)@.add(dec_str(n as nat)));
        }
    } else {
        append_dec(s, n / 10);
        append_dec_digit(s, n % 10);
        proof {
            assert(old(s)@.add(dec_str((n / 10) as nat)).push(dec_digit((n % 10) as int)) =~= old(
                s,
            )@.add(dec_str(n as nat)));
        }
    }
}

/// Renders an unsigned number in decimal.
pub fn u64_to_string(n: u64) -> (r: String)
    ensures
        r@ == dec_str(n as nat),
{
    let mut s = String::new();
    append_dec(&mut s, n);
    proof {
        assert(Seq::<char>::empty().add(dec_str(n as nat)) =~= dec_str(n as nat));
    }
    s
}

/// Renders a signed number in decimal.
pub fn i64_to_string(n: i64) -> (r: String)
    ensures
        r@ == dec_str_signed(n as int),
{
    if n >= 0 {
        u64_to_string(n as u64)
    } else {
        // Negate without overflowing on the smallest value.
        let m: u64 = ((-(n + 1)) as u64) + 1;
        proof {
            assert(m == (-(n as int)) as nat);
        }
        let mut s = String::new();
        proof {
            reveal_strlit("-");
        }
        s.append("-");
        append_dec(&mut s, m);
        proof {
            assert(s@ =~= dec_str_signed(n as int));
        }
        s
    }
}

/// The character for one hexadecimal digit, in lower case.
pub open spec fn hex_digit(d: int) -> char {
    if d < 10 {
        dec_digit(d)
    } else if d == 10 {
        'a'
    } else if d == 11 {
        'b'
    } else if d == 12 {
        'c'
    } else if d == 13 {
        'd'
    } else if d == 14 {
        'e'
    } else {
        'f'
    }
}

/// The rendering of `n` as `width` hexadecimal digits, most significant
/// first, with leading zeros.
pub open spec fn hex_str(n: nat, width: nat) -> Seq<char>
    decreases width,
{
    if width == 0 {
        Seq::<char>::empty()
    } else {
        hex_str(n / 16, (width - 1) as nat).push(hex_digit((n % 16) as int))
    }
}

fn append_hex_digit(s: &mut String, d: u64)
    requires
        d < 16,
    ensures
        final(s)@ == old(s)@.push(hex_digit(d as int)),
{
    if d < 10 {
        append_dec_digit(s, d);
    } else {
        let t: &str = match d {
            10 => "a",
            11 => "b",
            12 => "c",
            13 => "d",
            14 => "e",
            _ => "f",
        };
        proof {
            reveal_strlit("a");
            reveal_strlit("b");
            reveal_strlit("c");
            reveal_strlit("d");
            reveal_strlit("e");
            reveal_strlit("f");
            assert(t@ =~= seq![hex_digit(d as int)]);
        }
        s.append(t);
        proof {
            assert(final(s)@ =~= old(s)@.push(hex_digit(d as int)));
        }
    }
}

pub(crate) fn append_hex(s: &mut String, n: u64, width: u64)
    ensures
        final(s)@ == old(s)@.add(hex_str(n as nat, width as nat)),
    decreases width,
{
    if width == 0 {
        proof {
            assert(old(s)@.add(hex_str(n as nat, 0)) =~= old(s)@);
        }
    } else {
        append_hex(s, n / 16, width - 1);
        append_hex_digit(s, n % 16);
        proof {
            assert(old(s)@.add(hex_str((n / 16) as nat, (width - 1) as nat)).push(
                hex_digit((n % 16) as int),
            ) =~= old(s)@.add(hex_str(n as nat, width as nat)));
        }
    }
}

/// Renders a 64-bit value as 16 lower-case hexadecimal digits.
pub fn u64_to_hex16(n: u64) -> (r: String)
    ensures
        r@ == hex_str(n as nat, 16),
{
    let mut s = String::new();
    append_hex(&mut s, n, 16);
    proof {
        assert(Seq::<char>::empty().add(hex_str(n as nat, 16)) =~= hex_str(n as nat, 16));
    }
    s
}

/// The decimal rendering of a boolean, as the original stringifies it.
pub open spec fn bool_str(b: bool) -> Seq<char> {
    if b {
        "true"@
    } else {
        "false"@
    }
}

/// Renders a boolean as `"true"` or `"false"`.
pub fn bool_to_string(b: bool) -> (r: String)
    ensures
        r@ == bool_str(b),
{
    if b {
        String::from_str("true")
    } else {
        String::from_str("false")
    }
}

/// The lower-case hexadecimal rendering of a byte string, two digits per
/// byte, in order.
pub open spec fn bytes_hex(s: Seq<u8>) -> Seq<char>
    decreases s.len(),
{
    if s.len() == 0 {
        Seq::<char>::empty()
    } else {
        hex_str(s[0] as nat, 2).add(bytes_hex(s.drop_first()))
    }
}

/// Whether every byte is zero: the invalid-identifier sentinel.
pub open spec fn all_zero(s: Seq<u8>) -> bool {
    forall|i: int| 0 <= i < s.len() ==> s[i] == 0
}

/// Renders identifier bytes as lower-case hexadecimal.
#[verifier::loop_isolation(false)]
pub fn bytes_to_hex(v: &Vec<u8>) -> (r: String)
    ensures
        r@ == bytes_hex(v@),
{
    let mut s = String::new();
    let n = v.len();
    let mut i: usize = 0;
    proof {
        assert(v@.skip(0) =~= v@);
    }
    while i < n
        invariant
            n == v.len(),
            i <= n,
            bytes_hex(v@) == s@.add(bytes_hex(v@.skip(i as int))),
        decreases n - i,
    {
        proof {
            assert(v@.skip(i as int)[0] == v@[i as int]);
            assert(v@.skip(i as int).drop_first() =~= v@.skip(i as int + 1));
        }
        append_hex(&mut s, v[i] as u64, 2);
        i += 1;
    }
    proof {
        assert(v@.skip(n as int) =~= Seq::<u8>::empty());
        assert(s@.add(bytes_hex(v@.skip(n as int))) =~= s@);
    }
    s
}

/// Whether every identifier byte is zero.
pub fn is_all_zero(v: &Vec<u8>) -> (r: bool)
    ensures
        r == all_zero(v@),
{
    let n = v.len();
    let mut i: usize = 0;
    while i < n
        invariant
            n == v.len(),
            i <= n,
            forall|j: int| 0 <= j < i ==> v@[j] == 0,
        decreases n - i,
    {
        if v[i] != 0 {
            return false;
        }
        i += 1;
    }
    true
}

/// The specification-level contents of a list of strings.
pub open spec fn strings_view(s: Seq<String>) -> Seq<Seq<char>>
    decreases s.len(),
{
    if s.len() == 0 {
        Seq::<Seq<char>>::empty()
    } else {
        strings_view(s.drop_last()).push(s.last()@)
    }
}

pub broadcast proof fn lemma_strings_view(s: Seq<String>)
    ensures
        (#[trigger] strings_view(s)).len() == s.len(),
        forall|j: int| 0 <= j < s.len() ==> #[trigger] strings_view(s)[j] == s[j]@,
    decreases s.len(),
{
    if s.len() > 0 {
        lemma_strings_view(s.drop_last());
    }
}

} // verus!
