//! Text on raw bytes: decoding, byte-wise order, and calendar dates written
//! as `YYYY-MM-DD`.

use vstd::prelude::*;
use vstd::string::{StringExecFns, StringSliceAdditionalSpecFns};
use vstd::utf8::{decode_utf8, encode_utf8, valid_utf8};

verus! {

/// `core::str::from_utf8`: the bytes are handed back as text exactly when
/// they are well-formed UTF-8, and the text then encodes to the same bytes.
#[verifier::external_body]
pub(crate) fn decode(bytes: &[u8]) -> (r: Option<&str>)
    ensures
        r is Some <==> valid_utf8(bytes@),
        r is Some ==> r->Some_0.spec_bytes() == bytes@,
{
    match core::str::from_utf8(bytes) {
        Ok(text) => Some(text),
        Err(_) => None,
    }
}

/// The text that `bytes` decode to. Meaningful where `valid_utf8(bytes)`.
pub open spec fn text_of(bytes: Seq<u8>) -> Seq<char> {
    decode_utf8(bytes)
}

/// Decoding undoes encoding: text whose encoding is `bytes` is `text_of(bytes)`.
pub proof fn lemma_text_of_encoding(chars: Seq<char>)
    ensures
        valid_utf8(encode_utf8(chars)),
        text_of(encode_utf8(chars)) == chars,
{
    vstd::utf8::encode_utf8_valid_utf8(chars);
    vstd::utf8::encode_utf8_decode_utf8(chars);
}

/// Strict byte-wise lexicographic order, a proper prefix being smaller.
pub open spec fn lex_less(a: Seq<u8>, b: Seq<u8>) -> bool
    decreases a.len(),
{
    if b.len() == 0 {
        false
    } else if a.len() == 0 {
        true
    } else if a[0] != b[0] {
        a[0] < b[0]
    } else {
        lex_less(a.skip(1), b.skip(1))
    }
}

/// Decides `lex_less` on two byte slices.
pub fn bytes_less(a: &[u8], b: &[u8]) -> (r: bool)
    ensures
        r == lex_less(a@, b@),
{
    let mut i: usize = 0;
    proof {
        assert(a@.skip(0) =~= a@);
        assert(b@.skip(0) =~= b@);
    }
    while i < a.len() && i < b.len()
        invariant
            i <= a.len(),
            i <= b.len(),
            lex_less(a@, b@) == lex_less(a@.skip(i as int), b@.skip(i as int)),
        decreases a.len() - i,
    {
        let x: u8 = a[i];
        let y: u8 = b[i];
        proof {
            let sa = a@.skip(i as int);
            let sb = b@.skip(i as int);
            assert(sa.skip(1) =~= a@.skip(i + 1));
            assert(sb.skip(1) =~= b@.skip(i + 1));
        }
        if x != y {
            return x < y;
        }
        i += 1;
    }
    i < b.len()
}

/// Whether `b` is an ASCII digit.
pub open spec fn is_digit(b: u8) -> bool {
    0x30 <= b <= 0x39
}

/// Whether `b` is a date written as four, two and two ASCII digits joined by
/// hyphens.
pub open spec fn is_iso_date(b: Seq<u8>) -> bool {
    &&& b.len() == 10
    &&& is_digit(b[0])
    &&& is_digit(b[1])
    &&& is_digit(b[2])
    &&& is_digit(b[3])
    &&& b[4] == 0x2d
    &&& is_digit(b[5])
    &&& is_digit(b[6])
    &&& b[7] == 0x2d
    &&& is_digit(b[8])
    &&& is_digit(b[9])
}

/// Decides `is_iso_date`.
pub fn check_iso_date(b: &[u8]) -> (r: bool)
    ensures
        r == is_iso_date(b@),
{
    if b.len() != 10 {
        return false;
    }
    let mut i: usize = 0;
    while i < 10
        invariant
            b@.len() == 10,
            i <= 10,
            forall|k: int|
                0 <= k < i ==> (if k == 4 || k == 7 {
                    b@[k] == 0x2d
                } else {
                    is_digit(#[trigger] b@[k])
                }),
        decreases 10 - i,
    {
        let x: u8 = b[i];
        if i == 4 || i == 7 {
            if x != 0x2d {
                return false;
            }
        } else if x < 0x30 || x > 0x39 {
            return false;
        }
        i += 1;
    }
    true
}

/// The value of the ASCII digit at place `k` of `b`.
pub open spec fn digit_at(b: Seq<u8>, k: int) -> int {
    b[k] - 0x30
}

/// The day that an ISO date names, as one number that grows with time:
/// year, month and day read as decimal fields.
pub open spec fn date_number(b: Seq<u8>) -> int
    recommends
        is_iso_date(b),
{
    digit_at(b, 0) * 10_000_000 + digit_at(b, 1) * 1_000_000 + digit_at(b, 2) * 100_000
        + digit_at(b, 3) * 10_000 + digit_at(b, 5) * 1000 + digit_at(b, 6) * 100 + digit_at(b, 8)
        * 10 + digit_at(b, 9)
}

/// On ISO dates the byte-wise order of the text is the order of the days.
pub proof fn lemma_iso_order_is_chronological(a: Seq<u8>, b: Seq<u8>)
    requires
        is_iso_date(a),
        is_iso_date(b),
    ensures
        lex_less(a, b) <==> date_number(a) < date_number(b),
        a == b <==> date_number(a) == date_number(b),
{
    if a =~= b {
        lemma_lex_less_prefix(a, b, 10);
    } else {
        let k = first_difference(a, b, 0);
        lemma_first_difference(a, b, 0);
        lemma_lex_less_prefix(a, b, k);
    }
}

/// The first place at or after `from` where `a` and `b` differ, or the
/// length of `a` where there is none.
pub open spec fn first_difference(a: Seq<u8>, b: Seq<u8>, from: int) -> int
    decreases a.len() - from,
{
    if from < 0 || from >= a.len() || from >= b.len() || a[from] != b[from] {
        from
    } else {
        first_difference(a, b, from + 1)
    }
}

/// What `first_difference` finds: the two agree before it, and differ at it
/// unless one of them has ended.
pub proof fn lemma_first_difference(a: Seq<u8>, b: Seq<u8>, from: int)
    requires
        0 <= from <= a.len(),
        from <= b.len(),
    ensures
        from <= first_difference(a, b, from) <= a.len(),
        first_difference(a, b, from) <= b.len(),
        forall|j: int| from <= j < first_difference(a, b, from) ==> a[j] == b[j],
        first_difference(a, b, from) < a.len() && first_difference(a, b, from) < b.len()
            ==> a[first_difference(a, b, from)] != b[first_difference(a, b, from)],
    decreases a.len() - from,
{
    if from < a.len() && from < b.len() && a[from] == b[from] {
        lemma_first_difference(a, b, from + 1);
    }
}

/// `lex_less` after a common prefix of `k` bytes is `lex_less` of the rest.
pub proof fn lemma_lex_less_prefix(a: Seq<u8>, b: Seq<u8>, k: int)
    requires
        0 <= k <= a.len(),
        k <= b.len(),
        forall|j: int| 0 <= j < k ==> a[j] == b[j],
    ensures
        lex_less(a, b) == lex_less(a.skip(k), b.skip(k)),
    decreases k,
{
    if k > 0 {
        lemma_lex_less_prefix(a, b, k - 1);
        let sa = a.skip(k - 1);
        let sb = b.skip(k - 1);
        assert(sa.skip(1) =~= a.skip(k));
        assert(sb.skip(1) =~= b.skip(k));
    } else {
        assert(a.skip(0) =~= a);
        assert(b.skip(0) =~= b);
    }
}

/// The character that writes the digit `d`.
pub open spec fn digit_char(d: int) -> char {
    if d == 0 {
        '0'
    } else if d == 1 {
        '1'
    } else if d == 2 {
        '2'
    } else if d == 3 {
        '3'
    } else if d == 4 {
        '4'
    } else if d == 5 {
        '5'
    } else if d == 6 {
        '6'
    } else if d == 7 {
        '7'
    } else if d == 8 {
        '8'
    } else {
        '9'
    }
}

/// The number `n` written in decimal digits, without leading zeros.
pub open spec fn decimal_text(n: nat) -> Seq<char>
    decreases n,
{
    if n < 10 {
        seq![digit_char(n as int)]
    } else {
        decimal_text(n / 10) + seq![digit_char((n % 10) as int)]
    }
}

/// The text of one digit.
fn digit_text(d: usize) -> (r: &'static str)
    requires
        d < 10,
    ensures
        r@ == seq![digit_char(d as int)],
{
    proof {
        reveal_strlit("0");
        reveal_strlit("1");
        reveal_strlit("2");
        reveal_strlit("3");
        reveal_strlit("4");
        reveal_strlit("5");
        reveal_strlit("6");
        reveal_strlit("7");
        reveal_strlit("8");
        reveal_strlit("9");
    }
    let r = if d == 0 {
        "0"
    } else if d == 1 {
        "1"
    } else if d == 2 {
        "2"
    } else if d == 3 {
        "3"
    } else if d == 4 {
        "4"
    } else if d == 5 {
        "5"
    } else if d == 6 {
        "6"
    } else if d == 7 {
        "7"
    } else if d == 8 {
        "8"
    } else {
        "9"
    };
    r
}

/// Writes `n` in decimal digits.
pub fn decimal(n: usize) -> (r: String)
    ensures
        r@ == decimal_text(n as nat),
{
    let mut out = String::from_str(digit_text(n % 10));
    let mut rest: usize = n / 10;
    while rest > 0
        invariant
            decimal_text(n as nat) == (if rest > 0 {
                decimal_text(rest as nat) + out@
            } else {
                out@
            }),
        decreases rest,
    {
        let digit = String::from_str(digit_text(rest % 10));
        out = digit.concat(out.as_str());
        rest = rest / 10;
    }
    out
}

} // verus!
