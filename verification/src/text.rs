//! Text building blocks: decimal numerals and the byte order of strings.

use vstd::prelude::*;
use vstd::string::*;
use vstd::utf8::{
    encode_utf8, encode_utf8_decode_utf8, is_ascii_chars, is_ascii_chars_encode_utf8,
};

verus! {

/// The character that writes the digit `d` in base ten.
pub open spec fn digit_char(d: int) -> char {
    if d == 0 {
        '0'
    } else if d == 1 {
        '1'
    } else if d == 2 {
        '2'
    } else if d == 3 {
        '3'
    } else if d == 4 {
        '4'
    } else if d == 5 {
        '5'
    } else if d == 6 {
        '6'
    } else if d == 7 {
        '7'
    } else if d == 8 {
        '8'
    } else {
        '9'
    }
}

/// The decimal numeral of `n`: most significant digit first, no leading zero,
/// and the single digit `0` for zero.
pub open spec fn decimal_digits(n: nat) -> Seq<char>
    decreases n,
{
    if n < 10 {
        seq![digit_char(n as int)]
    } else {
        decimal_digits(n / 10).push(digit_char((n % 10) as int))
    }
}

fn digit_text(d: u64) -> (t: &'static str)
    requires
        d < 10,
    ensures
        t@ == seq![digit_char(d as int)],
{
    proof {
        reveal_strlit("0");
        reveal_strlit("1");
        reveal_strlit("2");
        reveal_strlit("3");
        reveal_strlit("4");
        reveal_strlit("5");
        reveal_strlit("6");
        reveal_strlit("7");
        reveal_strlit("8");
        reveal_strlit("9");
    }
    let t: &'static str = if d == 0 {
        "0"
    } else if d == 1 {
        "1"
    } else if d == 2 {
        "2"
    } else if d == 3 {
        "3"
    } else if d == 4 {
        "4"
    } else if d == 5 {
        "5"
    } else if d == 6 {
        "6"
    } else if d == 7 {
        "7"
    } else if d == 8 {
        "8"
    } else {
        "9"
    };
    t
}

/// Writes `n` in base ten.
pub fn decimal_string(n: u64) -> (s: String)
    ensures
        s@ == decimal_digits(n as nat),
    decreases n,
{
    if n < 10 {
        String::from_str(digit_text(n))
    } else {
        let mut s: String = decimal_string(n / 10);
        s.append(digit_text(n % 10));
        s
    }
}

/// How one item stands to another in an order.
#[derive(Clone, Copy, Debug, PartialEq, Eq, Structural)]
pub enum Rank {
    /// The first comes before the second.
    Before,
    /// Neither comes before the other.
    Tied,
    /// The second comes before the first.
    After,
}

/// `a` and `b` hold the same bytes at every index below `k`.
pub open spec fn agree_below(a: Seq<u8>, b: Seq<u8>, k: int) -> bool {
    &&& 0 <= k <= a.len()
    &&& k <= b.len()
    &&& forall|i: int| 0 <= i < k ==> a[i] == b[i]
}

/// The order of byte strings: `a` comes before `b` when, at the first index
/// where the two differ, `a` holds the smaller byte, or when `a` ends there and
/// `b` goes on.
pub open spec fn bytes_lt(a: Seq<u8>, b: Seq<u8>) -> bool {
    exists|k: int| #[trigger]
        agree_below(a, b, k) && k < b.len() && (k == a.len() || a[k] < b[k])
}

/// The order of strings, which is the order of their UTF-8 encodings.
pub open spec fn text_lt(a: Seq<char>, b: Seq<char>) -> bool {
    bytes_lt(encode_utf8(a), encode_utf8(b))
}

/// The order of texts character by character: `a` comes before `b` when, at
/// the first place where the two differ, `a` holds the smaller character, or
/// when `a` ends there and `b` goes on.
pub open spec fn chars_lt(a: Seq<char>, b: Seq<char>) -> bool {
    exists|k: int| #[trigger]
        chars_agree_below(a, b, k) && k < b.len() && (k == a.len() || a[k] < b[k])
}

/// `a` and `b` hold the same characters at every place below `k`.
pub open spec fn chars_agree_below(a: Seq<char>, b: Seq<char>, k: int) -> bool {
    &&& 0 <= k <= a.len()
    &&& k <= b.len()
    &&& forall|i: int| 0 <= i < k ==> a[i] == b[i]
}

/// For texts of ASCII characters the order of strings is the order character
/// by character.
pub proof fn lemma_ascii_text_order(a: Seq<char>, b: Seq<char>)
    requires
        is_ascii_chars(a),
        is_ascii_chars(b),
    ensures
        text_lt(a, b) <==> chars_lt(a, b),
{
    let x = encode_utf8(a);
    let y = encode_utf8(b);
    is_ascii_chars_encode_utf8(a);
    is_ascii_chars_encode_utf8(b);
    assert forall|i: int| 0 <= i < a.len() implies x[i] as int == a[i] as int by {
        assert(a[i] as u8 == x[i]);
    }
    assert forall|i: int| 0 <= i < b.len() implies y[i] as int == b[i] as int by {
        assert(b[i] as u8 == y[i]);
    }
    if bytes_lt(x, y) {
        let k = choose|k: int| #[trigger]
            agree_below(x, y, k) && k < y.len() && (k == x.len() || x[k] < y[k]);
        assert forall|i: int| 0 <= i < k implies a[i] == b[i] by {
            assert(x[i] == y[i]);
        }
        assert(chars_agree_below(a, b, k));
    }
    if chars_lt(a, b) {
        let k = choose|k: int| #[trigger]
            chars_agree_below(a, b, k) && k < b.len() && (k == a.len() || a[k] < b[k]);
        assert forall|i: int| 0 <= i < k implies x[i] == y[i] by {
            assert(a[i] == b[i]);
        }
        assert(agree_below(x, y, k));
    }
}

/// No byte string comes before itself, and of two byte strings at most one
/// comes before the other.
pub proof fn lemma_bytes_lt_asymmetric(a: Seq<u8>, b: Seq<u8>)
    ensures
        !(bytes_lt(a, b) && bytes_lt(b, a)),
        a == b ==> !bytes_lt(a, b),
{
    if bytes_lt(a, b) && bytes_lt(b, a) {
        let k = choose|k: int| #[trigger]
            agree_below(a, b, k) && k < b.len() && (k == a.len() || a[k] < b[k]);
        let m = choose|m: int| #[trigger]
            agree_below(b, a, m) && m < a.len() && (m == b.len() || b[m] < a[m]);
        assert(false);
    }
    if a == b && bytes_lt(a, b) {
        let k = choose|k: int| #[trigger]
            agree_below(a, b, k) && k < b.len() && (k == a.len() || a[k] < b[k]);
        assert(false);
    }
}

/// The order of byte strings is transitive.
pub proof fn lemma_bytes_lt_transitive(a: Seq<u8>, b: Seq<u8>, c: Seq<u8>)
    requires
        bytes_lt(a, b),
        bytes_lt(b, c),
    ensures
        bytes_lt(a, c),
{
    let k = choose|k: int| #[trigger]
        agree_below(a, b, k) && k < b.len() && (k == a.len() || a[k] < b[k]);
    let m = choose|m: int| #[trigger]
        agree_below(b, c, m) && m < c.len() && (m == b.len() || b[m] < c[m]);
    let w = if k <= m {
        k
    } else {
        m
    };
    assert(agree_below(a, c, w));
}

proof fn lemma_bytes_lt_total_from(a: Seq<u8>, b: Seq<u8>, k: int)
    requires
        agree_below(a, b, k),
    ensures
        a == b || bytes_lt(a, b) || bytes_lt(b, a),
    decreases a.len() - k,
{
    if k == a.len() {
        if k == b.len() {
            assert(a =~= b);
        } else {
            assert(agree_below(a, b, k));
        }
    } else if k == b.len() {
        assert(agree_below(b, a, k));
    } else if a[k] < b[k] {
        assert(agree_below(a, b, k));
    } else if b[k] < a[k] {
        assert(agree_below(b, a, k));
    } else {
        lemma_bytes_lt_total_from(a, b, k + 1);
    }
}

/// Of two different byte strings one comes before the other.
pub proof fn lemma_bytes_lt_total(a: Seq<u8>, b: Seq<u8>)
    ensures
        a == b || bytes_lt(a, b) || bytes_lt(b, a),
{
    lemma_bytes_lt_total_from(a, b, 0);
}

/// Compares two byte strings in the order of byte strings.
pub fn compare_bytes(a: &[u8], b: &[u8]) -> (r: Rank)
    ensures
        r == Rank::Before <==> bytes_lt(a@, b@),
        r == Rank::After <==> bytes_lt(b@, a@),
        r == Rank::Tied <==> a@ == b@,
{
    proof {
        lemma_bytes_lt_asymmetric(a@, b@);
        lemma_bytes_lt_asymmetric(b@, a@);
    }
    let mut i: usize = 0;
    while i < a.len() && i < b.len()
        invariant
            agree_below(a@, b@, i as int),
        decreases a.len() - i,
    {
        if a[i] < b[i] {
            return Rank::Before;
        }
        if b[i] < a[i] {
            assert(agree_below(b@, a@, i as int));
            return Rank::After;
        }
        i += 1;
    }
    if i < b.len() {
        Rank::Before
    } else if i < a.len() {
        assert(agree_below(b@, a@, i as int));
        Rank::After
    } else {
        assert(a@ =~= b@);
        Rank::Tied
    }
}

/// Two texts with the same UTF-8 encoding are the same text.
pub proof fn lemma_same_bytes_same_text(a: Seq<char>, b: Seq<char>)
    ensures
        encode_utf8(a) == encode_utf8(b) <==> a == b,
{
    encode_utf8_decode_utf8(a);
    encode_utf8_decode_utf8(b);
}

/// Of two different texts one comes before the other, and never both.
pub proof fn lemma_text_lt_total(a: Seq<char>, b: Seq<char>)
    ensures
        a == b || text_lt(a, b) || text_lt(b, a),
        !(text_lt(a, b) && text_lt(b, a)),
        !text_lt(a, a),
{
    lemma_same_bytes_same_text(a, b);
    lemma_bytes_lt_total(encode_utf8(a), encode_utf8(b));
    lemma_bytes_lt_asymmetric(encode_utf8(a), encode_utf8(b));
    lemma_bytes_lt_asymmetric(encode_utf8(a), encode_utf8(a));
}

/// Compares two strings as Rust orders strings: by their bytes.
pub fn compare_text(a: &str, b: &str) -> (r: Rank)
    ensures
        r == Rank::Before <==> text_lt(a@, b@),
        r == Rank::After <==> text_lt(b@, a@),
        r == Rank::Tied <==> a@ == b@,
{
    proof {
        lemma_same_bytes_same_text(a@, b@);
    }
    compare_bytes(a.as_bytes(), b.as_bytes())
}

} // verus!
