//! Canonical unsigned decimal texts: the only encoding of a field element or a
//! bounded integer that the prover accepts from its callers.

use num_bigint::BigUint;
use vstd::prelude::*;

verus! {

/// The longest decimal text accepted: every accepted bound is below 10^78.
pub const MAX_DECIMAL_DIGITS: usize = 78;

pub open spec fn is_digit(c: char) -> bool {
    '0' <= c && c <= '9'
}

pub open spec fn digit_value(c: char) -> nat {
    (c as int - '0' as int) as nat
}

pub open spec fn all_digits(s: Seq<char>) -> bool {
    forall|i: int| 0 <= i < s.len() ==> is_digit(#[trigger] s[i])
}

/// The number that a text of decimal digits denotes (most significant first).
pub open spec fn decimal_value(s: Seq<char>) -> nat
    decreases s.len(),
{
    if s.len() == 0 {
        0
    } else {
        decimal_value(s.drop_last()) * 10 + digit_value(s.last())
    }
}

/// A non-empty text of at most `MAX_DECIMAL_DIGITS` digits with no leading zero
/// (the single digit `0` excepted).
pub open spec fn canonical_decimal(s: Seq<char>) -> bool {
    &&& 0 < s.len() <= MAX_DECIMAL_DIGITS
    &&& all_digits(s)
    &&& s.len() > 1 ==> s[0] != '0'
}

pub open spec fn pow10(n: nat) -> nat
    decreases n,
{
    if n == 0 {
        1
    } else {
        10 * pow10((n - 1) as nat)
    }
}

/// The digit character of a value below ten.
pub open spec fn digit_char(d: nat) -> char {
    (d + '0' as int) as char
}

/// The shortest decimal text of `n`.
pub open spec fn decimal_text(n: nat) -> Seq<char>
    decreases n,
{
    if n < 10 {
        seq![digit_char(n)]
    } else {
        decimal_text(n / 10).push(digit_char(n % 10))
    }
}

/// Decides whether `s` is a canonical decimal text.
pub fn is_canonical_decimal(s: &str) -> (r: bool)
    ensures
        r == canonical_decimal(s@),
{
    let n = s.unicode_len();
    if n == 0 || n > MAX_DECIMAL_DIGITS {
        return false;
    }
    let mut i: usize = 0;
    while i < n
        invariant
            n == s@.len(),
            i <= n,
            forall|j: int| 0 <= j < i ==> is_digit(#[trigger] s@[j]),
        decreases n - i,
    {
        let c = s.get_char(i);
        if c < '0' || c > '9' {
            return false;
        }
        i += 1;
    }
    if n > 1 && s.get_char(0) == '0' {
        return false;
    }
    true
}

/// `num_bigint::BigUint::parse_bytes` in radix ten applied to both texts, and
/// the two results compared with `<`. For texts of decimal digits the crate
/// parses the number they denote, so the comparison is that of the numbers.
#[verifier::external_body]
pub(crate) fn decimal_below(text: &str, limit: &str) -> (r: bool)
    requires
        text@.len() > 0,
        all_digits(text@),
        limit@.len() > 0,
        all_digits(limit@),
    ensures
        r == (decimal_value(text@) < decimal_value(limit@)),
{
    BigUint::parse_bytes(text.as_bytes(), 10) < BigUint::parse_bytes(limit.as_bytes(), 10)
}

/// Returns the one-character text of a digit.
fn digit_str(d: usize) -> (r: &'static str)
    requires
        d < 10,
    ensures
        r@ == seq![digit_char(d as nat)],
{
    proof {
        reveal_strlit("0");
        reveal_strlit("1");
        reveal_strlit("2");
        reveal_strlit("3");
        reveal_strlit("4");
        reveal_strlit("5");
        reveal_strlit("6");
        reveal_strlit("7");
        reveal_strlit("8");
        reveal_strlit("9");
    }
    let r = match d {
        0 => "0",
        1 => "1",
        2 => "2",
        3 => "3",
        4 => "4",
        5 => "5",
        6 => "6",
        7 => "7",
        8 => "8",
        _ => "9",
    };
    assert(r@ =~= seq![digit_char(d as nat)]);
    r
}

/// Writes a number as its shortest decimal text.
pub fn usize_to_decimal(n: usize) -> (r: String)
    ensures
        r@ == decimal_text(n as nat),
    decreases n,
{
    if n < 10 {
        String::from_str(digit_str(n))
    } else {
        let head = usize_to_decimal(n / 10);
        let r = head.concat(digit_str(n % 10));
        assert(r@ =~= decimal_text(n as nat));
        r
    }
}

/// The digit character of a value below ten is a digit denoting that value.
proof fn lemma_digit_char(d: nat)
    requires
        d < 10,
    ensures
        is_digit(digit_char(d)),
        digit_value(digit_char(d)) == d,
        digit_char(d) == '0' <==> d == 0,
{
    assert((d + '0' as int) as char as int == d + '0' as int);
}

/// The shortest decimal text of a number is a non-empty text of digits,
/// without a leading zero, that denotes the number.
pub proof fn lemma_decimal_text_denotes(n: nat)
    ensures
        decimal_text(n).len() > 0,
        all_digits(decimal_text(n)),
        decimal_value(decimal_text(n)) == n,
        decimal_text(n).len() > 1 ==> decimal_text(n)[0] != '0',
    decreases n,
{
    if n < 10 {
        lemma_digit_char(n);
        assert(decimal_text(n).drop_last() =~= Seq::<char>::empty());
        assert(decimal_value(Seq::<char>::empty()) == 0);
        assert(decimal_text(n).last() == digit_char(n));
    } else {
        let h = decimal_text(n / 10);
        lemma_decimal_text_denotes(n / 10);
        lemma_digit_char(n % 10);
        let t = decimal_text(n);
        assert(t == h.push(digit_char(n % 10)));
        assert(t.drop_last() =~= h);
        assert forall|i: int| 0 <= i < t.len() implies is_digit(#[trigger] t[i]) by {
            if i < h.len() {
                assert(t[i] == h[i]);
            }
        }
        assert(t[0] == h[0]);
        assert(t.last() == digit_char(n % 10));
        assert(decimal_value(t) == decimal_value(h) * 10 + digit_value(digit_char(n % 10)));
        assert(n == (n / 10) * 10 + n % 10);
        if h.len() == 1 {
            assert(h.drop_last() =~= Seq::<char>::empty());
            assert(is_digit(h[0]));
            assert(decimal_value(Seq::<char>::empty()) == 0);
            assert(h.last() == h[0]);
            assert(decimal_value(h) == digit_value(h[0]));
        }
        if n / 10 < 10 {
            lemma_digit_char(n / 10);
            assert(h[0] == digit_char(n / 10));
        }
    }
}

/// The shortest decimal text of a number below 10^k has at most k digits.
pub proof fn lemma_decimal_text_length(n: nat, k: nat)
    requires
        k >= 1,
        n < pow10(k),
    ensures
        decimal_text(n).len() <= k,
    decreases n,
{
    if n >= 10 {
        assert(k >= 2) by {
            if k == 1 {
                assert(pow10(1) == 10 * pow10(0));
            }
        }
        assert(pow10(k) == 10 * pow10((k - 1) as nat));
        lemma_decimal_text_length(n / 10, (k - 1) as nat);
    }
}

/// Canonical decimal texts are exactly the shortest decimal texts of the
/// numbers below 10^78.
pub proof fn lemma_canonical_decimal_is_decimal_text(s: Seq<char>)
    ensures
        canonical_decimal(s) <==> (s == decimal_text(decimal_value(s)) && decimal_value(s) < pow10(
            78,
        )),
{
    let v = decimal_value(s);
    lemma_decimal_text_denotes(v);
    if canonical_decimal(s) {
        lemma_decimal_bounds(s);
        lemma_pow10_monotone(s.len(), 78);
        lemma_decimal_text_length(v, s.len());
        assert(canonical_decimal(decimal_text(v)));
        lemma_canonical_decimal_unique(s, decimal_text(v));
    }
    if s == decimal_text(v) && v < pow10(78) {
        lemma_decimal_text_length(v, 78);
    }
}

/// Multiplying by ten grows every power of ten.
pub proof fn lemma_pow10_monotone(a: nat, b: nat)
    requires
        a <= b,
    ensures
        pow10(a) <= pow10(b),
    decreases b,
{
    if a < b {
        lemma_pow10_monotone(a, (b - 1) as nat);
    }
}

/// A text of `n` digits denotes a number below 10^n, and at least 10^(n-1)
/// when its first digit is not zero.
pub proof fn lemma_decimal_bounds(s: Seq<char>)
    requires
        all_digits(s),
    ensures
        decimal_value(s) < pow10(s.len()),
        s.len() > 0 && s[0] != '0' ==> pow10((s.len() - 1) as nat) <= decimal_value(s),
    decreases s.len(),
{
    if s.len() > 0 {
        let p = s.drop_last();
        assert(all_digits(p)) by {
            assert forall|i: int| 0 <= i < p.len() implies is_digit(#[trigger] p[i]) by {
                assert(p[i] == s[i]);
            }
        }
        assert(is_digit(s[s.len() - 1]));
        lemma_decimal_bounds(p);
        if s.len() > 1 {
            assert(p[0] == s[0]);
        }
    }
}

/// Two digit texts of one length that denote one number are the same text.
pub proof fn lemma_decimal_injective_same_length(a: Seq<char>, b: Seq<char>)
    requires
        all_digits(a),
        all_digits(b),
        a.len() == b.len(),
        decimal_value(a) == decimal_value(b),
    ensures
        a == b,
    decreases a.len(),
{
    if a.len() > 0 {
        let pa = a.drop_last();
        let pb = b.drop_last();
        assert(all_digits(pa)) by {
            assert forall|i: int| 0 <= i < pa.len() implies is_digit(#[trigger] pa[i]) by {
                assert(pa[i] == a[i]);
            }
        }
        assert(all_digits(pb)) by {
            assert forall|i: int| 0 <= i < pb.len() implies is_digit(#[trigger] pb[i]) by {
                assert(pb[i] == b[i]);
            }
        }
        assert(is_digit(a[a.len() - 1]));
        assert(is_digit(b[b.len() - 1]));
        assert(decimal_value(pa) == decimal_value(pb));
        assert(a.last() == b.last());
        lemma_decimal_injective_same_length(pa, pb);
        assert(a =~= pa.push(a.last()));
        assert(b =~= pb.push(b.last()));
    }
}

/// Canonical decimal texts are unique: two of them that denote the same number
/// are the same text.
pub proof fn lemma_canonical_decimal_unique(a: Seq<char>, b: Seq<char>)
    requires
        canonical_decimal(a),
        canonical_decimal(b),
        decimal_value(a) == decimal_value(b),
    ensures
        a == b,
{
    lemma_decimal_bounds(a);
    lemma_decimal_bounds(b);
    if a.len() < b.len() {
        lemma_pow10_monotone(a.len(), (b.len() - 1) as nat);
    } else if b.len() < a.len() {
        lemma_pow10_monotone(b.len(), (a.len() - 1) as nat);
    }
    lemma_decimal_injective_same_length(a, b);
}

} // verus!
