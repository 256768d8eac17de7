//! Decimal numerals: reading them, writing them, and their order.

use vstd::prelude::*;
use vstd::string::*;
use crate::text::{lemma_lex_le_by_last, lex_le};

verus! {

/// Whether `c` is one of the ten ASCII decimal digits.
pub open spec fn is_digit(c: char) -> bool {
    '0' <= c && c <= '9'
}

/// Whether every character of `s` is a decimal digit.
pub open spec fn all_digits(s: Seq<char>) -> bool {
    forall|i: int| 0 <= i < s.len() ==> is_digit(#[trigger] s[i])
}

/// The number that the digit `c` stands for.
pub open spec fn digit_value(c: char) -> nat {
    (c as u32 - '0' as u32) as nat
}

/// The number that the decimal numeral `s` denotes; the empty numeral denotes 0.
pub open spec fn decimal_value(s: Seq<char>) -> nat
    decreases s.len(),
{
    if s.len() == 0 {
        0
    } else {
        10 * decimal_value(s.drop_last()) + digit_value(s.last())
    }
}

/// A longer numeral is worth at least as much as any of its prefixes.
pub proof fn lemma_decimal_value_prefix(s: Seq<char>, k: int)
    requires
        0 <= k <= s.len(),
    ensures
        decimal_value(s.subrange(0, k)) <= decimal_value(s),
    decreases s.len(),
{
    if k == s.len() {
        assert(s.subrange(0, k) =~= s);
    } else {
        lemma_decimal_value_prefix(s.drop_last(), k);
        assert(s.drop_last().subrange(0, k) =~= s.subrange(0, k));
    }
}

/// Reads a decimal numeral. Gives its value where every character is a
/// digit and the value fits in 64 bits, and nothing otherwise.
pub fn parse_decimal(s: &Vec<char>, from: usize, to: usize) -> (r: Option<u64>)
    requires
        from <= to <= s.len(),
    ensures
        r is Some <==> all_digits(s@.subrange(from as int, to as int)) && decimal_value(
            s@.subrange(from as int, to as int),
        ) <= u64::MAX,
        r is Some ==> r->0 == decimal_value(s@.subrange(from as int, to as int)),
{
    let ghost seg = s@.subrange(from as int, to as int);
    let mut acc: u64 = 0;
    let mut i: usize = from;
    while i < to
        invariant
            from <= i <= to <= s.len(),
            seg == s@.subrange(from as int, to as int),
            all_digits(seg.subrange(0, i - from)),
            acc == decimal_value(seg.subrange(0, i - from)),
        decreases to - i,
    {
        let c: char = s[i];
        let ghost head = seg.subrange(0, i - from);
        let ghost next = seg.subrange(0, i - from + 1);
        assert(seg[i - from] == c);
        assert(next.drop_last() =~= head);
        assert(next.last() == c);
        if c < '0' || c > '9' {
            assert(!is_digit(seg[i - from]));
            return None;
        }
        let d: u64 = (c as u32 - '0' as u32) as u64;
        assert(d == digit_value(c));
        if acc > (u64::MAX - d) / 10 {
            proof {
                assert(10 * acc + d > u64::MAX);
                lemma_decimal_value_prefix(seg, i - from + 1);
            }
            return None;
        }
        acc = acc * 10 + d;
        i += 1;
        assert forall|j: int| 0 <= j < next.len() implies is_digit(#[trigger] next[j]) by {
            if j < head.len() {
                assert(next[j] == head[j]);
            }
        }
    }
    assert(seg.subrange(0, to - from) =~= seg);
    Some(acc)
}

/// Two decimal numerals of equal length are in dictionary order exactly
/// when their values are in numeric order, and are the same numeral
/// exactly when their values are equal.
pub proof fn lemma_numeral_order(a: Seq<char>, b: Seq<char>)
    requires
        a.len() == b.len(),
        all_digits(a),
        all_digits(b),
    ensures
        lex_le(a, b) == (decimal_value(a) <= decimal_value(b)),
        (a == b) == (decimal_value(a) == decimal_value(b)),
    decreases a.len(),
{
    if a.len() == 0 {
        assert(a =~= b);
    } else {
        let ai = a.drop_last();
        let bi = b.drop_last();
        assert(is_digit(a[a.len() - 1]) && is_digit(b[b.len() - 1]));
        assert(all_digits(ai)) by {
            assert forall|i: int| 0 <= i < ai.len() implies is_digit(#[trigger] ai[i]) by {
                assert(ai[i] == a[i]);
            }
        }
        assert(all_digits(bi)) by {
            assert forall|i: int| 0 <= i < bi.len() implies is_digit(#[trigger] bi[i]) by {
                assert(bi[i] == b[i]);
            }
        }
        lemma_numeral_order(ai, bi);
        lemma_lex_le_by_last(a, b);
        assert(digit_value(a.last()) <= 9 && digit_value(b.last()) <= 9);
        assert((a.last() <= b.last()) == (digit_value(a.last()) <= digit_value(b.last())));
        assert((a.last() == b.last()) == (digit_value(a.last()) == digit_value(b.last())));
        assert(a =~= ai.push(a.last()));
        assert(b =~= bi.push(b.last()));
    }
}

/// The character that stands for the digit `d`.
pub open spec fn digit_char(d: nat) -> char
    recommends
        d < 10,
{
    seq!['0', '1', '2', '3', '4', '5', '6', '7', '8', '9'][d as int]
}

/// The decimal numeral of `n`, without leading zeros.
pub open spec fn decimal_text(n: nat) -> Seq<char>
    decreases n,
{
    if n < 10 {
        seq![digit_char(n)]
    } else {
        decimal_text(n / 10).push(digit_char(n % 10))
    }
}

/// The numeral of a number is made of digits, denotes that number, and
/// begins with a zero only where the number is zero.
pub proof fn lemma_decimal_text(n: nat)
    ensures
        decimal_text(n).len() > 0,
        all_digits(decimal_text(n)),
        decimal_value(decimal_text(n)) == n,
        decimal_text(n)[0] == '0' ==> n == 0,
    decreases n,
{
    let t = decimal_text(n);
    if n < 10 {
        assert(t.drop_last() =~= Seq::<char>::empty());
        assert(decimal_value(t.drop_last()) == 0);
        assert(digit_value(t.last()) == n);
    } else {
        let head = decimal_text(n / 10);
        lemma_decimal_text(n / 10);
        assert(t.drop_last() =~= head);
        assert(digit_value(t.last()) == n % 10);
        assert forall|i: int| 0 <= i < t.len() implies is_digit(#[trigger] t[i]) by {
            if i < head.len() {
                assert(t[i] == head[i]);
            }
        }
        assert(t[0] == head[0]);
    }
}

/// The numeral of one digit, as text.
fn digit_text(d: u64) -> (s: &'static str)
    requires
        d < 10,
    ensures
        s@ == seq![digit_char(d as nat)],
{
    proof {
        reveal_strlit("0");
        reveal_strlit("1");
        reveal_strlit("2");
        reveal_strlit("3");
        reveal_strlit("4");
        reveal_strlit("5");
        reveal_strlit("6");
        reveal_strlit("7");
        reveal_strlit("8");
        reveal_strlit("9");
    }
    let s = if d == 0 {
        "0"
    } else if d == 1 {
        "1"
    } else if d == 2 {
        "2"
    } else if d == 3 {
        "3"
    } else if d == 4 {
        "4"
    } else if d == 5 {
        "5"
    } else if d == 6 {
        "6"
    } else if d == 7 {
        "7"
    } else if d == 8 {
        "8"
    } else {
        "9"
    };
    assert(s@ =~= seq![digit_char(d as nat)]);
    s
}

/// Writes `n` as a decimal numeral, without leading zeros.
pub fn u64_to_text(n: u64) -> (text: String)
    ensures
        text@ == decimal_text(n as nat),
    decreases n,
{
    if n < 10 {
        String::from_str(digit_text(n))
    } else {
        let mut text = u64_to_text(n / 10);
        text.append(digit_text(n % 10));
        assert(text@ =~= decimal_text(n as nat));
        text
    }
}

/// The last `width` digits of `n`, with zeros in front where `n` has
/// fewer.
pub open spec fn fixed_width(n: nat, width: nat) -> Seq<char>
    decreases width,
{
    if width == 0 {
        Seq::empty()
    } else {
        fixed_width(n / 10, (width - 1) as nat).push(digit_char(n % 10))
    }
}

/// Whether `n` can be written in `width` digits.
pub open spec fn fits_width(n: nat, width: nat) -> bool
    decreases width,
{
    if width == 0 {
        n == 0
    } else {
        fits_width(n / 10, (width - 1) as nat)
    }
}

/// A number written in a fixed width is made of that many digits, and
/// denotes the number where the number fits.
pub proof fn lemma_fixed_width(n: nat, width: nat)
    ensures
        fixed_width(n, width).len() == width,
        all_digits(fixed_width(n, width)),
        fits_width(n, width) ==> decimal_value(fixed_width(n, width)) == n,
    decreases width,
{
    if width > 0 {
        let t = fixed_width(n, width);
        let head = fixed_width(n / 10, (width - 1) as nat);
        lemma_fixed_width(n / 10, (width - 1) as nat);
        assert(t.drop_last() =~= head);
        assert(digit_value(t.last()) == n % 10);
        assert forall|i: int| 0 <= i < t.len() implies is_digit(#[trigger] t[i]) by {
            if i < head.len() {
                assert(t[i] == head[i]);
            }
        }
    }
}

/// A numeral followed by a number written in a fixed width denotes the
/// value of the numeral, moved left by that width, plus the number.
pub proof fn lemma_value_with_two_more(s: Seq<char>, n: nat)
    requires
        n < 100,
    ensures
        decimal_value(s + fixed_width(n, 2)) == 100 * decimal_value(s) + n,
        all_digits(s) ==> all_digits(s + fixed_width(n, 2)),
        (s + fixed_width(n, 2)).len() == s.len() + 2,
{
    let tail = fixed_width(n, 2);
    lemma_fixed_width(n, 2);
    assert(fixed_width(n / 10 / 10, 0) =~= Seq::<char>::empty());
    assert(fixed_width(n / 10, 1) =~= seq![digit_char(n / 10 % 10)]);
    assert(tail =~= seq![digit_char(n / 10 % 10), digit_char(n % 10)]);
    let one = s.push(digit_char(n / 10 % 10));
    let two = one.push(digit_char(n % 10));
    assert(s + tail =~= two);
    assert(two.drop_last() =~= one);
    assert(one.drop_last() =~= s);
    assert(digit_value(one.last()) == n / 10 % 10);
    assert(digit_value(two.last()) == n % 10);
    assert(decimal_value(one) == 10 * decimal_value(s) + n / 10 % 10);
    assert(decimal_value(two) == 10 * decimal_value(one) + n % 10);
    assert(n / 10 % 10 == n / 10 && 10 * (n / 10) + n % 10 == n);
    if all_digits(s) {
        assert forall|i: int| 0 <= i < two.len() implies is_digit(#[trigger] two[i]) by {
            if i < s.len() {
                assert(two[i] == s[i]);
            }
        }
    }
}

/// Writes the last `width` digits of `n`, with zeros in front where `n`
/// has fewer.
pub fn fixed_text(n: u64, width: usize) -> (text: String)
    ensures
        text@ == fixed_width(n as nat, width as nat),
    decreases width,
{
    if width == 0 {
        String::new()
    } else {
        let mut text = fixed_text(n / 10, width - 1);
        text.append(digit_text(n % 10));
        assert(text@ =~= fixed_width(n as nat, width as nat));
        text
    }
}

} // verus!
