use vstd::prelude::*;
use vstd::string::*;

verus! {

/// The character of a decimal digit `d < 10`.
pub open spec fn digit_char(d: nat) -> char {
    if d == 0 {
        '0'
    } else if d == 1 {
        '1'
    } else if d == 2 {
        '2'
    } else if d == 3 {
        '3'
    } else if d == 4 {
        '4'
    } else if d == 5 {
        '5'
    } else if d == 6 {
        '6'
    } else if d == 7 {
        '7'
    } else if d == 8 {
        '8'
    } else {
        '9'
    }
}

pub open spec fn is_digit(c: char) -> bool {
    '0' <= c && c <= '9'
}

pub open spec fn digit_value(c: char) -> nat {
    (c as nat - '0' as nat) as nat
}

pub open spec fn all_digits(s: Seq<char>) -> bool {
    forall|i: int| 0 <= i < s.len() ==> is_digit(#[trigger] s[i])
}

/// The number that a string of decimal digits denotes, most significant first.
pub open spec fn digits_value(s: Seq<char>) -> nat
    decreases s.len(),
{
    if s.len() == 0 {
        0
    } else {
        digits_value(s.drop_last()) * 10 + digit_value(s.last())
    }
}

/// What parsing `s` as an unsigned 64-bit integer gives: an optional `+`, then
/// at least one decimal digit, with a value that fits.
pub open spec fn parse_u64_spec(s: Seq<char>) -> Option<u64> {
    let d = if s.len() > 0 && s[0] == '+' {
        s.drop_first()
    } else {
        s
    };
    if d.len() > 0 && all_digits(d) && digits_value(d) <= u64::MAX as nat {
        Some(digits_value(d) as u64)
    } else {
        None
    }
}

/// The shortest decimal spelling of `n`.
pub open spec fn decimal_of(n: nat) -> Seq<char>
    decreases n,
{
    if n < 10 {
        seq![digit_char(n)]
    } else {
        decimal_of(n / 10).push(digit_char(n % 10))
    }
}

proof fn lemma_digit_char(d: nat)
    requires
        d < 10,
    ensures
        is_digit(digit_char(d)),
        digit_value(digit_char(d)) == d,
        digit_char(d) != '+',
{
}

/// The decimal spelling of `n` consists of digits, does not start with `+`,
/// and denotes `n`.
pub proof fn lemma_decimal_of(n: nat)
    ensures
        decimal_of(n).len() > 0,
        all_digits(decimal_of(n)),
        decimal_of(n)[0] != '+',
        digits_value(decimal_of(n)) == n,
    decreases n,
{
    if n < 10 {
        lemma_digit_char(n);
        let s = decimal_of(n);
        assert(s.drop_last() =~= Seq::<char>::empty());
        assert(digits_value(s) == digits_value(s.drop_last()) * 10 + digit_value(s.last()));
    } else {
        lemma_decimal_of(n / 10);
        lemma_digit_char(n % 10);
        let s = decimal_of(n);
        assert(s.drop_last() =~= decimal_of(n / 10));
        assert(s.last() == digit_char(n % 10));
        assert(n == (n / 10) * 10 + n % 10);
        assert(digits_value(s) == digits_value(s.drop_last()) * 10 + digit_value(s.last()));
        assert forall|i: int| 0 <= i < s.len() implies is_digit(#[trigger] s[i]) by {
            if i < s.len() - 1 {
                assert(s[i] == decimal_of(n / 10)[i]);
            }
        }
    }
}

/// Parsing the decimal spelling of a `u64` gives it back.
pub proof fn lemma_parse_decimal(n: u64)
    ensures
        parse_u64_spec(decimal_of(n as nat)) == Some(n),
{
    lemma_decimal_of(n as nat);
}

/// Two numbers with the same decimal spelling are equal.
pub proof fn lemma_decimal_injective(a: u64, b: u64)
    ensures
        decimal_of(a as nat) == decimal_of(b as nat) ==> a == b,
{
    lemma_parse_decimal(a);
    lemma_parse_decimal(b);
}

proof fn lemma_prefix_value_grows(s: Seq<char>, i: int)
    requires
        0 <= i <= s.len(),
        all_digits(s),
    ensures
        digits_value(s.subrange(0, i)) <= digits_value(s),
    decreases s.len() - i,
{
    if i < s.len() {
        lemma_prefix_value_grows(s, i + 1);
        assert(s.subrange(0, i + 1).drop_last() =~= s.subrange(0, i));
    } else {
        assert(s.subrange(0, i) =~= s);
    }
}

fn digit_str(d: u64) -> (r: &'static str)
    requires
        d < 10,
    ensures
        r@ == seq![digit_char(d as nat)],
{
    if d == 0 {
        proof { reveal_strlit("0"); }
        "0"
    } else if d == 1 {
        proof { reveal_strlit("1"); }
        "1"
    } else if d == 2 {
        proof { reveal_strlit("2"); }
        "2"
    } else if d == 3 {
        proof { reveal_strlit("3"); }
        "3"
    } else if d == 4 {
        proof { reveal_strlit("4"); }
        "4"
    } else if d == 5 {
        proof { reveal_strlit("5"); }
        "5"
    } else if d == 6 {
        proof { reveal_strlit("6"); }
        "6"
    } else if d == 7 {
        proof { reveal_strlit("7"); }
        "7"
    } else if d == 8 {
        proof { reveal_strlit("8"); }
        "8"
    } else {
        proof { reveal_strlit("9"); }
        "9"
    }
}

/// Writes `n` in decimal, as a file name or a batch key.
pub fn u64_to_decimal(n: u64) -> (r: String)
    ensures
        r@ == decimal_of(n as nat),
    decreases n,
{
    if n < 10 {
        String::from_str(digit_str(n))
    } else {
        let mut s = u64_to_decimal(n / 10);
        s.append(digit_str(n % 10));
        s
    }
}

/// Parses `s` as an unsigned 64-bit integer, as the standard library's
/// `u64::from_str` does.
pub fn parse_u64(s: &str) -> (r: Option<u64>)
    ensures
        r == parse_u64_spec(s@),
{
    let len = s.unicode_len();
    let mut start: usize = 0;
    if len > 0 && s.get_char(0) == '+' {
        start = 1;
    }
    let ghost d = if s@.len() > 0 && s@[0] == '+' {
        s@.drop_first()
    } else {
        s@
    };
    assert(d =~= s@.subrange(start as int, len as int));
    assert(parse_u64_spec(s@) == (if d.len() > 0 && all_digits(d) && digits_value(d)
        <= u64::MAX as nat {
        Some(digits_value(d) as u64)
    } else {
        None
    }));
    if start == len {
        return None;
    }
    let mut acc: u64 = 0;
    let mut i: usize = start;
    while i < len
        invariant
            start <= i <= len,
            len == s@.len(),
            d =~= s@.subrange(start as int, len as int),
            parse_u64_spec(s@) == (if d.len() > 0 && all_digits(d) && digits_value(d)
                <= u64::MAX as nat {
                Some(digits_value(d) as u64)
            } else {
                None
            }),
            all_digits(d.subrange(0, i - start)),
            acc as nat == digits_value(d.subrange(0, i - start)),
        decreases len - i,
    {
        let c = s.get_char(i);
        let ghost pre = d.subrange(0, i - start + 1);
        assert(pre.drop_last() =~= d.subrange(0, i - start));
        assert(pre.last() == c);
        if !('0' <= c && c <= '9') {
            assert(d[i - start] == c);
            assert(!all_digits(d));
            assert(parse_u64_spec(s@).is_none());
            return None;
        }
        let dv = (c as u32 - '0' as u32) as u64;
        assert(dv as nat == digit_value(c));
        if acc > (u64::MAX - dv) / 10 {
            proof {
                assert(digits_value(pre) > u64::MAX as nat) by (nonlinear_arith)
                    requires
                        acc > (u64::MAX - dv) / 10,
                        digits_value(pre) == acc * 10 + dv,
                        dv < 10,
                ;
                if all_digits(d) {
                    lemma_prefix_value_grows(d, i - start + 1);
                    assert(digits_value(d) > u64::MAX as nat);
                }
                assert(parse_u64_spec(s@).is_none());
            }
            return None;
        }
        assert(acc * 10 + dv <= u64::MAX) by (nonlinear_arith)
            requires
                acc <= (u64::MAX - dv) / 10,
                dv < 10,
        ;
        acc = acc * 10 + dv;
        i = i + 1;
        assert forall|j: int| 0 <= j < pre.len() implies is_digit(#[trigger] pre[j]) by {
            if j < pre.len() - 1 {
                assert(pre[j] == d.subrange(0, i - start - 1)[j]);
            }
        }
    }
    assert(d.subrange(0, len - start) =~= d);
    Some(acc)
}

} // verus!
