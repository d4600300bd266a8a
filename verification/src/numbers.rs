//! Decimal numbers in text.
use vstd::prelude::*;
use vstd::slice::slice_subrange;

verus! {

/// The character of a digit.
pub open spec fn digit_char(d: int) -> char {
    (48 + d) as char
}

/// A number in decimal notation.
pub open spec fn decimal(n: nat) -> Seq<char>
    decreases n,
{
    if n < 10 {
        seq![digit_char(n as int)]
    } else {
        decimal(n / 10).push(digit_char((n % 10) as int))
    }
}

/// A decimal digit.
pub open spec fn is_digit(c: char) -> bool {
    '0' <= c && c <= '9'
}

/// The number that a row of digits stands for.
pub open spec fn value_of(s: Seq<char>) -> nat
    decreases s.len(),
{
    if s.len() == 0 {
        0
    } else {
        (value_of(s.drop_last()) * 10 + (s.last() as u32 - 48)) as nat
    }
}

/// Nothing but digits.
pub open spec fn all_digits(s: Seq<char>) -> bool {
    forall|i: int| 0 <= i < s.len() ==> is_digit(#[trigger] s[i])
}

/// `s` without one leading `+`.
pub open spec fn without_plus(s: Seq<char>) -> Seq<char> {
    if s.len() > 0 && s[0] == '+' {
        s.skip(1)
    } else {
        s
    }
}

/// The number from 0 to `max` that the text stands for: digits, at least one,
/// behind an optional `+`.
pub open spec fn parsed(s: Seq<char>, max: nat) -> Option<nat> {
    let d = without_plus(s);
    if d.len() > 0 && all_digits(d) && value_of(d) <= max {
        Some(value_of(d))
    } else {
        None
    }
}

/// Writes a number in decimal notation.
pub fn to_decimal(n: u64) -> (r: Vec<char>)
    ensures
        r@ == decimal(n as nat),
    decreases n,
{
    let d: u8 = (n % 10) as u8;
    let c: char = (48 + d) as char;
    if n < 10 {
        let mut out: Vec<char> = Vec::new();
        out.push(c);
        proof {
            assert(out@ =~= seq![digit_char(n as int)]);
        }
        out
    } else {
        let mut out = to_decimal(n / 10);
        out.push(c);
        out
    }
}

proof fn lemma_value_take(s: Seq<char>, i: int)
    requires
        0 <= i <= s.len(),
        all_digits(s),
    ensures
        value_of(s.take(i)) <= value_of(s),
    decreases s.len() - i,
{
    if i == s.len() {
        assert(s.take(i) =~= s);
    } else {
        lemma_value_take(s, i + 1);
        assert(s.take(i + 1).drop_last() =~= s.take(i));
        assert(is_digit(s[i]));
    }
}

/// Reads a number from 0 to `max`.
pub fn parse_number(s: &[char], max: u64) -> (r: Option<u64>)
    ensures
        match r {
            Some(n) => parsed(s@, max as nat) == Some(n as nat),
            None => parsed(s@, max as nat) is None,
        },
{
    let d: &[char] = if s.len() > 0 && s[0] == '+' {
        proof {
            assert(s@.subrange(1, s@.len() as int) =~= s@.skip(1));
        }
        slice_subrange(s, 1, s.len())
    } else {
        s
    };
    if d.len() == 0 {
        return None;
    }
    let mut v: u64 = 0;
    let mut i: usize = 0;
    while i < d.len()
        invariant
            i <= d.len(),
            d@ == without_plus(s@),
            v == value_of(d@.take(i as int)),
            v <= max,
            forall|j: int| 0 <= j < i ==> is_digit(#[trigger] d@[j]),
        decreases d.len() - i,
    {
        let c = d[i];
        if c < '0' || c > '9' {
            assert(!is_digit(d@[i as int]));
            return None;
        }
        let x: u64 = c as u64 - 48;
        proof {
            assert(d@.take(i + 1).drop_last() =~= d@.take(i as int));
        }
        if v > max / 10 || x > max - v * 10 {
            proof {
                assert(value_of(d@.take(i + 1)) > max);
                if all_digits(d@) {
                    lemma_value_take(d@, i + 1);
                }
            }
            return None;
        }
        v = v * 10 + x;
        i += 1;
    }
    proof {
        assert(d@.take(d@.len() as int) =~= d@);
    }
    Some(v)
}

/// A number is read back as it was written.
pub proof fn law_decimal_round_trip(n: nat, max: nat)
    requires
        n <= max,
    ensures
        parsed(decimal(n), max) == Some(n),
{
    lemma_decimal(n);
    let s = decimal(n);
    assert(is_digit(s[0]));
    assert(without_plus(s) == s);
}

proof fn lemma_decimal(n: nat)
    ensures
        decimal(n).len() > 0,
        all_digits(decimal(n)),
        value_of(decimal(n)) == n,
    decreases n,
{
    if n < 10 {
        let s = seq![digit_char(n as int)];
        assert(s.drop_last() =~= Seq::empty());
        assert(value_of(Seq::<char>::empty()) == 0);
        assert(value_of(s) == n);
    } else {
        lemma_decimal(n / 10);
        let p = decimal(n / 10);
        let s = p.push(digit_char((n % 10) as int));
        assert(s.drop_last() =~= p);
        assert forall|i: int| 0 <= i < s.len() implies is_digit(#[trigger] s[i]) by {
            if i < p.len() {
                assert(is_digit(p[i]));
            }
        }
    }
}

/// A digit behind a number makes it ten times as large and adds its own value.
pub proof fn law_value_of_digits(s: Seq<char>, d: int)
    requires
        0 <= d < 10,
    ensures
        value_of(Seq::empty()) == 0,
        value_of(s.push((48 + d) as char)) == 10 * value_of(s) + d,
        digit_char(d) as u32 == '0' as u32 + d,
        is_digit(digit_char(d)),
        forall|c: char| #[trigger] is_digit(c) <==> '0' <= c <= '9',
{
    assert(s.push((48 + d) as char).drop_last() =~= s);
}

/// A text is a number where it has digits alone, perhaps behind a plus sign, and
/// its value is within the bound.
pub proof fn law_texts_that_are_numbers(s: Seq<char>, i: int, max: nat)
    ensures
        s.len() == 0 ==> parsed(s, max) is None,
        0 < i < s.len() && !('0' <= s[i] <= '9') ==> parsed(s, max) is None,
        s.len() > 0 && !('0' <= s[0] <= '9') && s[0] != '+' ==> parsed(s, max) is None,
        s == seq!['+'] ==> parsed(s, max) is None,
        s.len() > 0 && (forall|k: int| 0 <= k < s.len() ==> '0' <= #[trigger] s[k] <= '9')
            && value_of(s) <= max ==> parsed(s, max) == Some(value_of(s)) && parsed(
            seq!['+'] + s,
            max,
        ) == Some(value_of(s)),
        s.len() > 0 && s[0] != '+' && value_of(s) > max ==> parsed(s, max) is None,
{
    if 0 < i < s.len() {
        let d = without_plus(s);
        if s[0] == '+' {
            assert(d[i - 1] == s[i]);
        } else {
            assert(d[i] == s[i]);
        }
    }
    if s.len() > 0 && s[0] != '+' {
        assert(without_plus(s)[0] == s[0]);
    }
    assert((seq!['+'] + s).skip(1) =~= s);
}

} // verus!
