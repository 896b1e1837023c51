//! Decimal text of integers, both ways, as `str::parse` and `to_string` read
//! and write it.
use vstd::prelude::*;

verus! {

pub open spec fn is_digit(c: char) -> bool {
    '0' <= c && c <= '9'
}

pub open spec fn all_digits(s: Seq<char>) -> bool {
    forall|i: int| 0 <= i < s.len() ==> is_digit(#[trigger] s[i])
}

/// The value of a run of decimal digits.
pub open spec fn digits_value(s: Seq<char>) -> int
    decreases s.len(),
{
    if s.len() == 0 {
        0
    } else {
        digits_value(s.drop_last()) * 10 + (s.last() as int - '0' as int)
    }
}

pub open spec fn digit_char(d: int) -> char {
    (d + '0' as int) as char
}

/// The decimal digits of `n`, most significant first, with no leading zero.
pub open spec fn decimal(n: nat) -> Seq<char>
    decreases n,
{
    if n < 10 {
        seq![digit_char(n as int)]
    } else {
        decimal(n / 10).push(digit_char((n % 10) as int))
    }
}

/// The text after an optional leading sign among `signs`.
pub open spec fn unsigned_body(s: Seq<char>, signs: Seq<char>) -> Seq<char> {
    if s.len() > 0 && signs.contains(s[0]) {
        s.skip(1)
    } else {
        s
    }
}

/// What `str::parse::<u64>` yields: an optional `+`, then one or more digits
/// whose value fits.
pub open spec fn parsed_u64(s: Seq<char>) -> Option<u64> {
    let body = unsigned_body(s, seq!['+']);
    if body.len() > 0 && all_digits(body) && digits_value(body) <= u64::MAX {
        Some(digits_value(body) as u64)
    } else {
        None
    }
}

/// What `str::parse::<i64>` yields: an optional sign, then one or more digits
/// whose signed value fits.
pub open spec fn parsed_i64(s: Seq<char>) -> Option<i64> {
    let body = unsigned_body(s, seq!['+', '-']);
    let neg = s.len() > 0 && s[0] == '-';
    let v = if neg {
        -digits_value(body)
    } else {
        digits_value(body)
    };
    if body.len() > 0 && all_digits(body) && i64::MIN <= v <= i64::MAX {
        Some(v as i64)
    } else {
        None
    }
}

pub proof fn lemma_digits_value_nonneg(s: Seq<char>)
    requires
        all_digits(s),
    ensures
        digits_value(s) >= 0,
    decreases s.len(),
{
    if s.len() > 0 {
        assert(all_digits(s.drop_last())) by {
            assert forall|i: int| 0 <= i < s.drop_last().len() implies is_digit(
                #[trigger] s.drop_last()[i],
            ) by {
                assert(s.drop_last()[i] == s[i]);
            }
        }
        lemma_digits_value_nonneg(s.drop_last());
        assert(is_digit(s[s.len() - 1]));
    }
}

/// The value of the digits of `s` from `start` on, where they are one or more
/// digits and the value fits in a `u64`.
fn digits_u64(s: &Vec<char>, start: usize) -> (r: Option<u64>)
    requires
        start <= s.len(),
    ensures
        r == (if start < s.len() && all_digits(s@.skip(start as int)) && digits_value(
            s@.skip(start as int),
        ) <= u64::MAX {
            Some(digits_value(s@.skip(start as int)) as u64)
        } else {
            None::<u64>
        }),
{
    let ghost body = s@.skip(start as int);
    if start >= s.len() {
        return None;
    }
    let mut v: u64 = 0;
    let mut big = false;
    let mut k: usize = start;
    assert(body.take(0) =~= Seq::<char>::empty());
    while k < s.len()
        invariant
            start <= k <= s.len(),
            body == s@.skip(start as int),
            all_digits(body.take(k - start)),
            big ==> digits_value(body.take(k - start)) > u64::MAX,
            !big ==> v == digits_value(body.take(k - start)),
        decreases s.len() - k,
    {
        let c = s[k];
        if c < '0' || c > '9' {
            assert(body[k - start] == c);
            return None;
        }
        let ghost prev = body.take(k - start);
        assert(body.take(k + 1 - start).drop_last() =~= prev);
        assert(body.take(k + 1 - start).last() == c);
        proof {
            lemma_digits_value_nonneg(prev);
        }
        let d = (c as u32 - '0' as u32) as u64;
        if !big {
            if v > (u64::MAX - d) / 10 {
                big = true;
                assert(digits_value(body.take(k + 1 - start)) > u64::MAX) by (nonlinear_arith)
                    requires
                        v > (u64::MAX - d) / 10,
                        digits_value(body.take(k + 1 - start)) == v * 10 + d,
                        d <= 9,
                ;
            } else {
                assert(v * 10 + d <= u64::MAX) by (nonlinear_arith)
                    requires
                        v <= (u64::MAX - d) / 10,
                        d <= 9,
                ;
                v = v * 10 + d;
            }
        } else {
            assert(digits_value(body.take(k + 1 - start)) >= digits_value(prev)) by (
            nonlinear_arith)
                requires
                    digits_value(body.take(k + 1 - start)) == digits_value(prev) * 10 + d,
                    digits_value(prev) >= 0,
                    d >= 0,
            ;
        }
        assert(all_digits(body.take(k + 1 - start))) by {
            assert forall|i: int| 0 <= i < body.take(k + 1 - start).len() implies is_digit(
                #[trigger] body.take(k + 1 - start)[i],
            ) by {
                if i < k - start {
                    assert(body.take(k + 1 - start)[i] == prev[i]);
                }
            }
        }
        k += 1;
    }
    assert(body.take(s.len() - start) =~= body);
    if big {
        None
    } else {
        Some(v)
    }
}

/// Parse an unsigned decimal as `str::parse::<u64>` does.
pub fn parse_u64(s: &Vec<char>) -> (r: Option<u64>)
    ensures
        r == parsed_u64(s@),
{
    let start: usize = if s.len() > 0 && s[0] == '+' {
        1
    } else {
        0
    };
    proof {
        if start == 1 {
            assert(seq!['+'].contains(s@[0])) by {
                assert(seq!['+'][0] == '+');
            }
        } else if s.len() > 0 {
            assert(!seq!['+'].contains(s@[0]));
        }
        assert(s@.skip(0) =~= s@);
    }
    digits_u64(s, start)
}

/// Parse a signed decimal as `str::parse::<i64>` does.
pub fn parse_i64(s: &Vec<char>) -> (r: Option<i64>)
    ensures
        r == parsed_i64(s@),
{
    let neg = s.len() > 0 && s[0] == '-';
    let start: usize = if s.len() > 0 && (s[0] == '+' || s[0] == '-') {
        1
    } else {
        0
    };
    proof {
        let signs = seq!['+', '-'];
        if start == 1 {
            assert(signs.contains(s@[0])) by {
                if s@[0] == '+' {
                    assert(signs[0] == '+');
                } else {
                    assert(signs[1] == '-');
                }
            }
        } else if s.len() > 0 {
            assert(!signs.contains(s@[0]));
        }
        assert(s@.skip(0) =~= s@);
        if all_digits(s@.skip(start as int)) {
            lemma_digits_value_nonneg(s@.skip(start as int));
        }
    }
    match digits_u64(s, start) {
        None => None,
        Some(v) => {
            if neg {
                if v <= 9223372036854775808 {
                    if v == 9223372036854775808 {
                        Some(i64::MIN)
                    } else {
                        Some(-(v as i64))
                    }
                } else {
                    None
                }
            } else if v <= 9223372036854775807 {
                Some(v as i64)
            } else {
                None
            }
        },
    }
}

/// The decimal digits of `n`, as `to_string` writes them.
pub fn decimal_chars(n: u64) -> (r: Vec<char>)
    ensures
        r@ == decimal(n as nat),
    decreases n,
{
    let d = (n % 10) as u32;
    let c = char_of_digit(d);
    if n < 10 {
        let mut v: Vec<char> = Vec::new();
        v.push(c);
        assert(v@ =~= seq![digit_char(n as int)]);
        v
    } else {
        let mut v = decimal_chars(n / 10);
        v.push(c);
        v
    }
}

fn char_of_digit(d: u32) -> (r: char)
    requires
        d < 10,
    ensures
        r == digit_char(d as int),
{
    match d {
        0 => '0',
        1 => '1',
        2 => '2',
        3 => '3',
        4 => '4',
        5 => '5',
        6 => '6',
        7 => '7',
        8 => '8',
        _ => '9',
    }
}

} // verus!
