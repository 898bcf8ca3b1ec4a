//! Decimal rendering and parsing of timestamps.

use vstd::prelude::*;

verus! {

pub open spec fn digit_char(d: int) -> char {
    if d == 0 {
        '0'
    } else if d == 1 {
        '1'
    } else if d == 2 {
        '2'
    } else if d == 3 {
        '3'
    } else if d == 4 {
        '4'
    } else if d == 5 {
        '5'
    } else if d == 6 {
        '6'
    } else if d == 7 {
        '7'
    } else if d == 8 {
        '8'
    } else {
        '9'
    }
}

/// The decimal representation of a natural number, without leading zeros
/// (except for zero itself).
pub open spec fn dec_rep(n: nat) -> Seq<char>
    decreases n,
{
    if n < 10 {
        seq![digit_char(n as int)]
    } else {
        dec_rep(n / 10).push(digit_char((n % 10) as int))
    }
}

/// The decimal representation of a signed number: a minus sign for negative
/// values, then the magnitude's digits.
pub open spec fn i64_rep(v: int) -> Seq<char> {
    if v < 0 {
        seq!['-'] + dec_rep((-v) as nat)
    } else {
        dec_rep(v as nat)
    }
}

fn digit_str(d: u64) -> (r: &'static str)
    requires
        d < 10,
    ensures
        r@ == seq![digit_char(d as int)],
{
    proof {
        reveal_strlit("0");
        reveal_strlit("1");
        reveal_strlit("2");
        reveal_strlit("3");
        reveal_strlit("4");
        reveal_strlit("5");
        reveal_strlit("6");
        reveal_strlit("7");
        reveal_strlit("8");
        reveal_strlit("9");
    }
    let r = if d == 0 {
        "0"
    } else if d == 1 {
        "1"
    } else if d == 2 {
        "2"
    } else if d == 3 {
        "3"
    } else if d == 4 {
        "4"
    } else if d == 5 {
        "5"
    } else if d == 6 {
        "6"
    } else if d == 7 {
        "7"
    } else if d == 8 {
        "8"
    } else {
        "9"
    };
    proof {
        assert(r@ =~= seq![digit_char(d as int)]);
    }
    r
}

pub fn u64_to_string(n: u64) -> (r: String)
    ensures
        r@ == dec_rep(n as nat),
    decreases n,
{
    if n < 10 {
        digit_str(n).to_owned()
    } else {
        let mut s = u64_to_string(n / 10);
        s.append(digit_str(n % 10));
        proof {
            assert(s@ =~= dec_rep((n / 10) as nat).push(digit_char((n % 10) as int)));
        }
        s
    }
}

pub fn i64_to_string(v: i64) -> (r: String)
    ensures
        r@ == i64_rep(v as int),
{
    if v >= 0 {
        u64_to_string(v as u64)
    } else {
        let mag: u64 = if v == i64::MIN {
            9223372036854775808u64
        } else {
            (-v) as u64
        };
        proof {
            assert(mag as int == -(v as int));
        }
        let mut s = "-".to_owned();
        proof {
            reveal_strlit("-");
        }
        let digits = u64_to_string(mag);
        s.append(digits.as_str());
        proof {
            assert(s@ =~= seq!['-'] + dec_rep(mag as nat));
        }
        s
    }
}

pub open spec fn is_dec_digit(c: char) -> bool {
    48 <= c as u32 && c as u32 <= 57
}

pub open spec fn digit_val(c: char) -> int {
    c as u32 - 48
}

pub open spec fn all_digits(s: Seq<char>) -> bool {
    forall|i: int| 0 <= i < s.len() ==> is_dec_digit(#[trigger] s[i])
}

/// The value of a digit string read in base ten.
pub open spec fn dec_val(s: Seq<char>) -> int
    decreases s.len(),
{
    if s.len() == 0 {
        0
    } else {
        dec_val(s.drop_last()) * 10 + digit_val(s.last())
    }
}

/// The digits of a decimal integer literal: everything after an optional
/// single leading sign.
pub open spec fn int_body(s: Seq<char>) -> Seq<char> {
    if s.len() > 0 && (s[0] == '+' || s[0] == '-') {
        s.drop_first()
    } else {
        s
    }
}

pub open spec fn int_sign(s: Seq<char>) -> int {
    if s.len() > 0 && s[0] == '-' {
        -1
    } else {
        1
    }
}

/// Is `s` a decimal integer literal whose value fits in a 64-bit signed
/// integer?  This is what `str::parse::<i64>` accepts.
pub open spec fn is_i64_literal(s: Seq<char>) -> bool {
    &&& int_body(s).len() > 0
    &&& all_digits(int_body(s))
    &&& -9223372036854775808 <= int_sign(s) * dec_val(int_body(s)) <= 9223372036854775807
}

pub open spec fn i64_literal_val(s: Seq<char>) -> int {
    int_sign(s) * dec_val(int_body(s))
}

proof fn lemma_dec_val_nonneg(s: Seq<char>)
    requires
        all_digits(s),
    ensures
        dec_val(s) >= 0,
    decreases s.len(),
{
    if s.len() > 0 {
        assert(forall|i: int| 0 <= i < s.drop_last().len() ==> s.drop_last()[i] == s[i]);
        lemma_dec_val_nonneg(s.drop_last());
    }
}

/// Once a prefix of the digits already exceeds a bound, the whole digit
/// string does too.
proof fn lemma_dec_val_prefix_exceeds(s: Seq<char>, k: int, bound: int)
    requires
        all_digits(s),
        0 <= k <= s.len(),
        bound >= 0,
        dec_val(s.take(k)) > bound,
    ensures
        dec_val(s) > bound,
    decreases s.len() - k,
{
    if k < s.len() {
        let t = s.take(k + 1);
        assert(t.drop_last() =~= s.take(k));
        assert(forall|i: int| 0 <= i < s.take(k).len() ==> s.take(k)[i] == s[i]);
        lemma_dec_val_nonneg(s.take(k));
        assert(dec_val(t) == dec_val(s.take(k)) * 10 + digit_val(t.last()));
        assert(digit_val(t.last()) >= 0);
        assert(dec_val(s.take(k)) * 10 >= dec_val(s.take(k))) by {
            lemma_dec_val_nonneg(s.take(k));
        }
        lemma_dec_val_prefix_exceeds(s, k + 1, bound);
    } else {
        assert(s.take(k) =~= s);
    }
}

/// Parse a decimal integer as `str::parse::<i64>` does: an optional sign,
/// then one or more digits, rejecting anything else and values out of range.
pub fn parse_i64(s: &str) -> (r: Option<i64>)
    ensures
        match r {
            Some(v) => is_i64_literal(s@) && v as int == i64_literal_val(s@),
            None => !is_i64_literal(s@),
        },
{
    let n = s.unicode_len();
    if n == 0 {
        return None;
    }
    let c0 = s.get_char(0);
    let neg = c0 == '-';
    let start: usize = if c0 == '-' || c0 == '+' {
        1
    } else {
        0
    };
    let ghost body = int_body(s@);
    proof {
        if start == 1 {
            assert(body =~= s@.subrange(1, n as int));
        } else {
            assert(body =~= s@.subrange(0, n as int));
            assert(body =~= s@);
        }
    }
    if start == n {
        // a bare sign has no digits
        return None;
    }
    let limit: u64 = if neg {
        9223372036854775808u64
    } else {
        9223372036854775807u64
    };
    let mut acc: u64 = 0;
    let mut i: usize = start;
    while i < n
        invariant
            start <= i <= n,
            n == s@.len(),
            start == 0 || start == 1,
            start < n,
            body == int_body(s@),
            body.len() == n - start,
            forall|j: int| start <= j < n ==> body[j - start] == s@[j],
            all_digits(body.take(i - start)),
            acc as int == dec_val(body.take(i - start)),
            acc <= limit,
            limit == (if neg {
                9223372036854775808u64
            } else {
                9223372036854775807u64
            }),
            neg == (s@[0] == '-'),
        decreases n - i,
    {
        let c = s.get_char(i);
        let u = c as u32;
        if u < 48 || u > 57 {
            proof {
                assert(body[i - start] == s@[i as int]);
                assert(!is_dec_digit(body[i - start]));
            }
            return None;
        }
        let d = (u - 48) as u64;
        let ghost prefix = body.take(i - start);
        let ghost prefix1 = body.take(i + 1 - start);
        proof {
            assert(prefix1.drop_last() =~= prefix);
            assert(prefix1.last() == body[i - start]);
            assert(body[i - start] == s@[i as int]);
            assert(dec_val(prefix1) == dec_val(prefix) * 10 + digit_val(s@[i as int]));
        }
        if acc >= 922337203685477581u64 {
            // any further digit pushes the magnitude past the limit
            proof {
                assert(dec_val(prefix1) > limit);
                if all_digits(body) {
                    lemma_dec_val_prefix_exceeds(body, i + 1 - start, limit as int);
                    lemma_sign_val_out_of_range(s@, body, neg, limit as int);
                }
            }
            return None;
        }
        let next = acc * 10 + d;
        if next > limit {
            proof {
                assert(dec_val(prefix1) > limit);
                if all_digits(body) {
                    lemma_dec_val_prefix_exceeds(body, i + 1 - start, limit as int);
                    lemma_sign_val_out_of_range(s@, body, neg, limit as int);
                }
            }
            return None;
        }
        acc = next;
        i = i + 1;
    }
    proof {
        assert(body.take(n - start) =~= body);
    }
    if neg {
        if acc == 9223372036854775808u64 {
            Some(i64::MIN)
        } else {
            Some(-(acc as i64))
        }
    } else {
        Some(acc as i64)
    }
}

/// When the magnitude of the digits exceeds the limit that goes with the
/// sign, the literal's value is out of the 64-bit range.
proof fn lemma_sign_val_out_of_range(s: Seq<char>, body: Seq<char>, neg: bool, limit: int)
    requires
        body == int_body(s),
        s.len() > 0,
        neg == (s[0] == '-'),
        limit == (if neg {
            9223372036854775808int
        } else {
            9223372036854775807int
        }),
        dec_val(body) > limit,
    ensures
        !is_i64_literal(s),
{
    if neg {
        assert(int_sign(s) == -1);
        assert(int_sign(s) * dec_val(body) < -9223372036854775808);
    } else {
        assert(int_sign(s) == 1);
        assert(int_sign(s) * dec_val(body) > 9223372036854775807);
    }
}

} // verus!
