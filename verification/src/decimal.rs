//! Decimal integers in settings text: rendering (`{}` formatting) and
//! parsing (`str::parse`), for the fixed-width integer types the
//! settings file stores.
use vstd::prelude::*;

verus! {

/// The character of a digit value `0..=9`.
pub open spec fn digit_char(d: int) -> char {
    (d + '0' as int) as char
}

/// Whether `c` is an ASCII decimal digit.
pub open spec fn is_digit(c: char) -> bool {
    '0' <= c <= '9'
}

/// The value of a digit character.
pub open spec fn digit_value(c: char) -> int {
    c as int - '0' as int
}

/// The decimal digits of `n`, most significant first, without leading
/// zeros (`"0"` for zero).
pub open spec fn digits_of(n: nat) -> Seq<char>
    decreases n,
{
    if n < 10 {
        seq![digit_char(n as int)]
    } else {
        digits_of(n / 10).push(digit_char((n % 10) as int))
    }
}

/// `n` as Rust's `{}` formats it.
pub open spec fn decimal(n: int) -> Seq<char> {
    if n < 0 {
        seq!['-'] + digits_of((-n) as nat)
    } else {
        digits_of(n as nat)
    }
}

/// Every character of `s` is a digit.
pub open spec fn all_digits(s: Seq<char>) -> bool {
    forall|i: int| 0 <= i < s.len() ==> is_digit(#[trigger] s[i])
}

/// The value of a digit string.
pub open spec fn digits_value(s: Seq<char>) -> int
    decreases s.len(),
{
    if s.len() == 0 {
        0
    } else {
        10 * digits_value(s.drop_last()) + digit_value(s.last())
    }
}

/// What `str::parse` makes of `s` for an integer type, before the range
/// check: an optional `+` (or, for a signed type, `-`) and at least one
/// digit, nothing else.
pub open spec fn parse_integer(s: Seq<char>, signed: bool) -> Option<int> {
    if s.len() == 0 {
        None
    } else if (s[0] == '+' || (signed && s[0] == '-')) && s.len() == 1 {
        None
    } else {
        let negative = signed && s[0] == '-';
        let body = if s[0] == '+' || negative {
            s.drop_first()
        } else {
            s
        };
        if all_digits(body) {
            Some(
                if negative {
                    -digits_value(body)
                } else {
                    digits_value(body)
                },
            )
        } else {
            None
        }
    }
}

/// `str::parse::<i32>`.
pub open spec fn parse_i32(s: Seq<char>) -> Option<i32> {
    match parse_integer(s, true) {
        Some(v) => if i32::MIN <= v <= i32::MAX {
            Some(v as i32)
        } else {
            None
        },
        None => None,
    }
}

/// `str::parse::<u32>`.
pub open spec fn parse_u32(s: Seq<char>) -> Option<u32> {
    match parse_integer(s, false) {
        Some(v) => if 0 <= v <= u32::MAX {
            Some(v as u32)
        } else {
            None
        },
        None => None,
    }
}

proof fn lemma_digits_value_nonneg(s: Seq<char>)
    requires
        all_digits(s),
    ensures
        digits_value(s) >= 0,
    decreases s.len(),
{
    if s.len() > 0 {
        assert(all_digits(s.drop_last())) by {
            assert forall|i: int| 0 <= i < s.drop_last().len() implies is_digit(
                #[trigger] s.drop_last()[i],
            ) by {
                assert(s.drop_last()[i] == s[i]);
            }
        }
        lemma_digits_value_nonneg(s.drop_last());
        assert(is_digit(s[s.len() - 1]));
    }
}

/// A digit string is worth at least as much as any of its prefixes.
proof fn lemma_digits_value_prefix(s: Seq<char>, k: int)
    requires
        all_digits(s),
        0 <= k <= s.len(),
    ensures
        digits_value(s.take(k)) <= digits_value(s),
    decreases s.len() - k,
{
    if k < s.len() {
        let t = s.take(k + 1);
        assert(all_digits(t)) by {
            assert forall|i: int| 0 <= i < t.len() implies is_digit(#[trigger] t[i]) by {
                assert(t[i] == s[i]);
            }
        }
        assert(t.drop_last() =~= s.take(k));
        assert(all_digits(s.take(k))) by {
            assert forall|i: int| 0 <= i < k implies is_digit(#[trigger] s.take(k)[i]) by {
                assert(s.take(k)[i] == s[i]);
            }
        }
        lemma_digits_value_nonneg(s.take(k));
        assert(is_digit(t.last()));
        lemma_digits_value_prefix(s, k + 1);
    } else {
        assert(s.take(k) =~= s);
    }
}

/// Largest magnitude any parse result can take before it is known to be
/// out of range for every supported type.
const PARSE_LIMIT: u64 = 4_294_967_296;

/// Value of the digit string `s[from..]`, or `None` when a character is
/// not a digit or the string is empty. `Some(v)` with `v > PARSE_LIMIT`
/// stands for any value above the limit.
fn scan_digits(s: &Vec<char>, from: usize) -> (r: Option<u64>)
    requires
        from <= s@.len(),
    ensures
        match r {
            Some(v) => s@.len() > from && all_digits(s@.skip(from as int)) && (v <= PARSE_LIMIT
                ==> v == digits_value(s@.skip(from as int))) && (v > PARSE_LIMIT ==> digits_value(
                s@.skip(from as int),
            ) > PARSE_LIMIT),
            None => s@.len() == from || !all_digits(s@.skip(from as int)),
        },
{
    if from == s.len() {
        return None;
    }
    let ghost body = s@.skip(from as int);
    let mut acc: u64 = 0;
    let mut i: usize = from;
    let mut too_big = false;
    while i < s.len()
        invariant
            from <= i <= s@.len(),
            body == s@.skip(from as int),
            all_digits(body.take(i - from)),
            !too_big ==> acc == digits_value(body.take(i - from)) && acc <= PARSE_LIMIT,
            too_big ==> digits_value(body.take(i - from)) > PARSE_LIMIT,
        decreases s@.len() - i,
    {
        let c = s[i];
        assert(body[i - from] == c);
        if c < '0' || c > '9' {
            assert(!is_digit(body[i - from]));
            return None;
        }
        let ghost prev = body.take(i - from);
        let ghost next = body.take(i - from + 1);
        assert(next.drop_last() =~= prev);
        assert(next.last() == c);
        assert(all_digits(next)) by {
            assert forall|j: int| 0 <= j < next.len() implies is_digit(#[trigger] next[j]) by {
                if j < prev.len() {
                    assert(next[j] == prev[j]);
                }
            }
        }
        let d = (c as u32 - '0' as u32) as u64;
        assert(d == digit_value(c));
        if !too_big {
            let v = acc * 10 + d;
            if v > PARSE_LIMIT {
                too_big = true;
            } else {
                acc = v;
            }
        } else {
            proof {
                lemma_digits_value_nonneg(prev);
            }
        }
        i = i + 1;
    }
    assert(body.take(s@.len() - from) =~= body);
    if too_big {
        Some(PARSE_LIMIT + 1)
    } else {
        Some(acc)
    }
}

/// Parse an integer with an optional sign; see [`parse_integer`]. `Some`
/// carries the sign and the scanned magnitude.
fn scan_integer(s: &Vec<char>, signed: bool) -> (r: Option<(bool, u64)>)
    ensures
        match r {
            Some((neg, v)) => (neg ==> signed) && parse_integer(s@, signed) is Some && (v <= PARSE_LIMIT ==> parse_integer(
                s@,
                signed,
            ) == Some(
                if neg {
                    -(v as int)
                } else {
                    v as int
                },
            )) && (v > PARSE_LIMIT ==> (parse_integer(s@, signed)->0 > PARSE_LIMIT
                || parse_integer(s@, signed)->0 < -(PARSE_LIMIT as int))),
            None => parse_integer(s@, signed) is None,
        },
{
    if s.len() == 0 {
        return None;
    }
    let first = s[0];
    let negative = signed && first == '-';
    if (first == '+' || negative) && s.len() == 1 {
        return None;
    }
    let from: usize = if first == '+' || negative {
        1
    } else {
        0
    };
    assert(s@.skip(1) =~= s@.drop_first());
    assert(s@.skip(0) =~= s@);
    match scan_digits(s, from) {
        Some(v) => Some((negative, v)),
        None => None,
    }
}

/// `str::parse::<i32>`.
pub fn parse_i32_chars(s: &Vec<char>) -> (r: Option<i32>)
    ensures
        r == parse_i32(s@),
{
    match scan_integer(s, true) {
        Some((neg, v)) => {
            if v > 2_147_483_648 {
                None
            } else if neg {
                Some((0 - (v as i64)) as i32)
            } else if v > 2_147_483_647 {
                None
            } else {
                Some(v as i32)
            }
        },
        None => None,
    }
}

/// `str::parse::<u32>`.
pub fn parse_u32_chars(s: &Vec<char>) -> (r: Option<u32>)
    ensures
        r == parse_u32(s@),
{
    match scan_integer(s, false) {
        Some((_neg, v)) => {
            if v > 4_294_967_295 {
                None
            } else {
                Some(v as u32)
            }
        },
        None => None,
    }
}

/// Append the decimal digits of `n`.
pub fn push_digits(out: &mut String, n: u64)
    ensures
        final(out)@ == old(out)@ + digits_of(n as nat),
    decreases n,
{
    if n >= 10 {
        push_digits(out, n / 10);
    }
    let d = (n % 10) as u8;
    let c = (48u8 + d) as char;
    assert(c == digit_char(d as int));
    out.push(c);
    assert(out@ =~= old(out)@ + digits_of(n as nat));
}

/// Append `n` as `{}` formats it.
pub fn push_i64(out: &mut String, n: i64)
    ensures
        final(out)@ == old(out)@ + decimal(n as int),
{
    if n < 0 {
        out.push('-');
        let magnitude: u64 = if n == i64::MIN {
            9_223_372_036_854_775_808
        } else {
            (-n) as u64
        };
        push_digits(out, magnitude);
        assert(out@ =~= old(out)@ + decimal(n as int));
    } else {
        push_digits(out, n as u64);
    }
}

/// `str::parse::<u64>`.
pub open spec fn parse_u64(s: Seq<char>) -> Option<u64> {
    match parse_integer(s, false) {
        Some(v) => if 0 <= v <= u64::MAX {
            Some(v as u64)
        } else {
            None
        },
        None => None,
    }
}

/// Value of the digit string `s[from..]` when it is at most
/// `u64::MAX`; `Some(None)` when it is larger; `None` when a character
/// is not a digit or the string is empty.
fn scan_digits_u64(s: &Vec<char>, from: usize) -> (r: Option<Option<u64>>)
    requires
        from <= s@.len(),
    ensures
        match r {
            Some(Some(v)) => s@.len() > from && all_digits(s@.skip(from as int)) && v == digits_value(
                s@.skip(from as int),
            ),
            Some(None) => s@.len() > from && all_digits(s@.skip(from as int)) && digits_value(
                s@.skip(from as int),
            ) > u64::MAX,
            None => s@.len() == from || !all_digits(s@.skip(from as int)),
        },
{
    if from == s.len() {
        return None;
    }
    let ghost body = s@.skip(from as int);
    let limit: u128 = 18_446_744_073_709_551_616;
    let mut acc: u128 = 0;
    let mut i: usize = from;
    let mut too_big = false;
    while i < s.len()
        invariant
            from <= i <= s@.len(),
            body == s@.skip(from as int),
            limit == u64::MAX + 1,
            all_digits(body.take(i - from)),
            !too_big ==> acc == digits_value(body.take(i - from)) && acc <= limit,
            too_big ==> digits_value(body.take(i - from)) > limit,
        decreases s@.len() - i,
    {
        let c = s[i];
        assert(body[i - from] == c);
        if c < '0' || c > '9' {
            assert(!is_digit(body[i - from]));
            return None;
        }
        let ghost prev = body.take(i - from);
        let ghost next = body.take(i - from + 1);
        assert(next.drop_last() =~= prev);
        assert(next.last() == c);
        assert(all_digits(next)) by {
            assert forall|j: int| 0 <= j < next.len() implies is_digit(#[trigger] next[j]) by {
                if j < prev.len() {
                    assert(next[j] == prev[j]);
                }
            }
        }
        let d = (c as u32 - '0' as u32) as u128;
        assert(d == digit_value(c));
        if !too_big {
            let v = acc * 10 + d;
            if v > limit {
                too_big = true;
            } else {
                acc = v;
            }
        } else {
            proof {
                lemma_digits_value_nonneg(prev);
            }
        }
        i = i + 1;
    }
    assert(body.take(s@.len() - from) =~= body);
    if too_big || acc > 18_446_744_073_709_551_615 {
        Some(None)
    } else {
        Some(Some(acc as u64))
    }
}

/// `str::parse::<u64>`.
pub fn parse_u64_chars(s: &Vec<char>) -> (r: Option<u64>)
    ensures
        r == parse_u64(s@),
{
    if s.len() == 0 {
        return None;
    }
    let plus = s[0] == '+';
    if plus && s.len() == 1 {
        return None;
    }
    let from: usize = if plus { 1 } else { 0 };
    assert(s@.skip(1) =~= s@.drop_first());
    assert(s@.skip(0) =~= s@);
    match scan_digits_u64(s, from) {
        Some(Some(v)) => Some(v),
        _ => None,
    }
}

// ---------------------------------------------------------------------
// Laws
// ---------------------------------------------------------------------

proof fn lemma_digits_of_shape(n: nat)
    ensures
        digits_of(n).len() > 0,
        all_digits(digits_of(n)),
        digits_value(digits_of(n)) == n,
    decreases n,
{
    if n >= 10 {
        lemma_digits_of_shape(n / 10);
        let s = digits_of(n);
        assert(s.drop_last() =~= digits_of(n / 10));
        let d = (n % 10) as int;
        assert(digit_value(digit_char(d)) == d);
        assert(10 * (n / 10) + n % 10 == n);
        assert(s.last() == digit_char(d));
        assert(digits_value(s) == 10 * digits_value(s.drop_last()) + digit_value(s.last()));
        assert(digits_value(s.drop_last()) == n / 10);
    } else {
        let s = digits_of(n);
        assert(digit_value(digit_char(n as int)) == n);
        assert(s.drop_last() =~= Seq::<char>::empty());
        assert(digits_value(s.drop_last()) == 0);
        assert(digits_value(s) == n);
        assert(is_digit(s[0]));
        assert forall|i: int| 0 <= i < s.len() implies is_digit(#[trigger] s[i]) by {
            if i < s.len() - 1 {
                assert(s[i] == digits_of(n / 10)[i]);
            }
        }
    }
}

/// A rendered integer is a non-empty run of digits, with a leading `-`
/// for a negative number.
pub proof fn lemma_decimal_shape(n: int)
    ensures
        decimal(n).len() > 0,
        is_digit(decimal(n).last()),
        forall|i: int|
            0 <= i < decimal(n).len() ==> is_digit(#[trigger] decimal(n)[i]) || (i == 0 && decimal(n)[i]
                == '-'),
{
    if n < 0 {
        let m = (-n) as nat;
        lemma_digits_of_shape(m);
        let s = decimal(n);
        let d = digits_of(m);
        assert forall|i: int| 0 <= i < s.len() implies is_digit(#[trigger] s[i]) || (i == 0 && s[i] == '-') by {
            if i > 0 {
                assert(s[i] == d[i - 1]);
            }
        }
        assert(s.last() == d[d.len() - 1]);
    } else {
        lemma_digits_of_shape(n as nat);
        let d = digits_of(n as nat);
        assert(is_digit(d[d.len() - 1]));
    }
}

/// Parsing what was rendered gives the number back:
/// `decimal(n).parse::<i32>() == Ok(n)` for every `i32`, and likewise for
/// every `u32` and every `u64`.
pub proof fn lemma_parse_decimal(n: int)
    requires
        i32::MIN <= n <= u64::MAX,
    ensures
        n <= i32::MAX ==> parse_i32(decimal(n)) == Some(n as i32),
        0 <= n <= u32::MAX ==> parse_u32(decimal(n)) == Some(n as u32),
        n >= 0 ==> parse_u64(decimal(n)) == Some(n as u64),
{
    if n < 0 {
        let m = (-n) as nat;
        lemma_digits_of_shape(m);
        let s = decimal(n);
        assert(s.drop_first() =~= digits_of(m));
        assert(is_digit(digits_of(m)[0]));
    } else {
        lemma_digits_of_shape(n as nat);
        assert(is_digit(digits_of(n as nat)[0]));
    }
}

} // verus!
