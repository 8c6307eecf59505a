use vstd::prelude::*;
use vstd::utf8::is_ascii_chars;

verus! {

broadcast use vstd::string::group_string_axioms;

/// An ASCII decimal digit.
pub open spec fn is_digit(c: char) -> bool {
    '0' <= c && c <= '9'
}

/// The number that a decimal digit stands for.
pub open spec fn digit_value(c: char) -> int {
    c as int - '0' as int
}

/// A nonempty run of decimal digits.
pub open spec fn is_digit_run(s: Seq<char>) -> bool {
    s.len() > 0 && forall|i: int| 0 <= i < s.len() ==> is_digit(#[trigger] s[i])
}

/// The value of a run of decimal digits, most significant first.
pub open spec fn digits_value(s: Seq<char>) -> int
    decreases s.len(),
{
    if s.len() == 0 {
        0
    } else {
        digits_value(s.drop_last()) * 10 + digit_value(s.last())
    }
}

/// The number of characters a leading sign takes: one for `+` or `-`, else none.
pub open spec fn sign_len(s: Seq<char>) -> int {
    if s.len() > 0 && (s[0] == '+' || s[0] == '-') {
        1
    } else {
        0
    }
}

/// The integer written by an optional `+` or `-` followed by one or more decimal
/// digits, and nothing else; `None` for any other text.
pub open spec fn decimal_value(s: Seq<char>) -> Option<int> {
    let m = s.skip(sign_len(s));
    if !is_digit_run(m) {
        None
    } else if s[0] == '-' {
        Some(-digits_value(m))
    } else {
        Some(digits_value(m))
    }
}

/// The `i32` that the text writes in decimal, when it writes one in the type's range.
pub open spec fn parsed_i32(s: Seq<char>) -> Option<i32> {
    match decimal_value(s) {
        Some(v) => if i32::MIN <= v <= i32::MAX {
            Some(v as i32)
        } else {
            None
        },
        None => None,
    }
}

proof fn lemma_digits_value_nonneg(s: Seq<char>)
    requires
        forall|i: int| 0 <= i < s.len() ==> is_digit(#[trigger] s[i]),
    ensures
        digits_value(s) >= 0,
    decreases s.len(),
{
    if s.len() > 0 {
        lemma_digits_value_nonneg(s.drop_last());
    }
}

/// Reads `text` as a decimal `i32`: an optional sign, then digits, with no other
/// character around them.
pub fn parse_number(text: &str) -> (r: Option<i32>)
    ensures
        r == parsed_i32(text@),
{
    if !text.is_ascii() {
        proof {
            let m = text@.skip(sign_len(text@));
            let k = choose|k: int| 0 <= k < text@.len() && !('\0' <= #[trigger] text@[k] <= '\u{7f}');
            if is_digit_run(m) {
                if k >= sign_len(text@) {
                    assert(is_digit(m[k - sign_len(text@)]));
                }
            }
        }
        return None;
    }
    let bytes = text.as_bytes();
    let n = bytes.len();
    proof {
        assert(bytes@ =~= Seq::new(text@.len(), |i| text@[i] as u8));
    }
    let ghost s = text@;
    if n == 0 {
        return None;
    }
    let negative = bytes[0] == 45u8;
    let start: usize = if bytes[0] == 43u8 || bytes[0] == 45u8 {
        1
    } else {
        0
    };
    if start == n {
        return None;
    }
    // the largest magnitude that fits; `acc` stops at one past it once the digits exceed it
    let limit: i64 = if negative {
        2147483648
    } else {
        2147483647
    };
    let mut acc: i64 = 0;
    let mut i: usize = start;
    while i < n
        invariant
            start <= i <= n,
            s == text@,
            n == s.len(),
            start == sign_len(s),
            bytes@ == Seq::new(s.len(), |j| s[j] as u8),
            is_ascii_chars(s),
            limit == (if negative { 2147483648int } else { 2147483647int }),
            forall|j: int| start <= j < i ==> is_digit(#[trigger] s[j]),
            0 <= acc <= limit + 1,
            acc <= limit ==> acc == digits_value(s.subrange(start as int, i as int)),
            acc == limit + 1 ==> digits_value(s.subrange(start as int, i as int)) > limit,
        decreases n - i,
    {
        let b = bytes[i];
        let ghost c = s[i as int];
        if b < 48u8 || b > 57u8 {
            proof {
                let m = s.skip(sign_len(s));
                assert(m[i - start] == c);
            }
            return None;
        }
        let ghost prev = s.subrange(start as int, i as int);
        let ghost next = s.subrange(start as int, i + 1);
        assert(next.drop_last() =~= prev);
        proof {
            lemma_digits_value_nonneg(prev);
        }
        let d = (b - 48u8) as i64;
        let step = acc * 10 + d;
        if step > limit {
            acc = limit + 1;
        } else {
            acc = step;
        }
        i = i + 1;
    }
    let ghost m = s.skip(sign_len(s));
    assert(m =~= s.subrange(start as int, n as int));
    if acc > limit {
        return None;
    }
    if negative {
        Some((-acc) as i32)
    } else {
        Some(acc as i32)
    }
}

/// The decimal digit that stands for `d`, for `d` from 0 to 9.
pub open spec fn digit_char(d: int) -> char {
    seq!['0', '1', '2', '3', '4', '5', '6', '7', '8', '9'][d]
}

/// The digits of `n` in decimal, most significant first, without leading zeros.
pub open spec fn digits_text(n: nat) -> Seq<char>
    decreases n,
{
    if n < 10 {
        seq![digit_char(n as int)]
    } else {
        digits_text(n / 10).push(digit_char((n % 10) as int))
    }
}

/// `v` written in decimal, with a leading `-` when it is negative.
pub open spec fn decimal_text(v: int) -> Seq<char> {
    if v < 0 {
        seq!['-'] + digits_text((-v) as nat)
    } else {
        digits_text(v as nat)
    }
}

proof fn lemma_digits_text_value(n: nat)
    ensures
        is_digit_run(digits_text(n)),
        digits_value(digits_text(n)) == n,
    decreases n,
{
    let t = digits_text(n);
    if n < 10 {
        assert(t.drop_last() =~= Seq::<char>::empty());
        assert(digits_value(t.drop_last()) == 0);
        assert(digit_value(digit_char(n as int)) == n);
    } else {
        lemma_digits_text_value(n / 10);
        assert(t.drop_last() =~= digits_text(n / 10));
        assert(digit_value(digit_char((n % 10) as int)) == n % 10);
        assert((n / 10) * 10 + n % 10 == n) by (nonlinear_arith);
    }
}

/// What `decimal_text` writes for an `i32` reads back, by `parsed_i32`, as that
/// same value.
pub proof fn decimal_text_reads_back(v: i32)
    ensures
        parsed_i32(decimal_text(v as int)) == Some(v),
{
    let s = decimal_text(v as int);
    if v < 0 {
        let d = digits_text((-v) as nat);
        lemma_digits_text_value((-v) as nat);
        assert(s.skip(1) =~= d);
    } else {
        lemma_digits_text_value(v as nat);
        assert(s.skip(0) =~= s);
    }
}

/// Relies on `i32`'s `Display` (through `to_string`): the value in decimal, with a
/// leading `-` when negative and no leading zeros.
#[verifier::external_body]
pub(crate) fn decimal_string(v: i32) -> (r: String)
    ensures
        r@ == decimal_text(v as int),
{
    v.to_string()
}

} // verus!
