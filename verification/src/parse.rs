//! Classification of raw filter tokens: non-negative integer tokens
//! (bin indices) and the case-insensitive "total" keyword. Parsing is
//! deliberately lenient: a token that fits neither shape is simply
//! not selected by these predicates, and the resolver drops it.

use vstd::prelude::*;

verus! {

/// An ASCII decimal digit.
pub open spec fn is_digit(c: char) -> bool {
    '0' <= c && c <= '9'
}

/// Numeric value of an ASCII decimal digit.
pub open spec fn digit_value(c: char) -> int {
    c as int - '0' as int
}

/// Every character of the sequence is an ASCII decimal digit.
pub open spec fn all_digits(s: Seq<char>) -> bool {
    forall|i: int| 0 <= i < s.len() ==> is_digit(#[trigger] s[i])
}

/// Value of a sequence of decimal digits, most significant first.
pub open spec fn digits_value(s: Seq<char>) -> int
    decreases s.len(),
{
    if s.len() == 0 {
        0
    } else {
        digits_value(s.drop_last()) * 10 + digit_value(s.last())
    }
}

/// The digits of an integer token: a single leading '+' sign is
/// accepted and skipped, as the standard integer parser does.
pub open spec fn digits_body(s: Seq<char>) -> Seq<char> {
    if s.len() > 0 && s[0] == '+' {
        s.subrange(1, s.len() as int)
    } else {
        s
    }
}

/// A token that parses as a bin index: an optional '+' sign, then at
/// least one digit, with a value that fits the platform word.
pub open spec fn is_index_token(s: Seq<char>) -> bool {
    let b = digits_body(s);
    b.len() > 0 && all_digits(b) && digits_value(b) <= usize::MAX as int
}

/// The numeric value of an index token.
pub open spec fn index_token_value(s: Seq<char>) -> int {
    digits_value(digits_body(s))
}

/// The keyword selecting the aggregate bin, in any letter case.
pub open spec fn is_total_spec(s: Seq<char>) -> bool {
    s.len() == 5 && (s[0] == 't' || s[0] == 'T') && (s[1] == 'o' || s[1] == 'O') && (s[2] == 't'
        || s[2] == 'T') && (s[3] == 'a' || s[3] == 'A') && (s[4] == 'l' || s[4] == 'L')
}

/// Some token of the list is the "total" keyword.
pub open spec fn has_total(ts: Seq<Seq<char>>) -> bool {
    exists|i: int| 0 <= i < ts.len() && is_total_spec(ts[i])
}

proof fn lemma_digits_value_nonneg(s: Seq<char>)
    requires
        all_digits(s),
    ensures
        digits_value(s) >= 0,
    decreases s.len(),
{
    if s.len() > 0 {
        assert(all_digits(s.drop_last()));
        lemma_digits_value_nonneg(s.drop_last());
    }
}

/// Once a digit prefix exceeds some non-negative bound, every longer
/// prefix of the same digit string exceeds it too.
proof fn lemma_digits_value_grows(s: Seq<char>, k: int, bound: int)
    requires
        all_digits(s),
        0 <= k <= s.len(),
        bound >= 0,
        digits_value(s.take(k)) > bound,
    ensures
        digits_value(s) > bound,
    decreases s.len() - k,
{
    if k < s.len() {
        let t = s.take(k + 1);
        assert(t.drop_last() =~= s.take(k));
        assert(all_digits(t.drop_last()));
        lemma_digits_value_nonneg(s.take(k));
        assert(digits_value(t) == digits_value(s.take(k)) * 10 + digit_value(t.last()));
        assert(digits_value(s.take(k)) * 10 >= digits_value(s.take(k))) by (nonlinear_arith)
            requires
                digits_value(s.take(k)) >= 0,
        ;
        assert(digit_value(t.last()) >= 0);
        lemma_digits_value_grows(s, k + 1, bound);
    } else {
        assert(s.take(k) =~= s);
    }
}

/// Parses a token as a non-negative bin index, as the resolver reads
/// it: an optional leading '+', then decimal digits. Any other shape,
/// and any value past the platform word, yields nothing.
pub fn parse_index_token(s: &str) -> (r: Option<usize>)
    ensures
        r is Some <==> is_index_token(s@),
        r is Some ==> r->0 as int == index_token_value(s@),
{
    let n = s.unicode_len();
    let start: usize = if n > 0 && s.get_char(0) == '+' {
        1
    } else {
        0
    };
    let ghost body = digits_body(s@);
    proof {
        assert(body =~= s@.subrange(start as int, n as int));
    }
    if start == n {
        return None;
    }
    let mut acc: usize = 0;
    let mut i: usize = start;
    while i < n
        invariant
            start <= i <= n,
            n == s@.len(),
            start == 1 || start == 0,
            body == s@.subrange(start as int, n as int),
            body == digits_body(s@),
            all_digits(body.take(i - start)),
            acc as int == digits_value(body.take(i - start)),
        decreases n - i,
    {
        let c = s.get_char(i);
        if c < '0' || c > '9' {
            proof {
                let k = i - start;
                assert(body[k] == s@[i as int]);
                assert(!is_digit(body[k]));
                assert(!all_digits(body));
                assert(!is_index_token(s@));
            }
            return None;
        }
        let d: usize = (c as u8 - '0' as u8) as usize;
        assert(d as int == digit_value(c));
        if acc > (usize::MAX - d) / 10 {
            proof {
                let k = i - start;
                assert(body.take(k + 1).drop_last() =~= body.take(k));
                assert(body.take(k + 1).last() == c);
                assert(digits_value(body.take(k + 1)) == acc * 10 + d);
                assert(acc * 10 + d > usize::MAX as int) by (nonlinear_arith)
                    requires
                        acc > (usize::MAX - d) / 10,
                        0 <= d <= 9,
                        acc >= 0,
                        usize::MAX as int >= 9,
                ;
                if all_digits(body) {
                    lemma_digits_value_grows(body, k + 1, usize::MAX as int);
                }
                assert(!is_index_token(s@));
            }
            return None;
        }
        proof {
            let k = i - start;
            assert(body.take(k + 1).drop_last() =~= body.take(k));
            assert(body.take(k + 1).last() == c);
            assert(acc * 10 + d <= usize::MAX as int) by (nonlinear_arith)
                requires
                    acc <= (usize::MAX - d) / 10,
                    0 <= d <= 9,
                    acc >= 0,
            ;
        }
        acc = acc * 10 + d;
        i = i + 1;
    }
    proof {
        assert(body.take(n - start) =~= body);
    }
    Some(acc)
}

/// Tells whether a token is the "total" keyword, in any letter case.
pub fn is_total_token(s: &str) -> (r: bool)
    ensures
        r == is_total_spec(s@),
{
    if s.unicode_len() != 5 {
        return false;
    }
    let c0 = s.get_char(0);
    let c1 = s.get_char(1);
    let c2 = s.get_char(2);
    let c3 = s.get_char(3);
    let c4 = s.get_char(4);
    (c0 == 't' || c0 == 'T') && (c1 == 'o' || c1 == 'O') && (c2 == 't' || c2 == 'T') && (c3 == 'a'
        || c3 == 'A') && (c4 == 'l' || c4 == 'L')
}

/// Tells whether any token of the list is the "total" keyword.
pub fn targets_have_total(targets: &[String]) -> (r: bool)
    ensures
        r == has_total(targets.deep_view()),
{
    let ghost dv = targets.deep_view();
    let n = targets.len();
    let mut i: usize = 0;
    while i < n
        invariant
            0 <= i <= n,
            n == dv.len(),
            dv == targets.deep_view(),
            forall|j: int| 0 <= j < i ==> !is_total_spec(#[trigger] dv[j]),
        decreases n - i,
    {
        if is_total_token(targets[i].as_str()) {
            assert(is_total_spec(dv[i as int]));
            return true;
        }
        i = i + 1;
    }
    false
}

} // verus!
