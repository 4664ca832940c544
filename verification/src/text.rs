//! Text-level helpers the compiler and the machine share: deciding whether a
//! token is a number and reading its value, rendering a value in decimal for
//! the output, and comparing strings character by character.
use vstd::prelude::*;

verus! {

/// A decimal digit `'0'..='9'`, stated over the character's scalar value.
pub open spec fn is_digit(c: char) -> bool {
    48 <= c as u32 <= 57
}

/// The value of a decimal digit.
pub open spec fn digit_val(c: char) -> nat {
    (c as u32 - 48) as nat
}

/// Every character of `s` is a decimal digit.
pub open spec fn digits_only(s: Seq<char>) -> bool {
    forall|i: int| 0 <= i < s.len() ==> is_digit(#[trigger] s[i])
}

/// The digits of a numeric token: the token itself, or the token without a
/// single leading `+` sign.
pub open spec fn numeric_body(s: Seq<char>) -> Seq<char> {
    if s.len() > 0 && s[0] == '+' {
        s.drop_first()
    } else {
        s
    }
}

/// A token is numeric when, after an optional leading `+`, it is one or more
/// decimal digits.
pub open spec fn is_numeric_token(s: Seq<char>) -> bool {
    numeric_body(s).len() > 0 && digits_only(numeric_body(s))
}

/// The value of a digit string read in base 10.
pub open spec fn dec_value(s: Seq<char>) -> nat
    decreases s.len(),
{
    if s.len() == 0 {
        0
    } else {
        dec_value(s.drop_last()) * 10 + digit_val(s.last())
    }
}

/// The decimal rendering of `n`, as ASCII bytes, most significant digit
/// first, with no sign and no leading zeros (`0` renders as `"0"`).
pub open spec fn dec_digits(n: nat) -> Seq<u8>
    decreases n,
{
    if n < 10 {
        seq![(48 + n) as u8]
    } else {
        dec_digits(n / 10).push((48 + n % 10) as u8)
    }
}

/// Appending one digit to a digit string multiplies its value by ten and
/// adds the digit.
proof fn lemma_dec_value_push(s: Seq<char>, c: char)
    ensures
        dec_value(s.push(c)) == dec_value(s) * 10 + digit_val(c),
{
    assert(s.push(c).drop_last() =~= s);
}

/// A digit string is worth at least its prefix scaled by ten for each digit
/// that follows; in particular a prefix too large to fit makes the whole
/// string too large to fit.
proof fn lemma_dec_value_prefix_grows(s: Seq<char>, i: int, j: int)
    requires
        0 <= i <= j <= s.len(),
    ensures
        dec_value(s.subrange(0, i)) <= dec_value(s.subrange(0, j)),
    decreases j - i,
{
    if i < j {
        lemma_dec_value_prefix_grows(s, i, j - 1);
        let p = s.subrange(0, j - 1);
        assert(s.subrange(0, j) =~= p.push(s[j - 1]));
        lemma_dec_value_push(p, s[j - 1]);
    }
}

/// Reads `token` as an optionally `+`-signed decimal number. Returns the
/// value exactly when the token is numeric and its value fits in `usize`.
pub fn parse_usize(token: &str) -> (r: Option<usize>)
    ensures
        match r {
            Some(n) => is_numeric_token(token@) && n == dec_value(numeric_body(token@)),
            None => !is_numeric_token(token@) || dec_value(numeric_body(token@)) > usize::MAX,
        },
{
    let len = token.unicode_len();
    let start: usize = if len > 0 && token.get_char(0) == '+' {
        1
    } else {
        0
    };
    if len == start {
        return None;
    }
    let ghost body = numeric_body(token@);
    proof {
        assert(body =~= token@.subrange(start as int, len as int));
    }
    let mut acc: usize = 0;
    let mut i: usize = start;
    while i < len
        invariant
            start <= i <= len,
            len == token@.len(),
            start == 1 ==> token@[0] == '+',
            start == 0 ==> !(token@.len() > 0 && token@[0] == '+'),
            body == numeric_body(token@),
            body =~= token@.subrange(start as int, len as int),
            forall|j: int| start <= j < i ==> is_digit(#[trigger] token@[j]),
            acc == dec_value(body.subrange(0, i - start)),
        decreases len - i,
    {
        let c = token.get_char(i);
        let u = c as u32;
        if u < 48 || u > 57 {
            proof {
                assert(body[i - start] == token@[i as int]);
                assert(!is_digit(body[i - start]));
            }
            return None;
        }
        let d = (u - 48) as usize;
        let ghost pre = body.subrange(0, i - start);
        proof {
            assert(body.subrange(0, i + 1 - start) =~= pre.push(body[i - start]));
            assert(body[i - start] == token@[i as int]);
            lemma_dec_value_push(pre, token@[i as int]);
        }
        if acc > usize::MAX / 10 || (acc == usize::MAX / 10 && d > usize::MAX % 10) {
            proof {
                assert(dec_value(body.subrange(0, i + 1 - start)) > usize::MAX) by {
                    assert(acc * 10 + d > usize::MAX) by (nonlinear_arith)
                        requires
                            acc > usize::MAX / 10 || (acc == usize::MAX / 10 && d > usize::MAX
                                % 10),
                            d < 10,
                    ;
                };
                lemma_dec_value_prefix_grows(body, i + 1 - start, body.len() as int);
                assert(body.subrange(0, body.len() as int) =~= body);
            }
            return None;
        }
        proof {
            assert(acc * 10 + d <= usize::MAX) by (nonlinear_arith)
                requires
                    acc < usize::MAX / 10 || (acc == usize::MAX / 10 && d <= usize::MAX % 10),
                    d < 10,
            ;
        }
        acc = acc * 10 + d;
        i = i + 1;
    }
    proof {
        assert(body.subrange(0, body.len() as int) =~= body);
        assert(forall|j: int| 0 <= j < body.len() ==> is_digit(#[trigger] body[j]));
    }
    Some(acc)
}

/// Appends the decimal rendering of `n` to `out`, most significant digit
/// first.
pub fn push_decimal(out: &mut Vec<u8>, n: usize)
    ensures
        final(out)@ == old(out)@ + dec_digits(n as nat),
    decreases n,
{
    if n < 10 {
        out.push((n as u8) + 48);
        proof {
            assert(out@ =~= old(out)@ + dec_digits(n as nat));
        }
    } else {
        push_decimal(out, n / 10);
        out.push((n % 10) as u8 + 48);
        proof {
            assert(out@ =~= old(out)@ + dec_digits(n as nat));
        }
    }
}

/// Character-by-character string equality, stated over the views.
pub fn str_eq(a: &str, b: &str) -> (r: bool)
    ensures
        r == (a@ == b@),
{
    let alen = a.unicode_len();
    let blen = b.unicode_len();
    if alen != blen {
        return false;
    }
    let mut i: usize = 0;
    while i < alen
        invariant
            0 <= i <= alen,
            alen == a@.len(),
            alen == b@.len(),
            forall|j: int| 0 <= j < i ==> a@[j] == b@[j],
        decreases alen - i,
    {
        if a.get_char(i) != b.get_char(i) {
            return false;
        }
        i = i + 1;
    }
    proof {
        assert(a@ =~= b@);
    }
    true
}

} // verus!
