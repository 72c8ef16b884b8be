//! Splitting one line of protocol text into tokens, and reading unsigned
//! integers out of tokens.

use vstd::prelude::*;
use crate::error::ProtocolError;

verus! {

/// Whether `c` separates tokens. Plain lines split on ASCII whitespace;
/// the game-constants line (`consts_mode`) additionally splits on the
/// braces, commas, colons and quotes of its map-like syntax (and not on
/// tabs, which that syntax never contains).
pub open spec fn is_sep(c: char, consts_mode: bool) -> bool {
    if consts_mode {
        c == ' ' || c == '{' || c == '}' || c == ',' || c == ':' || c == '"' || c == '\r' || c
            == '\n'
    } else {
        c == ' ' || c == '\t' || c == '\n' || c == '\r'
    }
}

/// The tokens of `s` under separator class `consts_mode`, given that the
/// characters of an unfinished token `cur` directly precede `s`.
pub open spec fn split_acc(s: Seq<char>, consts_mode: bool, cur: Seq<char>) -> Seq<Seq<char>>
    decreases s.len(),
{
    if s.len() == 0 {
        if cur.len() == 0 {
            Seq::empty()
        } else {
            seq![cur]
        }
    } else if is_sep(s[0], consts_mode) {
        if cur.len() == 0 {
            split_acc(s.subrange(1, s.len() as int), consts_mode, Seq::empty())
        } else {
            seq![cur] + split_acc(s.subrange(1, s.len() as int), consts_mode, Seq::empty())
        }
    } else {
        split_acc(s.subrange(1, s.len() as int), consts_mode, cur.push(s[0]))
    }
}

/// The ordered sequence of maximal non-separator runs of `s`: what
/// splitting `s` on the separator class and dropping empty fragments
/// leaves.
pub open spec fn split_tokens(s: Seq<char>, consts_mode: bool) -> Seq<Seq<char>> {
    split_acc(s, consts_mode, Seq::empty())
}

/// Running `split_acc` over a separator-free prefix only moves that
/// prefix into the unfinished token.
proof fn lemma_split_acc_shift(s: Seq<char>, consts_mode: bool, cur: Seq<char>, k: int)
    requires
        0 <= k <= s.len(),
        forall|m: int| 0 <= m < k ==> !is_sep(s[m], consts_mode),
    ensures
        split_acc(s, consts_mode, cur) == split_acc(
            s.subrange(k, s.len() as int),
            consts_mode,
            cur + s.subrange(0, k),
        ),
    decreases k,
{
    if k == 0 {
        assert(cur + s.subrange(0, 0) =~= cur);
        assert(s.subrange(0, s.len() as int) =~= s);
    } else {
        let s1 = s.subrange(1, s.len() as int);
        lemma_split_acc_shift(s1, consts_mode, cur.push(s[0]), k - 1);
        assert(s1.subrange(k - 1, s1.len() as int) =~= s.subrange(k, s.len() as int));
        assert(cur.push(s[0]) + s1.subrange(0, k - 1) =~= cur + s.subrange(0, k));
    }
}

/// The exec-side separator test for `is_sep`.
fn is_sep_char(c: char, consts_mode: bool) -> (r: bool)
    ensures
        r == is_sep(c, consts_mode),
{
    if consts_mode {
        c == ' ' || c == '{' || c == '}' || c == ',' || c == ':' || c == '"' || c == '\r' || c
            == '\n'
    } else {
        c == ' ' || c == '\t' || c == '\n' || c == '\r'
    }
}

/// Split `string` into its maximal non-separator runs, in order.
pub(crate) fn split_line(string: &str, consts_mode: bool) -> (r: Vec<String>)
    ensures
        r@.map_values(|t: String| t@) == split_tokens(string@, consts_mode),
{
    let n = string.unicode_len();
    let mut toks: Vec<String> = Vec::new();
    let mut i: usize = 0;
    proof {
        assert(string@.subrange(0, n as int) =~= string@);
        assert(toks@.map_values(|t: String| t@) + split_tokens(string@, consts_mode)
            =~= split_tokens(string@, consts_mode));
    }
    while i < n
        invariant
            i <= n,
            n == string@.len(),
            split_tokens(string@, consts_mode) == toks@.map_values(|t: String| t@) + split_acc(
                string@.subrange(i as int, n as int),
                consts_mode,
                Seq::<char>::empty(),
            ),
        decreases n - i,
    {
        let c = string.get_char(i);
        if is_sep_char(c, consts_mode) {
            proof {
                let rest = string@.subrange(i as int, n as int);
                assert(rest.subrange(1, rest.len() as int) =~= string@.subrange(
                    i + 1 as int,
                    n as int,
                ));
            }
            i = i + 1;
        } else {
            let start = i;
            i = i + 1;
            while i < n && !is_sep_char(string.get_char(i), consts_mode)
                invariant
                    start < i <= n,
                    n == string@.len(),
                    forall|m: int| start <= m < i ==> !is_sep(string@[m], consts_mode),
                decreases n - i,
            {
                i = i + 1;
            }
            let tok_str = string.substring_char(start, i);
            let tok = tok_str.to_owned();
            proof {
                let rest = string@.subrange(start as int, n as int);
                lemma_split_acc_shift(rest, consts_mode, Seq::empty(), i - start);
                assert(Seq::<char>::empty() + rest.subrange(0, i - start) =~= string@.subrange(
                    start as int,
                    i as int,
                ));
                assert(rest.subrange(i - start, rest.len() as int) =~= string@.subrange(
                    i as int,
                    n as int,
                ));
                // The unfinished token is exactly the token just cut out; one
                // more unfolding of split_acc closes it off, whether the run
                // ended at a separator or at the end of the line.
                let remaining = string@.subrange(i as int, n as int);
                if i < n {
                    assert(is_sep(remaining[0], consts_mode));
                    assert(remaining.subrange(1, remaining.len() as int) =~= string@.subrange(
                        i + 1 as int,
                        n as int,
                    ));
                }
                assert(toks@.push(tok).map_values(|t: String| t@) =~= toks@.map_values(
                    |t: String| t@,
                ).push(tok@));
            }
            toks.push(tok);
        }
    }
    proof {
        assert(string@.subrange(i as int, n as int) =~= Seq::<char>::empty());
        assert(toks@.map_values(|t: String| t@) + Seq::<Seq<char>>::empty() =~= toks@.map_values(
            |t: String| t@,
        ));
    }
    toks
}

/// Produce the ordered sequence of non-empty whitespace-delimited
/// substrings of one line, dropping any empty fragments. A blank line
/// yields the empty sequence, which is a valid result, not an error.
pub fn tokenize(string: &mut String) -> (r: Vec<String>)
    ensures
        *final(string) == *old(string),
        r@.map_values(|t: String| t@) == split_tokens(old(string)@, false),
{
    split_line(string.as_str(), false)
}

/// Split the game-constants line on its map-like syntax, leaving the
/// alternating key and value tokens.
pub fn split_constants_line(string: &String) -> (r: Vec<String>)
    ensures
        r@.map_values(|t: String| t@) == split_tokens(string@, true),
{
    split_line(string.as_str(), true)
}

/// `c` is a decimal digit.
pub open spec fn is_digit(c: char) -> bool {
    48 <= c as u32 <= 57
}

/// The value of the decimal digit `c`.
pub open spec fn digit_val(c: char) -> nat {
    (c as u32 - 48) as nat
}

/// Every character of `s` is a decimal digit.
pub open spec fn all_digits(s: Seq<char>) -> bool {
    forall|m: int| 0 <= m < s.len() ==> is_digit(s[m])
}

/// The number the digit string `s` denotes in base ten.
pub open spec fn dec_value(s: Seq<char>) -> nat
    decreases s.len(),
{
    if s.len() == 0 {
        0
    } else {
        dec_value(s.drop_last()) * 10 + digit_val(s.last())
    }
}

/// `s` is a token that parses as a `u32`: non-empty, all digits, and in
/// range.
pub open spec fn valid_u32_token(s: Seq<char>) -> bool {
    s.len() > 0 && all_digits(s) && dec_value(s) <= u32::MAX
}

/// A digit string is worth at least as much as any of its prefixes.
proof fn lemma_dec_value_prefix(s: Seq<char>, k: int)
    requires
        0 <= k <= s.len(),
        all_digits(s),
    ensures
        dec_value(s.subrange(0, k)) <= dec_value(s),
    decreases s.len() - k,
{
    if k == s.len() {
        assert(s.subrange(0, k) =~= s);
    } else {
        assert(s.subrange(0, k + 1).drop_last() =~= s.subrange(0, k));
        assert(dec_value(s.subrange(0, k)) <= dec_value(s.subrange(0, k)) * 10 + digit_val(
            s[k],
        )) by (nonlinear_arith);
        lemma_dec_value_prefix(s, k + 1);
    }
}

/// Read `token` as an unsigned 32-bit integer. Returns the denoted value
/// exactly when the token is non-empty, all decimal digits, and in range;
/// anything else is a protocol violation.
pub fn parse_u32(token: &String) -> (r: Result<u32, ProtocolError>)
    ensures
        valid_u32_token(token@) ==> r == Ok::<u32, ProtocolError>(dec_value(token@) as u32),
        !valid_u32_token(token@) ==> r == Err::<u32, ProtocolError>(
            ProtocolError::ProtocolViolation,
        ),
{
    let s = token.as_str();
    let n = s.unicode_len();
    if n == 0 {
        return Err(ProtocolError::ProtocolViolation);
    }
    let mut acc: u32 = 0;
    let mut i: usize = 0;
    while i < n
        invariant
            i <= n,
            n == token@.len(),
            s@ == token@,
            all_digits(token@.subrange(0, i as int)),
            acc == dec_value(token@.subrange(0, i as int)),
        decreases n - i,
    {
        let c = s.get_char(i);
        let u = c as u32;
        if u < 48 || u > 57 {
            assert(!is_digit(token@[i as int]));
            return Err(ProtocolError::ProtocolViolation);
        }
        let d = u - 48;
        proof {
            assert(token@.subrange(0, i + 1 as int).drop_last() =~= token@.subrange(0, i as int));
        }
        if acc > (u32::MAX - d) / 10 {
            proof {
                assert(acc * 10 + d > u32::MAX) by (nonlinear_arith)
                    requires
                        d <= 9,
                        acc > (u32::MAX - d) / 10,
                ;
                if all_digits(token@) {
                    lemma_dec_value_prefix(token@, i + 1);
                }
            }
            return Err(ProtocolError::ProtocolViolation);
        }
        proof {
            assert(acc * 10 + d <= u32::MAX) by (nonlinear_arith)
                requires
                    d <= 9,
                    acc <= (u32::MAX - d) / 10,
            ;
        }
        acc = acc * 10 + d;
        i = i + 1;
    }
    proof {
        assert(token@.subrange(0, n as int) =~= token@);
    }
    Ok(acc)
}

} // verus!
