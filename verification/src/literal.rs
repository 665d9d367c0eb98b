//! The written form of a number: which tokens are decimal literals.
//!
//! A literal is an optional sign followed by `inf`, `infinity` or `nan` in
//! any mix of upper and lower case, or by a decimal number: digits with at
//! most one point among them and at least one digit in all, then optionally
//! an exponent, which is `e` or `E`, an optional sign and at least one digit.
use vstd::prelude::*;

verus! {

pub open spec fn is_digit(c: char) -> bool {
    0x30 <= c as u32 <= 0x39
}

pub open spec fn is_sign(c: char) -> bool {
    c == '+' || c == '-'
}

/// `c` is the lower-case letter `letter` or its upper-case form.
pub open spec fn same_letter(c: char, letter: char) -> bool {
    c == letter || (c as u32) + 32 == letter as u32
}

/// How many digits stand in `s` from position `from` on, up to the first
/// character that is not a digit.
pub open spec fn digit_run(s: Seq<char>, from: int) -> nat
    decreases s.len() - from,
{
    if 0 <= from < s.len() && is_digit(s[from]) {
        1 + digit_run(s, from + 1)
    } else {
        0
    }
}

/// 1 if a sign stands at `from`, else 0.
pub open spec fn sign_len(s: Seq<char>, from: int) -> int {
    if 0 <= from < s.len() && is_sign(s[from]) {
        1
    } else {
        0
    }
}

/// From `from` to its end, `s` is the lower-case `word` in some mix of
/// cases.
pub open spec fn spells(s: Seq<char>, from: int, word: Seq<char>) -> bool {
    &&& s.len() - from == word.len()
    &&& forall|k: int| 0 <= k < word.len() ==> same_letter(#[trigger] s[from + k], word[k])
}

/// From `at` to its end, `s` is an exponent.
pub open spec fn is_exponent(s: Seq<char>, at: int) -> bool {
    let first = at + 1 + sign_len(s, at + 1);
    &&& 0 <= at < s.len()
    &&& (s[at] == 'e' || s[at] == 'E')
    &&& digit_run(s, first) >= 1
    &&& first + digit_run(s, first) == s.len()
}

/// From `from` to its end, `s` is a decimal number.
pub open spec fn is_decimal(s: Seq<char>, from: int) -> bool {
    let whole = digit_run(s, from);
    let point = from + whole;
    let pointed = point < s.len() && s[point] == '.';
    let fraction = if pointed {
        digit_run(s, point + 1)
    } else {
        0
    };
    let end = if pointed {
        point + 1 + fraction
    } else {
        point
    };
    &&& whole + fraction >= 1
    &&& (end == s.len() || is_exponent(s, end))
}

pub open spec fn word_inf() -> Seq<char> {
    seq!['i', 'n', 'f']
}

pub open spec fn word_infinity() -> Seq<char> {
    seq!['i', 'n', 'f', 'i', 'n', 'i', 't', 'y']
}

pub open spec fn word_nan() -> Seq<char> {
    seq!['n', 'a', 'n']
}

/// `s` is the written form of a number.
pub open spec fn is_number_literal(s: Seq<char>) -> bool {
    let from = sign_len(s, 0);
    ||| is_decimal(s, from)
    ||| spells(s, from, word_inf())
    ||| spells(s, from, word_infinity())
    ||| spells(s, from, word_nan())
}

fn check_digit(c: char) -> (r: bool)
    ensures
        r == is_digit(c),
{
    let u: u32 = c as u32;
    0x30 <= u && u <= 0x39
}

fn check_same_letter(c: char, letter: char) -> (r: bool)
    ensures
        r == same_letter(c, letter),
{
    let u: u32 = c as u32;
    let l: u32 = letter as u32;
    c == letter || (l >= 32 && u == l - 32)
}

fn count_sign(token: &Vec<char>, from: usize) -> (n: usize)
    ensures
        n == sign_len(token@, from as int),
        n <= 1,
        from + n <= token@.len() || n == 0,
{
    if from < token.len() && (token[from] == '+' || token[from] == '-') {
        1
    } else {
        0
    }
}

fn count_digits(token: &Vec<char>, from: usize) -> (n: usize)
    requires
        from <= token@.len(),
    ensures
        n == digit_run(token@, from as int),
        from + n <= token@.len(),
{
    let mut i: usize = from;
    while i < token.len() && check_digit(token[i])
        invariant
            from <= i <= token@.len(),
            digit_run(token@, from as int) == (i - from) + digit_run(token@, i as int),
        decreases token@.len() - i,
    {
        i += 1;
    }
    i - from
}

fn check_spells(token: &Vec<char>, from: usize, word: &Vec<char>) -> (r: bool)
    requires
        from <= token@.len(),
    ensures
        r == spells(token@, from as int, word@),
{
    if token.len() - from != word.len() {
        return false;
    }
    let mut k: usize = 0;
    while k < word.len()
        invariant
            token@.len() <= usize::MAX,
            from + word@.len() == token@.len(),
            k <= word@.len(),
            forall|j: int| 0 <= j < k ==> same_letter(#[trigger] token@[from + j], word@[j]),
        decreases word@.len() - k,
    {
        if !check_same_letter(token[from + k], word[k]) {
            assert(!same_letter(token@[from + k], word@[k as int]));
            return false;
        }
        k += 1;
    }
    true
}

fn check_exponent(token: &Vec<char>, at: usize) -> (r: bool)
    requires
        at < token@.len(),
    ensures
        r == is_exponent(token@, at as int),
{
    let n = token.len();
    if token[at] != 'e' && token[at] != 'E' {
        return false;
    }
    let first = at + 1 + count_sign(token, at + 1);
    if first > n {
        return false;
    }
    let digits = count_digits(token, first);
    digits >= 1 && first + digits == token.len()
}

fn check_decimal(token: &Vec<char>, from: usize) -> (r: bool)
    requires
        from <= token@.len(),
    ensures
        r == is_decimal(token@, from as int),
{
    let n = token.len();
    let whole = count_digits(token, from);
    let point = from + whole;
    let pointed = point < n && token[point] == '.';
    let fraction = if pointed {
        count_digits(token, point + 1)
    } else {
        0
    };
    let end = if pointed {
        point + 1 + fraction
    } else {
        point
    };
    if whole + fraction < 1 {
        return false;
    }
    end == n || check_exponent(token, end)
}

/// Decides whether `token` is the written form of a number.
pub fn check_number_literal(token: &Vec<char>) -> (r: bool)
    ensures
        r == is_number_literal(token@),
{
    let from = count_sign(token, 0);
    if check_decimal(token, from) {
        return true;
    }
    let inf: Vec<char> = vec!['i', 'n', 'f'];
    let infinity: Vec<char> = vec!['i', 'n', 'f', 'i', 'n', 'i', 't', 'y'];
    let nan: Vec<char> = vec!['n', 'a', 'n'];
    proof {
        assert(inf@ =~= word_inf());
        assert(infinity@ =~= word_infinity());
        assert(nan@ =~= word_nan());
    }
    check_spells(token, from, &inf) || check_spells(token, from, &infinity) || check_spells(
        token,
        from,
        &nan,
    )
}

} // verus!
