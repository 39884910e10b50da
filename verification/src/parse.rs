use vstd::prelude::*;
use crate::rat::{Rat, Q, lemma_mul_bound};
use crate::plane::Complex;

verus! {

/// Largest value accepted for the numerator and denominator of a
/// parsed coordinate (2^30).  The cap keeps every product the exact
/// coordinate mapper forms inside `i128`.
pub const COORD_LIMIT: u64 = 1_073_741_824;

/// The character is a decimal digit.
pub open spec fn is_digit(c: char) -> bool {
    48 <= c as int <= 57
}

/// Numeric value of a digit character.
pub open spec fn digit_val(c: char) -> int {
    c as int - 48
}

/// Every character of the sequence is a decimal digit.
pub open spec fn all_digits(s: Seq<char>) -> bool {
    forall|i: int| 0 <= i < s.len() ==> is_digit(s[i])
}

/// Value of a digit sequence read as a decimal numeral.
pub open spec fn dec_val(s: Seq<char>) -> int
    decreases s.len(),
{
    if s.len() == 0 {
        0
    } else {
        dec_val(s.drop_last()) * 10 + digit_val(s.last())
    }
}

/// `i` is the position of the first occurrence of `sep` in `s`.
pub open spec fn is_first_sep(s: Seq<char>, sep: char, i: int) -> bool {
    &&& 0 <= i < s.len()
    &&& s[i] == sep
    &&& forall|j: int| 0 <= j < i ==> s[j] != sep
}

pub proof fn lemma_first_sep_unique(s: Seq<char>, sep: char, i: int, j: int)
    requires
        is_first_sep(s, sep, i),
        is_first_sep(s, sep, j),
    ensures
        i == j,
{
    if i < j {
        assert(s[i] != sep);
    }
    if j < i {
        assert(s[j] != sep);
    }
}

pub proof fn lemma_dec_val_nonneg(s: Seq<char>)
    requires
        all_digits(s),
    ensures
        dec_val(s) >= 0,
    decreases s.len(),
{
    if s.len() > 0 {
        assert forall|i: int| 0 <= i < s.drop_last().len() implies is_digit(s.drop_last()[i]) by {
            assert(s.drop_last()[i] == s[i]);
        }
        lemma_dec_val_nonneg(s.drop_last());
    }
}

/// Finds the first occurrence of `sep` among the characters of `s`.
pub fn find_sep(s: &str, sep: char) -> (r: Option<usize>)
    ensures
        r matches Some(i) ==> is_first_sep(s@, sep, i as int),
        r is None ==> forall|j: int| 0 <= j < s@.len() ==> s@[j] != sep,
{
    let n: usize = s.unicode_len();
    let mut i: usize = 0;
    while i < n
        invariant
            0 <= i <= n,
            n == s@.len(),
            forall|j: int| 0 <= j < i ==> s@[j] != sep,
        decreases n - i,
    {
        let c: char = s.get_char(i);
        if c == sep {
            return Some(i);
        }
        i = i + 1;
    }
    None
}

/// An unsigned integer numeral with an optional leading plus struck
/// out.
pub open spec fn uint_body(s: Seq<char>) -> Seq<char> {
    if s.len() > 0 && s[0] == '+' {
        s.subrange(1, s.len() as int)
    } else {
        s
    }
}

/// The sequence is a well-formed unsigned integer numeral — an optional
/// plus, then a nonempty run of digits — whose value fits a `usize`.
pub open spec fn uint_ok(s: Seq<char>) -> bool {
    &&& uint_body(s).len() > 0
    &&& all_digits(uint_body(s))
    &&& dec_val(uint_body(s)) <= usize::MAX as int
}

/// Parses an unsigned decimal integer: an optional leading plus, then
/// digits.  Returns the value exactly when the numeral is well formed
/// and fits a `usize`.
pub fn parse_usize(s: &str) -> (r: Option<usize>)
    ensures
        r matches Some(v) ==> uint_ok(s@) && v as int == dec_val(uint_body(s@)),
        r is None ==> !uint_ok(s@),
{
    let n: usize = s.unicode_len();
    let start: usize = if n > 0 && s.get_char(0) == '+' {
        1
    } else {
        0
    };
    assert(uint_body(s@) =~= s@.subrange(start as int, n as int));
    if start == n {
        return None;
    }
    let mut acc: usize = 0;
    let mut too_big: bool = false;
    let mut i: usize = start;
    while i < n
        invariant
            start <= i <= n,
            n == s@.len(),
            uint_body(s@) == s@.subrange(start as int, n as int),
            all_digits(s@.subrange(start as int, i as int)),
            !too_big ==> acc as int == dec_val(s@.subrange(start as int, i as int)),
            too_big ==> dec_val(s@.subrange(start as int, i as int)) > usize::MAX as int,
        decreases n - i,
    {
        let c: char = s.get_char(i);
        let d: u32 = c as u32;
        if d < 48 || d > 57 {
            assert(!is_digit(uint_body(s@)[i - start]));
            return None;
        }
        let ghost pre = s@.subrange(start as int, i as int);
        let ghost cur = s@.subrange(start as int, i as int + 1);
        proof {
            assert(cur.drop_last() =~= pre);
            assert(cur.last() == s@[i as int]);
            assert forall|j: int| 0 <= j < cur.len() implies is_digit(cur[j]) by {
                if j < i - start {
                    assert(cur[j] == pre[j]);
                } else {
                    assert(cur[j] == s@[i as int]);
                }
            }
        }
        let dv: usize = (d - 48) as usize;
        if !too_big {
            match acc.checked_mul(10) {
                Some(t) => match t.checked_add(dv) {
                    Some(u) => {
                        acc = u;
                    },
                    None => {
                        too_big = true;
                    },
                },
                None => {
                    too_big = true;
                },
            }
        }
        i = i + 1;
    }
    assert(s@.subrange(start as int, n as int) =~= uint_body(s@));
    if too_big {
        None
    } else {
        Some(acc)
    }
}

/// The pair of bounds encoded by `s` when split at the first occurrence
/// of the separator standing at position `i`.
pub open spec fn pair_from(s: Seq<char>, i: int) -> Option<(usize, usize)> {
    let l = s.subrange(0, i);
    let rt = s.subrange(i + 1, s.len() as int);
    if uint_ok(l) && uint_ok(rt) {
        Some((dec_val(uint_body(l)) as usize, dec_val(uint_body(rt)) as usize))
    } else {
        None
    }
}

/// Splits `s` at the first occurrence of `separator` and parses both
/// halves as unsigned decimal integers.  Returns the pair exactly when
/// the separator occurs and both halves are well-formed numerals that
/// fit a `usize`.
pub fn parse_pair(s: &str, separator: char) -> (r: Option<(usize, usize)>)
    ensures
        (forall|j: int| 0 <= j < s@.len() ==> s@[j] != separator) ==> r is None,
        forall|i: int| is_first_sep(s@, separator, i) ==> r == pair_from(s@, i),
{
    let n: usize = s.unicode_len();
    match find_sep(s, separator) {
        None => None,
        Some(i) => {
            let left = s.substring_char(0, i);
            let right = s.substring_char(i + 1, n);
            proof {
                assert forall|k: int| is_first_sep(s@, separator, k) implies k == i as int by {
                    lemma_first_sep_unique(s@, separator, k, i as int);
                }
            }
            let r = match (parse_usize(left), parse_usize(right)) {
                (Some(a), Some(b)) => Some((a, b)),
                _ => None,
            };
            proof {
                if uint_ok(left@) {
                    lemma_dec_val_nonneg(uint_body(left@));
                }
                if uint_ok(right@) {
                    lemma_dec_val_nonneg(uint_body(right@));
                }
            }
            r
        },
    }
}

/// Ten to the power `k`.
pub open spec fn pow10(k: nat) -> int
    decreases k,
{
    if k == 0 {
        1
    } else {
        10 * pow10((k - 1) as nat)
    }
}

pub proof fn lemma_pow10_pos(k: nat)
    ensures
        pow10(k) >= 1,
    decreases k,
{
    if k > 0 {
        lemma_pow10_pos((k - 1) as nat);
    }
}

pub proof fn lemma_pow10_mono(a: nat, b: nat)
    requires
        a <= b,
    ensures
        pow10(a) <= pow10(b),
    decreases b,
{
    if a < b {
        lemma_pow10_mono(a, (b - 1) as nat);
        lemma_pow10_pos((b - 1) as nat);
    }
}

pub proof fn lemma_mul_ge_left(a: int, b: int)
    by (nonlinear_arith)
    requires
        a >= 0,
        b >= 1,
    ensures
        a * b >= a,
{
}

/// The sequence holds a dot.
pub open spec fn has_dot(s: Seq<char>) -> bool {
    exists|i: int| is_first_sep(s, '.', i)
}

/// Position of the first dot.
pub open spec fn dot_pos(s: Seq<char>) -> int {
    choose|i: int| is_first_sep(s, '.', i)
}

/// The sequence is a well-formed unsigned decimal numeral: digits with
/// at most one dot among them and at least one digit, the whole within
/// `COORD_LIMIT` as numerator and denominator.
pub open spec fn frac_ok(s: Seq<char>) -> bool {
    if has_dot(s) {
        let i = dot_pos(s);
        let ip = s.subrange(0, i);
        let fp = s.subrange(i + 1, s.len() as int);
        &&& ip.len() + fp.len() > 0
        &&& all_digits(ip)
        &&& all_digits(fp)
        &&& pow10(fp.len()) <= COORD_LIMIT as int
        &&& dec_val(ip) * pow10(fp.len()) + dec_val(fp) <= COORD_LIMIT as int
    } else {
        s.len() > 0 && all_digits(s) && dec_val(s) <= COORD_LIMIT as int
    }
}

/// Numerator of the unsigned decimal numeral `s`: the digits with the
/// dot struck out, read as one numeral.
pub open spec fn frac_num(s: Seq<char>) -> int {
    if has_dot(s) {
        let i = dot_pos(s);
        let fp = s.subrange(i + 1, s.len() as int);
        dec_val(s.subrange(0, i)) * pow10(fp.len()) + dec_val(fp)
    } else {
        dec_val(s)
    }
}

/// Denominator of the unsigned decimal numeral `s`: ten to the number
/// of fractional digits.
pub open spec fn frac_den(s: Seq<char>) -> int {
    if has_dot(s) {
        pow10(s.subrange(dot_pos(s) + 1, s.len() as int).len())
    } else {
        1
    }
}

/// Sign carried by a leading minus.
pub open spec fn sign_of(s: Seq<char>) -> int {
    if s.len() > 0 && s[0] == '-' {
        -1
    } else {
        1
    }
}

/// The numeral with a leading sign struck out.
pub open spec fn body_of(s: Seq<char>) -> Seq<char> {
    if s.len() > 0 && (s[0] == '-' || s[0] == '+') {
        s.subrange(1, s.len() as int)
    } else {
        s
    }
}

/// The sequence is a well-formed signed decimal numeral within bounds.
pub open spec fn rat_ok(s: Seq<char>) -> bool {
    frac_ok(body_of(s))
}

/// The rational value the signed decimal numeral `s` denotes.
pub open spec fn q_of_str(s: Seq<char>) -> Q {
    Q { n: sign_of(s) * frac_num(body_of(s)), d: frac_den(body_of(s)) }
}

/// Parses a run of digits, possibly empty, capped at `COORD_LIMIT`.
fn parse_digits(s: &str) -> (r: Option<u64>)
    ensures
        r matches Some(v) ==> all_digits(s@) && dec_val(s@) <= COORD_LIMIT as int && v as int
            == dec_val(s@),
        r is None ==> !(all_digits(s@) && dec_val(s@) <= COORD_LIMIT as int),
{
    let n: usize = s.unicode_len();
    let mut acc: u64 = 0;
    let mut too_big: bool = false;
    let mut i: usize = 0;
    while i < n
        invariant
            0 <= i <= n,
            n == s@.len(),
            all_digits(s@.subrange(0, i as int)),
            !too_big ==> acc as int == dec_val(s@.subrange(0, i as int)) && acc <= COORD_LIMIT,
            too_big ==> dec_val(s@.subrange(0, i as int)) > COORD_LIMIT as int,
        decreases n - i,
    {
        let c: char = s.get_char(i);
        let d: u32 = c as u32;
        if d < 48 || d > 57 {
            assert(!is_digit(s@[i as int]));
            return None;
        }
        let ghost pre = s@.subrange(0, i as int);
        let ghost cur = s@.subrange(0, i as int + 1);
        proof {
            assert(cur.drop_last() =~= pre);
            assert(cur.last() == s@[i as int]);
            assert forall|j: int| 0 <= j < cur.len() implies is_digit(cur[j]) by {
                if j < i as int {
                    assert(cur[j] == pre[j]);
                } else {
                    assert(cur[j] == s@[i as int]);
                }
            }
        }
        if !too_big {
            acc = acc * 10 + (d - 48) as u64;
            if acc > COORD_LIMIT {
                too_big = true;
            }
        }
        i = i + 1;
    }
    assert(s@.subrange(0, n as int) =~= s@);
    if too_big {
        None
    } else {
        Some(acc)
    }
}

/// Parses an unsigned decimal numeral into numerator and denominator.
fn parse_dec(s: &str) -> (r: Option<(u64, u64)>)
    ensures
        r is Some <==> frac_ok(s@),
        r matches Some(p) ==> p.0 as int == frac_num(s@) && p.1 as int == frac_den(s@) && p.0
            <= COORD_LIMIT && 1 <= p.1 <= COORD_LIMIT,
{
    let n: usize = s.unicode_len();
    match find_sep(s, '.') {
        None => {
            proof {
                if has_dot(s@) {
                    let i = dot_pos(s@);
                    assert(is_first_sep(s@, '.', i));
                }
            }
            match parse_digits(s) {
                Some(v) => {
                    if n == 0 {
                        None
                    } else {
                        Some((v, 1))
                    }
                },
                None => None,
            }
        },
        Some(i) => {
            let ip = s.substring_char(0, i);
            let fp = s.substring_char(i + 1, n);
            proof {
                assert(has_dot(s@));
                assert(is_first_sep(s@, '.', dot_pos(s@)));
                lemma_first_sep_unique(s@, '.', dot_pos(s@), i as int);
            }
            if n == 1 {
                // the numeral is a lone dot: no digit on either side
                return None;
            }
            match (parse_digits(ip), parse_digits(fp)) {
                (Some(a), Some(b)) => {
                    let fl: usize = n - i - 1;
                    assert(fp@.len() == fl as int);
                    let mut den: u64 = 1;
                    let mut j: usize = 0;
                    while j < fl
                        invariant
                            0 <= j <= fl,
                            den as int == pow10(j as nat),
                            1 <= den <= COORD_LIMIT,
                            has_dot(s@),
                            dot_pos(s@) == i as int,
                            (i as int) < s@.len(),
                            fl as int == s@.len() - i - 1,
                        decreases fl - j,
                    {
                        if den > COORD_LIMIT / 10 {
                            proof {
                                lemma_pow10_mono((j + 1) as nat, fl as nat);
                            }
                            return None;
                        }
                        den = den * 10;
                        j = j + 1;
                    }
                    proof {
                        lemma_mul_bound(a as int, den as int, COORD_LIMIT as int, COORD_LIMIT as int);
                    }
                    let num: u64 = a * den + b;
                    if num > COORD_LIMIT {
                        None
                    } else {
                        Some((num, den))
                    }
                },
                _ => {
                    proof {
                        if frac_ok(s@) {
                            lemma_dec_val_nonneg(ip@);
                            lemma_dec_val_nonneg(fp@);
                            lemma_pow10_pos(fp@.len());
                            lemma_mul_ge_left(dec_val(ip@), pow10(fp@.len()));
                        }
                    }
                    None
                },
            }
        },
    }
}

/// Parses a signed decimal numeral into an exact rational.  Returns the
/// value exactly when the string is an optional sign, then digits with
/// at most one dot among them and at least one digit (so `".5"` and
/// `"5."` are accepted), with numerator and denominator within
/// `COORD_LIMIT`.  Exponent forms are not part of the grammar.
pub fn parse_rat(s: &str) -> (r: Option<Rat>)
    ensures
        r is Some <==> rat_ok(s@),
        r matches Some(v) ==> v.q() == q_of_str(s@) && v.wf() && v.bounded(COORD_LIMIT as int),
{
    let n: usize = s.unicode_len();
    let neg: bool = n > 0 && s.get_char(0) == '-';
    let signed: bool = n > 0 && (s.get_char(0) == '-' || s.get_char(0) == '+');
    let rest: &str = if signed {
        s.substring_char(1, n)
    } else {
        s
    };
    assert(rest@ =~= body_of(s@));
    match parse_dec(rest) {
        None => None,
        Some((num, den)) => {
            let v: Rat = if neg {
                Rat { num: -(num as i128), den: den as i128 }
            } else {
                Rat { num: num as i128, den: den as i128 }
            };
            Some(v)
        },
    }
}

/// The complex point encoded by `s` when split at the first comma
/// standing at position `i`.
pub open spec fn complex_parts_ok(s: Seq<char>, i: int) -> bool {
    rat_ok(s.subrange(0, i)) && rat_ok(s.subrange(i + 1, s.len() as int))
}

/// Splits `s` at the first comma and parses both halves as signed
/// decimal numerals, the real part before the comma and the imaginary
/// part after it.
pub fn parse_complex(s: &str) -> (r: Option<Complex>)
    ensures
        (forall|j: int| 0 <= j < s@.len() ==> s@[j] != ',') ==> r is None,
        forall|i: int|
            is_first_sep(s@, ',', i) ==> {
                let l = s@.subrange(0, i);
                let rt = s@.subrange(i + 1, s@.len() as int);
                &&& (r is Some <==> complex_parts_ok(s@, i))
                &&& (r matches Some(c) ==> c.re.q() == q_of_str(l) && c.im.q() == q_of_str(rt)
                    && c.wf() && c.bounded(COORD_LIMIT as int))
            },
{
    let n: usize = s.unicode_len();
    match find_sep(s, ',') {
        None => None,
        Some(i) => {
            let left = s.substring_char(0, i);
            let right = s.substring_char(i + 1, n);
            proof {
                assert forall|k: int| is_first_sep(s@, ',', k) implies k == i as int by {
                    lemma_first_sep_unique(s@, ',', k, i as int);
                }
            }
            match (parse_rat(left), parse_rat(right)) {
                (Some(re), Some(im)) => Some(Complex { re, im }),
                _ => None,
            }
        },
    }
}

} // verus!
