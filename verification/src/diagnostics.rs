//! Rewriting backend diagnostics: a backend error message carries a line
//! reference of the form `:<digits>:` that cites a line of the synthesized
//! source. The first such reference is located, its number is mapped through
//! the unit's line map (accounting for a prepended version pragma), and the
//! translated number is substituted back into the message. A message with no
//! such reference, or one whose number falls outside the line map, breaks
//! the backend protocol and is fatal for that unit.

use vstd::arithmetic::div_mod::lemma_div_decreases;
use vstd::arithmetic::div_mod::lemma_fundamental_div_mod;
use vstd::prelude::*;
use vstd::string::*;

use crate::errors::CompilerError;

verus! {

/// A decimal digit.
pub open spec fn is_digit(c: char) -> bool {
    48 <= c as u32 && c as u32 <= 57
}

/// The numeric value of a decimal digit.
pub open spec fn digit_val(c: char) -> nat
    recommends
        is_digit(c),
{
    (c as u32 - 48) as nat
}

/// The number denoted by a sequence of decimal digits (empty denotes 0).
pub open spec fn decimal_value(s: Seq<char>) -> nat
    decreases s.len(),
{
    if s.len() == 0 {
        0
    } else {
        decimal_value(s.drop_last()) * 10 + digit_val(s.last())
    }
}

/// The digit character for a value below ten.
pub open spec fn digit_char(d: nat) -> char
    recommends
        d < 10,
{
    if d == 0 {
        '0'
    } else if d == 1 {
        '1'
    } else if d == 2 {
        '2'
    } else if d == 3 {
        '3'
    } else if d == 4 {
        '4'
    } else if d == 5 {
        '5'
    } else if d == 6 {
        '6'
    } else if d == 7 {
        '7'
    } else if d == 8 {
        '8'
    } else {
        '9'
    }
}

/// The decimal rendering of `n`, without leading zeros (except for 0 itself).
pub open spec fn decimal_digits(n: nat) -> Seq<char>
    decreases n,
    via decimal_digits_decreases
{
    if n < 10 {
        seq![digit_char(n)]
    } else {
        decimal_digits(n / 10).push(digit_char(n % 10))
    }
}

#[via_fn]
proof fn decimal_digits_decreases(n: nat) {
    if n >= 10 {
        lemma_div_decreases(n as int, 10);
    }
}

pub proof fn lemma_digit_char_val(d: nat)
    requires
        d < 10,
    ensures
        is_digit(digit_char(d)),
        digit_val(digit_char(d)) == d,
{
}

/// Rendering a number and reading the digits back returns the number.
pub proof fn lemma_decimal_round_trip(n: nat)
    ensures
        decimal_digits(n).len() >= 1,
        forall|k: int|
            0 <= k < decimal_digits(n).len() ==> is_digit(#[trigger] decimal_digits(n)[k]),
        decimal_value(decimal_digits(n)) == n,
    decreases n,
{
    if n < 10 {
        reveal_with_fuel(decimal_value, 2);
        lemma_digit_char_val(n);
        assert(decimal_digits(n).drop_last() =~= Seq::<char>::empty());
        assert(decimal_value(decimal_digits(n)) == decimal_value(Seq::<char>::empty()) * 10
            + digit_val(digit_char(n)));
    } else {
        lemma_div_decreases(n as int, 10);
        lemma_decimal_round_trip(n / 10);
        lemma_digit_char_val(n % 10);
        let s = decimal_digits(n);
        let q = n / 10;
        let r0 = n % 10;
        assert(s.drop_last() =~= decimal_digits(q));
        assert(s.last() == digit_char(r0));
        assert(decimal_value(s) == decimal_value(decimal_digits(q)) * 10 + digit_val(
            digit_char(r0),
        ));
        assert(decimal_value(decimal_digits(q)) == q);
        lemma_fundamental_div_mod(n as int, 10);
        assert(q * 10 + r0 == n);
    }
}

/// A line reference `:<digits>:` stands in `s` with its colons at `i` and
/// `j`, with at least one digit between them.
pub open spec fn match_at(s: Seq<char>, i: int, j: int) -> bool {
    &&& 0 <= i
    &&& i + 1 < j
    &&& j < s.len()
    &&& s[i] == ':'
    &&& s[j] == ':'
    &&& forall|k: int| i < k < j ==> is_digit(#[trigger] s[k])
}

/// `s` contains a line reference somewhere.
pub open spec fn has_line_ref(s: Seq<char>) -> bool {
    exists|i: int, j: int| match_at(s, i, j)
}

/// The line reference at `(i, j)` is the leftmost one in `s`.
pub open spec fn is_first_ref(s: Seq<char>, i: int, j: int) -> bool {
    &&& match_at(s, i, j)
    &&& forall|i2: int, j2: int| match_at(s, i2, j2) ==> i <= i2
}

/// The position of the first line reference of `s`.
pub open spec fn first_ref(s: Seq<char>) -> (int, int)
    recommends
        has_line_ref(s),
{
    choose|i: int, j: int| is_first_ref(s, i, j)
}

/// There is at most one first line reference.
pub proof fn lemma_first_ref_unique(s: Seq<char>, i1: int, j1: int, i2: int, j2: int)
    requires
        is_first_ref(s, i1, j1),
        is_first_ref(s, i2, j2),
    ensures
        i1 == i2,
        j1 == j2,
{
    assert(i1 == i2);
    if j1 < j2 {
        assert(is_digit(s[j1]));
        assert(false);
    }
    if j2 < j1 {
        assert(is_digit(s[j2]));
        assert(false);
    }
}

fn exec_is_digit(c: char) -> (r: bool)
    ensures
        r == is_digit(c),
{
    let u = c as u32;
    48 <= u && u <= 57
}

/// Finds the leftmost `:<digits>:` line reference, as colon positions.
pub fn find_line_ref(s: &str) -> (r: Option<(usize, usize)>)
    ensures
        match r {
            Some(ij) => is_first_ref(s@, ij.0 as int, ij.1 as int),
            None => !has_line_ref(s@),
        },
{
    let n = s.unicode_len();
    let mut i: usize = 0;
    while i < n
        invariant
            n == s@.len(),
            i <= n,
            forall|i2: int, j2: int| match_at(s@, i2, j2) ==> i2 >= i,
        decreases n - i,
    {
        if s.get_char(i) == ':' {
            let mut j: usize = i + 1;
            loop
                invariant_except_break
                    n == s@.len(),
                    i < n,
                    i + 1 <= j <= n,
                    forall|k: int| i < k < j ==> is_digit(#[trigger] s@[k]),
                ensures
                    n == s@.len(),
                    i + 1 <= j <= n,
                    forall|k: int| i < k < j ==> is_digit(#[trigger] s@[k]),
                    j == n || !is_digit(s@[j as int]),
                decreases n - j,
            {
                if j == n {
                    break ;
                }
                let c = s.get_char(j);
                if !exec_is_digit(c) {
                    break ;
                }
                j += 1;
            }
            let mut found = false;
            if j < n && j > i + 1 {
                if s.get_char(j) == ':' {
                    found = true;
                }
            }
            if found {
                proof {
                    assert(match_at(s@, i as int, j as int));
                }
                return Some((i, j));
            }
            proof {
                assert forall|j2: int| !match_at(s@, i as int, j2) by {
                    if match_at(s@, i as int, j2) {
                        if j2 < j {
                            assert(is_digit(s@[j2]));
                            assert(false);
                        } else if j2 == j {
                            assert(false);
                        } else {
                            assert(i < j < j2);
                            assert(is_digit(s@[j as int]));
                            assert(false);
                        }
                    }
                }
            }
        } else {
            proof {
                assert forall|j2: int| !match_at(s@, i as int, j2) by {}
            }
        }
        i += 1;
    }
    proof {
        assert forall|i2: int, j2: int| !match_at(s@, i2, j2) by {
            if match_at(s@, i2, j2) {
                assert(i2 >= n);
                assert(j2 < n);
                assert(false);
            }
        }
    }
    None
}

/// Reads the decimal digits `s[from..to]` as a number; `None` means the
/// number does not fit in the machine's widest integer.
pub fn parse_decimal(s: &str, from: usize, to: usize) -> (r: Option<u128>)
    requires
        from <= to <= s@.len(),
        forall|k: int| from <= k < to ==> is_digit(#[trigger] s@[k]),
    ensures
        match r {
            Some(v) => v as nat == decimal_value(s@.subrange(from as int, to as int)),
            None => decimal_value(s@.subrange(from as int, to as int)) > u128::MAX,
        },
{
    let mut acc: u128 = 0;
    let mut k: usize = from;
    proof {
        assert(s@.subrange(from as int, from as int) =~= Seq::<char>::empty());
    }
    while k < to
        invariant
            from <= k <= to <= s@.len(),
            forall|k2: int| from <= k2 < to ==> is_digit(#[trigger] s@[k2]),
            acc as nat == decimal_value(s@.subrange(from as int, k as int)),
        decreases to - k,
    {
        let c = s.get_char(k);
        let u = c as u32;
        let d: u128 = (u - 48) as u128;
        let ghost whole = s@.subrange(from as int, to as int);
        let ghost next = s@.subrange(from as int, k as int + 1);
        proof {
            assert(next.drop_last() =~= s@.subrange(from as int, k as int));
            assert(next.last() == s@[k as int]);
            lemma_fundamental_div_mod((u128::MAX - d) as int, 10);
        }
        if acc > (u128::MAX - d) / 10 {
            proof {
                let q = ((u128::MAX - d) / 10) as int;
                assert(acc as int * 10 >= (q + 1) * 10);
                assert(acc as nat * 10 + d > u128::MAX);
                assert(decimal_value(next) > u128::MAX);
                lemma_decimal_prefix_bound(whole, next);
            }
            return None;
        }
        proof {
            let q = ((u128::MAX - d) / 10) as int;
            assert(acc as int * 10 <= q * 10);
            assert(acc as nat * 10 + d <= u128::MAX);
        }
        acc = acc * 10 + d;
        k += 1;
    }
    proof {
        assert(s@.subrange(from as int, k as int) =~= s@.subrange(from as int, to as int));
    }
    Some(acc)
}

/// A digit sequence denotes at least as much as any of its prefixes.
proof fn lemma_decimal_prefix_bound(whole: Seq<char>, prefix: Seq<char>)
    requires
        prefix.len() <= whole.len(),
        forall|k: int| 0 <= k < prefix.len() ==> whole[k] == prefix[k],
    ensures
        decimal_value(whole) >= decimal_value(prefix),
    decreases whole.len(),
{
    if prefix.len() == whole.len() {
        assert(whole =~= prefix);
    } else {
        lemma_decimal_prefix_bound(whole.drop_last(), prefix);
        assert(decimal_value(whole) == decimal_value(whole.drop_last()) * 10 + digit_val(
            whole.last(),
        ));
        assert(decimal_value(whole.drop_last()) * 10 >= decimal_value(whole.drop_last()));
    }
}

fn digit_str(d: usize) -> (r: &'static str)
    requires
        d < 10,
    ensures
        r@ == seq![digit_char(d as nat)],
{
    if d == 0 {
        proof {
            reveal_strlit("0");
            assert("0"@ =~= seq![digit_char(0)]);
        }
        "0"
    } else if d == 1 {
        proof {
            reveal_strlit("1");
            assert("1"@ =~= seq![digit_char(1)]);
        }
        "1"
    } else if d == 2 {
        proof {
            reveal_strlit("2");
            assert("2"@ =~= seq![digit_char(2)]);
        }
        "2"
    } else if d == 3 {
        proof {
            reveal_strlit("3");
            assert("3"@ =~= seq![digit_char(3)]);
        }
        "3"
    } else if d == 4 {
        proof {
            reveal_strlit("4");
            assert("4"@ =~= seq![digit_char(4)]);
        }
        "4"
    } else if d == 5 {
        proof {
            reveal_strlit("5");
            assert("5"@ =~= seq![digit_char(5)]);
        }
        "5"
    } else if d == 6 {
        proof {
            reveal_strlit("6");
            assert("6"@ =~= seq![digit_char(6)]);
        }
        "6"
    } else if d == 7 {
        proof {
            reveal_strlit("7");
            assert("7"@ =~= seq![digit_char(7)]);
        }
        "7"
    } else if d == 8 {
        proof {
            reveal_strlit("8");
            assert("8"@ =~= seq![digit_char(8)]);
        }
        "8"
    } else {
        proof {
            reveal_strlit("9");
            assert("9"@ =~= seq![digit_char(9)]);
        }
        "9"
    }
}

/// Renders `n` in decimal.
pub fn decimal_string(n: usize) -> (r: String)
    ensures
        r@ == decimal_digits(n as nat),
    decreases n,
{
    if n < 10 {
        String::from_str(digit_str(n))
    } else {
        proof {
            lemma_div_decreases(n as int, 10);
        }
        let mut s = decimal_string(n / 10);
        s.append(digit_str(n % 10));
        proof {
            assert(s@ =~= decimal_digits((n as nat) / 10).push(digit_char((n as nat) % 10)));
        }
        s
    }
}

/// How many synthesized lines stand before the lines of the line map: the
/// prepended version pragma shifts every reference by one.
pub open spec fn line_offset(prepended: bool) -> nat {
    if prepended {
        2
    } else {
        1
    }
}

/// The translated diagnostic, if translation is possible: the first line
/// reference's number, cited against the synthesized source, is replaced by
/// the original line index the unit's line map records for it. A diagnostic
/// citing the prepended version pragma itself is kept unchanged; one with no
/// line reference, or whose number falls outside the map, yields `None`.
pub open spec fn spec_translate(diag: Seq<char>, map: Seq<usize>, prepended: bool) -> Option<
    Seq<char>,
> {
    if !has_line_ref(diag) {
        None
    } else {
        let ij = first_ref(diag);
        let cited = decimal_value(diag.subrange(ij.0 + 1, ij.1));
        if prepended && cited == 1 {
            Some(diag)
        } else if cited >= line_offset(prepended) && cited - line_offset(prepended) < map.len() {
            Some(
                diag.subrange(0, ij.0 + 1) + decimal_digits(
                    map[cited - line_offset(prepended)] as nat,
                ) + diag.subrange(ij.1, diag.len() as int),
            )
        } else {
            None
        }
    }
}

/// Translates the first `:<digits>:` line reference of a backend diagnostic
/// from synthesized to original line numbering, exactly as
/// [`spec_translate`] describes.
pub fn translate_diagnostic(diag: &str, line_map: &Vec<usize>, version_prepended: bool) -> (r:
    Option<String>)
    ensures
        match r {
            Some(t) => spec_translate(diag@, line_map@, version_prepended) == Some(t@),
            None => spec_translate(diag@, line_map@, version_prepended) is None,
        },
{
    let n = diag.unicode_len();
    match find_line_ref(diag) {
        None => None,
        Some((i, j)) => {
            proof {
                assert(has_line_ref(diag@));
                let ij = first_ref(diag@);
                assert(is_first_ref(diag@, ij.0, ij.1));
                lemma_first_ref_unique(diag@, i as int, j as int, ij.0, ij.1);
            }
            let cited_opt = parse_decimal(diag, i + 1, j);
            let off: u128 = if version_prepended {
                2
            } else {
                1
            };
            match cited_opt {
                None => {
                    let ml = line_map.len();
                    proof {
                        let cited = decimal_value(diag@.subrange(i as int + 1, j as int));
                        assert(cited > u128::MAX);
                        assert(line_map@.len() == ml);
                        assert(usize::MAX < u128::MAX);
                        assert(cited - line_offset(version_prepended) >= line_map@.len());
                    }
                    None
                },
                Some(v) => {
                    if version_prepended && v == 1 {
                        Some(String::from_str(diag))
                    } else if v >= off && v - off < line_map.len() as u128 {
                        let idx = (v - off) as usize;
                        let orig = line_map[idx];
                        let num = decimal_string(orig);
                        let prefix = diag.substring_char(0, i + 1);
                        let suffix = diag.substring_char(j, n);
                        let mut out = String::from_str(prefix);
                        out.append(num.as_str());
                        out.append(suffix);
                        proof {
                            assert(out@ =~= diag@.subrange(0, i as int + 1) + decimal_digits(
                                line_map@[v as int - off as int] as nat,
                            ) + diag@.subrange(j as int, diag@.len() as int));
                        }
                        Some(out)
                    } else {
                        None
                    }
                },
            }
        },
    }
}

/// Wraps a backend diagnostic as the error reported for a failed unit:
/// translated when the line map covers its reference, a protocol violation
/// carrying the untouched diagnostic otherwise.
pub fn rewrite_backend_error(diag: &str, line_map: &Vec<usize>, version_prepended: bool) -> (r:
    CompilerError)
    ensures
        match spec_translate(diag@, line_map@, version_prepended) {
            Some(t) => r matches CompilerError::Compilation(m) && m@ == t,
            None => r matches CompilerError::BackendProtocolViolation(m) && m@ == diag@,
        },
{
    match translate_diagnostic(diag, line_map, version_prepended) {
        Some(t) => CompilerError::Compilation(t),
        None => CompilerError::BackendProtocolViolation(String::from_str(diag)),
    }
}

} // verus!
