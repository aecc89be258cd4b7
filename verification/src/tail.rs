use vstd::prelude::*;

use crate::chars::str_to_chars;
use crate::numfmt::{all_digits, dec_val, digit_val, is_digit};
use crate::ranges::count_char;
use crate::text::line_count;
use vstd::string::StringSliceAdditionalSpecFns;

verus! {

/// How many units to take, and from which end: `PlusZero` stands for the
/// argument `+0`, and `TakeNum(n)` counts from the start when positive and
/// from the end when negative.
#[derive(Debug, PartialEq, Clone)]
pub enum TakeValue {
    PlusZero,
    TakeNum(i64),
}

/// The count argument is read with a leading `-` supplied when it carries
/// no sign: `num_negative` says whether the value is then negated.
pub open spec fn num_negative(s: Seq<char>) -> bool {
    !(s.len() > 0 && s[0] == '+')
}

/// The digits of the count argument, after any sign.
pub open spec fn num_body(s: Seq<char>) -> Seq<char> {
    if s.len() > 0 && (s[0] == '+' || s[0] == '-') {
        s.subrange(1, s.len() as int)
    } else {
        s
    }
}

/// The largest magnitude the count argument may carry.
pub open spec fn num_limit(s: Seq<char>) -> nat {
    if num_negative(s) {
        (i64::MAX as nat) + 1
    } else {
        i64::MAX as nat
    }
}

/// The count argument denotes a 64-bit value.
pub open spec fn num_ok(s: Seq<char>) -> bool {
    num_body(s).len() > 0 && all_digits(num_body(s)) && dec_val(num_body(s)) <= num_limit(s)
}

/// The value the count argument denotes.
pub open spec fn num_val(s: Seq<char>) -> int {
    if num_negative(s) {
        -(dec_val(num_body(s)) as int)
    } else {
        dec_val(num_body(s)) as int
    }
}

/// What parsing the count argument yields: `+0` is kept apart, any other
/// well-formed value is taken as a number (negated when unsigned), and the
/// argument itself is handed back otherwise.
pub open spec fn spec_parse_num(s: Seq<char>) -> Result<TakeValue, Seq<char>> {
    if s == seq!['+', '0'] {
        Ok(TakeValue::PlusZero)
    } else if num_ok(s) {
        Ok(TakeValue::TakeNum(num_val(s) as i64))
    } else {
        Err(s)
    }
}

/// The value of the digit run between `from` and `to`, or `None` when it
/// exceeds `cap`.
fn digits_value_capped(t: &Vec<char>, from: usize, to: usize, cap: u64) -> (r: Option<u64>)
    requires
        from <= to <= t@.len(),
        all_digits(t@.subrange(from as int, to as int)),
    ensures
        match r {
            Some(v) => v as nat == dec_val(t@.subrange(from as int, to as int)) && v <= cap,
            None => dec_val(t@.subrange(from as int, to as int)) > cap,
        },
{
    let ghost sub = t@.subrange(from as int, to as int);
    proof {
        vstd::arithmetic::div_mod::lemma_fundamental_div_mod(cap as int, 10);
    }
    let mut acc: u64 = 0;
    let mut over: bool = false;
    let mut i = from;
    while i < to
        invariant
            from <= i <= to <= t@.len(),
            sub == t@.subrange(from as int, to as int),
            all_digits(sub),
            !over ==> acc as nat == dec_val(t@.subrange(from as int, i as int)) && acc <= cap,
            over ==> dec_val(t@.subrange(from as int, i as int)) > cap,
        decreases to - i,
    {
        let ghost prefix = t@.subrange(from as int, i as int);
        let ghost prefix2 = t@.subrange(from as int, i + 1);
        proof {
            assert(prefix2 =~= prefix.push(t@[i as int]));
            assert(prefix2.drop_last() =~= prefix);
            assert(sub[i - from] == t@[i as int]);
            assert(is_digit(t@[i as int]));
        }
        let c = t[i];
        let d = (c as u32 - 48) as u64;
        proof {
            assert(dec_val(prefix2) == dec_val(prefix) * 10 + digit_val(t@[i as int]));
            assert(digit_val(t@[i as int]) == d);
        }
        if over {
            proof {
                assert(dec_val(prefix) * 10 >= dec_val(prefix)) by (nonlinear_arith);
                assert(dec_val(prefix2) > cap);
            }
        } else if acc > cap / 10 || (acc == cap / 10 && d > cap % 10) {
            over = true;
            proof {
                if acc > cap / 10 {
                    assert(acc as int * 10 >= (cap as int / 10 + 1) * 10) by (nonlinear_arith)
                        requires
                            acc as int >= cap as int / 10 + 1,
                    ;
                }
                assert(dec_val(prefix2) > cap);
            }
        } else {
            proof {
                if acc < cap / 10 {
                    assert(acc as int * 10 <= (cap as int / 10 - 1) * 10) by (nonlinear_arith)
                        requires
                            acc as int <= cap as int / 10 - 1,
                    ;
                }
                assert(acc as int * 10 + d <= cap as int);
            }
            acc = acc * 10 + d;
        }
        i = i + 1;
    }
    proof {
        assert(t@.subrange(from as int, to as int) == sub);
    }
    if over {
        None
    } else {
        Some(acc)
    }
}

/// Parses the count argument: an unsigned value counts from the end (it is
/// negated), an explicit sign is kept, `+0` stands apart, and anything else
/// is returned as the error, unchanged.
pub fn parse_num(s: &str) -> (r: Result<TakeValue, String>)
    ensures
        match r {
            Ok(tv) => spec_parse_num(s@) == Ok::<TakeValue, Seq<char>>(tv),
            Err(m) => spec_parse_num(s@) == Err::<TakeValue, Seq<char>>(s@) && m@ == s@,
        },
{
    let cs = str_to_chars(s);
    let n = cs.len();
    if n == 2 && cs[0] == '+' && cs[1] == '0' {
        proof {
            assert(s@ =~= seq!['+', '0']);
        }
        return Ok(TakeValue::PlusZero);
    }
    proof {
        assert(s@ != seq!['+', '0']) by {
            if s@ == seq!['+', '0'] {
                assert(cs@.len() == 2);
                assert(cs@[0] == '+' && cs@[1] == '0');
            }
        }
    }
    let explicit_sign = n > 0 && (cs[0] == '+' || cs[0] == '-');
    let neg = !(n > 0 && cs[0] == '+');
    let from: usize = if explicit_sign {
        1
    } else {
        0
    };
    proof {
        assert(num_body(s@) =~= cs@.subrange(from as int, n as int));
        assert(num_negative(s@) == neg);
    }
    if from == n || !crate::ranges::digits_between(&cs, from, n) {
        return Err(String::from_str(s));
    }
    let cap: u64 = if neg {
        9223372036854775808
    } else {
        9223372036854775807
    };
    match digits_value_capped(&cs, from, n, cap) {
        None => Err(String::from_str(s)),
        Some(mag) => {
            let v: i64 = if neg {
                if mag == 9223372036854775808 {
                    i64::MIN
                } else {
                    -(mag as i64)
                }
            } else {
                mag as i64
            };
            proof {
                assert(num_ok(s@));
                assert(v as int == num_val(s@));
            }
            Ok(TakeValue::TakeNum(v))
        },
    }
}

/// The zero-based index the output starts at, if anything is printed: from
/// a `total` of zero nothing comes; `+0` starts at the last unit; a
/// positive count beyond `total` yields nothing, and a negative one
/// saturates to the whole input.
pub open spec fn spec_start_index(tv: TakeValue, total: i64) -> Option<u64> {
    if total == 0 {
        None
    } else {
        match tv {
            TakeValue::PlusZero => Some((total - 1) as u64),
            TakeValue::TakeNum(i) => if i < 0 {
                Some(
                    (if total + i >= 0 {
                        total + i
                    } else {
                        0
                    }) as u64,
                )
            } else if i == 0 {
                None
            } else if i > total {
                None
            } else {
                Some((i - 1) as u64)
            },
        }
    }
}

/// Where printing starts for the given count over `total` units.
pub fn get_start_index(take_val: &TakeValue, total: i64) -> (r: Option<u64>)
    requires
        total >= 0,
    ensures
        r == spec_start_index(*take_val, total),
{
    if total == 0 {
        return None;
    }
    match take_val {
        TakeValue::PlusZero => Some((total as u64) - 1),
        TakeValue::TakeNum(index) => {
            let i = *index;
            if i < 0 {
                let mag: u64 = if i == i64::MIN {
                    9223372036854775808
                } else {
                    (-i) as u64
                };
                let t = total as u64;
                if t >= mag {
                    Some(t - mag)
                } else {
                    Some(0)
                }
            } else if i == 0 {
                None
            } else if i > total {
                None
            } else {
                Some((i - 1) as u64)
            }
        },
    }
}

/// Counts the lines and bytes of one input's whole content.
pub fn count_lines_bytes(content: &str) -> (r: (i64, i64))
    requires
        content.spec_bytes().len() <= usize::MAX,
        content.spec_bytes().len() <= i64::MAX,
    ensures
        r.0 == line_count(content@),
        r.1 == content.spec_bytes().len(),
{
    let cs = str_to_chars(content);
    let n = cs.len();
    proof {
        crate::text::lemma_encode_utf8_len(content@);
    }
    let mut num_newlines: usize = 0;
    let mut i: usize = 0;
    proof {
        assert(cs@.subrange(0, n as int) =~= cs@);
    }
    while i < n
        invariant
            n == cs@.len(),
            cs@ == content@,
            i <= n,
            num_newlines <= i,
            num_newlines + count_char(cs@.subrange(i as int, n as int), '\n') == count_char(
                cs@,
                '\n',
            ),
        decreases n - i,
    {
        let ghost suffix = cs@.subrange(i as int, n as int);
        proof {
            assert(suffix[0] == cs@[i as int]);
            assert(suffix.subrange(1, suffix.len() as int) =~= cs@.subrange(i + 1, n as int));
        }
        if cs[i] == '\n' {
            num_newlines = num_newlines + 1;
        }
        i = i + 1;
    }
    proof {
        assert(cs@.subrange(n as int, n as int) =~= Seq::<char>::empty());
        crate::text::lemma_count_char_le_len(cs@, '\n');
        if n > 0 && cs@.last() != '\n' {
            crate::text::lemma_count_char_last(cs@, '\n');
        }
    }
    let lines: i64 = if n > 0 && cs[n - 1] != '\n' {
        (num_newlines as i64) + 1
    } else {
        num_newlines as i64
    };
    let nbytes = content.len();
    proof {
        assert(nbytes <= i64::MAX);
    }
    (lines, nbytes as i64)
}

} // verus!
