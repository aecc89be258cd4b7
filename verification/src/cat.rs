use vstd::prelude::*;

use crate::cal::{push_spaces, spaces};
use crate::chars::{chars_to_string, str_to_chars};
use crate::numfmt::{dec_str, push_dec_chars};

verus! {

/// A counter right-aligned in six characters.
pub open spec fn pad_left6(s: Seq<char>) -> Seq<char> {
    if s.len() >= 6 {
        s
    } else {
        spaces((6 - s.len()) as nat) + s
    }
}

/// The output lines when the next numbered line gets number `next`: a
/// numbered line carries its number right-aligned in six columns and a tab;
/// with `number` every line is numbered, with `nonblank` only the nonempty
/// ones, and any other line passes through unchanged.
pub open spec fn cat_from(ls: Seq<Seq<char>>, number: bool, nonblank: bool, next: nat) -> Seq<
    Seq<char>,
>
    decreases ls.len(),
{
    if ls.len() == 0 {
        Seq::<Seq<char>>::empty()
    } else {
        let numbered = number || (nonblank && ls[0].len() > 0);
        if numbered {
            seq![pad_left6(dec_str(next)) + seq!['\t'] + ls[0]] + cat_from(
                ls.subrange(1, ls.len() as int),
                number,
                nonblank,
                next + 1,
            )
        } else {
            seq![ls[0]] + cat_from(ls.subrange(1, ls.len() as int), number, nonblank, next)
        }
    }
}

/// The output lines, with numbering starting at one.
pub open spec fn cat_spec(ls: Seq<Seq<char>>, number: bool, nonblank: bool) -> Seq<Seq<char>> {
    cat_from(ls, number, nonblank, 1)
}

/// Annotates the lines of one input for printing: numbers every line, or
/// only the nonempty ones, or none, as the two flags say.
pub fn cat_annotate(lines: &Vec<String>, number_lines: bool, number_nonblank: bool) -> (r: Vec<
    String,
>)
    ensures
        r.deep_view() == cat_spec(lines.deep_view(), number_lines, number_nonblank),
{
    let n = lines.len();
    let ghost ls = lines.deep_view();
    let mut out: Vec<String> = Vec::new();
    let mut next: u128 = 1;
    let mut i: usize = 0;
    proof {
        assert(ls.subrange(0, n as int) =~= ls);
    }
    while i < n
        invariant
            n == lines@.len(),
            ls == lines.deep_view(),
            ls.len() == n,
            i <= n,
            1 <= next <= i + 1,
            out.deep_view() + cat_from(
                ls.subrange(i as int, n as int),
                number_lines,
                number_nonblank,
                next as nat,
            ) =~~= cat_spec(ls, number_lines, number_nonblank),
        decreases n - i,
    {
        let ghost suffix = ls.subrange(i as int, n as int);
        proof {
            assert(suffix[0] == ls[i as int]);
            assert(ls[i as int] == lines@[i as int]@);
            assert(suffix.subrange(1, suffix.len() as int) =~= ls.subrange(i + 1, n as int));
        }
        let ghost prev = out.deep_view();
        let line = &lines[i];
        if number_lines || (number_nonblank && !line.as_str().is_empty()) {
            let mut v: Vec<char> = Vec::new();
            let mut digits: Vec<char> = Vec::new();
            let nu = next as usize;
            proof {
                assert(nu as nat == next as nat);
            }
            push_dec_chars(&mut digits, nu);
            let dl = digits.len();
            if dl < 6 {
                push_spaces(&mut v, 6 - dl);
            }
            let mut k: usize = 0;
            let ghost pad = v@;
            while k < dl
                invariant
                    k <= dl,
                    dl == digits@.len(),
                    v@ == pad + digits@.subrange(0, k as int),
                decreases dl - k,
            {
                v.push(digits[k]);
                proof {
                    assert(v@ =~= pad + digits@.subrange(0, k + 1));
                }
                k = k + 1;
            }
            proof {
                assert(digits@.subrange(0, dl as int) =~= digits@);
                assert(v@ =~= pad_left6(dec_str(next as nat)));
            }
            v.push('\t');
            let lv = str_to_chars(line.as_str());
            let mut k2: usize = 0;
            let ghost head = v@;
            while k2 < lv.len()
                invariant
                    k2 <= lv@.len(),
                    lv@ == ls[i as int],
                    v@ == head + lv@.subrange(0, k2 as int),
                decreases lv@.len() - k2,
            {
                v.push(lv[k2]);
                proof {
                    assert(v@ =~= head + lv@.subrange(0, k2 + 1));
                }
                k2 = k2 + 1;
            }
            proof {
                assert(lv@.subrange(0, lv@.len() as int) =~= lv@);
                assert(v@ =~= pad_left6(dec_str(next as nat)) + seq!['\t'] + ls[i as int]);
            }
            out.push(chars_to_string(&v));
            proof {
                assert(out.deep_view() =~~= prev.push(
                    pad_left6(dec_str(next as nat)) + seq!['\t'] + ls[i as int],
                ));
            }
            next = next + 1;
        } else {
            let item = line.clone();
            proof {
                assert(item@ == ls[i as int]);
            }
            out.push(item);
            proof {
                assert(out.deep_view() =~~= prev.push(ls[i as int]));
            }
        }
        i = i + 1;
    }
    proof {
        assert(ls.subrange(n as int, n as int) =~= Seq::<Seq<char>>::empty());
    }
    out
}

} // verus!
