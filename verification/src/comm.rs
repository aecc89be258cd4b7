use vstd::prelude::*;

use crate::chars::str_to_chars;

verus! {

/// Lexicographic comparison of two character sequences by code point:
/// negative when `a` comes first, positive when `b` does, zero when equal.
pub open spec fn chars_cmp(a: Seq<char>, b: Seq<char>) -> int
    decreases a.len(),
{
    if a.len() == 0 && b.len() == 0 {
        0
    } else if a.len() == 0 {
        -1
    } else if b.len() == 0 {
        1
    } else if (a[0] as u32) < (b[0] as u32) {
        -1
    } else if (a[0] as u32) > (b[0] as u32) {
        1
    } else {
        chars_cmp(a.subrange(1, a.len() as int), b.subrange(1, b.len() as int))
    }
}

/// Sequences that agree on their first `k` characters compare as their
/// remainders do.
proof fn lemma_chars_cmp_skip(a: Seq<char>, b: Seq<char>, k: int)
    requires
        0 <= k <= a.len(),
        k <= b.len(),
        forall|j: int| 0 <= j < k ==> #[trigger] a[j] == b[j],
    ensures
        chars_cmp(a, b) == chars_cmp(a.subrange(k, a.len() as int), b.subrange(k, b.len() as int)),
    decreases k,
{
    if k == 0 {
        assert(a.subrange(0, a.len() as int) =~= a);
        assert(b.subrange(0, b.len() as int) =~= b);
    } else {
        assert(a[0] == b[0]);
        let at = a.subrange(1, a.len() as int);
        let bt = b.subrange(1, b.len() as int);
        assert(forall|j: int| 0 <= j < k - 1 ==> #[trigger] at[j] == bt[j]);
        lemma_chars_cmp_skip(at, bt, k - 1);
        assert(at.subrange(k - 1, at.len() as int) =~= a.subrange(k, a.len() as int));
        assert(bt.subrange(k - 1, bt.len() as int) =~= b.subrange(k, b.len() as int));
    }
}

/// Compares two lines by code point, as sorted text files are compared.
pub fn str_cmp(a: &str, b: &str) -> (c: i32)
    ensures
        c as int == chars_cmp(a@, b@),
{
    let av = str_to_chars(a);
    let bv = str_to_chars(b);
    let la = av.len();
    let lb = bv.len();
    let min = if la < lb {
        la
    } else {
        lb
    };
    let mut k: usize = 0;
    while k < min && av[k] == bv[k]
        invariant
            la == av@.len(),
            lb == bv@.len(),
            av@ == a@,
            bv@ == b@,
            min == if la < lb {
                la
            } else {
                lb
            },
            k <= min,
            forall|j: int| 0 <= j < k ==> #[trigger] av@[j] == bv@[j],
        decreases min - k,
    {
        k = k + 1;
    }
    proof {
        lemma_chars_cmp_skip(a@, b@, k as int);
    }
    let ghost asub = a@.subrange(k as int, a@.len() as int);
    let ghost bsub = b@.subrange(k as int, b@.len() as int);
    if k == la && k == lb {
        0
    } else if k == la {
        -1
    } else if k == lb {
        1
    } else {
        proof {
            assert(asub[0] == a@[k as int]);
            assert(bsub[0] == b@[k as int]);
        }
        let ca = av[k] as u32;
        let cb = bv[k] as u32;
        proof {
            vstd::utf8::char_u32_cast(a@[k as int], ca);
            vstd::utf8::char_u32_cast(b@[k as int], cb);
            assert(ca != cb);
        }
        if ca < cb {
            -1
        } else {
            1
        }
    }
}

/// The three-column classification of two sorted line sequences: `1` for a
/// line only in the first, `2` for one only in the second, `3` for a line
/// in both, in merge order.
pub open spec fn comm_spec(xs: Seq<Seq<char>>, ys: Seq<Seq<char>>) -> Seq<(u8, Seq<char>)>
    decreases xs.len() + ys.len(),
{
    if xs.len() == 0 && ys.len() == 0 {
        Seq::<(u8, Seq<char>)>::empty()
    } else if ys.len() == 0 {
        seq![(1u8, xs[0])] + comm_spec(xs.subrange(1, xs.len() as int), ys)
    } else if xs.len() == 0 {
        seq![(2u8, ys[0])] + comm_spec(xs, ys.subrange(1, ys.len() as int))
    } else {
        let c = chars_cmp(xs[0], ys[0]);
        if c < 0 {
            seq![(1u8, xs[0])] + comm_spec(xs.subrange(1, xs.len() as int), ys)
        } else if c > 0 {
            seq![(2u8, ys[0])] + comm_spec(xs, ys.subrange(1, ys.len() as int))
        } else {
            seq![(3u8, xs[0])] + comm_spec(
                xs.subrange(1, xs.len() as int),
                ys.subrange(1, ys.len() as int),
            )
        }
    }
}

/// The classified lines a vector of pairs stands for.
pub open spec fn comm_model(v: Seq<(u8, String)>) -> Seq<(u8, Seq<char>)> {
    Seq::new(v.len(), |i: int| (v[i].0, v[i].1@))
}

/// Classifies the lines of two sorted inputs: column `1` for lines only in
/// the first, `2` for lines only in the second, `3` for lines in both.
pub fn comm(lines1: &Vec<String>, lines2: &Vec<String>) -> (r: Vec<(u8, String)>)
    ensures
        comm_model(r@) == comm_spec(lines1.deep_view(), lines2.deep_view()),
{
    let n1 = lines1.len();
    let n2 = lines2.len();
    let ghost xs = lines1.deep_view();
    let ghost ys = lines2.deep_view();
    let mut out: Vec<(u8, String)> = Vec::new();
    let mut i: usize = 0;
    let mut j: usize = 0;
    proof {
        assert(xs.subrange(0, n1 as int) =~= xs);
        assert(ys.subrange(0, n2 as int) =~= ys);
        assert(comm_model(out@) + comm_spec(xs, ys) =~~= comm_spec(xs, ys));
    }
    while i < n1 || j < n2
        invariant
            n1 == lines1@.len(),
            n2 == lines2@.len(),
            xs == lines1.deep_view(),
            ys == lines2.deep_view(),
            xs.len() == n1,
            ys.len() == n2,
            i <= n1,
            j <= n2,
            comm_model(out@) + comm_spec(
                xs.subrange(i as int, n1 as int),
                ys.subrange(j as int, n2 as int),
            ) =~~= comm_spec(xs, ys),
        decreases n1 - i + n2 - j,
    {
        let ghost xsuf = xs.subrange(i as int, n1 as int);
        let ghost ysuf = ys.subrange(j as int, n2 as int);
        proof {
            if i < n1 {
                assert(xsuf[0] == xs[i as int]);
                assert(xs[i as int] == lines1@[i as int]@);
                assert(xsuf.subrange(1, xsuf.len() as int) =~= xs.subrange(i + 1, n1 as int));
            }
            if j < n2 {
                assert(ysuf[0] == ys[j as int]);
                assert(ys[j as int] == lines2@[j as int]@);
                assert(ysuf.subrange(1, ysuf.len() as int) =~= ys.subrange(j + 1, n2 as int));
            }
        }
        let ghost prev = comm_model(out@);
        if j == n2 {
            out.push((1, lines1[i].clone()));
            proof {
                assert(comm_model(out@) =~~= prev.push((1u8, xs[i as int])));
            }
            i = i + 1;
        } else if i == n1 {
            out.push((2, lines2[j].clone()));
            proof {
                assert(comm_model(out@) =~~= prev.push((2u8, ys[j as int])));
            }
            j = j + 1;
        } else {
            let c = str_cmp(lines1[i].as_str(), lines2[j].as_str());
            if c < 0 {
                out.push((1, lines1[i].clone()));
                proof {
                    assert(comm_model(out@) =~~= prev.push((1u8, xs[i as int])));
                }
                i = i + 1;
            } else if c > 0 {
                out.push((2, lines2[j].clone()));
                proof {
                    assert(comm_model(out@) =~~= prev.push((2u8, ys[j as int])));
                }
                j = j + 1;
            } else {
                out.push((3, lines1[i].clone()));
                proof {
                    assert(comm_model(out@) =~~= prev.push((3u8, xs[i as int])));
                }
                i = i + 1;
                j = j + 1;
            }
        }
    }
    proof {
        assert(xs.subrange(n1 as int, n1 as int) =~= Seq::<Seq<char>>::empty());
        assert(ys.subrange(n2 as int, n2 as int) =~= Seq::<Seq<char>>::empty());
    }
    out
}

} // verus!
