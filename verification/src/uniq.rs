use vstd::prelude::*;

use crate::chars::str_to_chars;
use crate::text::{trim_end, trim_end_len};

verus! {

/// The groups remaining when a group led by `cur` with `count` lines so far
/// is open: each following line joins it while its trimmed text matches,
/// and otherwise closes it and opens its own.
pub open spec fn uniq_groups(ls: Seq<Seq<char>>, cur: Seq<char>, count: nat) -> Seq<
    (nat, Seq<char>),
>
    decreases ls.len(),
{
    if ls.len() == 0 {
        seq![(count, cur)]
    } else if trim_end(ls[0]) == trim_end(cur) {
        uniq_groups(ls.subrange(1, ls.len() as int), cur, count + 1)
    } else {
        seq![(count, cur)] + uniq_groups(ls.subrange(1, ls.len() as int), ls[0], 1)
    }
}

/// The runs of consecutive lines whose text matches once trailing white
/// space is ignored: each run's length, and its first line as it was read.
pub open spec fn uniq_spec(ls: Seq<Seq<char>>) -> Seq<(nat, Seq<char>)> {
    if ls.len() == 0 {
        Seq::<(nat, Seq<char>)>::empty()
    } else {
        uniq_groups(ls.subrange(1, ls.len() as int), ls[0], 1)
    }
}

/// The counted groups a vector of pairs stands for.
pub open spec fn counts_model(v: Seq<(usize, String)>) -> Seq<(nat, Seq<char>)> {
    Seq::new(v.len(), |i: int| (v[i].0 as nat, v[i].1@))
}

/// Whether two lines match once trailing white space is ignored.
fn trimmed_eq(a: &str, b: &str) -> (r: bool)
    ensures
        r == (trim_end(a@) == trim_end(b@)),
{
    let av = str_to_chars(a);
    let bv = str_to_chars(b);
    let ea = trim_end_len(&av);
    let eb = trim_end_len(&bv);
    if ea != eb {
        proof {
            assert(trim_end(a@).len() == ea);
            assert(trim_end(b@).len() == eb);
        }
        return false;
    }
    let mut k: usize = 0;
    while k < ea
        invariant
            ea == eb <= av@.len(),
            eb <= bv@.len(),
            av@ == a@,
            bv@ == b@,
            trim_end(a@) == a@.subrange(0, ea as int),
            trim_end(b@) == b@.subrange(0, eb as int),
            k <= ea,
            forall|j: int| 0 <= j < k ==> #[trigger] av@[j] == bv@[j],
        decreases ea - k,
    {
        if av[k] != bv[k] {
            proof {
                assert(trim_end(a@)[k as int] != trim_end(b@)[k as int]);
            }
            return false;
        }
        k = k + 1;
    }
    proof {
        assert(trim_end(a@) =~= trim_end(b@));
    }
    true
}

/// Groups consecutive lines that match once trailing white space is
/// ignored, handing back each group's length and its first line.
pub fn uniq_counts(lines: &Vec<String>) -> (r: Vec<(usize, String)>)
    ensures
        counts_model(r@) == uniq_spec(lines.deep_view()),
{
    let n = lines.len();
    let mut out: Vec<(usize, String)> = Vec::new();
    if n == 0 {
        proof {
            assert(counts_model(out@) =~~= uniq_spec(lines.deep_view()));
        }
        return out;
    }
    let ghost ls = lines.deep_view();
    let mut cur: String = lines[0].clone();
    let mut count: usize = 1;
    let mut i: usize = 1;
    while i < n
        invariant
            n == lines@.len(),
            ls == lines.deep_view(),
            ls.len() == n,
            1 <= i <= n,
            1 <= count <= i,
            counts_model(out@) + uniq_groups(ls.subrange(i as int, n as int), cur@, count as nat)
                =~~= uniq_spec(ls),
        decreases n - i,
    {
        let ghost suffix = ls.subrange(i as int, n as int);
        proof {
            assert(suffix[0] == ls[i as int]);
            assert(ls[i as int] == lines@[i as int]@);
            assert(suffix.subrange(1, suffix.len() as int) =~= ls.subrange(i + 1, n as int));
        }
        if trimmed_eq(lines[i].as_str(), cur.as_str()) {
            count = count + 1;
        } else {
            let ghost prev = counts_model(out@);
            out.push((count, cur));
            proof {
                assert(counts_model(out@) =~~= prev.push((count as nat, cur@)));
            }
            cur = lines[i].clone();
            count = 1;
        }
        i = i + 1;
    }
    let ghost prev = counts_model(out@);
    proof {
        assert(ls.subrange(n as int, n as int) =~= Seq::<Seq<char>>::empty());
    }
    out.push((count, cur));
    proof {
        assert(counts_model(out@) =~~= prev.push((count as nat, cur@)));
        assert(counts_model(out@) =~~= uniq_spec(ls));
    }
    out
}

} // verus!
