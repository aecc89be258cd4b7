use vstd::prelude::*;

use crate::chars::{chars_to_string, copy_range, str_to_chars};
use crate::ranges::{spec_split, split_chars};
use crate::text::{is_space, space, trim};
use rand::seq::SliceRandom;

verus! {

/// One saying, and the file it came from.
#[derive(Debug)]
pub struct Fortune {
    pub source: String,
    pub text: String,
}

#[verifier::external_type_specification]
#[verifier::external_body]
pub struct ExStdRng(rand::rngs::StdRng);

/// Relies on `rand::SeedableRng::seed_from_u64` for `StdRng`: it yields a
/// generator; nothing is assumed of its stream.
#[verifier::external_body]
fn rng_from_seed(seed: u64) -> rand::rngs::StdRng {
    rand::SeedableRng::seed_from_u64(seed)
}

/// Relies on `rand::SeedableRng::from_entropy` for `StdRng`: it yields a
/// generator; nothing is assumed of its stream.
#[verifier::external_body]
fn rng_from_entropy() -> rand::rngs::StdRng {
    rand::SeedableRng::from_entropy()
}

/// Relies on rand's `SliceRandom::choose`: some element of a nonempty
/// slice, nothing from an empty one.
#[verifier::external_body]
fn choose_fortune<'a>(fortunes: &'a [Fortune], rng: &mut rand::rngs::StdRng) -> (r: Option<
    &'a Fortune,
>)
    ensures
        match r {
            Some(f) => exists|i: int| 0 <= i < fortunes@.len() && *f == fortunes@[i],
            None => fortunes@.len() == 0,
        },
{
    fortunes.choose(rng)
}

/// The sayings a text holds: its `%`-separated segments, each trimmed,
/// with the segments that were a bare newline left out.
pub open spec fn kept_fortunes(segs: Seq<Seq<char>>) -> Seq<Seq<char>>
    decreases segs.len(),
{
    if segs.len() == 0 {
        Seq::<Seq<char>>::empty()
    } else {
        kept_fortunes(segs.drop_last()) + (if segs.last() == seq!['\n'] {
            Seq::<Seq<char>>::empty()
        } else {
            seq![trim(segs.last())]
        })
    }
}

/// The sayings of one file's whole content.
pub open spec fn fortunes_of(s: Seq<char>) -> Seq<Seq<char>> {
    kept_fortunes(spec_split(s, '%'))
}

/// Removes white space from both ends of `seg`.
fn trim_chars(seg: &Vec<char>) -> (r: Vec<char>)
    ensures
        r@ == trim(seg@),
{
    let n = seg.len();
    let mut e = n;
    while e > 0 && space(seg[e - 1])
        invariant
            e <= n,
            n == seg@.len(),
            forall|j: int| e <= j < n ==> is_space(#[trigger] seg@[j]),
        decreases e,
    {
        e = e - 1;
    }
    proof {
        crate::text::lemma_trim_end_at(seg@, e as int);
    }
    let mut b: usize = 0;
    while b < e && space(seg[b])
        invariant
            b <= e <= n,
            n == seg@.len(),
            forall|j: int| 0 <= j < b ==> is_space(#[trigger] seg@[j]),
        decreases e - b,
    {
        b = b + 1;
    }
    proof {
        let cut = seg@.subrange(0, e as int);
        assert(forall|j: int| 0 <= j < b ==> is_space(#[trigger] cut[j]));
        if b < e {
            assert(cut[b as int] == seg@[b as int]);
        }
        crate::text::lemma_trim_start_at(cut, b as int);
        assert(cut.subrange(b as int, cut.len() as int) =~= seg@.subrange(b as int, e as int));
    }
    copy_range(seg, b, e)
}

/// Splits one file's content into its sayings, each carrying the file's
/// name as its source.
pub fn split_fortunes(source: &str, contents: &str) -> (r: Vec<Fortune>)
    ensures
        r@.len() == fortunes_of(contents@).len(),
        forall|i: int|
            0 <= i < r@.len() ==> (#[trigger] r@[i]).text@ == fortunes_of(contents@)[i] && r@[i].source@
                == source@,
{
    let cs = str_to_chars(contents);
    let segs = split_chars(&cs, '%');
    let ghost ts = spec_split(cs@, '%');
    proof {
        assert forall|j: int| 0 <= j < segs@.len() implies #[trigger] segs@[j]@ == ts[j] by {
            crate::chars::lemma_deep_view_chars(segs@[j]);
        }
        assert(ts.len() == segs@.len());
    }
    let m = segs.len();
    let mut out: Vec<Fortune> = Vec::new();
    let mut i: usize = 0;
    while i < m
        invariant
            m == segs@.len(),
            ts == spec_split(cs@, '%'),
            ts.len() == m,
            cs@ == contents@,
            forall|j: int| 0 <= j < m ==> #[trigger] segs@[j]@ == ts[j],
            i <= m,
            out@.len() == kept_fortunes(ts.subrange(0, i as int)).len(),
            forall|j: int|
                0 <= j < out@.len() ==> (#[trigger] out@[j]).text@ == kept_fortunes(
                    ts.subrange(0, i as int),
                )[j] && out@[j].source@ == source@,
        decreases m - i,
    {
        let ghost prefix = ts.subrange(0, i as int);
        proof {
            assert(ts.subrange(0, i + 1).drop_last() =~= prefix);
            assert(ts.subrange(0, i + 1).last() == ts[i as int]);
        }
        let seg = &segs[i];
        let bare_newline = seg.len() == 1 && seg[0] == '\n';
        proof {
            if bare_newline {
                assert(ts[i as int] =~= seq!['\n']);
            } else {
                assert(ts[i as int] != seq!['\n']) by {
                    if ts[i as int] == seq!['\n'] {
                        assert(segs@[i as int]@.len() == 1);
                        assert(segs@[i as int]@[0] == '\n');
                    }
                }
            }
        }
        if !bare_newline {
            let t = trim_chars(seg);
            out.push(Fortune { source: String::from_str(source), text: chars_to_string(&t) });
        }
        i = i + 1;
    }
    proof {
        assert(ts.subrange(0, m as int) =~= ts);
    }
    out
}

/// Picks one saying at random: some saying when any is there, nothing from
/// none.  A seed fixes the generator; without one it is drawn from the
/// machine.
pub fn pick_fortune(fortunes: &[Fortune], seed: Option<u64>) -> (r: Option<String>)
    ensures
        match r {
            Some(t) => exists|i: int| 0 <= i < fortunes@.len() && t@ == (#[trigger] fortunes@[i]).text@,
            None => fortunes@.len() == 0,
        },
{
    let mut rng = match seed {
        Some(s) => rng_from_seed(s),
        None => rng_from_entropy(),
    };
    match choose_fortune(fortunes, &mut rng) {
        Some(f) => Some(f.text.clone()),
        None => None,
    }
}

} // verus!
