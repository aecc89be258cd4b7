use vstd::prelude::*;

verus! {

#[verifier::external_type_specification]
#[verifier::external_body]
pub struct ExRegex(regex::Regex);

/// Relies on `regex::Regex::is_match`; nothing is assumed of the outcome,
/// and every caller states what holds whichever way it goes.
#[verifier::external_body]
fn regex_is_match(re: &regex::Regex, text: &str) -> bool {
    re.is_match(text)
}

/// The lines kept by a flag per line: those whose flag differs from
/// `invert`, in order.
pub open spec fn selected_lines(lines: Seq<Seq<char>>, keep: Seq<bool>, invert: bool) -> Seq<
    Seq<char>,
>
    decreases lines.len(),
{
    if lines.len() == 0 {
        Seq::<Seq<char>>::empty()
    } else {
        selected_lines(lines.drop_last(), keep.drop_last(), invert) + (if keep.last() != invert {
            seq![lines.last()]
        } else {
            Seq::<Seq<char>>::empty()
        })
    }
}

/// Keeps exactly the lines whose flag differs from `invert`, in order.
pub fn select_lines(lines: &Vec<String>, keep: &Vec<bool>, invert: bool) -> (r: Vec<String>)
    requires
        keep@.len() == lines@.len(),
    ensures
        r.deep_view() == selected_lines(lines.deep_view(), keep@, invert),
{
    let mut r: Vec<String> = Vec::new();
    let n = lines.len();
    let mut i: usize = 0;
    while i < n
        invariant
            n == lines@.len(),
            keep@.len() == n,
            i <= n,
            r.deep_view() == selected_lines(
                lines.deep_view().subrange(0, i as int),
                keep@.subrange(0, i as int),
                invert,
            ),
        decreases n - i,
    {
        proof {
            assert(lines.deep_view().subrange(0, i + 1).drop_last() =~= lines.deep_view().subrange(
                0,
                i as int,
            ));
            assert(keep@.subrange(0, i + 1).drop_last() =~= keep@.subrange(0, i as int));
            assert(lines.deep_view().subrange(0, i + 1).last() == lines.deep_view()[i as int]);
        }
        if keep[i] != invert {
            let ghost prev = r.deep_view();
            let item = lines[i].clone();
            proof {
                assert(item@ == lines@[i as int]@);
            }
            r.push(item);
            proof {
                assert(r.deep_view() =~~= prev.push(lines@[i as int]@));
                assert(lines.deep_view()[i as int] == lines@[i as int]@);
                assert(r.deep_view() =~~= selected_lines(
                    lines.deep_view().subrange(0, i + 1),
                    keep@.subrange(0, i + 1),
                    invert,
                ));
            }
        } else {
            proof {
                assert(r.deep_view() =~~= selected_lines(
                    lines.deep_view().subrange(0, i + 1),
                    keep@.subrange(0, i + 1),
                    invert,
                ));
            }
        }
        i = i + 1;
    }
    proof {
        assert(lines.deep_view().subrange(0, n as int) =~= lines.deep_view());
        assert(keep@.subrange(0, n as int) =~= keep@);
    }
    r
}

/// Keeps the lines the pattern matches, or with `invert_match` those it
/// does not: whatever the matcher answers per line, the result is exactly
/// the lines selected by those answers, in order.
pub fn find_lines(lines: &Vec<String>, pattern: &regex::Regex, invert_match: bool) -> (r: Vec<
    String,
>)
    ensures
        exists|keep: Seq<bool>|
            keep.len() == lines@.len() && r.deep_view() == selected_lines(
                lines.deep_view(),
                keep,
                invert_match,
            ),
{
    let mut keep: Vec<bool> = Vec::new();
    let n = lines.len();
    let mut i: usize = 0;
    while i < n
        invariant
            n == lines@.len(),
            keep@.len() == i,
            i <= n,
        decreases n - i,
    {
        keep.push(regex_is_match(pattern, lines[i].as_str()));
        i = i + 1;
    }
    let r = select_lines(lines, &keep, invert_match);
    proof {
        assert(keep@.len() == lines@.len() && r.deep_view() == selected_lines(
            lines.deep_view(),
            keep@,
            invert_match,
        ));
    }
    r
}

} // verus!
