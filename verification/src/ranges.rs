use vstd::prelude::*;

use crate::chars::{chars_to_string, copy_range, str_to_chars};
use crate::numfmt::{all_digits, dec_str, dec_val, digit_val, is_digit};
use core::ops::Range;

verus! {

// ---------------------------------------------------------------------------
// Splitting a character sequence on a separator.
// ---------------------------------------------------------------------------

/// The segments of `s` between occurrences of `sep`, in order.  There is
/// always at least one segment; a leading, trailing or doubled separator
/// yields an empty segment.
pub open spec fn spec_split(s: Seq<char>, sep: char) -> Seq<Seq<char>>
    decreases s.len(),
{
    if s.len() == 0 {
        seq![Seq::<char>::empty()]
    } else if s[0] == sep {
        seq![Seq::<char>::empty()] + spec_split(s.subrange(1, s.len() as int), sep)
    } else {
        let r = spec_split(s.subrange(1, s.len() as int), sep);
        r.update(0, seq![s[0]] + r[0])
    }
}

/// The number of occurrences of `sep` in `s`.
pub open spec fn count_char(s: Seq<char>, sep: char) -> nat
    decreases s.len(),
{
    if s.len() == 0 {
        0
    } else {
        (if s[0] == sep {
            1nat
        } else {
            0nat
        }) + count_char(s.subrange(1, s.len() as int), sep)
    }
}

/// `s` holds no occurrence of `sep`.
pub open spec fn no_char(s: Seq<char>, sep: char) -> bool {
    forall|i: int| 0 <= i < s.len() ==> #[trigger] s[i] != sep
}

/// Splitting yields one segment more than there are separators.
pub proof fn lemma_split_count(s: Seq<char>, sep: char)
    ensures
        spec_split(s, sep).len() == count_char(s, sep) + 1,
    decreases s.len(),
{
    if s.len() > 0 {
        lemma_split_count(s.subrange(1, s.len() as int), sep);
    }
}

/// A sequence without the separator splits into itself alone.
pub proof fn lemma_split_whole(s: Seq<char>, sep: char)
    requires
        no_char(s, sep),
    ensures
        spec_split(s, sep) == seq![s],
    decreases s.len(),
{
    if s.len() == 0 {
        assert(spec_split(s, sep) =~~= seq![s]);
    } else {
        let t = s.subrange(1, s.len() as int);
        lemma_split_whole(t, sep);
        assert(s[0] != sep);
        assert(spec_split(s, sep) =~~= seq![s]) by {
            assert(seq![s[0]] + t =~= s);
        }
    }
}

/// A separator after a clean segment starts the remaining segments afresh.
pub proof fn lemma_split_prepend(seg: Seq<char>, sep: char, rest: Seq<char>)
    requires
        no_char(seg, sep),
    ensures
        spec_split(seg + seq![sep] + rest, sep) == seq![seg] + spec_split(rest, sep),
    decreases seg.len(),
{
    let s = seg + seq![sep] + rest;
    if seg.len() == 0 {
        assert(s[0] == sep);
        assert(s.subrange(1, s.len() as int) =~= rest);
        assert(spec_split(s, sep) =~~= seq![seg] + spec_split(rest, sep));
    } else {
        let segtail = seg.subrange(1, seg.len() as int);
        lemma_split_prepend(segtail, sep, rest);
        assert(s[0] == seg[0]);
        assert(s[0] != sep);
        assert(s.subrange(1, s.len() as int) =~= segtail + seq![sep] + rest);
        let r = spec_split(segtail + seq![sep] + rest, sep);
        assert(r == seq![segtail] + spec_split(rest, sep));
        assert(r[0] == segtail);
        assert(spec_split(s, sep) == r.update(0, seq![s[0]] + segtail));
        assert(seq![s[0]] + segtail =~= seg);
        assert(spec_split(s, sep) =~~= seq![seg] + spec_split(rest, sep));
    }
}

/// Splits the characters of `cs` from `from` onward on `sep`.
fn split_chars_from(cs: &Vec<char>, sep: char, from: usize) -> (r: Vec<Vec<char>>)
    requires
        from <= cs@.len(),
    ensures
        r.deep_view() == spec_split(cs@.subrange(from as int, cs@.len() as int), sep),
    decreases cs@.len() - from,
{
    let n = cs.len();
    let mut j = from;
    while j < n && cs[j] != sep
        invariant
            from <= j <= n,
            n == cs@.len(),
            no_char(cs@.subrange(from as int, j as int), sep),
        decreases n - j,
    {
        proof {
            assert(cs@.subrange(from as int, j + 1) =~= cs@.subrange(from as int, j as int).push(
                cs@[j as int],
            ));
        }
        j = j + 1;
    }
    let mut seg: Vec<char> = Vec::new();
    let mut k = from;
    while k < j
        invariant
            from <= k <= j <= n,
            n == cs@.len(),
            seg@ == cs@.subrange(from as int, k as int),
        decreases j - k,
    {
        seg.push(cs[k]);
        proof {
            assert(seg@ =~= cs@.subrange(from as int, k + 1));
        }
        k = k + 1;
    }
    let ghost whole = cs@.subrange(from as int, n as int);
    if j == n {
        let r: Vec<Vec<char>> = vec![seg];
        proof {
            lemma_split_whole(whole, sep);
            assert(r.deep_view() =~~= spec_split(whole, sep));
        }
        r
    } else {
        let mut r: Vec<Vec<char>> = Vec::new();
        r.push(seg);
        let mut rest = split_chars_from(cs, sep, j + 1);
        r.append(&mut rest);
        proof {
            let segv = cs@.subrange(from as int, j as int);
            let restv = cs@.subrange(j + 1, n as int);
            assert(whole =~= segv + seq![sep] + restv) by {
                assert(cs@[j as int] == sep);
            }
            lemma_split_prepend(segv, sep, restv);
            assert(r.deep_view() =~~= seq![segv] + spec_split(restv, sep));
        }
        r
    }
}

/// Splits `cs` on `sep` into its segments.
pub fn split_chars(cs: &Vec<char>, sep: char) -> (r: Vec<Vec<char>>)
    ensures
        r.deep_view() == spec_split(cs@, sep),
{
    let r = split_chars_from(cs, sep, 0);
    proof {
        assert(cs@.subrange(0, cs@.len() as int) =~= cs@);
    }
    r
}

// ---------------------------------------------------------------------------
// The model of one term and of a whole specification string.
// ---------------------------------------------------------------------------

/// What parsing a range specification can report instead of a range list.
pub enum ParseErrorModel {
    /// The specification string was empty.
    Empty,
    /// A term, or one of its bounds, was not a positive number; `raw` is the
    /// cited text.
    Malformed { raw: Seq<char> },
    /// A two-bound term whose first one-based bound was not lower than its
    /// second.
    Order { first: usize, second: usize },
}

/// A nonempty run of digits denoting a positive value that fits a `usize`.
pub open spec fn valid_bound(t: Seq<char>) -> bool {
    t.len() > 0 && all_digits(t) && 1 <= dec_val(t) <= usize::MAX
}

/// Position `i` carries the dash of a `digits-digits` term.
pub open spec fn dash_at(t: Seq<char>, i: int) -> bool {
    &&& 1 <= i < t.len() - 1
    &&& t[i] == '-'
    &&& all_digits(t.subrange(0, i))
    &&& all_digits(t.subrange(i + 1, t.len() as int))
}

/// The term has the two-bound shape `digits-digits`.
pub open spec fn is_dash_term(t: Seq<char>) -> bool {
    exists|i: int| dash_at(t, i)
}

/// The dash position of a two-bound term.
pub open spec fn dash_pos(t: Seq<char>) -> int {
    choose|i: int| dash_at(t, i)
}

/// The dash of a two-bound term stands in only one place: everything else
/// is a digit.
pub proof fn lemma_dash_at_unique(t: Seq<char>, i: int, j: int)
    requires
        dash_at(t, i),
        dash_at(t, j),
    ensures
        i == j,
{
    if i < j {
        assert(is_digit(t.subrange(i + 1, t.len() as int)[j - i - 1]));
    } else if j < i {
        assert(is_digit(t.subrange(j + 1, t.len() as int)[i - j - 1]));
    }
}

/// The range a one-based bound pair stands for: `[first - 1, second)`.
pub open spec fn bounds_range(first: usize, second: usize) -> Range<usize> {
    Range { start: (first - 1) as usize, end: second }
}

/// What one term of a specification string means: a single bound `N` selects
/// `[N-1, N)`; a pair `N-M` with `N < M` selects `[N-1, M)`; anything else is
/// an error citing the term or the failing bound.
pub open spec fn parse_term(t: Seq<char>) -> Result<Range<usize>, ParseErrorModel> {
    if valid_bound(t) {
        Ok(bounds_range(dec_val(t) as usize, dec_val(t) as usize))
    } else if is_dash_term(t) {
        let i = dash_pos(t);
        let a = t.subrange(0, i);
        let b = t.subrange(i + 1, t.len() as int);
        if !(1 <= dec_val(a) <= usize::MAX) {
            Err(ParseErrorModel::Malformed { raw: a })
        } else if !(1 <= dec_val(b) <= usize::MAX) {
            Err(ParseErrorModel::Malformed { raw: b })
        } else if dec_val(b) <= dec_val(a) {
            Err(
                ParseErrorModel::Order {
                    first: dec_val(a) as usize,
                    second: dec_val(b) as usize,
                },
            )
        } else {
            Ok(bounds_range(dec_val(a) as usize, dec_val(b) as usize))
        }
    } else {
        Err(ParseErrorModel::Malformed { raw: t })
    }
}

/// The meaning of a sequence of terms: their ranges in order, or the first
/// error.
pub open spec fn parse_terms(ts: Seq<Seq<char>>) -> Result<
    Seq<Range<usize>>,
    ParseErrorModel,
>
    decreases ts.len(),
{
    if ts.len() == 0 {
        Ok(Seq::<Range<usize>>::empty())
    } else {
        match parse_term(ts[0]) {
            Err(e) => Err(e),
            Ok(r) => match parse_terms(ts.subrange(1, ts.len() as int)) {
                Err(e) => Err(e),
                Ok(rest) => Ok(seq![r] + rest),
            },
        }
    }
}

/// The meaning of a whole specification string.
pub open spec fn parse_spec(s: Seq<char>) -> Result<Seq<Range<usize>>, ParseErrorModel> {
    if s.len() == 0 {
        Err(ParseErrorModel::Empty)
    } else {
        parse_terms(spec_split(s, ','))
    }
}

/// When every term up to `k` parses and term `k` fails, the whole sequence
/// fails with term `k`'s error.
proof fn lemma_parse_terms_err(ts: Seq<Seq<char>>, k: int)
    requires
        0 <= k < ts.len(),
        forall|j: int| 0 <= j < k ==> (#[trigger] parse_term(ts[j])) is Ok,
        parse_term(ts[k]) is Err,
    ensures
        parse_terms(ts) == Err::<Seq<Range<usize>>, ParseErrorModel>(
            parse_term(ts[k])->Err_0,
        ),
    decreases ts.len(),
{
    if k == 0 {
    } else {
        let tail = ts.subrange(1, ts.len() as int);
        assert(forall|j: int| 0 <= j < k - 1 ==> ts[j + 1] == #[trigger] tail[j]);
        lemma_parse_terms_err(tail, k - 1);
    }
}

// ---------------------------------------------------------------------------
// The executable parser.
// ---------------------------------------------------------------------------

/// Why a range specification string was rejected.
#[derive(Debug, PartialEq, Eq)]
pub enum ParseError {
    /// The specification string was empty.
    EmptySpec,
    /// A term, or one of its bounds, was not a positive number; `raw` is the
    /// cited text.
    MalformedTerm { raw: String },
    /// A two-bound term whose first one-based bound was not lower than its
    /// second.
    InvalidOrder { first: usize, second: usize },
}

impl View for ParseError {
    type V = ParseErrorModel;

    open spec fn view(&self) -> ParseErrorModel {
        match self {
            ParseError::EmptySpec => ParseErrorModel::Empty,
            ParseError::MalformedTerm { raw } => ParseErrorModel::Malformed { raw: raw@ },
            ParseError::InvalidOrder { first, second } => ParseErrorModel::Order {
                first: *first,
                second: *second,
            },
        }
    }
}

/// Whether `c` is a decimal digit.
fn digit(c: char) -> (b: bool)
    ensures
        b == is_digit(c),
{
    let u = c as u32;
    48 <= u && u <= 57
}

/// Whether the characters of `t` between `from` and `to` are all digits.
pub(crate) fn digits_between(t: &Vec<char>, from: usize, to: usize) -> (b: bool)
    requires
        from <= to <= t@.len(),
    ensures
        b == all_digits(t@.subrange(from as int, to as int)),
{
    let ghost sub = t@.subrange(from as int, to as int);
    let mut i = from;
    while i < to
        invariant
            from <= i <= to <= t@.len(),
            sub == t@.subrange(from as int, to as int),
            forall|j: int| from <= j < i ==> is_digit(#[trigger] t@[j]),
        decreases to - i,
    {
        if !digit(t[i]) {
            proof {
                assert(sub[i - from] == t@[i as int]);
            }
            return false;
        }
        i = i + 1;
    }
    proof {
        assert forall|k: int| 0 <= k < sub.len() implies is_digit(#[trigger] sub[k]) by {
            assert(sub[k] == t@[from + k]);
        }
    }
    true
}

/// The value of the digit run between `from` and `to`, or `None` when it
/// does not fit a `usize`.
fn digits_value(t: &Vec<char>, from: usize, to: usize) -> (r: Option<usize>)
    requires
        from <= to <= t@.len(),
        all_digits(t@.subrange(from as int, to as int)),
    ensures
        match r {
            Some(v) => v as nat == dec_val(t@.subrange(from as int, to as int)),
            None => dec_val(t@.subrange(from as int, to as int)) > usize::MAX,
        },
{
    let ghost sub = t@.subrange(from as int, to as int);
    proof {
        vstd::arithmetic::div_mod::lemma_fundamental_div_mod(usize::MAX as int, 10);
    }
    let mut acc: usize = 0;
    let mut over: bool = false;
    let mut i = from;
    while i < to
        invariant
            from <= i <= to <= t@.len(),
            sub == t@.subrange(from as int, to as int),
            all_digits(sub),
            !over ==> acc as nat == dec_val(t@.subrange(from as int, i as int)),
            over ==> dec_val(t@.subrange(from as int, i as int)) > usize::MAX,
        decreases to - i,
    {
        let ghost prefix = t@.subrange(from as int, i as int);
        let ghost prefix2 = t@.subrange(from as int, i + 1);
        proof {
            assert(prefix2 =~= prefix.push(t@[i as int]));
            assert(prefix2.drop_last() =~= prefix);
            assert(sub[i - from] == t@[i as int]);
            assert(is_digit(t@[i as int]));
        }
        let c = t[i];
        let d = (c as u32 - 48) as usize;
        proof {
            assert(dec_val(prefix2) == dec_val(prefix) * 10 + digit_val(t@[i as int]));
            assert(digit_val(t@[i as int]) == d);
        }
        if over {
            proof {
                assert(dec_val(prefix) * 10 >= dec_val(prefix)) by (nonlinear_arith);
                assert(dec_val(prefix2) > usize::MAX);
            }
        } else if acc > usize::MAX / 10 || (acc == usize::MAX / 10 && d > usize::MAX % 10) {
            over = true;
            proof {
                if acc > usize::MAX / 10 {
                    assert(acc as int * 10 >= (usize::MAX as int / 10 + 1) * 10)
                        by (nonlinear_arith)
                        requires
                            acc as int >= usize::MAX as int / 10 + 1,
                    ;
                }
                assert(dec_val(prefix2) > usize::MAX);
            }
        } else {
            proof {
                if acc < usize::MAX / 10 {
                    assert(acc as int * 10 <= (usize::MAX as int / 10 - 1) * 10)
                        by (nonlinear_arith)
                        requires
                            acc as int <= usize::MAX as int / 10 - 1,
                    ;
                }
                assert(acc as int * 10 + d <= usize::MAX as int);
            }
            acc = acc * 10 + d;
        }
        i = i + 1;
    }
    proof {
        assert(t@.subrange(from as int, to as int) == sub);
    }
    if over {
        None
    } else {
        Some(acc)
    }
}

/// Parses one term of a specification string.
fn parse_term_chars(t: &Vec<char>) -> (r: Result<Range<usize>, ParseError>)
    ensures
        match r {
            Ok(rg) => parse_term(t@) == Ok::<Range<usize>, ParseErrorModel>(rg),
            Err(e) => parse_term(t@) == Err::<Range<usize>, ParseErrorModel>(e@),
        },
{
    let n = t.len();
    proof {
        assert(t@.subrange(0, n as int) =~= t@);
    }
    if n > 0 && digits_between(t, 0, n) {
        proof {
            assert forall|i: int| !dash_at(t@, i) by {
                if 1 <= i < t@.len() - 1 {
                    assert(is_digit(t@[i]));
                }
            }
        }
        match digits_value(t, 0, n) {
            Some(v) => {
                if v >= 1 {
                    return Ok(v - 1..v);
                }
            },
            None => {},
        }
        Err(ParseError::MalformedTerm { raw: chars_to_string(t) })
    } else {
        // Find the first dash, if any.
        let mut fi: usize = 0;
        while fi < n && t[fi] != '-'
            invariant
                fi <= n,
                n == t@.len(),
                forall|j: int| 0 <= j < fi ==> t@[j] != '-',
            decreases n - fi,
        {
            fi = fi + 1;
        }
        if fi == n {
            proof {
                assert forall|i: int| !dash_at(t@, i) by {
                    if 1 <= i < t@.len() - 1 {
                        assert(t@[i] != '-');
                    }
                }
            }
            return Err(ParseError::MalformedTerm { raw: chars_to_string(t) });
        }
        // A dash at `fi`, and none earlier.
        let left_ok = fi >= 1 && digits_between(t, 0, fi);
        let right_ok = fi + 1 < n && digits_between(t, fi + 1, n);
        if !(left_ok && right_ok) {
            proof {
                assert(!dash_at(t@, fi as int));
                assert forall|i: int| !dash_at(t@, i) by {
                    if dash_at(t@, i) {
                        if i < fi {
                            assert(t@[i] == '-');
                        } else if i > fi {
                            assert(is_digit(t@.subrange(0, i)[fi as int]));
                            assert(is_digit(t@[fi as int]));
                        }
                    }
                }
            }
            return Err(ParseError::MalformedTerm { raw: chars_to_string(t) });
        }
        proof {
            assert(dash_at(t@, fi as int));
            lemma_dash_at_unique(t@, fi as int, dash_pos(t@));
            assert(dash_pos(t@) == fi as int);
            assert(!all_digits(t@)) by {
                assert(t@[fi as int] == '-');
                assert(!is_digit(t@[fi as int]));
            }
        }
        let ghost a = t@.subrange(0, fi as int);
        let ghost b = t@.subrange(fi + 1, t@.len() as int);
        let av = match digits_value(t, 0, fi) {
            Some(v) => {
                if v >= 1 {
                    v
                } else {
                    return Err(ParseError::MalformedTerm { raw: chars_to_string(&copy_range(t, 0, fi)) });
                }
            },
            None => {
                return Err(ParseError::MalformedTerm { raw: chars_to_string(&copy_range(t, 0, fi)) });
            },
        };
        let bv = match digits_value(t, fi + 1, n) {
            Some(v) => {
                if v >= 1 {
                    v
                } else {
                    return Err(
                        ParseError::MalformedTerm { raw: chars_to_string(&copy_range(t, fi + 1, n)) },
                    );
                }
            },
            None => {
                return Err(
                    ParseError::MalformedTerm { raw: chars_to_string(&copy_range(t, fi + 1, n)) },
                );
            },
        };
        if bv <= av {
            return Err(ParseError::InvalidOrder { first: av, second: bv });
        }
        Ok(av - 1..bv)
    }
}

/// Parses a range specification string such as `1,7,3-5` into the list of
/// half-open zero-based ranges its terms stand for, in term order.  Exactly
/// the strings `parse_spec` accepts are accepted, with its ranges; exactly
/// the strings it rejects are rejected, with its error.
pub fn parse_pos(range: &str) -> (r: Result<Vec<Range<usize>>, ParseError>)
    ensures
        match r {
            Ok(v) => parse_spec(range@) == Ok::<Seq<Range<usize>>, ParseErrorModel>(v@),
            Err(e) => parse_spec(range@) == Err::<Seq<Range<usize>>, ParseErrorModel>(e@),
        },
{
    let cs = str_to_chars(range);
    if cs.len() == 0 {
        return Err(ParseError::EmptySpec);
    }
    let terms = split_chars(&cs, ',');
    let ghost ts = spec_split(cs@, ',');
    proof {
        assert forall|j: int| 0 <= j < terms@.len() implies terms@[j]@ == terms.deep_view()[j] by {
            crate::chars::lemma_deep_view_chars(terms@[j]);
        }
        assert(ts.len() == terms@.len());
    }
    let m = terms.len();
    let mut out: Vec<Range<usize>> = Vec::new();
    let mut i: usize = 0;
    while i < m
        invariant
            m == terms@.len(),
            ts == spec_split(cs@, ','),
            ts.len() == m,
            cs@ == range@,
            range@.len() > 0,
            forall|j: int| 0 <= j < m ==> #[trigger] terms@[j]@ == ts[j],
            i <= m,
            out@.len() == i,
            forall|j: int| 0 <= j < i ==> (#[trigger] parse_term(ts[j])) is Ok,
            forall|j: int| 0 <= j < i ==> #[trigger] out@[j] == parse_term(ts[j])->Ok_0,
        decreases m - i,
    {
        match parse_term_chars(&terms[i]) {
            Ok(rg) => {
                out.push(rg);
            },
            Err(e) => {
                proof {
                    lemma_parse_terms_err(ts, i as int);
                }
                return Err(e);
            },
        }
        i = i + 1;
    }
    proof {
        lemma_parse_terms_ok(ts);
        assert(out@ =~= Seq::new(ts.len(), |j: int| parse_term(ts[j])->Ok_0));
    }
    Ok(out)
}

/// When every term parses, the whole sequence parses to the ranges in order.
proof fn lemma_parse_terms_ok(ts: Seq<Seq<char>>)
    requires
        forall|j: int| 0 <= j < ts.len() ==> (#[trigger] parse_term(ts[j])) is Ok,
    ensures
        parse_terms(ts) is Ok,
        parse_terms(ts)->Ok_0 == Seq::new(ts.len(), |j: int| parse_term(ts[j])->Ok_0),
    decreases ts.len(),
{
    if ts.len() > 0 {
        let tail = ts.subrange(1, ts.len() as int);
        assert(forall|j: int| 0 <= j < tail.len() ==> ts[j + 1] == #[trigger] tail[j]);
        lemma_parse_terms_ok(tail);
        assert(parse_terms(ts)->Ok_0 =~= Seq::new(
            ts.len(),
            |j: int| parse_term(ts[j])->Ok_0,
        ));
    }
}

// ---------------------------------------------------------------------------
// Error messages.
// ---------------------------------------------------------------------------

/// The exact message for each parse error.
pub open spec fn spec_message(e: ParseErrorModel) -> Seq<char> {
    match e {
        ParseErrorModel::Empty => "empty range"@,
        ParseErrorModel::Malformed { raw } => "illegal list value: \""@ + raw + "\""@,
        ParseErrorModel::Order { first, second } => "First number in range ("@ + dec_str(
            first as nat,
        ) + ") must be lower than second number ("@ + dec_str(second as nat) + ")"@,
    }
}

impl ParseError {
    /// Renders the error exactly as `spec_message` states it.
    pub fn message(&self) -> (s: String)
        ensures
            s@ == spec_message(self@),
    {
        match self {
            ParseError::EmptySpec => String::from_str("empty range"),
            ParseError::MalformedTerm { raw } => {
                let mut s = String::from_str("illegal list value: \"");
                s.append(raw.as_str());
                s.append("\"");
                s
            },
            ParseError::InvalidOrder { first, second } => {
                let mut s = String::from_str("First number in range (");
                let f = crate::numfmt::dec_string(*first);
                s.append(f.as_str());
                s.append(") must be lower than second number (");
                let g = crate::numfmt::dec_string(*second);
                s.append(g.as_str());
                s.append(")");
                s
            },
        }
    }
}

// ---------------------------------------------------------------------------
// The canonical rendering of a range list, and the laws it obeys.
// ---------------------------------------------------------------------------

/// Every range of `rs` is well formed: a nonempty half-open interval.
pub open spec fn ranges_wf(rs: Seq<Range<usize>>) -> bool {
    forall|i: int| 0 <= i < rs.len() ==> (#[trigger] rs[i]).start < rs[i].end
}

/// The canonical decimal rendering of one range over its one-based bounds:
/// `N` for `[N-1, N)`, and `N-M` for `[N-1, M)` otherwise.
pub open spec fn render_term(r: Range<usize>) -> Seq<char> {
    if r.end == r.start + 1 {
        dec_str((r.start + 1) as nat)
    } else {
        dec_str((r.start + 1) as nat) + seq!['-'] + dec_str(r.end as nat)
    }
}

/// The canonical rendering of a range list: its terms joined with commas.
pub open spec fn render_list(rs: Seq<Range<usize>>) -> Seq<char>
    decreases rs.len(),
{
    if rs.len() == 0 {
        Seq::<char>::empty()
    } else if rs.len() == 1 {
        render_term(rs[0])
    } else {
        render_term(rs[0]) + seq![','] + render_list(rs.subrange(1, rs.len() as int))
    }
}

/// A rendered term holds digits and dashes only, never a comma.
proof fn lemma_render_term_chars(r: Range<usize>)
    ensures
        no_char(render_term(r), ','),
        render_term(r).len() >= 1,
{
    crate::numfmt::lemma_dec_str_wf((r.start + 1) as nat);
    crate::numfmt::lemma_dec_str_wf(r.end as nat);
    let a = dec_str((r.start + 1) as nat);
    let b = dec_str(r.end as nat);
    if r.end == r.start + 1 {
        assert forall|i: int| 0 <= i < render_term(r).len() implies #[trigger] render_term(
            r,
        )[i] != ',' by {
            assert(is_digit(a[i]));
        }
    } else {
        assert forall|i: int| 0 <= i < render_term(r).len() implies #[trigger] render_term(
            r,
        )[i] != ',' by {
            if i < a.len() {
                assert(is_digit(a[i]));
            } else if i > a.len() {
                assert(render_term(r)[i] == b[i - a.len() - 1]);
                assert(is_digit(b[i - a.len() - 1]));
            }
        }
    }
}

/// A rendered term parses back to its range.
proof fn lemma_parse_render_term(r: Range<usize>)
    requires
        r.start < r.end,
    ensures
        parse_term(render_term(r)) == Ok::<Range<usize>, ParseErrorModel>(r),
{
    let a = dec_str((r.start + 1) as nat);
    let b = dec_str(r.end as nat);
    crate::numfmt::lemma_dec_str_wf((r.start + 1) as nat);
    crate::numfmt::lemma_dec_str_wf(r.end as nat);
    crate::numfmt::lemma_dec_val_dec_str((r.start + 1) as nat);
    crate::numfmt::lemma_dec_val_dec_str(r.end as nat);
    if r.end == r.start + 1 {
        let t = render_term(r);
        assert(valid_bound(t));
        assert(bounds_range(dec_val(t) as usize, dec_val(t) as usize) == r);
    } else {
        let t = render_term(r);
        let i = a.len() as int;
        assert(t[i] == '-');
        assert(!is_digit(t[i]));
        assert(!valid_bound(t));
        assert(t.subrange(0, i) =~= a);
        assert(t.subrange(i + 1, t.len() as int) =~= b);
        assert(dash_at(t, i));
        lemma_dash_at_unique(t, i, dash_pos(t));
        assert(dash_pos(t) == i);
        assert(dec_val(a) == r.start + 1);
        assert(dec_val(b) == r.end);
        assert(r.end > r.start + 1);
        assert(bounds_range((r.start + 1) as usize, r.end) == r);
    }
}

/// Splitting a rendered list on commas recovers the rendered terms.
proof fn lemma_split_render(rs: Seq<Range<usize>>)
    requires
        rs.len() >= 1,
    ensures
        spec_split(render_list(rs), ',') == Seq::new(rs.len(), |i: int| render_term(rs[i])),
    decreases rs.len(),
{
    lemma_render_term_chars(rs[0]);
    if rs.len() == 1 {
        lemma_split_whole(render_term(rs[0]), ',');
        assert(spec_split(render_list(rs), ',') =~~= Seq::new(
            rs.len(),
            |i: int| render_term(rs[i]),
        ));
    } else {
        let tail = rs.subrange(1, rs.len() as int);
        lemma_split_render(tail);
        lemma_split_prepend(render_term(rs[0]), ',', render_list(tail));
        assert(spec_split(render_list(rs), ',') =~~= Seq::new(
            rs.len(),
            |i: int| render_term(rs[i]),
        ));
    }
}

/// Re-parsing the canonical decimal rendering of a well-formed, nonempty
/// range list yields that same range list.
pub proof fn lemma_render_parse_round_trip(rs: Seq<Range<usize>>)
    requires
        rs.len() >= 1,
        ranges_wf(rs),
    ensures
        parse_spec(render_list(rs)) == Ok::<Seq<Range<usize>>, ParseErrorModel>(rs),
{
    lemma_render_term_chars(rs[0]);
    assert(render_list(rs).len() >= 1) by {
        if rs.len() > 1 {
            assert(render_list(rs).len() >= render_term(rs[0]).len());
        }
    }
    lemma_split_render(rs);
    let ts = spec_split(render_list(rs), ',');
    assert forall|j: int| 0 <= j < ts.len() implies (#[trigger] parse_term(ts[j]))
        == Ok::<Range<usize>, ParseErrorModel>(rs[j]) by {
        assert(ts[j] == render_term(rs[j]));
        lemma_parse_render_term(rs[j]);
    }
    lemma_parse_terms_ok(ts);
    assert(parse_terms(ts)->Ok_0 =~= rs);
}

/// A parsed sequence of terms has one range per term.
proof fn lemma_parse_terms_len(ts: Seq<Seq<char>>)
    requires
        parse_terms(ts) is Ok,
    ensures
        parse_terms(ts)->Ok_0.len() == ts.len(),
    decreases ts.len(),
{
    if ts.len() > 0 {
        lemma_parse_terms_len(ts.subrange(1, ts.len() as int));
    }
}

/// For every accepted specification string, the range list is exactly as
/// long as the list of comma-separated terms.
pub proof fn lemma_parse_len_counts_terms(s: Seq<char>)
    requires
        parse_spec(s) is Ok,
    ensures
        parse_spec(s)->Ok_0.len() == count_char(s, ',') + 1,
{
    lemma_split_count(s, ',');
    lemma_parse_terms_len(spec_split(s, ','));
}

/// Appending one range extends the rendering by a comma-separated term.
proof fn lemma_render_push(rs: Seq<Range<usize>>, r: Range<usize>)
    ensures
        render_list(rs.push(r)) == if rs.len() == 0 {
            render_term(r)
        } else {
            render_list(rs) + seq![','] + render_term(r)
        },
    decreases rs.len(),
{
    let p = rs.push(r);
    if rs.len() == 0 {
        assert(p.len() == 1);
        assert(p[0] == r);
    } else {
        let ptail = p.subrange(1, p.len() as int);
        assert(ptail =~= rs.subrange(1, rs.len() as int).push(r));
        lemma_render_push(rs.subrange(1, rs.len() as int), r);
        if rs.len() == 1 {
            assert(render_list(p) =~= render_list(rs) + seq![','] + render_term(r));
        } else {
            assert(render_list(p) =~= render_list(rs) + seq![','] + render_term(r));
        }
    }
}

/// Renders a range list canonically: one-based bounds, terms joined with
/// commas.
pub fn render_pos(rs: &Vec<Range<usize>>) -> (s: String)
    requires
        ranges_wf(rs@),
    ensures
        s@ == render_list(rs@),
{
    let mut out: Vec<char> = Vec::new();
    let mut i: usize = 0;
    let n = rs.len();
    while i < n
        invariant
            n == rs@.len(),
            ranges_wf(rs@),
            i <= n,
            out@ == render_list(rs@.subrange(0, i as int)),
        decreases n - i,
    {
        proof {
            lemma_render_push(rs@.subrange(0, i as int), rs@[i as int]);
            assert(rs@.subrange(0, i + 1) =~= rs@.subrange(0, i as int).push(rs@[i as int]));
        }
        if i > 0 {
            out.push(',');
        }
        let r = &rs[i];
        let start = r.start;
        let end = r.end;
        crate::numfmt::push_dec_chars(&mut out, start + 1);
        if end != start + 1 {
            out.push('-');
            crate::numfmt::push_dec_chars(&mut out, end);
        }
        proof {
            assert(out@ =~= render_list(rs@.subrange(0, i + 1)));
        }
        i = i + 1;
    }
    proof {
        assert(rs@.subrange(0, n as int) =~= rs@);
    }
    chars_to_string(&out)
}

} // verus!
