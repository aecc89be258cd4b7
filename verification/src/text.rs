use vstd::prelude::*;

verus! {

/// The Unicode white-space characters, as `char::is_whitespace` lists them.
pub open spec fn is_space(c: char) -> bool {
    c == ' ' || c == '\t' || c == '\n' || c == '\u{b}' || c == '\u{c}' || c == '\r' || c
        == '\u{85}' || c == '\u{a0}' || c == '\u{1680}' || c == '\u{2000}' || c == '\u{2001}' || c
        == '\u{2002}' || c == '\u{2003}' || c == '\u{2004}' || c == '\u{2005}' || c == '\u{2006}'
        || c == '\u{2007}' || c == '\u{2008}' || c == '\u{2009}' || c == '\u{200a}' || c
        == '\u{2028}' || c == '\u{2029}' || c == '\u{202f}' || c == '\u{205f}' || c == '\u{3000}'
}

/// Whether `c` is a Unicode white-space character.
pub fn space(c: char) -> (b: bool)
    ensures
        b == is_space(c),
{
    c == ' ' || c == '\t' || c == '\n' || c == '\u{b}' || c == '\u{c}' || c == '\r' || c
        == '\u{85}' || c == '\u{a0}' || c == '\u{1680}' || c == '\u{2000}' || c == '\u{2001}' || c
        == '\u{2002}' || c == '\u{2003}' || c == '\u{2004}' || c == '\u{2005}' || c == '\u{2006}'
        || c == '\u{2007}' || c == '\u{2008}' || c == '\u{2009}' || c == '\u{200a}' || c
        == '\u{2028}' || c == '\u{2029}' || c == '\u{202f}' || c == '\u{205f}' || c == '\u{3000}'
}

/// `s` without its trailing white space.
pub open spec fn trim_end(s: Seq<char>) -> Seq<char>
    decreases s.len(),
{
    if s.len() == 0 || !is_space(s.last()) {
        s
    } else {
        trim_end(s.drop_last())
    }
}

/// `s` without its leading white space.
pub open spec fn trim_start(s: Seq<char>) -> Seq<char>
    decreases s.len(),
{
    if s.len() == 0 || !is_space(s[0]) {
        s
    } else {
        trim_start(s.subrange(1, s.len() as int))
    }
}

/// `s` without white space at either end.
pub open spec fn trim(s: Seq<char>) -> Seq<char> {
    trim_start(trim_end(s))
}

/// Trailing white space ends exactly where the last non-space character
/// stands.
pub proof fn lemma_trim_end_at(s: Seq<char>, e: int)
    requires
        0 <= e <= s.len(),
        forall|j: int| e <= j < s.len() ==> is_space(#[trigger] s[j]),
        e > 0 ==> !is_space(s[e - 1]),
    ensures
        trim_end(s) == s.subrange(0, e),
    decreases s.len(),
{
    if s.len() == e {
        assert(trim_end(s) == s);
        assert(s.subrange(0, e) =~= s);
    } else {
        assert(is_space(s.last()));
        let d = s.drop_last();
        assert(forall|j: int| e <= j < d.len() ==> is_space(#[trigger] d[j]));
        if e > 0 {
            assert(d[e - 1] == s[e - 1]);
        }
        lemma_trim_end_at(d, e);
        assert(d.subrange(0, e) =~= s.subrange(0, e));
    }
}

/// Leading white space ends exactly where the first non-space character
/// stands.
pub proof fn lemma_trim_start_at(s: Seq<char>, b: int)
    requires
        0 <= b <= s.len(),
        forall|j: int| 0 <= j < b ==> is_space(#[trigger] s[j]),
        b < s.len() ==> !is_space(s[b]),
    ensures
        trim_start(s) == s.subrange(b, s.len() as int),
    decreases s.len(),
{
    if b == 0 {
        if s.len() == 0 || !is_space(s[0]) {
            assert(s.subrange(0, s.len() as int) =~= s);
        } else {
            assert(false);
        }
    } else {
        assert(is_space(s[0]));
        let t = s.subrange(1, s.len() as int);
        assert(forall|j: int| 0 <= j < b - 1 ==> is_space(#[trigger] t[j]));
        if b - 1 < t.len() {
            assert(t[b - 1] == s[b]);
        }
        lemma_trim_start_at(t, b - 1);
        assert(t.subrange(b - 1, t.len() as int) =~= s.subrange(b, s.len() as int));
    }
}

/// Where the trailing white space of `v` begins.
pub fn trim_end_len(v: &Vec<char>) -> (e: usize)
    ensures
        e <= v@.len(),
        trim_end(v@) == v@.subrange(0, e as int),
{
    let n = v.len();
    let mut e = n;
    while e > 0 && space(v[e - 1])
        invariant
            e <= n,
            n == v@.len(),
            forall|j: int| e <= j < n ==> is_space(#[trigger] v@[j]),
        decreases e,
    {
        e = e - 1;
    }
    proof {
        lemma_trim_end_at(v@, e as int);
    }
    e
}

/// The parts joined with `sep` between each two.
pub open spec fn join_seqs(parts: Seq<Seq<char>>, sep: Seq<char>) -> Seq<char>
    decreases parts.len(),
{
    if parts.len() == 0 {
        Seq::<char>::empty()
    } else if parts.len() == 1 {
        parts[0]
    } else {
        parts[0] + sep + join_seqs(parts.subrange(1, parts.len() as int), sep)
    }
}

/// Appending one part extends the joined text by a separator and the part.
pub proof fn lemma_join_push(parts: Seq<Seq<char>>, sep: Seq<char>, p: Seq<char>)
    ensures
        join_seqs(parts.push(p), sep) == if parts.len() == 0 {
            p
        } else {
            join_seqs(parts, sep) + sep + p
        },
    decreases parts.len(),
{
    let q = parts.push(p);
    if parts.len() == 0 {
        assert(q.len() == 1);
        assert(q[0] == p);
    } else {
        let qtail = q.subrange(1, q.len() as int);
        assert(qtail =~= parts.subrange(1, parts.len() as int).push(p));
        lemma_join_push(parts.subrange(1, parts.len() as int), sep, p);
        if parts.len() == 1 {
            assert(join_seqs(q, sep) =~= join_seqs(parts, sep) + sep + p);
        } else {
            assert(join_seqs(q, sep) =~= join_seqs(parts, sep) + sep + p);
        }
    }
}

/// Joins the parts with `sep` between each two.
pub fn join_with(parts: &Vec<String>, sep: &str) -> (r: String)
    ensures
        r@ == join_seqs(parts.deep_view(), sep@),
{
    let mut r = String::new();
    let n = parts.len();
    let mut i: usize = 0;
    while i < n
        invariant
            n == parts@.len(),
            i <= n,
            r@ == join_seqs(parts.deep_view().subrange(0, i as int), sep@),
        decreases n - i,
    {
        proof {
            lemma_join_push(parts.deep_view().subrange(0, i as int), sep@, parts@[i as int]@);
            assert(parts.deep_view().subrange(0, i + 1) =~= parts.deep_view().subrange(
                0,
                i as int,
            ).push(parts@[i as int]@));
            assert(parts.deep_view()[i as int] == parts@[i as int]@);
        }
        if i > 0 {
            r.append(sep);
        }
        r.append(parts[i].as_str());
        i = i + 1;
    }
    proof {
        assert(parts.deep_view().subrange(0, n as int) =~= parts.deep_view());
    }
    r
}

/// The number of lines a reader would hand out: one per newline, and one
/// more for a trailing fragment without a newline.
pub open spec fn line_count(s: Seq<char>) -> nat {
    crate::ranges::count_char(s, '\n') + if s.len() > 0 && s.last() != '\n' {
        1nat
    } else {
        0nat
    }
}

/// The words remaining in `s` when the character before it was white space
/// iff `prev_space` holds: a word starts at each non-space character that
/// follows a space.
pub open spec fn count_words_from(s: Seq<char>, prev_space: bool) -> nat
    decreases s.len(),
{
    if s.len() == 0 {
        0
    } else {
        (if prev_space && !is_space(s[0]) {
            1nat
        } else {
            0nat
        }) + count_words_from(s.subrange(1, s.len() as int), is_space(s[0]))
    }
}

/// The number of maximal white-space-separated words in `s`.
pub open spec fn count_words(s: Seq<char>) -> nat {
    count_words_from(s, true)
}

/// Occurrences of a character never outnumber the characters.
pub proof fn lemma_count_char_le_len(s: Seq<char>, sep: char)
    ensures
        crate::ranges::count_char(s, sep) <= s.len(),
    decreases s.len(),
{
    if s.len() > 0 {
        lemma_count_char_le_len(s.subrange(1, s.len() as int), sep);
    }
}

/// A sequence whose last character is not `sep` holds fewer than
/// `s.len()` occurrences of `sep`.
pub proof fn lemma_count_char_last(s: Seq<char>, sep: char)
    requires
        s.len() > 0,
        s.last() != sep,
    ensures
        crate::ranges::count_char(s, sep) < s.len(),
    decreases s.len(),
{
    let tail = s.subrange(1, s.len() as int);
    if s.len() == 1 {
        assert(tail =~= Seq::<char>::empty());
        assert(crate::ranges::count_char(tail, sep) == 0);
        assert(s[0] == s.last());
    } else {
        assert(tail.last() == s.last());
        lemma_count_char_last(tail, sep);
    }
}

/// Words never outnumber the characters.
pub proof fn lemma_count_words_le_len(s: Seq<char>, prev_space: bool)
    ensures
        count_words_from(s, prev_space) <= s.len(),
    decreases s.len(),
{
    if s.len() > 0 {
        lemma_count_words_le_len(s.subrange(1, s.len() as int), is_space(s[0]));
    }
}

/// A character sequence never outnumbers the bytes of its UTF-8 encoding.
pub proof fn lemma_encode_utf8_len(cs: Seq<char>)
    ensures
        vstd::utf8::encode_utf8(cs).len() >= cs.len(),
    decreases cs.len(),
{
    if cs.len() > 0 {
        lemma_encode_utf8_len(cs.drop_first());
    }
}

} // verus!
