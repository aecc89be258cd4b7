use vstd::prelude::*;

use crate::chars::str_to_chars;
use crate::ranges::count_char;
use crate::text::{count_words, count_words_from, is_space, line_count, space};
use vstd::string::StringSliceAdditionalSpecFns;

verus! {

/// The per-input counts: lines, words, bytes and characters.
#[derive(Debug, PartialEq)]
pub struct FileInfo {
    pub num_lines: usize,
    pub num_words: usize,
    pub num_bytes: usize,
    pub num_chars: usize,
}

/// Counts the lines, words, bytes and characters of one text, as a counting
/// reader that consumes it whole would report them.
pub fn count(text: &str) -> (info: FileInfo)
    requires
        text.spec_bytes().len() <= usize::MAX,
    ensures
        info.num_lines == line_count(text@),
        info.num_words == count_words(text@),
        info.num_bytes == text.spec_bytes().len(),
        info.num_chars == text@.len(),
{
    let cs = str_to_chars(text);
    let n = cs.len();
    let mut num_newlines: usize = 0;
    let mut num_words: usize = 0;
    let mut prev_space = true;
    let mut i: usize = 0;
    proof {
        assert(cs@.subrange(0, n as int) =~= cs@);
    }
    while i < n
        invariant
            n == cs@.len(),
            cs@ == text@,
            i <= n,
            num_newlines <= i,
            num_words <= i,
            num_newlines + count_char(cs@.subrange(i as int, n as int), '\n') == count_char(
                cs@,
                '\n',
            ),
            num_words + count_words_from(cs@.subrange(i as int, n as int), prev_space)
                == count_words(cs@),
        decreases n - i,
    {
        let ghost suffix = cs@.subrange(i as int, n as int);
        proof {
            assert(suffix[0] == cs@[i as int]);
            assert(suffix.subrange(1, suffix.len() as int) =~= cs@.subrange(i + 1, n as int));
            crate::text::lemma_count_words_le_len(
                cs@.subrange(i + 1, n as int),
                is_space(cs@[i as int]),
            );
        }
        let c = cs[i];
        if c == '\n' {
            num_newlines = num_newlines + 1;
        }
        let sp = space(c);
        if prev_space && !sp {
            num_words = num_words + 1;
        }
        prev_space = sp;
        i = i + 1;
    }
    proof {
        assert(cs@.subrange(n as int, n as int) =~= Seq::<char>::empty());
        if n > 0 && cs@.last() != '\n' {
            crate::text::lemma_count_char_last(cs@, '\n');
        }
    }
    let num_lines = if n > 0 && cs[n - 1] != '\n' {
        num_newlines + 1
    } else {
        num_newlines
    };
    FileInfo { num_lines, num_words, num_bytes: text.len(), num_chars: n }
}

} // verus!
