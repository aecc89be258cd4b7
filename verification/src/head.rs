use vstd::prelude::*;

use crate::chars::{chars_to_string, copy_range, str_to_chars};
use crate::extract::{copy_bytes, from_utf8_lossy_string, lossy_utf8};

verus! {

/// How many characters the first `n` lines of `s` cover, a line ending
/// with its newline or with the end of the text.
pub open spec fn line_prefix_end(s: Seq<char>, n: nat) -> nat
    decreases s.len(),
{
    if n == 0 || s.len() == 0 {
        0
    } else if s[0] == '\n' {
        1 + line_prefix_end(s.subrange(1, s.len() as int), (n - 1) as nat)
    } else {
        1 + line_prefix_end(s.subrange(1, s.len() as int), n)
    }
}

/// The first `n` lines of one input's content, line endings kept.
pub fn head_lines(content: &str, n: usize) -> (r: String)
    ensures
        r@ == content@.subrange(0, line_prefix_end(content@, n as nat) as int),
{
    let cs = str_to_chars(content);
    let len = cs.len();
    let mut i: usize = 0;
    let mut remaining = n;
    proof {
        assert(cs@.subrange(0, len as int) =~= cs@);
    }
    while i < len && remaining > 0
        invariant
            len == cs@.len(),
            cs@ == content@,
            i <= len,
            remaining <= n,
            line_prefix_end(cs@, n as nat) == i + line_prefix_end(
                cs@.subrange(i as int, len as int),
                remaining as nat,
            ),
        decreases len - i,
    {
        let ghost suffix = cs@.subrange(i as int, len as int);
        proof {
            assert(suffix[0] == cs@[i as int]);
            assert(suffix.subrange(1, suffix.len() as int) =~= cs@.subrange(i + 1, len as int));
        }
        if cs[i] == '\n' {
            remaining = remaining - 1;
        }
        i = i + 1;
    }
    proof {
        if i == len {
            assert(cs@.subrange(len as int, len as int) =~= Seq::<char>::empty());
        }
        assert(line_prefix_end(cs@, n as nat) == i);
    }
    let piece = copy_range(&cs, 0, i);
    chars_to_string(&piece)
}

/// The first bytes of one input, decoded lossily, as reading that many
/// bytes and decoding what came shows them.
pub fn head_bytes(bytes: &Vec<u8>, n: usize) -> (r: String)
    ensures
        r@ == lossy_utf8(
            bytes@.subrange(
                0,
                if n <= bytes@.len() {
                    n as int
                } else {
                    bytes@.len() as int
                },
            ),
        ),
{
    let take = if n <= bytes.len() {
        n
    } else {
        bytes.len()
    };
    let piece = copy_bytes(bytes, 0, take);
    from_utf8_lossy_string(piece.as_slice())
}

} // verus!
