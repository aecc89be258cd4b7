use vstd::prelude::*;

use crate::chars::{chars_to_string, str_to_chars};
use core::ops::Range;
use vstd::string::StringSliceAdditionalSpecFns;
use vstd::utf8::{decode_utf8, valid_utf8};

verus! {

/// The half-open range `r` lies entirely within a source of length `len`.
pub open spec fn range_in(r: Range<usize>, len: nat) -> bool {
    r.start <= r.end && r.end <= len
}

/// The characters selected from `cs` by the ranges of `rs`, in range order:
/// a range wholly in bounds contributes its slice, any other range
/// contributes nothing.
pub open spec fn select_chars(cs: Seq<char>, rs: Seq<Range<usize>>) -> Seq<char>
    decreases rs.len(),
{
    if rs.len() == 0 {
        Seq::<char>::empty()
    } else {
        select_chars(cs, rs.drop_last()) + (if range_in(rs.last(), cs.len()) {
            cs.subrange(rs.last().start as int, rs.last().end as int)
        } else {
            Seq::<char>::empty()
        })
    }
}

/// What `alloc::string::String::from_utf8_lossy` decodes the given bytes to:
/// a function of the bytes alone.
pub uninterp spec fn lossy_utf8(bytes: Seq<u8>) -> Seq<char>;

/// Relies on `String::from_utf8_lossy`: the result is a function of the
/// bytes alone; valid UTF-8 input decodes to exactly its characters, whose
/// encoding is the input itself; empty input yields the empty string.
#[verifier::external_body]
pub(crate) fn from_utf8_lossy_string(bytes: &[u8]) -> (s: String)
    ensures
        s@ == lossy_utf8(bytes@),
        valid_utf8(bytes@) ==> s@ == decode_utf8(bytes@),
        bytes@.len() == 0 ==> s@.len() == 0,
{
    String::from_utf8_lossy(bytes).into_owned()
}

/// The characters selected from the byte sequence `bs` by the ranges of
/// `rs`: each wholly-in-bounds range contributes its bytes decoded lossily
/// on their own, any other range contributes nothing.
pub open spec fn select_bytes(bs: Seq<u8>, rs: Seq<Range<usize>>) -> Seq<char>
    decreases rs.len(),
{
    if rs.len() == 0 {
        Seq::<char>::empty()
    } else {
        select_bytes(bs, rs.drop_last()) + (if range_in(rs.last(), bs.len()) {
            lossy_utf8(bs.subrange(rs.last().start as int, rs.last().end as int))
        } else {
            Seq::<char>::empty()
        })
    }
}

/// The fields selected from `fs` by the ranges of `rs`, flattened in range
/// order under the same wholly-in-bounds policy.
pub open spec fn select_fields(fs: Seq<Seq<char>>, rs: Seq<Range<usize>>) -> Seq<Seq<char>>
    decreases rs.len(),
{
    if rs.len() == 0 {
        Seq::<Seq<char>>::empty()
    } else {
        select_fields(fs, rs.drop_last()) + (if range_in(rs.last(), fs.len()) {
            fs.subrange(rs.last().start as int, rs.last().end as int)
        } else {
            Seq::<Seq<char>>::empty()
        })
    }
}

/// Extracts the characters of `line` selected by `char_pos`, concatenated in
/// range order with nothing between them.
pub fn extract_chars(line: &str, char_pos: &[Range<usize>]) -> (r: String)
    ensures
        r@ == select_chars(line@, char_pos@),
{
    let cs = str_to_chars(line);
    let mut out: Vec<char> = Vec::new();
    let n = char_pos.len();
    let mut i: usize = 0;
    while i < n
        invariant
            n == char_pos@.len(),
            cs@ == line@,
            i <= n,
            out@ == select_chars(line@, char_pos@.subrange(0, i as int)),
        decreases n - i,
    {
        let ghost prefix = char_pos@.subrange(0, i as int);
        proof {
            assert(char_pos@.subrange(0, i + 1).drop_last() =~= prefix);
            assert(char_pos@.subrange(0, i + 1).last() == char_pos@[i as int]);
        }
        let start = char_pos[i].start;
        let end = char_pos[i].end;
        if start <= end && end <= cs.len() {
            let mut k = start;
            while k < end
                invariant
                    start <= k <= end <= cs@.len(),
                    cs@ == line@,
                    out@ == select_chars(line@, char_pos@.subrange(0, i as int)) + cs@.subrange(
                        start as int,
                        k as int,
                    ),
                decreases end - k,
            {
                out.push(cs[k]);
                proof {
                    assert(out@ =~= select_chars(line@, char_pos@.subrange(0, i as int))
                        + cs@.subrange(start as int, k + 1));
                }
                k = k + 1;
            }
        } else {
            proof {
                assert(out@ =~= select_chars(line@, char_pos@.subrange(0, i as int))
                    + Seq::<char>::empty());
            }
        }
        i = i + 1;
    }
    proof {
        assert(char_pos@.subrange(0, n as int) =~= char_pos@);
    }
    chars_to_string(&out)
}

/// Copies the bytes of `v` between `from` and `to` into a fresh vector.
pub(crate) fn copy_bytes(v: &Vec<u8>, from: usize, to: usize) -> (r: Vec<u8>)
    requires
        from <= to <= v@.len(),
    ensures
        r@ == v@.subrange(from as int, to as int),
{
    let mut r: Vec<u8> = Vec::new();
    let mut k = from;
    while k < to
        invariant
            from <= k <= to <= v@.len(),
            r@ == v@.subrange(from as int, k as int),
        decreases to - k,
    {
        r.push(v[k]);
        proof {
            assert(r@ =~= v@.subrange(from as int, k + 1));
        }
        k = k + 1;
    }
    r
}

/// Extracts the encoded bytes of `line` selected by `byte_pos`, decoding
/// each selected byte run lossily on its own, concatenated in range order.
pub fn extract_bytes(line: &str, byte_pos: &[Range<usize>]) -> (r: String)
    ensures
        r@ == select_bytes(line.spec_bytes(), byte_pos@),
{
    let bytes = line.as_bytes_vec();
    let mut out = String::new();
    let n = byte_pos.len();
    let mut i: usize = 0;
    while i < n
        invariant
            n == byte_pos@.len(),
            bytes@ == line.spec_bytes(),
            i <= n,
            out@ == select_bytes(line.spec_bytes(), byte_pos@.subrange(0, i as int)),
        decreases n - i,
    {
        let ghost prefix = byte_pos@.subrange(0, i as int);
        proof {
            assert(byte_pos@.subrange(0, i + 1).drop_last() =~= prefix);
            assert(byte_pos@.subrange(0, i + 1).last() == byte_pos@[i as int]);
        }
        let start = byte_pos[i].start;
        let end = byte_pos[i].end;
        if start <= end && end <= bytes.len() {
            let piece = copy_bytes(&bytes, start, end);
            let piece_str = from_utf8_lossy_string(piece.as_slice());
            out.append(piece_str.as_str());
        } else {
            proof {
                assert(out@ =~= out@ + Seq::<char>::empty());
            }
        }
        i = i + 1;
    }
    proof {
        assert(byte_pos@.subrange(0, n as int) =~= byte_pos@);
    }
    out
}

/// Extracts the fields of `fields` selected by `field_pos`, flattened in
/// range order, for the caller to join with its output delimiter.
pub fn extract_fields(fields: &Vec<String>, field_pos: &[Range<usize>]) -> (r: Vec<String>)
    ensures
        r.deep_view() == select_fields(fields.deep_view(), field_pos@),
{
    let mut out: Vec<String> = Vec::new();
    let n = field_pos.len();
    let mut i: usize = 0;
    while i < n
        invariant
            n == field_pos@.len(),
            i <= n,
            out.deep_view() == select_fields(fields.deep_view(), field_pos@.subrange(0, i as int)),
        decreases n - i,
    {
        let ghost prefix = field_pos@.subrange(0, i as int);
        proof {
            assert(field_pos@.subrange(0, i + 1).drop_last() =~= prefix);
            assert(field_pos@.subrange(0, i + 1).last() == field_pos@[i as int]);
        }
        let start = field_pos[i].start;
        let end = field_pos[i].end;
        if start <= end && end <= fields.len() {
            let mut k = start;
            while k < end
                invariant
                    start <= k <= end <= fields@.len(),
                    out.deep_view() == select_fields(
                        fields.deep_view(),
                        field_pos@.subrange(0, i as int),
                    ) + fields.deep_view().subrange(start as int, k as int),
                decreases end - k,
            {
                let ghost prev = out.deep_view();
                let item = fields[k].clone();
                proof {
                    assert(item@ == fields@[k as int]@);
                }
                out.push(item);
                proof {
                    assert(out.deep_view() =~~= prev.push(fields@[k as int]@));
                    assert(fields.deep_view()[k as int] == fields@[k as int]@);
                    assert(out.deep_view() =~~= select_fields(
                        fields.deep_view(),
                        field_pos@.subrange(0, i as int),
                    ) + fields.deep_view().subrange(start as int, k + 1));
                }
                k = k + 1;
            }
        } else {
            proof {
                assert(out.deep_view() =~~= select_fields(
                    fields.deep_view(),
                    field_pos@.subrange(0, i as int),
                ) + Seq::<Seq<char>>::empty());
            }
        }
        i = i + 1;
    }
    proof {
        assert(field_pos@.subrange(0, n as int) =~= field_pos@);
    }
    out
}

/// Extracting the full span of a line in character mode returns the line
/// unchanged.
pub proof fn lemma_full_span_chars(line: Seq<char>, rs: Seq<Range<usize>>)
    requires
        rs.len() == 1,
        rs[0].start == 0,
        rs[0].end == line.len(),
    ensures
        select_chars(line, rs) == line,
{
    assert(rs.drop_last() =~= Seq::<Range<usize>>::empty());
    assert(select_chars(line, Seq::<Range<usize>>::empty()) == Seq::<char>::empty());
    assert(range_in(rs.last(), line.len()));
    assert(line.subrange(rs.last().start as int, rs.last().end as int) =~= line);
    assert(select_chars(line, rs) =~= line);
}

} // verus!
