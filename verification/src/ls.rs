use vstd::prelude::*;

use crate::chars::chars_to_string;

verus! {

/// The nine permission characters of a file mode: `r`, `w` and `x` for each
/// of user, group and other, with `-` for every right not granted.
pub open spec fn mode_chars(mode: u32) -> Seq<char> {
    seq![
        if mode & 0o400 == 0o400 {
            'r'
        } else {
            '-'
        },
        if mode & 0o200 == 0o200 {
            'w'
        } else {
            '-'
        },
        if mode & 0o100 == 0o100 {
            'x'
        } else {
            '-'
        },
        if mode & 0o040 == 0o040 {
            'r'
        } else {
            '-'
        },
        if mode & 0o020 == 0o020 {
            'w'
        } else {
            '-'
        },
        if mode & 0o010 == 0o010 {
            'x'
        } else {
            '-'
        },
        if mode & 0o004 == 0o004 {
            'r'
        } else {
            '-'
        },
        if mode & 0o002 == 0o002 {
            'w'
        } else {
            '-'
        },
        if mode & 0o001 == 0o001 {
            'x'
        } else {
            '-'
        },
    ]
}

/// Given a file mode in octal format like 0o751, returns a string like
/// `rwxr-x--x`.
pub fn format_mode(mode: u32) -> (r: String)
    ensures
        r@ == mode_chars(mode),
        r@.len() == 9,
{
    let mut v: Vec<char> = Vec::new();
    v.push(if mode & 0o400 == 0o400 { 'r' } else { '-' });
    v.push(if mode & 0o200 == 0o200 { 'w' } else { '-' });
    v.push(if mode & 0o100 == 0o100 { 'x' } else { '-' });
    v.push(if mode & 0o040 == 0o040 { 'r' } else { '-' });
    v.push(if mode & 0o020 == 0o020 { 'w' } else { '-' });
    v.push(if mode & 0o010 == 0o010 { 'x' } else { '-' });
    v.push(if mode & 0o004 == 0o004 { 'r' } else { '-' });
    v.push(if mode & 0o002 == 0o002 { 'w' } else { '-' });
    v.push(if mode & 0o001 == 0o001 { 'x' } else { '-' });
    proof {
        assert(v@ =~= mode_chars(mode));
    }
    chars_to_string(&v)
}

/// Whether a directory entry's name marks it as hidden.
pub fn is_hidden(name: &str) -> (b: bool)
    ensures
        b == (name@.len() > 0 && name@[0] == '.'),
{
    if name.unicode_len() == 0 {
        false
    } else {
        name.get_char(0) == '.'
    }
}

} // verus!
