use vstd::prelude::*;

use core::ops::Range;
use vstd::string::StringSliceAdditionalSpecFns;

verus! {

/// An ordered list of half-open index ranges, as one selection produces it.
pub type PositionList = Vec<Range<usize>>;

/// Which unit of each record a selection addresses.
pub enum Extract {
    Fields(PositionList),
    Bytes(PositionList),
    Chars(PositionList),
}

/// One run's settings: the inputs, the field delimiter and the selection.
pub struct Config {
    pub files: Vec<String>,
    pub delimiter: u8,
    pub extract: Extract,
}

/// The message rejecting a delimiter that is not one byte long.
pub open spec fn delim_error(delimiter: Seq<char>) -> Seq<char> {
    "--delim \""@ + delimiter + "\" must be a single byte"@
}

/// Checks that the delimiter argument is a single byte and returns it;
/// anything shorter or longer is rejected with the exact message
/// `delim_error` states.
pub fn parse_delim(delimiter: &str) -> (r: Result<u8, String>)
    ensures
        match r {
            Ok(b) => delimiter.spec_bytes().len() == 1 && b == delimiter.spec_bytes()[0],
            Err(m) => delimiter.spec_bytes().len() != 1 && m@ == delim_error(delimiter@),
        },
{
    let bytes = delimiter.as_bytes_vec();
    if bytes.len() == 1 {
        Ok(bytes[0])
    } else {
        let mut m = String::from_str("--delim \"");
        m.append(delimiter);
        m.append("\" must be a single byte");
        Err(m)
    }
}

} // verus!
