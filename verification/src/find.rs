use vstd::prelude::*;

verus! {

/// The kinds of directory entry a search can ask for: plain files,
/// directories and symbolic links.
#[derive(Debug, Copy, Clone, PartialEq, Eq)]
pub enum EntryType {
    F,
    D,
    L,
}

/// Whether an entry with the given properties is of kind `t`: a plain file
/// must not be a symbolic link.
pub open spec fn type_matches(t: EntryType, is_file: bool, is_dir: bool, is_link: bool) -> bool {
    match t {
        EntryType::F => is_file && !is_link,
        EntryType::D => is_dir,
        EntryType::L => is_link,
    }
}

/// Whether an entry passes the type filter: an empty filter passes
/// everything, any other filter asks for at least one of its kinds.
pub fn entry_matches(entry_types: &Vec<EntryType>, is_file: bool, is_dir: bool, is_link: bool) -> (r:
    bool)
    ensures
        r == (entry_types@.len() == 0 || exists|i: int|
            0 <= i < entry_types@.len() && type_matches(
                #[trigger] entry_types@[i],
                is_file,
                is_dir,
                is_link,
            )),
{
    let n = entry_types.len();
    if n == 0 {
        return true;
    }
    let mut i: usize = 0;
    while i < n
        invariant
            n == entry_types@.len(),
            i <= n,
            forall|j: int|
                0 <= j < i ==> !type_matches(#[trigger] entry_types@[j], is_file, is_dir, is_link),
        decreases n - i,
    {
        let hit = match entry_types[i] {
            EntryType::F => is_file && !is_link,
            EntryType::D => is_dir,
            EntryType::L => is_link,
        };
        if hit {
            return true;
        }
        i = i + 1;
    }
    false
}

} // verus!
