//! Walking a music library against the index of its directories.
use vstd::prelude::*;

use crate::indexed_fs::{FsElement, IndexedDirectory};
use crate::path::same_path_spec;

verus! {

/// Walks a music library.
pub struct LibraryParser {}

/// `index[i]` is the first indexed directory whose path equals `path`.
pub open spec fn is_first_with_path(index: Seq<IndexedDirectory>, path: Seq<char>, i: int) -> bool {
    &&& 0 <= i < index.len()
    &&& same_path_spec(index[i]@.path, path)
    &&& forall|j: int| 0 <= j < i ==> !same_path_spec(#[trigger] index[j]@.path, path)
}

impl LibraryParser {
    /// Walks the library under `base_path`; the walk does not yet read anything, so
    /// the index and the albums are left as they are.
    pub fn iterate_directory<A>(base_path: String, index: &mut Vec<IndexedDirectory>, albums_output: &mut Vec<A>)
        ensures
            final(index)@ == old(index)@,
            final(albums_output)@ == old(albums_output)@,
    {
    }

    /// The first directory of the index whose path equals `base_path`, if any.
    pub fn check_if_path_in_index(base_path: String, index: &Vec<IndexedDirectory>) -> (r: Option<&IndexedDirectory>)
        ensures
            match r {
                Some(d) => exists|i: int| is_first_with_path(index@, base_path@, i) && *d == index@[i],
                None => forall|i: int| 0 <= i < index@.len() ==> !same_path_spec(#[trigger] index@[i]@.path, base_path@),
            },
    {
        let mut i: usize = 0;
        while i < index.len()
            invariant
                i <= index@.len(),
                forall|j: int| 0 <= j < i ==> !same_path_spec(#[trigger] index@[j]@.path, base_path@),
            decreases index@.len() - i,
        {
            if crate::path::same_path(index[i].get_path(), base_path.as_str()) {
                assert(is_first_with_path(index@, base_path@, i as int));
                return Some(&index[i]);
            }
            i = i + 1;
        }
        None
    }
}

} // verus!
