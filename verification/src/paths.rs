//! The path resolver: derives the on-disk locations of the images
//! directory and the metadata index file from a base directory. Creating
//! the directories is left to the surrounding application; these
//! computations are pure.

use vstd::prelude::*;

verus! {

/// The images directory under a base directory.
pub fn images_dir_path(base: &str) -> (r: String)
    ensures
        r@ == base@ + "/images"@,
{
    let mut s = base.to_owned();
    s.append("/images");
    s
}

/// The metadata index file under a base directory.
pub fn metadata_file_path(base: &str) -> (r: String)
    ensures
        r@ == base@ + "/metadata.json"@,
{
    let mut s = base.to_owned();
    s.append("/metadata.json");
    s
}

} // verus!
