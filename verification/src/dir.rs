//! A mathematical model of the images directory: a sequence of named
//! files, looked up by name, first match first.

use vstd::prelude::*;

verus! {

/// The view of the images directory: file names paired with their bytes.
pub type DirV = Seq<(Seq<char>, Seq<u8>)>;

/// The position of the first file with the given name.
pub open spec fn dir_find(files: DirV, name: Seq<char>) -> Option<int>
    decreases files.len(),
{
    if files.len() == 0 {
        Option::None
    } else if files[0].0 == name {
        Option::Some(0)
    } else {
        match dir_find(files.drop_first(), name) {
            Option::None => Option::None,
            Option::Some(i) => Option::Some(i + 1),
        }
    }
}

/// The bytes of the first file with the given name.
pub open spec fn dir_lookup(files: DirV, name: Seq<char>) -> Option<Seq<u8>> {
    match dir_find(files, name) {
        Option::None => Option::None,
        Option::Some(i) => Option::Some(files[i].1),
    }
}

/// The directory after writing `data` under `name`: the existing file is
/// overwritten, or a new one is appended.
pub open spec fn dir_write(files: DirV, name: Seq<char>, data: Seq<u8>) -> DirV {
    match dir_find(files, name) {
        Option::None => files.push((name, data)),
        Option::Some(i) => files.update(i, (name, data)),
    }
}

/// The directory after deleting `name`; a missing file is tolerated.
pub open spec fn dir_remove(files: DirV, name: Seq<char>) -> DirV {
    match dir_find(files, name) {
        Option::None => files,
        Option::Some(i) => files.remove(i),
    }
}

/// What `dir_find` returns: the first position holding the name, or
/// `None` when no position does.
pub proof fn lemma_dir_find(files: DirV, name: Seq<char>)
    ensures
        match dir_find(files, name) {
            Option::Some(i) => 0 <= i < files.len() && files[i].0 == name && (forall|j: int|
                0 <= j < i ==> (#[trigger] files[j]).0 != name),
            Option::None => forall|j: int| 0 <= j < files.len() ==> (#[trigger] files[j]).0 != name,
        },
    decreases files.len(),
{
    if files.len() > 0 && files[0].0 != name {
        let d = files.drop_first();
        lemma_dir_find(d, name);
        assert(forall|j: int| 0 <= j < d.len() ==> #[trigger] d[j] == files[j + 1]);
        match dir_find(d, name) {
            Option::None => {
                assert forall|j: int| 0 <= j < files.len() implies (#[trigger] files[j]).0
                    != name by {
                    if j > 0 {
                        assert(d[j - 1] == files[j]);
                        assert(d[j - 1].0 != name);
                    }
                }
            },
            Option::Some(i) => {
                assert(dir_find(files, name) == Option::Some(i + 1));
                assert(d[i] == files[i + 1]);
                assert forall|j: int| 0 <= j < i + 1 implies (#[trigger] files[j]).0 != name by {
                    if j > 0 {
                        assert(d[j - 1] == files[j]);
                        assert(d[j - 1].0 != name);
                    }
                }
            },
        }
    }
}

/// `dir_find` finds a given witness: the first matching position.
pub proof fn lemma_dir_find_is(files: DirV, name: Seq<char>, i: int)
    requires
        0 <= i < files.len(),
        files[i].0 == name,
        forall|j: int| 0 <= j < i ==> (#[trigger] files[j]).0 != name,
    ensures
        dir_find(files, name) == Option::Some(i),
{
    lemma_dir_find(files, name);
    match dir_find(files, name) {
        Option::None => {
            assert(files[i].0 != name);
        },
        Option::Some(k) => {
            if k < i {
                assert(files[k].0 != name);
            } else if i < k {
                assert(files[i].0 != name);
            }
        },
    }
}

/// `dir_find` returns `None` when no position matches.
pub proof fn lemma_dir_find_none(files: DirV, name: Seq<char>)
    requires
        forall|j: int| 0 <= j < files.len() ==> (#[trigger] files[j]).0 != name,
    ensures
        dir_find(files, name) is None,
{
    lemma_dir_find(files, name);
    if let Option::Some(i) = dir_find(files, name) {
        assert(files[i].0 != name);
    }
}

} // verus!
