//! Laws of the store: properties that relate several operations, stated
//! over the transition functions and proved once for all inputs.

use vstd::prelude::*;

use crate::dir::DirV;
use crate::dir::dir_find;
use crate::dir::dir_lookup;
use crate::dir::dir_remove;
use crate::dir::dir_write;
use crate::dir::lemma_dir_find;
use crate::dir::lemma_dir_find_is;
use crate::dir::lemma_dir_find_none;
use crate::errors::StoreError;
use crate::model::RecordV;
use crate::store::StoreV;
use crate::store::find_rec;
use crate::store::keep_others;
use crate::store::lemma_find_rec;
use crate::store::lemma_find_rec_is;
use crate::store::lemma_find_rec_none;
use crate::store::spec_attach;
use crate::store::spec_delete_comment;
use crate::store::spec_delete_post;
use crate::store::spec_import;
use crate::store::spec_load;
use crate::store::spec_save_captured;
use crate::store::spec_save_network;
use crate::store::spec_update_analysis;
use crate::text::filename_safe;

verus! {

/// How many records hold the given id.
pub open spec fn count_id(images: Seq<RecordV>, id: Seq<char>) -> nat
    decreases images.len(),
{
    if images.len() == 0 {
        0
    } else {
        count_id(images.drop_last(), id) + if images.last().id == id {
            1nat
        } else {
            0nat
        }
    }
}

/// A record sequence without the id has count zero.
pub proof fn lemma_count_id_zero(images: Seq<RecordV>, id: Seq<char>)
    requires
        forall|j: int| 0 <= j < images.len() ==> (#[trigger] images[j]).id != id,
    ensures
        count_id(images, id) == 0,
    decreases images.len(),
{
    if images.len() > 0 {
        lemma_count_id_zero(images.drop_last(), id);
    }
}

/// Writing a file makes its bytes readable under its name.
pub proof fn lemma_dir_write_read(files: DirV, name: Seq<char>, data: Seq<u8>)
    ensures
        dir_lookup(dir_write(files, name, data), name) == Option::Some(data),
{
    lemma_dir_find(files, name);
    match dir_find(files, name) {
        Option::None => {
            let w = files.push((name, data));
            lemma_dir_find_is(w, name, files.len() as int);
        },
        Option::Some(i) => {
            let w = files.update(i, (name, data));
            lemma_dir_find_is(w, name, i);
        },
    }
}

/// Law (round trip): saving a captured image appends exactly one record,
/// whose generated id is returned and whose original name, analysis
/// result and timestamp are the call's inputs, with an empty comment
/// list; every earlier record and the rest of the directory layout are
/// untouched, and the written bytes are readable under the generated
/// filename.
pub proof fn law_save_then_list(
    st: StoreV,
    data: Seq<u8>,
    original_name: Seq<char>,
    analysis: Option<Seq<char>>,
    secs: int,
    rfc: Seq<char>,
)
    ensures
        ({
            let (st2, id) = spec_save_captured(st, data, original_name, analysis, secs, rfc);
            &&& st2.images.len() == st.images.len() + 1
            &&& st2.images.last().id == id
            &&& st2.images.last().original_name == original_name
            &&& st2.images.last().analysis_result == analysis
            &&& st2.images.last().timestamp == rfc
            &&& st2.images.last().user_comments.len() == 0
            &&& st2.images.subrange(0, st.images.len() as int) == st.images
            &&& dir_lookup(st2.files, st2.images.last().filename) == Option::Some(data)
        }),
{
    let (st2, id) = spec_save_captured(st, data, original_name, analysis, secs, rfc);
    assert(st2.images.subrange(0, st.images.len() as int) =~= st.images);
    lemma_dir_write_read(st.files, st2.images.last().filename, data);
}

/// Law (idempotent import): attaching a record whose id is present
/// changes nothing, so importing the same record twice leaves exactly
/// one index entry for its id, both imports succeed, and the file bytes
/// reflect the latest write.
pub proof fn law_import_twice(
    st: StoreV,
    filename: Seq<char>,
    d1: Seq<u8>,
    d2: Seq<u8>,
    rec: RecordV,
)
    requires
        filename_safe(filename),
        find_rec(st.images, rec.id) is None,
    ensures
        ({
            let (st1, r1) = spec_import(st, filename, d1, rec);
            let (st2, r2) = spec_import(st1, filename, d2, rec);
            &&& r1 == Result::<(), StoreError>::Ok(())
            &&& r2 == Result::<(), StoreError>::Ok(())
            &&& st2.images == st1.images
            &&& count_id(st2.images, rec.id) == 1
            &&& dir_lookup(st2.files, filename) == Option::Some(d2)
        }),
{
    let (st1, r1) = spec_import(st, filename, d1, rec);
    let (st2, r2) = spec_import(st1, filename, d2, rec);
    lemma_find_rec(st.images, rec.id);
    assert(st1.images == st.images.push(rec));
    lemma_find_rec_is(st1.images, rec.id, st.images.len() as int);
    assert(st2.images == st1.images);
    assert(st1.images.drop_last() =~= st.images);
    lemma_count_id_zero(st.images, rec.id);
    assert(count_id(st1.images, rec.id) == 1);
    lemma_dir_write_read(st1.files, filename, d2);
}

/// Law (sanitization): an unsafe filename is rejected by both network
/// save operations, leaving the store unchanged.
pub proof fn law_reject_unsafe_filename(
    st: StoreV,
    filename: Seq<char>,
    data: Seq<u8>,
    rec: RecordV,
)
    requires
        !filename_safe(filename),
    ensures
        spec_save_network(st, filename, data) == (
            st,
            Result::<(), StoreError>::Err(StoreError::InvalidFilename),
        ),
        spec_import(st, filename, data, rec) == (
            st,
            Result::<(), StoreError>::Err(StoreError::InvalidFilename),
        ),
{
}

/// No two records share an id.
pub open spec fn unique_ids(images: Seq<RecordV>) -> bool {
    forall|j: int, k: int|
        0 <= j < k < images.len() ==> (#[trigger] images[j]).id != (#[trigger] images[k]).id
}

/// No two directory entries share a name.
pub open spec fn unique_names(files: DirV) -> bool {
    forall|j: int, k: int|
        0 <= j < k < files.len() ==> (#[trigger] files[j]).0 != (#[trigger] files[k]).0
}

/// Writing a file keeps directory names distinct, so every store built
/// by the save operations satisfies [`unique_names`].
pub proof fn lemma_dir_write_preserves_unique(files: DirV, name: Seq<char>, data: Seq<u8>)
    requires
        unique_names(files),
    ensures
        unique_names(dir_write(files, name, data)),
{
    lemma_dir_find(files, name);
    let w = dir_write(files, name, data);
    match dir_find(files, name) {
        Option::None => {
            assert forall|j: int, k: int| 0 <= j < k < w.len() implies (#[trigger] w[j]).0 != (
            #[trigger] w[k]).0 by {
                if k < files.len() {
                    assert(w[j] == files[j] && w[k] == files[k]);
                } else {
                    assert(w[j] == files[j] && w[k].0 == name);
                }
            }
        },
        Option::Some(i) => {
            assert forall|j: int, k: int| 0 <= j < k < w.len() implies (#[trigger] w[j]).0 != (
            #[trigger] w[k]).0 by {
                assert(files[i].0 == name);
                if j != i && k != i {
                    assert(w[j] == files[j] && w[k] == files[k]);
                } else if j == i {
                    assert(w[k] == files[k] && files[i].0 != files[k].0);
                } else {
                    assert(w[j] == files[j] && files[j].0 != files[i].0);
                }
            }
        },
    }
}

/// Removing a file keeps directory names distinct.
pub proof fn lemma_dir_remove_preserves_unique(files: DirV, name: Seq<char>)
    requires
        unique_names(files),
    ensures
        unique_names(dir_remove(files, name)),
{
    let w = dir_remove(files, name);
    lemma_dir_find(files, name);
    if let Option::Some(i) = dir_find(files, name) {
        assert forall|j: int, k: int| 0 <= j < k < w.len() implies (#[trigger] w[j]).0 != (
        #[trigger] w[k]).0 by {
            let j0 = if j < i { j } else { j + 1 };
            let k0 = if k < i { k } else { k + 1 };
            assert(w[j] == files[j0] && w[k] == files[k0]);
        }
    }
}

/// Attaching an imported record keeps record ids distinct: the record is
/// only appended when its id is absent.
pub proof fn lemma_attach_preserves_unique(st: StoreV, rec: RecordV)
    requires
        unique_ids(st.images),
    ensures
        unique_ids(spec_attach(st, rec).images),
{
    lemma_find_rec(st.images, rec.id);
    let w = spec_attach(st, rec).images;
    if find_rec(st.images, rec.id) is None {
        assert forall|j: int, k: int| 0 <= j < k < w.len() implies (#[trigger] w[j]).id != (
        #[trigger] w[k]).id by {
            if k < st.images.len() {
                assert(w[j] == st.images[j] && w[k] == st.images[k]);
            } else {
                assert(w[j] == st.images[j] && w[k] == rec);
            }
        }
    }
}

/// Law (delete consistency): deleting a missing id fails and changes
/// nothing; under distinct ids and filenames, a successful delete leaves
/// no record with the id in the index and no file under the record's
/// filename in the directory.
pub proof fn law_delete_post(st: StoreV, id: Seq<char>)
    requires
        unique_ids(st.images),
        unique_names(st.files),
    ensures
        ({
            let (st2, r) = spec_delete_post(st, id);
            &&& (find_rec(st.images, id) is None ==> st2 == st && r == Result::<
                (),
                StoreError,
            >::Err(StoreError::NotFound))
            &&& (find_rec(st.images, id) matches Option::Some(i) ==> r == Result::<
                (),
                StoreError,
            >::Ok(()) && find_rec(st2.images, id) is None && dir_lookup(
                st2.files,
                st.images[i].filename,
            ) is None)
        }),
{
    let (st2, r) = spec_delete_post(st, id);
    lemma_find_rec(st.images, id);
    if let Option::Some(i) = find_rec(st.images, id) {
        assert forall|j: int| 0 <= j < st2.images.len() implies (#[trigger] st2.images[j]).id
            != id by {
            if j < i {
                assert(st2.images[j] == st.images[j]);
            } else {
                assert(st2.images[j] == st.images[j + 1]);
                assert(st.images[i].id == id);
            }
        }
        lemma_find_rec_none(st2.images, id);
        let name = st.images[i].filename;
        lemma_dir_find(st.files, name);
        match dir_find(st.files, name) {
            Option::None => {
                lemma_dir_find_none(st2.files, name);
            },
            Option::Some(f) => {
                assert forall|j: int| 0 <= j < st2.files.len() implies (#[trigger] st2.files[j]).0
                    != name by {
                    if j < f {
                        assert(st2.files[j] == st.files[j]);
                    } else {
                        assert(st2.files[j] == st.files[j + 1]);
                        assert(st.files[f].0 == name);
                    }
                }
                lemma_dir_find_none(st2.files, name);
            },
        }
    }
}

/// What `keep_others` keeps: at most as many comments, all of them with a
/// different id, and exactly as many when no comment had the id.
pub proof fn lemma_keep_others(cs: Seq<crate::model::CommentV>, cid: Seq<char>)
    ensures
        keep_others(cs, cid).len() <= cs.len(),
        (keep_others(cs, cid).len() == cs.len()) <==> (forall|k: int|
            0 <= k < cs.len() ==> (#[trigger] cs[k]).id != cid),
        forall|k: int|
            0 <= k < keep_others(cs, cid).len() ==> (#[trigger] keep_others(cs, cid)[k]).id != cid,
    decreases cs.len(),
{
    if cs.len() > 0 {
        lemma_keep_others(cs.drop_last(), cid);
        assert(forall|k: int| 0 <= k < cs.len() - 1 ==> cs.drop_last()[k] == #[trigger] cs[k]);
        if cs.last().id != cid && keep_others(cs.drop_last(), cid).len() == cs.len() - 1 {
            assert forall|k: int| 0 <= k < cs.len() implies (#[trigger] cs[k]).id != cid by {
                if k < cs.len() - 1 {
                    assert(cs.drop_last()[k] == cs[k]);
                }
            }
        }
    }
}

/// Law (comment deletion): deleting a comment id from a found post
/// removes exactly the comments with that id, keeps the others in order,
/// leaves every other record untouched, and a second deletion of the
/// same id from the same post fails with `NotFound`, changing nothing.
pub proof fn law_delete_comment_twice(st: StoreV, post_id: Seq<char>, comment_id: Seq<char>)
    ensures
        ({
            let (st1, r1) = spec_delete_comment(st, post_id, comment_id);
            r1 == Result::<(), StoreError>::Ok(()) ==> {
                let i = find_rec(st.images, post_id)->Some_0;
                &&& st1.images[i].user_comments == keep_others(
                    st.images[i].user_comments,
                    comment_id,
                )
                &&& (forall|k: int|
                    0 <= k < st1.images[i].user_comments.len() ==> (#[trigger] st1.images[i].user_comments[k]).id
                        != comment_id)
                &&& (forall|j: int|
                    0 <= j < st.images.len() && j != i ==> #[trigger] st1.images[j]
                        == st.images[j])
                &&& spec_delete_comment(st1, post_id, comment_id) == (
                    st1,
                    Result::<(), StoreError>::Err(StoreError::NotFound),
                )
            }
        }),
{
    let (st1, r1) = spec_delete_comment(st, post_id, comment_id);
    if r1 == Result::<(), StoreError>::Ok(()) {
        lemma_find_rec(st.images, post_id);
        let i = find_rec(st.images, post_id)->Some_0;
        let kept = keep_others(st.images[i].user_comments, comment_id);
        lemma_keep_others(st.images[i].user_comments, comment_id);
        assert forall|j: int| 0 <= j < i implies (#[trigger] st1.images[j]).id != post_id by {
            assert(st1.images[j] == st.images[j]);
        }
        assert(st1.images[i].id == post_id);
        lemma_find_rec_is(st1.images, post_id, i);
        lemma_keep_others(kept, comment_id);
        assert(keep_others(kept, comment_id).len() == kept.len());
        assert(spec_delete_comment(st1, post_id, comment_id).0 == st1);
    }
}

/// Law (empty state): on a store with no prior writes, the record list
/// is empty rather than an error, and loading any image fails with
/// `NotFound`.
pub proof fn law_empty_store(st: StoreV, id: Seq<char>)
    requires
        st.images.len() == 0,
    ensures
        spec_load(st, id) == Result::<Seq<u8>, StoreError>::Err(StoreError::NotFound),
{
}

/// Law (analysis update): a successful update sets the analysis result
/// of the matched record and changes nothing else — not its other
/// fields, not its comments, not any other record, not the directory;
/// a missing id fails and changes nothing.
pub proof fn law_update_analysis(st: StoreV, id: Seq<char>, analysis: Seq<char>)
    ensures
        ({
            let (st2, r) = spec_update_analysis(st, id, analysis);
            match find_rec(st.images, id) {
                Option::None => st2 == st && r == Result::<(), StoreError>::Err(
                    StoreError::NotFound,
                ),
                Option::Some(i) => {
                    &&& r == Result::<(), StoreError>::Ok(())
                    &&& st2.images[i].analysis_result == Option::Some(analysis)
                    &&& st2.images[i].id == st.images[i].id
                    &&& st2.images[i].filename == st.images[i].filename
                    &&& st2.images[i].original_name == st.images[i].original_name
                    &&& st2.images[i].timestamp == st.images[i].timestamp
                    &&& st2.images[i].user_comments == st.images[i].user_comments
                    &&& st2.images.len() == st.images.len()
                    &&& (forall|j: int|
                        0 <= j < st.images.len() && j != i ==> #[trigger] st2.images[j]
                            == st.images[j])
                    &&& st2.files == st.files
                },
            }
        }),
{
    lemma_find_rec(st.images, id);
}

/// Law (attach idempotence): attaching the same record twice is the same
/// as attaching it once.
pub proof fn law_attach_idempotent(st: StoreV, rec: RecordV)
    ensures
        spec_attach(spec_attach(st, rec), rec) == spec_attach(st, rec),
{
    let st1 = spec_attach(st, rec);
    if find_rec(st.images, rec.id) is None {
        lemma_find_rec(st.images, rec.id);
        lemma_find_rec_is(st1.images, rec.id, st.images.len() as int);
    }
}

} // verus!
