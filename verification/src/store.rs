//! The metadata store: an in-memory model of the on-disk state (the JSON
//! index plus the images directory) with one method per store operation.
//! Each operation is specified by a transition function over the
//! mathematical view and proved to implement it.

use vstd::prelude::*;

use crate::clock::now_parts;
use crate::dir::DirV;
use crate::dir::dir_find;
use crate::dir::dir_lookup;
use crate::dir::dir_remove;
use crate::dir::dir_write;
use crate::dir::lemma_dir_find_is;
use crate::dir::lemma_dir_find_none;
use crate::errors::StoreError;
use crate::json::index_of_text;
use crate::json::record_of_text;
use crate::json::index_from_text;
use crate::json::index_text;
use crate::json::index_to_json;
use crate::json::record_from_text;
use crate::model::Comment;
use crate::model::CommentV;
use crate::model::ImageRecord;
use crate::model::IndexFile;
use crate::model::RecordV;
use crate::model::comments_v;
use crate::model::records_v;
use crate::text::captured_filename;
use crate::text::captured_filename_chars;
use crate::text::check_filename;
use crate::text::filename_safe;
use crate::text::image_id;
use crate::text::image_id_chars;
use crate::text::str_eq;

verus! {

/// One file of the images directory, as the store models it.
pub struct FileEntry {
    pub name: String,
    pub data: Vec<u8>,
}

impl View for FileEntry {
    type V = (Seq<char>, Seq<u8>);

    open spec fn view(&self) -> (Seq<char>, Seq<u8>) {
        (self.name@, self.data@)
    }
}

/// The views of a file sequence.
pub open spec fn files_v(files: Seq<FileEntry>) -> DirV {
    files.map_values(|f: FileEntry| f@)
}

/// The mathematical view of the whole store.
#[verifier::ext_equal]
pub struct StoreV {
    /// The records of the index, in insertion order.
    pub images: Seq<RecordV>,
    /// The images directory.
    pub files: DirV,
}

/// The view of an optional analysis result.
pub open spec fn opt_v(o: Option<String>) -> Option<Seq<char>> {
    match o {
        Option::Some(s) => Option::Some(s@),
        Option::None => Option::None,
    }
}

/// The position of the first record with the given id.
pub open spec fn find_rec(images: Seq<RecordV>, id: Seq<char>) -> Option<int>
    decreases images.len(),
{
    if images.len() == 0 {
        Option::None
    } else if images[0].id == id {
        Option::Some(0)
    } else {
        match find_rec(images.drop_first(), id) {
            Option::None => Option::None,
            Option::Some(i) => Option::Some(i + 1),
        }
    }
}

/// What `find_rec` returns: the first position holding the id, or `None`
/// when no position does.
pub proof fn lemma_find_rec(images: Seq<RecordV>, id: Seq<char>)
    ensures
        match find_rec(images, id) {
            Option::Some(i) => 0 <= i < images.len() && images[i].id == id && (forall|j: int|
                0 <= j < i ==> (#[trigger] images[j]).id != id),
            Option::None => forall|j: int| 0 <= j < images.len() ==> (#[trigger] images[j]).id != id,
        },
    decreases images.len(),
{
    if images.len() > 0 && images[0].id != id {
        let d = images.drop_first();
        lemma_find_rec(d, id);
        assert(forall|j: int| 0 <= j < d.len() ==> #[trigger] d[j] == images[j + 1]);
        match find_rec(d, id) {
            Option::None => {
                assert forall|j: int| 0 <= j < images.len() implies (#[trigger] images[j]).id
                    != id by {
                    if j > 0 {
                        assert(d[j - 1] == images[j]);
                        assert(d[j - 1].id != id);
                    }
                }
            },
            Option::Some(i) => {
                assert(find_rec(images, id) == Option::Some(i + 1));
                assert(d[i] == images[i + 1]);
                assert forall|j: int| 0 <= j < i + 1 implies (#[trigger] images[j]).id != id by {
                    if j > 0 {
                        assert(d[j - 1] == images[j]);
                        assert(d[j - 1].id != id);
                    }
                }
            },
        }
    }
}

/// `find_rec` finds a given witness: the first matching position.
pub proof fn lemma_find_rec_is(images: Seq<RecordV>, id: Seq<char>, i: int)
    requires
        0 <= i < images.len(),
        images[i].id == id,
        forall|j: int| 0 <= j < i ==> (#[trigger] images[j]).id != id,
    ensures
        find_rec(images, id) == Option::Some(i),
{
    lemma_find_rec(images, id);
    match find_rec(images, id) {
        Option::None => {
            assert(images[i].id != id);
        },
        Option::Some(k) => {
            if k < i {
                assert(images[k].id != id);
            } else if i < k {
                assert(images[i].id != id);
            }
        },
    }
}

/// `find_rec` returns `None` when no position matches.
pub proof fn lemma_find_rec_none(images: Seq<RecordV>, id: Seq<char>)
    requires
        forall|j: int| 0 <= j < images.len() ==> (#[trigger] images[j]).id != id,
    ensures
        find_rec(images, id) is None,
{
    lemma_find_rec(images, id);
    if let Option::Some(i) = find_rec(images, id) {
        assert(images[i].id != id);
    }
}

/// The comments that survive deleting `comment_id`: every comment whose id
/// differs, in their original order.
pub open spec fn keep_others(cs: Seq<CommentV>, comment_id: Seq<char>) -> Seq<CommentV>
    decreases cs.len(),
{
    if cs.len() == 0 {
        cs
    } else {
        let kept = keep_others(cs.drop_last(), comment_id);
        if cs.last().id == comment_id {
            kept
        } else {
            kept.push(cs.last())
        }
    }
}

/// Saving a captured image: the bytes go to the generated filename and a
/// fresh record with an empty comment list is appended to the index. The
/// generated id is returned.
pub open spec fn spec_save_captured(
    st: StoreV,
    data: Seq<u8>,
    original_name: Seq<char>,
    analysis: Option<Seq<char>>,
    secs: int,
    now_rfc3339: Seq<char>,
) -> (StoreV, Seq<char>) {
    let id = image_id_chars(secs);
    let fname = captured_filename_chars(secs, original_name);
    let rec = RecordV {
        id: id,
        filename: fname,
        original_name: original_name,
        timestamp: now_rfc3339,
        analysis_result: analysis,
        user_comments: Seq::empty(),
    };
    (StoreV { images: st.images.push(rec), files: dir_write(st.files, fname, data) }, id)
}

/// Saving a network image: an unsafe filename is rejected and nothing
/// changes; otherwise the bytes are written and the index is untouched.
pub open spec fn spec_save_network(st: StoreV, filename: Seq<char>, data: Seq<u8>) -> (
    StoreV,
    Result<(), StoreError>,
) {
    if !filename_safe(filename) {
        (st, Result::Err(StoreError::InvalidFilename))
    } else {
        (
            StoreV { images: st.images, files: dir_write(st.files, filename, data) },
            Result::Ok(()),
        )
    }
}

/// Attaching an imported record: appended only when no existing record
/// shares its id, so a re-import leaves the index unchanged.
pub open spec fn spec_attach(st: StoreV, rec: RecordV) -> StoreV {
    if find_rec(st.images, rec.id) is Some {
        st
    } else {
        StoreV { images: st.images.push(rec), ..st }
    }
}

/// Importing a network image with its metadata record: an unsafe filename
/// is rejected; otherwise the bytes are written (overwriting any previous
/// file) and the record is attached.
pub open spec fn spec_import(st: StoreV, filename: Seq<char>, data: Seq<u8>, rec: RecordV) -> (
    StoreV,
    Result<(), StoreError>,
) {
    if !filename_safe(filename) {
        (st, Result::Err(StoreError::InvalidFilename))
    } else {
        (
            spec_attach(
                StoreV { files: dir_write(st.files, filename, data), ..st },
                rec,
            ),
            Result::Ok(()),
        )
    }
}

/// Loading the bytes of a stored image: the record is found by id, then
/// its file by name; a record without its file is an I/O failure, not an
/// empty result.
pub open spec fn spec_load(st: StoreV, id: Seq<char>) -> Result<Seq<u8>, StoreError> {
    match find_rec(st.images, id) {
        Option::None => Result::Err(StoreError::NotFound),
        Option::Some(i) => match dir_lookup(st.files, st.images[i].filename) {
            Option::None => Result::Err(StoreError::IoFailure),
            Option::Some(d) => Result::Ok(d),
        },
    }
}

/// Replacing a record's whole comment list.
pub open spec fn spec_replace_comments(st: StoreV, id: Seq<char>, cs: Seq<CommentV>) -> (
    StoreV,
    Result<(), StoreError>,
) {
    match find_rec(st.images, id) {
        Option::None => (st, Result::Err(StoreError::NotFound)),
        Option::Some(i) => (
            StoreV {
                images: st.images.update(i, RecordV { user_comments: cs, ..st.images[i] }),
                ..st
            },
            Result::Ok(()),
        ),
    }
}

/// Deleting a post: the record leaves the index and its file leaves the
/// directory (a missing file is tolerated).
pub open spec fn spec_delete_post(st: StoreV, id: Seq<char>) -> (StoreV, Result<(), StoreError>) {
    match find_rec(st.images, id) {
        Option::None => (st, Result::Err(StoreError::NotFound)),
        Option::Some(i) => (
            StoreV {
                images: st.images.remove(i),
                files: dir_remove(st.files, st.images[i].filename),
            },
            Result::Ok(()),
        ),
    }
}

/// Deleting a comment: every comment with the given id leaves the found
/// record's list; when none matched, the store is unchanged and the
/// operation fails.
pub open spec fn spec_delete_comment(st: StoreV, post_id: Seq<char>, comment_id: Seq<char>) -> (
    StoreV,
    Result<(), StoreError>,
) {
    match find_rec(st.images, post_id) {
        Option::None => (st, Result::Err(StoreError::NotFound)),
        Option::Some(i) => {
            let kept = keep_others(st.images[i].user_comments, comment_id);
            if kept.len() == st.images[i].user_comments.len() {
                (st, Result::Err(StoreError::NotFound))
            } else {
                (
                    StoreV {
                        images: st.images.update(
                            i,
                            RecordV { user_comments: kept, ..st.images[i] },
                        ),
                        ..st
                    },
                    Result::Ok(()),
                )
            }
        },
    }
}

/// Setting or overwriting a record's analysis result.
pub open spec fn spec_update_analysis(st: StoreV, id: Seq<char>, analysis: Seq<char>) -> (
    StoreV,
    Result<(), StoreError>,
) {
    match find_rec(st.images, id) {
        Option::None => (st, Result::Err(StoreError::NotFound)),
        Option::Some(i) => (
            StoreV {
                images: st.images.update(
                    i,
                    RecordV { analysis_result: Option::Some(analysis), ..st.images[i] },
                ),
                ..st
            },
            Result::Ok(()),
        ),
    }
}

/// The in-memory store: the parsed index plus the modelled directory.
pub struct ImageStore {
    pub images: Vec<ImageRecord>,
    pub files: Vec<FileEntry>,
}

impl View for ImageStore {
    type V = StoreV;

    open spec fn view(&self) -> StoreV {
        StoreV { images: records_v(self.images@), files: files_v(self.files@) }
    }
}

/// Copies a byte vector.
fn copy_bytes(src: &Vec<u8>) -> (r: Vec<u8>)
    ensures
        r@ == src@,
{
    let mut r: Vec<u8> = Vec::new();
    let mut i: usize = 0;
    while i < src.len()
        invariant
            i <= src.len(),
            r@ =~= src@.subrange(0, i as int),
        decreases src.len() - i,
    {
        r.push(src[i]);
        proof {
            assert(r@ =~= src@.subrange(0, i + 1));
        }
        i = i + 1;
    }
    proof {
        assert(r@ =~= src@);
    }
    r
}

/// The position of the first directory entry with the given name.
fn dir_find_exec(files: &Vec<FileEntry>, name: &str) -> (r: Option<usize>)
    ensures
        match r {
            Option::Some(u) => u < files.len() && dir_find(files_v(files@), name@)
                == Option::Some(u as int),
            Option::None => dir_find(files_v(files@), name@) is None,
        },
{
    let mut i: usize = 0;
    while i < files.len()
        invariant
            i <= files.len(),
            forall|k: int| 0 <= k < i ==> files_v(files@)[k].0 != name@,
        decreases files.len() - i,
    {
        if str_eq(files[i].name.as_str(), name) {
            proof {
                lemma_dir_find_is(files_v(files@), name@, i as int);
            }
            return Option::Some(i);
        }
        i = i + 1;
    }
    proof {
        lemma_dir_find_none(files_v(files@), name@);
    }
    Option::None
}

/// Writes `data` under `name` in the modelled directory.
fn dir_write_exec(files: &mut Vec<FileEntry>, name: String, data: Vec<u8>)
    ensures
        files_v(final(files)@) == dir_write(files_v(old(files)@), name@, data@),
{
    match dir_find_exec(files, name.as_str()) {
        Option::None => {
            files.push(FileEntry { name, data });
            proof {
                assert(files_v(files@) =~= dir_write(files_v(old(files)@), name@, data@));
            }
        },
        Option::Some(i) => {
            files.remove(i);
            files.insert(i, FileEntry { name, data });
            proof {
                assert(files_v(files@) =~= dir_write(files_v(old(files)@), name@, data@));
            }
        },
    }
}

impl ImageStore {
    /// A store with no prior writes: no records, no files.
    pub fn new() -> (r: ImageStore)
        ensures
            r@.images.len() == 0,
            r@.files.len() == 0,
    {
        ImageStore { images: Vec::new(), files: Vec::new() }
    }

    /// A store over an already-loaded index and directory listing.
    pub fn from_parts(index: IndexFile, files: Vec<FileEntry>) -> (r: ImageStore)
        ensures
            r@.images == index@,
            r@.files == files_v(files@),
    {
        ImageStore { images: index.images, files }
    }

    /// The position of the first record with the given id.
    fn find_index(&self, id: &str) -> (r: Option<usize>)
        ensures
            match r {
                Option::Some(u) => u < self.images.len() && find_rec(self@.images, id@)
                    == Option::Some(u as int),
                Option::None => find_rec(self@.images, id@) is None,
            },
    {
        let mut i: usize = 0;
        while i < self.images.len()
            invariant
                i <= self.images.len(),
                forall|k: int| 0 <= k < i ==> self@.images[k].id != id@,
            decreases self.images.len() - i,
        {
            if str_eq(self.images[i].id.as_str(), id) {
                proof {
                    lemma_find_rec_is(self@.images, id@, i as int);
                }
                return Option::Some(i);
            }
            i = i + 1;
        }
        proof {
            lemma_find_rec_none(self@.images, id@);
        }
        Option::None
    }

    /// The ordered sequence of image records; empty on a store with no
    /// prior writes.
    pub fn list_images(&self) -> (r: &Vec<ImageRecord>)
        ensures
            records_v(r@) == self@.images,
    {
        &self.images
    }

    /// Saves a locally captured image taken at the given instant: writes
    /// the bytes under a generated filename, appends a fresh record and
    /// returns the generated id.
    pub fn save_captured_image(
        &mut self,
        image_data: Vec<u8>,
        original_name: &str,
        analysis_result: Option<String>,
        now_secs: i64,
        now_rfc3339: String,
    ) -> (id: String)
        ensures
            ({
                let (st2, idv) = spec_save_captured(
                    old(self)@,
                    image_data@,
                    original_name@,
                    opt_v(analysis_result),
                    now_secs as int,
                    now_rfc3339@,
                );
                final(self)@ == st2 && id@ == idv
            }),
    {
        let id = image_id(now_secs);
        let filename = captured_filename(now_secs, original_name);
        let record_name = filename.clone();
        dir_write_exec(&mut self.files, filename, image_data);
        let rec = ImageRecord {
            id: id.clone(),
            filename: record_name,
            original_name: original_name.to_owned(),
            timestamp: now_rfc3339,
            analysis_result,
            user_comments: Vec::new(),
        };
        self.images.push(rec);
        proof {
            let (st2, idv) = spec_save_captured(
                old(self)@,
                image_data@,
                original_name@,
                opt_v(analysis_result),
                now_secs as int,
                now_rfc3339@,
            );
            assert(self@.images =~~= st2.images);
            assert(self@ =~~= st2);
        }
        id
    }

    /// Saves a locally captured image at the instant the clock reports:
    /// draws the current time and saves under it. Which instant the clock
    /// returns is not specified, so the outcome is a save at some instant.
    pub fn save_image(
        &mut self,
        image_data: Vec<u8>,
        original_name: &str,
        analysis_result: Option<String>,
    ) -> (id: String)
        ensures
            exists|secs: int, rfc: Seq<char>|
                {
                    &&& final(self)@ == (#[trigger] spec_save_captured(
                        old(self)@,
                        image_data@,
                        original_name@,
                        opt_v(analysis_result),
                        secs,
                        rfc,
                    )).0
                    &&& id@ == spec_save_captured(
                        old(self)@,
                        image_data@,
                        original_name@,
                        opt_v(analysis_result),
                        secs,
                        rfc,
                    ).1
                },
    {
        let now = now_parts();
        let ghost st0 = self@;
        let ghost a = opt_v(analysis_result);
        let id = self.save_captured_image(
            image_data,
            original_name,
            analysis_result,
            now.0,
            now.1,
        );
        proof {
            assert(self@ == spec_save_captured(
                st0,
                image_data@,
                original_name@,
                a,
                now.0 as int,
                now.1@,
            ).0 && id@ == spec_save_captured(
                st0,
                image_data@,
                original_name@,
                a,
                now.0 as int,
                now.1@,
            ).1);
        }
        id
    }

    /// Saves a network image under a caller-supplied filename, after the
    /// sanitization check; the index is untouched.
    pub fn save_network_image(&mut self, filename: &str, image_data: Vec<u8>) -> (r: Result<
        (),
        StoreError,
    >)
        ensures
            ({
                let (st2, r2) = spec_save_network(old(self)@, filename@, image_data@);
                final(self)@ == st2 && r == r2
            }),
    {
        if !check_filename(filename) {
            return Result::Err(StoreError::InvalidFilename);
        }
        dir_write_exec(&mut self.files, filename.to_owned(), image_data);
        proof {
            let (st2, r2) = spec_save_network(old(self)@, filename@, image_data@);
            assert(self@ =~= st2);
        }
        Result::Ok(())
    }

    /// Appends an imported record unless a record with its id already
    /// exists.
    pub fn attach_record(&mut self, rec: ImageRecord)
        ensures
            final(self)@ == spec_attach(old(self)@, rec@),
    {
        match self.find_index(rec.id.as_str()) {
            Option::Some(_) => {
                proof {
                    assert(self@ =~= spec_attach(old(self)@, rec@));
                }
            },
            Option::None => {
                self.images.push(rec);
                proof {
                    assert(self@.images =~= spec_attach(old(self)@, rec@).images);
                    assert(self@ =~= spec_attach(old(self)@, rec@));
                }
            },
        }
    }

    /// Imports a network image together with its already-parsed metadata
    /// record: sanitizes the filename, writes the bytes, and attaches the
    /// record unless its id is already present.
    pub fn import_network_image(
        &mut self,
        filename: &str,
        image_data: Vec<u8>,
        rec: ImageRecord,
    ) -> (r: Result<(), StoreError>)
        ensures
            ({
                let (st2, r2) = spec_import(old(self)@, filename@, image_data@, rec@);
                final(self)@ == st2 && r == r2
            }),
    {
        if !check_filename(filename) {
            return Result::Err(StoreError::InvalidFilename);
        }
        dir_write_exec(&mut self.files, filename.to_owned(), image_data);
        self.attach_record(rec);
        proof {
            let (st2, r2) = spec_import(old(self)@, filename@, image_data@, rec@);
            assert(self@ =~= st2);
        }
        Result::Ok(())
    }

    /// Wholesale-replaces the index with an already-validated one; the
    /// directory is untouched. Returns how many records the new index
    /// holds.
    pub fn set_index(&mut self, index: IndexFile) -> (n: usize)
        ensures
            final(self)@.images == index@,
            final(self)@.files == old(self)@.files,
            n == index@.len(),
    {
        let n = index.images.len();
        self.images = index.images;
        n
    }

    /// Wholesale-replaces the index from its JSON text: it succeeds
    /// exactly when the text is one well-formed JSON document whose
    /// denoted value matches the index schema, and then the records that
    /// value denotes replace the whole index; the directory is
    /// untouched. Returns how many records the new index holds; a
    /// failure leaves the store unchanged.
    pub fn replace_index_json(&mut self, new_index_json: &str) -> (r: Result<usize, StoreError>)
        ensures
            (match index_of_text(new_index_json@) {
                Option::Some(rs) => r matches Ok(n) && final(self)@.images == rs && n == rs.len()
                    && final(self)@.files == old(self)@.files,
                Option::None => r == Result::<usize, StoreError>::Err(
                    StoreError::InvalidIndexFormat,
                ) && final(self)@ == old(self)@,
            }),
    {
        match index_from_text(new_index_json) {
            Result::Err(e) => Result::Err(e),
            Result::Ok(index) => {
                let n = self.set_index(index);
                Result::Ok(n)
            },
        }
    }

    /// Saves a network image together with its metadata record, given as
    /// JSON text: sanitizes the filename, writes the bytes, then parses
    /// the record and attaches it unless its id is already present. It
    /// succeeds exactly when, under a safe filename, the text is one
    /// well-formed JSON document whose denoted value matches the record
    /// schema, and then the attached record is the one that value
    /// denotes. A text that does not denote a record leaves the
    /// already-written bytes in place, as the index is only touched
    /// after the write.
    pub fn save_network_image_with_metadata(
        &mut self,
        filename: &str,
        image_data: Vec<u8>,
        image_metadata: &str,
    ) -> (r: Result<(), StoreError>)
        ensures
            !filename_safe(filename@) ==> r == Result::<(), StoreError>::Err(
                StoreError::InvalidFilename,
            ) && final(self)@ == old(self)@,
            filename_safe(filename@) ==> (match record_of_text(image_metadata@) {
                Option::Some(rec) => r == Result::<(), StoreError>::Ok(()) && final(self)@
                    == spec_import(old(self)@, filename@, image_data@, rec).0,
                Option::None => ({
                    &&& r == Result::<(), StoreError>::Err(StoreError::InvalidIndexFormat)
                    &&& final(self)@.images == old(self)@.images
                    &&& final(self)@.files == dir_write(old(self)@.files, filename@, image_data@)
                }),
            }),
    {
        if !check_filename(filename) {
            return Result::Err(StoreError::InvalidFilename);
        }
        dir_write_exec(&mut self.files, filename.to_owned(), image_data);
        match record_from_text(image_metadata) {
            Result::Err(e) => {
                proof {
                    assert(self@.files =~= dir_write(old(self)@.files, filename@, image_data@));
                }
                Result::Err(e)
            },
            Result::Ok(rec) => {
                let ghost rv = rec@;
                self.attach_record(rec);
                proof {
                    assert(self@ =~= spec_import(old(self)@, filename@, image_data@, rv).0);
                }
                Result::Ok(())
            },
        }
    }

    /// The index in its on-disk JSON form.
    pub fn index_json(&self) -> (r: String)
        ensures
            r@ == index_text(self@.images),
    {
        index_to_json(&self.images)
    }

    /// Loads the bytes of the image whose record has the given id.
    pub fn load_image_bytes(&self, image_id: &str) -> (r: Result<Vec<u8>, StoreError>)
        ensures
            ({
                let r2 = spec_load(self@, image_id@);
                match r {
                    Result::Ok(d) => r2 == Result::<Seq<u8>, StoreError>::Ok(d@),
                    Result::Err(e) => r2 == Result::<Seq<u8>, StoreError>::Err(e),
                }
            }),
    {
        match self.find_index(image_id) {
            Option::None => Result::Err(StoreError::NotFound),
            Option::Some(i) => {
                match dir_find_exec(&self.files, self.images[i].filename.as_str()) {
                    Option::None => Result::Err(StoreError::IoFailure),
                    Option::Some(j) => Result::Ok(copy_bytes(&self.files[j].data)),
                }
            },
        }
    }

    /// Overwrites the whole comment list of the record with the given id.
    pub fn update_image_comments(&mut self, image_id: &str, comments: Vec<Comment>) -> (r: Result<
        (),
        StoreError,
    >)
        ensures
            ({
                let (st2, r2) = spec_replace_comments(old(self)@, image_id@, comments_v(comments@));
                final(self)@ == st2 && r == r2
            }),
    {
        match self.find_index(image_id) {
            Option::None => Result::Err(StoreError::NotFound),
            Option::Some(i) => {
                let mut rec = self.images.remove(i);
                rec.user_comments = comments;
                self.images.insert(i, rec);
                proof {
                    let (st2, r2) = spec_replace_comments(
                        old(self)@,
                        image_id@,
                        comments_v(comments@),
                    );
                    assert(self@.images =~= st2.images);
                    assert(self@ =~= st2);
                }
                Result::Ok(())
            },
        }
    }

    /// Deletes a post: removes its image file (a missing file is
    /// tolerated) and its index record.
    pub fn delete_post(&mut self, post_id: &str) -> (r: Result<(), StoreError>)
        ensures
            ({
                let (st2, r2) = spec_delete_post(old(self)@, post_id@);
                final(self)@ == st2 && r == r2
            }),
    {
        match self.find_index(post_id) {
            Option::None => Result::Err(StoreError::NotFound),
            Option::Some(i) => {
                match dir_find_exec(&self.files, self.images[i].filename.as_str()) {
                    Option::None => {
                    },
                    Option::Some(j) => {
                        self.files.remove(j);
                    },
                }
                self.images.remove(i);
                proof {
                    let (st2, r2) = spec_delete_post(old(self)@, post_id@);
                    assert(self@.images =~= st2.images);
                    assert(self@.files =~= st2.files);
                    assert(self@ =~= st2);
                }
                Result::Ok(())
            },
        }
    }

    /// Deletes every comment with the given id from the given post's
    /// list; fails, leaving the store unchanged, when no comment matched.
    pub fn delete_comment(&mut self, post_id: &str, comment_id: &str) -> (r: Result<
        (),
        StoreError,
    >)
        ensures
            ({
                let (st2, r2) = spec_delete_comment(old(self)@, post_id@, comment_id@);
                final(self)@ == st2 && r == r2
            }),
    {
        match self.find_index(post_id) {
            Option::None => Result::Err(StoreError::NotFound),
            Option::Some(i) => {
                let mut rec = self.images.remove(i);
                let old_len = rec.user_comments.len();
                let mut kept: Vec<Comment> = Vec::new();
                let mut j: usize = 0;
                while j < rec.user_comments.len()
                    invariant
                        j <= rec.user_comments.len(),
                        comments_v(kept@) =~= keep_others(
                            comments_v(rec.user_comments@.subrange(0, j as int)),
                            comment_id@,
                        ),
                    decreases rec.user_comments.len() - j,
                {
                    proof {
                        assert(rec.user_comments@.subrange(0, j + 1).drop_last()
                            =~= rec.user_comments@.subrange(0, j as int));
                        assert(comments_v(rec.user_comments@.subrange(0, j + 1)).drop_last()
                            =~= comments_v(rec.user_comments@.subrange(0, j as int)));
                    }
                    if !str_eq(rec.user_comments[j].id.as_str(), comment_id) {
                        kept.push(rec.user_comments[j].duplicate());
                        proof {
                            assert(comments_v(kept@) =~= keep_others(
                                comments_v(rec.user_comments@.subrange(0, j + 1)),
                                comment_id@,
                            ));
                        }
                    } else {
                        proof {
                            assert(comments_v(kept@) =~= keep_others(
                                comments_v(rec.user_comments@.subrange(0, j + 1)),
                                comment_id@,
                            ));
                        }
                    }
                    j = j + 1;
                }
                proof {
                    assert(rec.user_comments@.subrange(0, rec.user_comments@.len() as int)
                        =~= rec.user_comments@);
                }
                if kept.len() == old_len {
                    self.images.insert(i, rec);
                    proof {
                        let (st2, r2) = spec_delete_comment(old(self)@, post_id@, comment_id@);
                        assert(self@.images =~= st2.images);
                        assert(self@ =~= st2);
                    }
                    Result::Err(StoreError::NotFound)
                } else {
                    rec.user_comments = kept;
                    self.images.insert(i, rec);
                    proof {
                        let (st2, r2) = spec_delete_comment(old(self)@, post_id@, comment_id@);
                        assert(self@.images =~= st2.images);
                        assert(self@ =~= st2);
                    }
                    Result::Ok(())
                }
            },
        }
    }

    /// Sets or overwrites the analysis result of the record with the
    /// given id.
    pub fn update_image_analysis(&mut self, image_id: &str, analysis_result: String) -> (r: Result<
        (),
        StoreError,
    >)
        ensures
            ({
                let (st2, r2) = spec_update_analysis(old(self)@, image_id@, analysis_result@);
                final(self)@ == st2 && r == r2
            }),
    {
        match self.find_index(image_id) {
            Option::None => Result::Err(StoreError::NotFound),
            Option::Some(i) => {
                let mut rec = self.images.remove(i);
                rec.analysis_result = Option::Some(analysis_result);
                self.images.insert(i, rec);
                proof {
                    let (st2, r2) = spec_update_analysis(old(self)@, image_id@, analysis_result@);
                    assert(self@.images =~= st2.images);
                    assert(self@ =~= st2);
                }
                Result::Ok(())
            },
        }
    }
}

} // verus!
