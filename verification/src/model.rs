//! The data model of the store: comments, image records and the index,
//! together with their mathematical views.

use vstd::prelude::*;

verus! {

/// One user comment attached to an image record.
pub struct Comment {
    /// Caller-supplied identifier, unique within one record's comment list.
    pub id: String,
    /// User-authored content.
    pub text: String,
    /// UTC instant, as an RFC 3339 string.
    pub timestamp: String,
    /// Marks the comment as AI-generated (informational only).
    pub is_ai: bool,
}

/// The mathematical view of a [`Comment`].
#[verifier::ext_equal]
pub struct CommentV {
    pub id: Seq<char>,
    pub text: Seq<char>,
    pub timestamp: Seq<char>,
    pub is_ai: bool,
}

impl View for Comment {
    type V = CommentV;

    open spec fn view(&self) -> CommentV {
        CommentV {
            id: self.id@,
            text: self.text@,
            timestamp: self.timestamp@,
            is_ai: self.is_ai,
        }
    }
}

impl Comment {
    /// An exact copy of the comment.
    pub fn duplicate(&self) -> (r: Comment)
        ensures
            r@ == self@,
    {
        Comment {
            id: self.id.clone(),
            text: self.text.clone(),
            timestamp: self.timestamp.clone(),
            is_ai: self.is_ai,
        }
    }
}

/// One entry of the index: an image file paired with its mutable metadata.
pub struct ImageRecord {
    /// Store-generated (or imported) identifier.
    pub id: String,
    /// On-disk name of the stored image file, inside the images directory.
    pub filename: String,
    /// Caller-supplied source filename; only its extension is used.
    pub original_name: String,
    /// UTC creation instant, as an RFC 3339 string.
    pub timestamp: String,
    /// Present once an analysis has been attached.
    pub analysis_result: Option<String>,
    /// Ordered comment list; insertion order is display order.
    pub user_comments: Vec<Comment>,
}

/// The views of a comment sequence.
pub open spec fn comments_v(cs: Seq<Comment>) -> Seq<CommentV> {
    cs.map_values(|c: Comment| c@)
}

/// The mathematical view of an [`ImageRecord`].
#[verifier::ext_equal]
pub struct RecordV {
    pub id: Seq<char>,
    pub filename: Seq<char>,
    pub original_name: Seq<char>,
    pub timestamp: Seq<char>,
    pub analysis_result: Option<Seq<char>>,
    pub user_comments: Seq<CommentV>,
}

impl View for ImageRecord {
    type V = RecordV;

    open spec fn view(&self) -> RecordV {
        RecordV {
            id: self.id@,
            filename: self.filename@,
            original_name: self.original_name@,
            timestamp: self.timestamp@,
            analysis_result: match self.analysis_result {
                Option::Some(s) => Option::Some(s@),
                Option::None => Option::None,
            },
            user_comments: comments_v(self.user_comments@),
        }
    }
}

impl ImageRecord {
    /// An exact copy of the record.
    pub fn duplicate(&self) -> (r: ImageRecord)
        ensures
            r@ == self@,
    {
        let mut comments: Vec<Comment> = Vec::new();
        let mut i: usize = 0;
        while i < self.user_comments.len()
            invariant
                i <= self.user_comments.len(),
                comments@.len() == i,
                forall|k: int| 0 <= k < i ==> comments@[k]@ == self.user_comments@[k]@,
            decreases self.user_comments.len() - i,
        {
            comments.push(self.user_comments[i].duplicate());
            i = i + 1;
        }
        proof {
            assert(comments_v(comments@) =~= comments_v(self.user_comments@));
        }
        let r = ImageRecord {
            id: self.id.clone(),
            filename: self.filename.clone(),
            original_name: self.original_name.clone(),
            timestamp: self.timestamp.clone(),
            analysis_result: match &self.analysis_result {
                Option::Some(s) => Option::Some(s.clone()),
                Option::None => Option::None,
            },
            user_comments: comments,
        };
        proof {
            assert(r@ =~= self@);
        }
        r
    }
}

/// The persisted root: the ordered sequence of image records.
pub struct IndexFile {
    pub images: Vec<ImageRecord>,
}

impl View for IndexFile {
    type V = Seq<RecordV>;

    open spec fn view(&self) -> Seq<RecordV> {
        self.images@.map_values(|r: ImageRecord| r@)
    }
}

/// The views of a record sequence.
pub open spec fn records_v(images: Seq<ImageRecord>) -> Seq<RecordV> {
    images.map_values(|r: ImageRecord| r@)
}

} // verus!
