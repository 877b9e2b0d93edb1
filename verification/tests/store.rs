use image_store::Comment;
use image_store::ImageRecord;
use image_store::ImageStore;
use image_store::IndexFile;
use image_store::StoreError;

fn comment(id: &str, text: &str) -> Comment {
    Comment {
        id: id.to_string(),
        text: text.to_string(),
        timestamp: "2024-01-02T03:04:05+00:00".to_string(),
        is_ai: false,
    }
}

fn record(id: &str, filename: &str) -> ImageRecord {
    ImageRecord {
        id: id.to_string(),
        filename: filename.to_string(),
        original_name: "source.png".to_string(),
        timestamp: "2024-01-02T03:04:05+00:00".to_string(),
        analysis_result: None,
        user_comments: Vec::new(),
    }
}

#[test]
fn save_captured_then_list_round_trip() {
    let mut st = ImageStore::new();
    let id = st.save_captured_image(
        vec![1, 2, 3],
        "photo.png",
        Some("a cat".to_string()),
        1700000000,
        "2023-11-14T22:13:20+00:00".to_string(),
    );
    assert_eq!(id, "img_1700000000");
    let imgs = st.list_images();
    assert_eq!(imgs.len(), 1);
    assert_eq!(imgs[0].id, "img_1700000000");
    assert_eq!(imgs[0].filename, "img_1700000000.png");
    assert_eq!(imgs[0].original_name, "photo.png");
    assert_eq!(imgs[0].analysis_result.as_deref(), Some("a cat"));
    assert!(imgs[0].user_comments.is_empty());
    let bytes = st.load_image_bytes("img_1700000000").unwrap();
    assert_eq!(bytes, vec![1, 2, 3]);
}

#[test]
fn save_captured_negative_seconds() {
    let mut st = ImageStore::new();
    let id = st.save_captured_image(
        vec![9],
        "old",
        None,
        -5,
        "1969-12-31T23:59:55+00:00".to_string(),
    );
    assert_eq!(id, "img_-5");
    assert_eq!(st.list_images()[0].filename, "img_-5.jpg");
}

#[test]
fn save_image_generates_prefixed_id() {
    let mut st = ImageStore::new();
    let id = st.save_image(vec![7], "shot.jpeg", None);
    assert!(id.starts_with("img_"));
    let imgs = st.list_images();
    assert_eq!(imgs.len(), 1);
    assert_eq!(imgs[0].id, id);
    assert!(imgs[0].filename.ends_with(".jpeg"));
}

#[test]
fn network_save_rejects_traversal() {
    let mut st = ImageStore::new();
    assert_eq!(
        st.save_network_image("../evil.png", vec![1]),
        Err(StoreError::InvalidFilename)
    );
    assert_eq!(
        st.save_network_image("a/b.png", vec![1]),
        Err(StoreError::InvalidFilename)
    );
    assert_eq!(
        st.save_network_image("a\\b.png", vec![1]),
        Err(StoreError::InvalidFilename)
    );
    assert!(st.list_images().is_empty());
    assert!(st.files.is_empty());
}

#[test]
fn network_save_accepts_plain_name() {
    let mut st = ImageStore::new();
    assert_eq!(st.save_network_image("pic.png", vec![5, 6]), Ok(()));
    assert!(st.list_images().is_empty());
    assert_eq!(st.files.len(), 1);
    assert_eq!(st.files[0].name, "pic.png");
    assert_eq!(st.files[0].data, vec![5, 6]);
}

#[test]
fn import_same_id_twice_keeps_one_entry() {
    let mut st = ImageStore::new();
    let meta = "{\"id\":\"net_1\",\"filename\":\"n.png\",\"original_name\":\"n.png\",\"timestamp\":\"2024-01-02T03:04:05+00:00\",\"analysis_result\":null,\"user_comments\":[]}";
    assert_eq!(
        st.save_network_image_with_metadata("n.png", vec![1], meta),
        Ok(())
    );
    assert_eq!(
        st.save_network_image_with_metadata("n.png", vec![2], meta),
        Ok(())
    );
    let imgs = st.list_images();
    assert_eq!(imgs.len(), 1);
    assert_eq!(imgs[0].id, "net_1");
    assert_eq!(st.load_image_bytes("net_1").unwrap(), vec![2]);
}

#[test]
fn import_with_bad_metadata_still_writes_file() {
    let mut st = ImageStore::new();
    assert_eq!(
        st.save_network_image_with_metadata("n.png", vec![1], "not json"),
        Err(StoreError::InvalidIndexFormat)
    );
    assert!(st.list_images().is_empty());
    assert_eq!(st.files.len(), 1);
    assert_eq!(st.files[0].data, vec![1]);
}

#[test]
fn import_rejects_bad_timestamp() {
    let mut st = ImageStore::new();
    let meta = "{\"id\":\"net_1\",\"filename\":\"n.png\",\"original_name\":\"n.png\",\"timestamp\":\"2024-01-02\",\"analysis_result\":null,\"user_comments\":[]}";
    assert_eq!(
        st.save_network_image_with_metadata("n.png", vec![1], meta),
        Err(StoreError::InvalidIndexFormat)
    );
}

#[test]
fn delete_post_removes_record_and_file() {
    let mut st = ImageStore::new();
    st.save_captured_image(vec![1], "a.png", None, 10, "t".to_string());
    st.save_captured_image(vec![2], "b.png", None, 20, "t".to_string());
    assert_eq!(st.delete_post("img_10"), Ok(()));
    let imgs = st.list_images();
    assert_eq!(imgs.len(), 1);
    assert_eq!(imgs[0].id, "img_20");
    assert_eq!(st.files.len(), 1);
    assert_eq!(st.files[0].name, "img_20.png");
    assert_eq!(
        st.load_image_bytes("img_10"),
        Err(StoreError::NotFound)
    );
}

#[test]
fn delete_missing_post_fails_and_changes_nothing() {
    let mut st = ImageStore::new();
    st.save_captured_image(vec![1], "a.png", None, 10, "t".to_string());
    assert_eq!(st.delete_post("img_99"), Err(StoreError::NotFound));
    assert_eq!(st.list_images().len(), 1);
    assert_eq!(st.files.len(), 1);
}

#[test]
fn delete_comment_removes_then_fails() {
    let mut st = ImageStore::new();
    st.save_captured_image(vec![1], "a.png", None, 10, "t".to_string());
    let c1 = comment("c1", "first");
    let c2 = comment("c2", "second");
    assert_eq!(st.update_image_comments("img_10", vec![c1, c2]), Ok(()));
    assert_eq!(st.delete_comment("img_10", "c1"), Ok(()));
    let imgs = st.list_images();
    assert_eq!(imgs[0].user_comments.len(), 1);
    assert_eq!(imgs[0].user_comments[0].id, "c2");
    assert_eq!(imgs[0].user_comments[0].text, "second");
    assert_eq!(st.delete_comment("img_10", "c1"), Err(StoreError::NotFound));
    assert_eq!(st.list_images()[0].user_comments.len(), 1);
}

#[test]
fn delete_comment_missing_post_fails() {
    let mut st = ImageStore::new();
    assert_eq!(st.delete_comment("nope", "c1"), Err(StoreError::NotFound));
}

#[test]
fn empty_store_lists_nothing_and_load_fails() {
    let st = ImageStore::new();
    assert!(st.list_images().is_empty());
    assert_eq!(st.load_image_bytes("img_1"), Err(StoreError::NotFound));
}

#[test]
fn update_analysis_touches_only_target() {
    let mut st = ImageStore::new();
    st.save_captured_image(vec![1], "a.png", None, 10, "t".to_string());
    st.save_captured_image(vec![2], "b.png", Some("old".to_string()), 20, "t".to_string());
    let c1 = comment("c1", "kept");
    assert_eq!(st.update_image_comments("img_10", vec![c1]), Ok(()));
    assert_eq!(st.update_image_analysis("img_10", "result".to_string()), Ok(()));
    let imgs = st.list_images();
    assert_eq!(imgs[0].analysis_result.as_deref(), Some("result"));
    assert_eq!(imgs[0].user_comments.len(), 1);
    assert_eq!(imgs[0].user_comments[0].text, "kept");
    assert_eq!(imgs[1].analysis_result.as_deref(), Some("old"));
    assert_eq!(st.update_image_analysis("img_99", "x".to_string()), Err(StoreError::NotFound));
}

#[test]
fn update_comments_missing_id_fails() {
    let mut st = ImageStore::new();
    assert_eq!(
        st.update_image_comments("img_1", vec![comment("c", "t")]),
        Err(StoreError::NotFound)
    );
}

#[test]
fn load_record_without_file_is_io_failure() {
    let st = ImageStore::from_parts(
        IndexFile {
            images: vec![record("img_1", "gone.png")],
        },
        Vec::new(),
    );
    assert_eq!(st.load_image_bytes("img_1"), Err(StoreError::IoFailure));
}

#[test]
fn error_messages_cover_all_kinds() {
    assert_eq!(
        StoreError::DirectoryUnavailable.message(),
        "storage directory unavailable"
    );
    assert_eq!(StoreError::InvalidFilename.message(), "invalid filename");
    assert_eq!(
        StoreError::InvalidIndexFormat.message(),
        "invalid index format"
    );
    assert_eq!(StoreError::NotFound.message(), "not found");
    assert_eq!(StoreError::IoFailure.message(), "io failure");
}

#[test]
fn import_parsed_record_is_idempotent() {
    let mut st = ImageStore::new();
    let rec = record("net_9", "n9.png");
    assert_eq!(
        st.import_network_image("n9.png", vec![1], rec),
        Ok(())
    );
    let again = record("net_9", "n9.png");
    assert_eq!(
        st.import_network_image("n9.png", vec![2, 3], again),
        Ok(())
    );
    assert_eq!(st.list_images().len(), 1);
    assert_eq!(st.load_image_bytes("net_9").unwrap(), vec![2, 3]);
    let unsafe_rec = record("net_10", "x.png");
    assert_eq!(
        st.import_network_image("../x.png", vec![4], unsafe_rec),
        Err(StoreError::InvalidFilename)
    );
}

#[test]
fn duplicate_copies_every_field() {
    let mut rec = record("img_1", "a.png");
    rec.analysis_result = Some("seen".to_string());
    rec.user_comments.push(comment("c1", "hello"));
    let copy = rec.duplicate();
    assert_eq!(copy.id, rec.id);
    assert_eq!(copy.filename, rec.filename);
    assert_eq!(copy.original_name, rec.original_name);
    assert_eq!(copy.timestamp, rec.timestamp);
    assert_eq!(copy.analysis_result, rec.analysis_result);
    assert_eq!(copy.user_comments.len(), 1);
    assert_eq!(copy.user_comments[0].text, "hello");
}
