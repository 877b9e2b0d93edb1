use image_store::Comment;
use image_store::ImageStore;
use image_store::StoreError;

#[test]
fn empty_index_serializes_exactly() {
    let st = ImageStore::new();
    assert_eq!(st.index_json(), "{\n  \"images\": []\n}");
}

#[test]
fn one_record_serializes_exactly() {
    let mut st = ImageStore::new();
    st.save_captured_image(
        vec![1],
        "x.jpg",
        None,
        5,
        "2024-01-02T03:04:05+00:00".to_string(),
    );
    assert_eq!(
        st.index_json(),
        "{\n  \"images\": [\n    {\n      \"id\": \"img_5\",\n      \"filename\": \"img_5.jpg\",\n      \"original_name\": \"x.jpg\",\n      \"timestamp\": \"2024-01-02T03:04:05+00:00\",\n      \"analysis_result\": null,\n      \"user_comments\": []\n    }\n  ]\n}"
    );
}

#[test]
fn strings_are_escaped_in_output() {
    let mut st = ImageStore::new();
    st.save_captured_image(
        vec![1],
        "x.jpg",
        Some("he said \"hi\"\\\n\tdone\u{1}".to_string()),
        5,
        "t".to_string(),
    );
    let out = st.index_json();
    assert!(out.contains("\"analysis_result\": \"he said \\\"hi\\\"\\\\\\n\\tdone\\u0001\""));
}

#[test]
fn index_round_trips_through_json() {
    let mut st = ImageStore::new();
    st.save_captured_image(
        vec![1],
        "a.png",
        Some("first".to_string()),
        10,
        "2024-01-02T03:04:05+00:00".to_string(),
    );
    st.save_captured_image(
        vec![2],
        "b",
        None,
        20,
        "2024-06-07T08:09:10+00:00".to_string(),
    );
    let c = Comment {
        id: "c1".to_string(),
        text: "nice \"shot\"\n".to_string(),
        timestamp: "2024-01-03T00:00:00+00:00".to_string(),
        is_ai: true,
    };
    st.update_image_comments("img_10", vec![c]).unwrap();
    let text = st.index_json();

    let mut st2 = ImageStore::new();
    let n = st2.replace_index_json(&text).unwrap();
    assert_eq!(n, 2);
    let a = st.list_images();
    let b = st2.list_images();
    assert_eq!(a.len(), b.len());
    for i in 0..a.len() {
        assert_eq!(a[i].id, b[i].id);
        assert_eq!(a[i].filename, b[i].filename);
        assert_eq!(a[i].original_name, b[i].original_name);
        assert_eq!(a[i].timestamp, b[i].timestamp);
        assert_eq!(a[i].analysis_result, b[i].analysis_result);
        assert_eq!(a[i].user_comments.len(), b[i].user_comments.len());
        for k in 0..a[i].user_comments.len() {
            assert_eq!(a[i].user_comments[k].id, b[i].user_comments[k].id);
            assert_eq!(a[i].user_comments[k].text, b[i].user_comments[k].text);
            assert_eq!(a[i].user_comments[k].timestamp, b[i].user_comments[k].timestamp);
            assert_eq!(a[i].user_comments[k].is_ai, b[i].user_comments[k].is_ai);
        }
    }
}

#[test]
fn replace_index_accepts_whitespace_and_unknown_fields() {
    let mut st = ImageStore::new();
    let text = " { \"version\" : 1.5e3 , \"images\" : [ { \"id\" : \"a\" , \"filename\" : \"a.png\" , \"original_name\" : \"a.png\" , \"timestamp\" : \"2024-01-02T03:04:05+00:00\" , \"analysis_result\" : \"seen\" , \"user_comments\" : [ ] , \"extra\" : [ true , null , -2.5 ] } ] } ";
    let n = st.replace_index_json(text).unwrap();
    assert_eq!(n, 1);
    assert_eq!(st.list_images()[0].id, "a");
    assert_eq!(st.list_images()[0].analysis_result.as_deref(), Some("seen"));
}

#[test]
fn replace_index_treats_missing_analysis_as_absent() {
    let mut st = ImageStore::new();
    let text = "{\"images\":[{\"id\":\"a\",\"filename\":\"a.png\",\"original_name\":\"a\",\"timestamp\":\"2024-01-02T03:04:05+00:00\",\"user_comments\":[]}]}";
    st.replace_index_json(text).unwrap();
    assert_eq!(st.list_images()[0].analysis_result, None);
}

#[test]
fn replace_index_rejects_malformed_json() {
    let mut st = ImageStore::new();
    assert_eq!(
        st.replace_index_json("not json at all"),
        Err(StoreError::InvalidIndexFormat)
    );
    assert_eq!(
        st.replace_index_json("{\"images\":[}"),
        Err(StoreError::InvalidIndexFormat)
    );
    assert_eq!(
        st.replace_index_json("{\"images\":[]} trailing"),
        Err(StoreError::InvalidIndexFormat)
    );
}

#[test]
fn replace_index_rejects_wrong_shape() {
    let mut st = ImageStore::new();
    assert_eq!(
        st.replace_index_json("{\"images\":[{\"id\":1}]}"),
        Err(StoreError::InvalidIndexFormat)
    );
    assert_eq!(
        st.replace_index_json("{\"pictures\":[]}"),
        Err(StoreError::InvalidIndexFormat)
    );
    assert_eq!(
        st.replace_index_json("[1,2,3]"),
        Err(StoreError::InvalidIndexFormat)
    );
    assert!(st.list_images().is_empty());
}

#[test]
fn replace_index_keeps_old_state_on_error() {
    let mut st = ImageStore::new();
    st.save_captured_image(vec![1], "a.png", None, 10, "t".to_string());
    assert_eq!(
        st.replace_index_json("{{"),
        Err(StoreError::InvalidIndexFormat)
    );
    assert_eq!(st.list_images().len(), 1);
}

#[test]
fn parser_decodes_escapes_and_unicode() {
    let mut st = ImageStore::new();
    let text = "{\"images\":[{\"id\":\"\\u0041\\n\\t\\\"q\\\"\",\"filename\":\"f\",\"original_name\":\"o\",\"timestamp\":\"2024-01-02T03:04:05+00:00\",\"analysis_result\":\"\\ud83d\\ude00\",\"user_comments\":[]}]}";
    st.replace_index_json(text).unwrap();
    let imgs = st.list_images();
    assert_eq!(imgs[0].id, "A\n\t\"q\"");
    assert_eq!(imgs[0].analysis_result.as_deref(), Some("\u{1F600}"));
}

#[test]
fn parser_rejects_lone_surrogate_and_bad_escape() {
    let mut st = ImageStore::new();
    let lone = "{\"images\":[{\"id\":\"\\ud83d\",\"filename\":\"f\",\"original_name\":\"o\",\"timestamp\":\"2024-01-02T03:04:05+00:00\",\"analysis_result\":null,\"user_comments\":[]}]}";
    assert_eq!(
        st.replace_index_json(lone),
        Err(StoreError::InvalidIndexFormat)
    );
    assert_eq!(
        st.replace_index_json("{\"images\\x\":[]}"),
        Err(StoreError::InvalidIndexFormat)
    );
}

#[test]
fn comments_survive_round_trip_with_flags() {
    let mut st = ImageStore::new();
    st.save_captured_image(
        vec![1],
        "a.png",
        None,
        10,
        "2024-01-01T00:00:00+00:00".to_string(),
    );
    let c1 = Comment {
        id: "c1".to_string(),
        text: "human".to_string(),
        timestamp: "2024-01-03T00:00:00+00:00".to_string(),
        is_ai: false,
    };
    let c2 = Comment {
        id: "c2".to_string(),
        text: "machine".to_string(),
        timestamp: "2024-01-04T00:00:00+00:00".to_string(),
        is_ai: true,
    };
    st.update_image_comments("img_10", vec![c1, c2]).unwrap();
    let text = st.index_json();
    assert!(text.contains("\"is_ai\": false"));
    assert!(text.contains("\"is_ai\": true"));
    let mut st2 = ImageStore::new();
    st2.replace_index_json(&text).unwrap();
    let cs = &st2.list_images()[0].user_comments;
    assert_eq!(cs.len(), 2);
    assert!(!cs[0].is_ai);
    assert!(cs[1].is_ai);
}

#[test]
fn number_grammar_edges() {
    let mut st = ImageStore::new();
    let ok = "{\"images\":[],\"x\":-0.5e+2}";
    assert_eq!(st.replace_index_json(ok), Ok(0));
    let leading_zero = "{\"images\":[],\"x\":01}";
    assert_eq!(
        st.replace_index_json(leading_zero),
        Err(StoreError::InvalidIndexFormat)
    );
    let bare_minus = "{\"images\":[],\"x\":-}";
    assert_eq!(
        st.replace_index_json(bare_minus),
        Err(StoreError::InvalidIndexFormat)
    );
    let empty_exponent = "{\"images\":[],\"x\":1e}";
    assert_eq!(
        st.replace_index_json(empty_exponent),
        Err(StoreError::InvalidIndexFormat)
    );
}
