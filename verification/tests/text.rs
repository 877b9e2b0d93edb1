use image_store::paths::images_dir_path;
use image_store::paths::metadata_file_path;
use image_store::text::captured_filename;
use image_store::text::check_filename;
use image_store::text::extension_of;
use image_store::text::image_id;
use image_store::text::str_eq;

#[test]
fn image_id_formats_seconds() {
    assert_eq!(image_id(0), "img_0");
    assert_eq!(image_id(7), "img_7");
    assert_eq!(image_id(1700000000), "img_1700000000");
    assert_eq!(image_id(-5), "img_-5");
    assert_eq!(image_id(i64::MAX), "img_9223372036854775807");
    assert_eq!(image_id(i64::MIN), "img_-9223372036854775808");
}

#[test]
fn extension_defaults_to_jpg() {
    assert_eq!(extension_of("photo.png"), "png");
    assert_eq!(extension_of("archive.tar.gz"), "gz");
    assert_eq!(extension_of("noext"), "jpg");
    assert_eq!(extension_of(""), "jpg");
    assert_eq!(extension_of("dotted."), "");
}

#[test]
fn captured_filename_joins_id_and_extension() {
    assert_eq!(captured_filename(42, "cat.webp"), "img_42.webp");
    assert_eq!(captured_filename(42, "bare"), "img_42.jpg");
}

#[test]
fn filename_check_matches_sanitization_rule() {
    assert!(check_filename("fine-name_1.png"));
    assert!(check_filename("a.b.c"));
    assert!(!check_filename("../evil.png"));
    assert!(!check_filename("a/b.png"));
    assert!(!check_filename("a\\b.png"));
    assert!(!check_filename(".."));
    assert!(check_filename(".hidden"));
    assert!(check_filename("a.b"));
}

#[test]
fn paths_are_joined_under_base() {
    assert_eq!(images_dir_path("/data/app"), "/data/app/images");
    assert_eq!(metadata_file_path("/data/app"), "/data/app/metadata.json");
}

#[test]
fn str_eq_compares_characters() {
    assert!(str_eq("abc", "abc"));
    assert!(!str_eq("abc", "abd"));
    assert!(!str_eq("abc", "ab"));
    assert!(str_eq("", ""));
}
