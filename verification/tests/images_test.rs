use image_store::images::{has_image_extension, list_image_paths, matches_image_ext, DirEntry};

fn file(name: &str) -> DirEntry {
    DirEntry { name: name.to_string(), is_file: true }
}

fn dir(name: &str) -> DirEntry {
    DirEntry { name: name.to_string(), is_file: false }
}

#[test]
fn allow_list_lower_case() {
    assert!(matches_image_ext("jpg"));
    assert!(matches_image_ext("jpeg"));
    assert!(matches_image_ext("png"));
    assert!(matches_image_ext("tif"));
    assert!(matches_image_ext("tiff"));
}

#[test]
fn allow_list_is_case_insensitive() {
    assert!(matches_image_ext("PNG"));
    assert!(matches_image_ext("JpEg"));
    assert!(matches_image_ext("TIFF"));
}

#[test]
fn allow_list_rejects_others() {
    assert!(!matches_image_ext("txt"));
    assert!(!matches_image_ext("tiffx"));
    assert!(!matches_image_ext("jp"));
    assert!(!matches_image_ext(""));
}

#[test]
fn image_names_need_a_real_extension() {
    assert!(has_image_extension("x.png"));
    assert!(has_image_extension("y.PNG"));
    assert!(has_image_extension("w.tiff"));
    assert!(!has_image_extension("z.txt"));
    assert!(!has_image_extension("png"));
    assert!(!has_image_extension(".png"));
    assert!(!has_image_extension("x."));
}

#[test]
fn listing_filters_by_extension_case_insensitively() {
    let entries = vec![file("x.png"), file("y.PNG"), file("z.txt"), file("w.tiff")];
    let r = list_image_paths("/data/Images", &entries);
    assert_eq!(
        r,
        vec![
            "/data/Images/x.png".to_string(),
            "/data/Images/y.PNG".to_string(),
            "/data/Images/w.tiff".to_string(),
        ]
    );
}

#[test]
fn listing_skips_non_files() {
    let entries = vec![dir("folder.png"), file("a.jpg")];
    let r = list_image_paths("/data/Images", &entries);
    assert_eq!(r, vec!["/data/Images/a.jpg".to_string()]);
}

#[test]
fn listing_empty_directory_is_empty_not_an_error() {
    let entries: Vec<DirEntry> = Vec::new();
    let r = list_image_paths("/data/Images", &entries);
    assert!(r.is_empty());
}
