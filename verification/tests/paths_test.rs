use image_store::paths::{extension, images_dir_path, join_path, output_dir_path, parent_dir};

#[test]
fn join_simple() {
    assert_eq!(join_path("/root", "Images"), "/root/Images");
}

#[test]
fn join_keeps_both_sides() {
    assert_eq!(join_path("/res/images", "a.png"), "/res/images/a.png");
    assert_eq!(join_path("", "a.png"), "/a.png");
}

#[test]
fn parent_of_nested_path() {
    assert_eq!(parent_dir("/out/new/dst.png"), Some("/out/new".to_string()));
    assert_eq!(parent_dir("a/b/c"), Some("a/b".to_string()));
}

#[test]
fn parent_of_root_child_is_root() {
    assert_eq!(parent_dir("/dst.png"), Some("/".to_string()));
}

#[test]
fn parent_of_bare_name_is_none() {
    assert_eq!(parent_dir("dst.png"), None);
    assert_eq!(parent_dir(""), None);
}

#[test]
fn extension_after_last_dot() {
    assert_eq!(extension("x.png"), Some("png".to_string()));
    assert_eq!(extension("y.PNG"), Some("PNG".to_string()));
    assert_eq!(extension("a.tar.gz"), Some("gz".to_string()));
    assert_eq!(extension("a."), Some("".to_string()));
}

#[test]
fn extension_missing() {
    assert_eq!(extension("noext"), None);
    assert_eq!(extension(""), None);
}

#[test]
fn extension_of_hidden_file_is_none() {
    assert_eq!(extension(".png"), None);
}

#[test]
fn images_dir_under_root() {
    assert_eq!(images_dir_path("/home/u/.local/share/app"), "/home/u/.local/share/app/Images");
}

#[test]
fn output_dir_under_root() {
    assert_eq!(output_dir_path("/home/u/.local/share/app"), "/home/u/.local/share/app/Output");
}

#[test]
fn resolved_dirs_are_stable_across_calls() {
    let root = "/data/app";
    assert_eq!(images_dir_path(root), images_dir_path(root));
    assert_eq!(output_dir_path(root), output_dir_path(root));
}
