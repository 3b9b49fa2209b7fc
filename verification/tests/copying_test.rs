use image_store::copying::{after_create_parent, finish_copy, start_copy, CopyStart, FileCopyInput};

fn request(source: &str, destination: &str) -> FileCopyInput {
    FileCopyInput { source: source.to_string(), destination: destination.to_string() }
}

#[test]
fn missing_source_is_rejected_naming_the_source() {
    let r = start_copy(&request("/missing/src.png", "/out/dst.png"), false, false);
    match r {
        CopyStart::Reject(resp) => {
            assert!(!resp.success);
            assert_eq!(resp.message, "Source file does not exist: /missing/src.png");
            assert!(resp.message.contains("/missing/src.png"));
            assert_eq!(resp.file_path, Some("/missing/src.png".to_string()));
        },
        _ => panic!("a copy from a missing source must be rejected"),
    }
}

#[test]
fn missing_source_asks_for_no_directory() {
    // The rejection is the whole answer: no directory creation is requested.
    let r = start_copy(&request("/missing/src.png", "/out/dst.png"), false, false);
    assert!(!matches!(r, CopyStart::CreateParent(_)));
    assert!(!matches!(r, CopyStart::Ready));
}

#[test]
fn missing_parent_is_created_first() {
    let r = start_copy(&request("/real/src.png", "/out/new/dst.png"), true, false);
    match r {
        CopyStart::CreateParent(p) => assert_eq!(p, "/out/new"),
        _ => panic!("a missing parent directory must be created first"),
    }
}

#[test]
fn existing_parent_copies_right_away() {
    let r = start_copy(&request("/real/src.png", "/out/dst.png"), true, true);
    assert!(matches!(r, CopyStart::Ready));
}

#[test]
fn destination_without_parent_copies_right_away() {
    let r = start_copy(&request("/real/src.png", "dst.png"), true, false);
    assert!(matches!(r, CopyStart::Ready));
}

#[test]
fn created_parent_gives_leave_to_proceed() {
    assert!(after_create_parent("/out/new", Ok(())).is_none());
}

#[test]
fn failed_parent_creation_names_the_parent() {
    let r = after_create_parent("/out/new", Err("permission denied".to_string()));
    match r {
        Some(resp) => {
            assert!(!resp.success);
            assert_eq!(resp.message, "Failed to create directory: permission denied");
            assert_eq!(resp.file_path, Some("/out/new".to_string()));
        },
        None => panic!("a failed creation must produce a failure response"),
    }
}

#[test]
fn completed_copy_reports_the_destination() {
    let resp = finish_copy("/out/new/dst.png", Ok(123));
    assert!(resp.success);
    assert_eq!(resp.message, "File copied successfully");
    assert_eq!(resp.file_path, Some("/out/new/dst.png".to_string()));
}

#[test]
fn failed_copy_carries_the_error_text() {
    let resp = finish_copy("/out/dst.png", Err("disk full".to_string()));
    assert!(!resp.success);
    assert_eq!(resp.message, "Failed to copy file: disk full");
    assert_eq!(resp.file_path, Some("/out/dst.png".to_string()));
}
