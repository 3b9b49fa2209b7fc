//! The file copier's decisions. Copying runs in three steps — check that
//! the source exists, create the destination's parent directory when it
//! is missing, copy the bytes — and every failure comes back to the
//! caller inside a `FileResponse`, never as an error. The host performs
//! each file-system action and hands its outcome to the next function
//! here.
use vstd::prelude::*;
use crate::paths::parent_dir;
use crate::paths::parent_of;

verus! {

/// Outcome of one copy request: a success flag, a human-readable
/// message, and the path the message is about.
pub struct FileResponse {
    pub success: bool,
    pub message: String,
    pub file_path: Option<String>,
}

/// One copy request: where to read and where to write.
pub struct FileCopyInput {
    pub source: String,
    pub destination: String,
}

/// Message prefix of a rejected copy whose source is missing.
pub open spec fn missing_source_prefix() -> Seq<char> {
    "Source file does not exist: "@
}

/// Message prefix of a copy that failed creating the destination's
/// parent directory.
pub open spec fn create_dir_failed_prefix() -> Seq<char> {
    "Failed to create directory: "@
}

/// Message prefix of a copy whose byte transfer failed.
pub open spec fn copy_failed_prefix() -> Seq<char> {
    "Failed to copy file: "@
}

/// Message of a copy that went through.
pub open spec fn copied_message() -> Seq<char> {
    "File copied successfully"@
}

/// What the copier asks the host to do first, once it knows whether the
/// source exists and whether the destination's parent directory does.
pub enum CopyStart {
    /// The request is rejected outright; hand this response back.
    Reject(FileResponse),
    /// Create this directory (with its missing ancestors), then copy.
    CreateParent(String),
    /// Copy right away.
    Ready,
}

/// Decides how a copy request begins. A missing source rejects the
/// request, naming the source in the message and touching nothing on
/// disk. Otherwise, if the destination has a parent directory and it is
/// missing, that directory is to be created first; else the bytes can be
/// copied right away.
pub fn start_copy(input: &FileCopyInput, source_exists: bool, parent_exists: bool) -> (r:
    CopyStart)
    ensures
        !source_exists ==> ({
            &&& r matches CopyStart::Reject(resp)
            &&& resp.success == false
            &&& resp.message@ == missing_source_prefix() + input.source@
            &&& resp.file_path matches Some(p)
            &&& p@ == input.source@
        }),
        source_exists && !parent_exists && parent_of(input.destination@) is Some ==> ({
            &&& r matches CopyStart::CreateParent(p)
            &&& Some(p@) == parent_of(input.destination@)
        }),
        source_exists && (parent_exists || parent_of(input.destination@) is None) ==> r is Ready,
{
    if !source_exists {
        let mut message = "Source file does not exist: ".to_owned();
        message.append(input.source.as_str());
        return CopyStart::Reject(
            FileResponse { success: false, message, file_path: Some(input.source.clone()) },
        );
    }
    if !parent_exists {
        if let Some(parent) = parent_dir(input.destination.as_str()) {
            return CopyStart::CreateParent(parent);
        }
    }
    CopyStart::Ready
}

/// Turns the outcome of creating the destination's parent directory into
/// either a failure response (`Some`) or leave to proceed (`None`). On
/// failure the message carries the host's error text and the response
/// names the parent directory.
pub fn after_create_parent(parent: &str, created: Result<(), String>) -> (r: Option<FileResponse>)
    ensures
        created is Ok <==> r is None,
        created matches Err(e) ==> ({
            &&& r matches Some(resp)
            &&& resp.success == false
            &&& resp.message@ == create_dir_failed_prefix() + e@
            &&& resp.file_path matches Some(p)
            &&& p@ == parent@
        }),
{
    match created {
        Ok(()) => None,
        Err(e) => {
            let mut message = "Failed to create directory: ".to_owned();
            message.append(e.as_str());
            Some(FileResponse { success: false, message, file_path: Some(parent.to_owned()) })
        },
    }
}

/// Turns the outcome of the byte copy into the final response. Success
/// and failure both name the destination; a failure's message carries
/// the host's error text.
pub fn finish_copy(destination: &str, copied: Result<u64, String>) -> (r: FileResponse)
    ensures
        r.success == copied is Ok,
        copied is Ok ==> r.message@ == copied_message(),
        copied matches Err(e) ==> r.message@ == copy_failed_prefix() + e@,
        r.file_path matches Some(p) && p@ == destination@,
{
    match copied {
        Ok(_) => FileResponse {
            success: true,
            message: "File copied successfully".to_owned(),
            file_path: Some(destination.to_owned()),
        },
        Err(e) => {
            let mut message = "Failed to copy file: ".to_owned();
            message.append(e.as_str());
            FileResponse { success: false, message, file_path: Some(destination.to_owned()) }
        },
    }
}

} // verus!
