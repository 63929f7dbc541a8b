//! Payloads exchanged with the Android storage-access plugin, and the
//! smart-shelf rule records. (Their JSON forms live with the app.)
use vstd::prelude::*;

verus! {

#[derive(Debug, Clone, Default)]
pub struct SelectFolderResponse {
    pub uri: String,
}

#[derive(Debug, Clone, Default)]
pub struct SelectFilesResponse {
    pub files: Vec<DocumentInfo>,
}

#[derive(Debug, Clone, Default)]
pub struct SolveCloudflareResponse {
    pub cookies: String,
    pub user_agent: String,
}

#[derive(Debug, Clone, Default)]
pub struct DocumentInfo {
    pub uri: String,
    pub name: String,
    pub size: u64,
}

#[derive(Debug, Clone, Default)]
pub struct EnumerateTreeResponse {
    pub files: Vec<DocumentInfo>,
}

#[derive(Debug, Clone, Default)]
pub struct CopyDocumentResponse {
    pub path: String,
}

#[derive(Debug, Clone, Default)]
pub struct CheckStoragePermissionResponse {
    pub granted: bool,
}

#[derive(Debug, Clone, Default)]
pub struct CreateDocumentResponse {
    pub uri: String,
}

/// Response for native commands that return no meaningful data (e.g.
/// `writeDocument`). Its JSON reading accepts and discards any payload.
#[derive(Debug, Clone, Default)]
pub struct WriteDocumentResponse {}

/// One rule of a smart shelf.
#[derive(Debug, Clone)]
pub struct SmartRule {
    pub field: String,
    pub operator: String,
    pub value: String,
    pub match_type: String,
}

} // verus!
