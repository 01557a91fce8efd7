use vstd::prelude::*;

verus! {

/// The failure kinds of the upload and asset-serving pipeline.
///
/// Every filesystem or offload fault is converted to one of these at the
/// component boundary; no failure may abort the request-handling task.
#[derive(Clone, Copy, Debug, PartialEq, Eq, Structural)]
pub enum UploadError {
    /// Creating (truncating) the output file failed.
    CreateFailed,
    /// Appending a chunk to the output file failed or was incomplete.
    WriteFailed,
    /// The requested asset does not exist in the target directory.
    NotFound,
    /// A multipart field carried no usable filename.
    MalformedUpload,
    /// The blocking-I/O offload mechanism itself faulted.
    OffloadFailed,
}

} // verus!
