use vstd::prelude::*;

use crate::errors::UploadError;
use crate::paths::joined_path;
use crate::paths::stored_path;
use crate::store::FileStore;

verus! {

/// The two kinds of stored asset that can be served back, each with its own
/// directory and fixed response content type.
#[derive(Clone, Copy, Debug, PartialEq, Eq, Structural)]
pub enum AssetCategory {
    /// Served from the upload directory as `image/jpeg`.
    Image,
    /// Served from the video directory as `video/mpeg4`.
    Video,
}

/// The directory an asset of this category is looked up in.
pub open spec fn dir_of(category: AssetCategory) -> Seq<char> {
    match category {
        AssetCategory::Image => "./tmp"@,
        AssetCategory::Video => "./video"@,
    }
}

/// The content type a served asset of this category is declared with,
/// regardless of what the file actually holds.
pub open spec fn content_type_of(category: AssetCategory) -> Seq<char> {
    match category {
        AssetCategory::Image => "image/jpeg"@,
        AssetCategory::Video => "video/mpeg4"@,
    }
}

/// The directory an asset of this category is looked up in.
pub fn category_dir(category: AssetCategory) -> (r: &'static str)
    ensures
        r@ == dir_of(category),
{
    match category {
        AssetCategory::Image => "./tmp",
        AssetCategory::Video => "./video",
    }
}

/// The fixed content type of a served asset of this category.
pub fn category_content_type(category: AssetCategory) -> (r: &'static str)
    ensures
        r@ == content_type_of(category),
{
    match category {
        AssetCategory::Image => "image/jpeg",
        AssetCategory::Video => "video/mpeg4",
    }
}

/// The on-disk path an asset of this category is read from.
pub fn asset_path(category: AssetCategory, name: &str) -> (r: String)
    ensures
        r@ == joined_path(dir_of(category), name@),
{
    stored_path(category_dir(category), name)
}

/// A served asset: its raw bytes and the content type they are declared
/// with.
#[derive(Debug)]
pub struct AssetResponse {
    pub body: Vec<u8>,
    pub content_type: &'static str,
}

/// Serves the asset `name` out of the directory modelled by `store`: the
/// full stored bytes with the category's fixed content type when the file
/// exists, and a not-found failure — never a crash — when it does not.
pub fn fetch_asset(store: &FileStore, category: AssetCategory, name: &str) -> (r: Result<
    AssetResponse,
    UploadError,
>)
    requires
        store.wf(),
    ensures
        match r {
            Ok(resp) => store.contents().contains_key(name@) && resp.body@
                == store.contents()[name@] && resp.content_type@ == content_type_of(category),
            Err(e) => e == UploadError::NotFound && !store.contents().contains_key(name@),
        },
{
    match store.read(name) {
        Some(body) => Ok(
            AssetResponse { body, content_type: category_content_type(category) },
        ),
        None => Err(UploadError::NotFound),
    }
}

/// Turns the outcome of an offloaded whole-file read into the served result:
/// bytes when the file was there, a not-found failure when it was not.
pub fn fetch_outcome(data: Option<Vec<u8>>) -> (r: Result<Vec<u8>, UploadError>)
    ensures
        match r {
            Ok(body) => data matches Some(d) && body@ == d@,
            Err(e) => e == UploadError::NotFound && data is None,
        },
{
    match data {
        Some(d) => Ok(d),
        None => Err(UploadError::NotFound),
    }
}

} // verus!
