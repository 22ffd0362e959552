use vstd::prelude::*;

verus! {

/// The body returned by the remote image-hosting endpoint, reduced to the
/// fields the application reads.
pub struct ImgbbResponse {
    pub data: ImgbbData,
    pub success: bool,
    pub status: i16,
}

/// The payload of a successful remote upload.
pub struct ImgbbData {
    pub title: String,
    pub url: String,
    pub size: u64,
}

} // verus!
