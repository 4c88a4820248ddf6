//! File-service settings and the OCR client's configuration. The file
//! system and network work itself lives with the callers; what stands
//! here is the plain data they are driven by.

use vstd::prelude::*;

verus! {

/// Where resources, previews and OCR caches live.
pub struct FileService {
    resources_dir: String,
    preview_dir: String,
    ocr_cache_dir: String,
}

impl FileService {
    pub fn new(resources_dir: String, preview_dir: String, ocr_cache_dir: String) -> (r:
        FileService)
        ensures
            r.spec_resources_dir() == resources_dir@,
            r.spec_preview_dir() == preview_dir@,
            r.spec_ocr_cache_dir() == ocr_cache_dir@,
    {
        FileService { resources_dir, preview_dir, ocr_cache_dir }
    }

    pub closed spec fn spec_preview_dir(&self) -> Seq<char> {
        self.preview_dir@
    }

    pub closed spec fn spec_resources_dir(&self) -> Seq<char> {
        self.resources_dir@
    }

    pub closed spec fn spec_ocr_cache_dir(&self) -> Seq<char> {
        self.ocr_cache_dir@
    }

    pub fn get_preview_dir(&self) -> (r: &String)
        ensures
            r@ == self.spec_preview_dir(),
    {
        &self.preview_dir
    }

    pub fn get_resources_dir(&self) -> (r: &String)
        ensures
            r@ == self.spec_resources_dir(),
    {
        &self.resources_dir
    }
}

/// The OCR backend's credentials.
pub struct MistralOcrProvider {
    api_key: String,
}

impl MistralOcrProvider {
    pub fn new(api_key: String) -> (r: MistralOcrProvider)
        ensures
            r.spec_api_key() == api_key@,
    {
        MistralOcrProvider { api_key }
    }

    pub closed spec fn spec_api_key(&self) -> Seq<char> {
        self.api_key@
    }

    /// Read the configured key back, for the caller that makes the call.
    pub fn api_key(&self) -> (r: &String)
        ensures
            r@ == self.spec_api_key(),
    {
        &self.api_key
    }
}

/// An OCR failure, as its message.
pub struct OcrError(pub String);

/// The text a finished OCR call produced.
pub struct OcrResponse {
    pub result: String,
}

/// Path pieces of one preview image request.
pub struct PreviewImageParams {
    pub filename: String,
    pub page: usize,
}

/// Path pieces of one preview request.
pub struct PreviewParams {
    pub file: String,
    pub page: u32,
}

/// Metadata read out of a document, as key–value pairs.
pub struct MetadataResponse {
    pub metadata: Vec<(String, String)>,
}

} // verus!
