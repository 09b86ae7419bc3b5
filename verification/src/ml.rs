//! Text detection services: the switches and the fixed answers of the
//! detectors. Image decoding and inference run outside this library.
use vstd::prelude::*;
use vstd::string::*;
use crate::vision::{rgb_decoding, is_dominant_colors, too_small_message, extract_dominant_colors};

verus! {

#[verifier::external_type_specification]
#[verifier::external_body]
pub struct ExAnyhowError(anyhow::Error);

/// OCR-based detection, active only when enabled.
pub struct TesseractService {
    enabled: bool,
}

impl TesseractService {
    pub closed spec fn is_enabled(&self) -> bool {
        self.enabled
    }

    pub fn new(enabled: bool) -> (r: TesseractService)
        ensures
            r.is_enabled() == enabled,
    {
        TesseractService { enabled }
    }

    /// Whether OCR runs; a disabled service answers with empty results.
    pub fn enabled(&self) -> (r: bool)
        ensures
            r == self.is_enabled(),
    {
        self.enabled
    }

    /// The dominant colours of an image: none when the service is
    /// disabled, else those `extract_dominant_colors` finds.
    pub fn extract_colors(&self, image_data: &[u8]) -> (r: Result<Vec<String>, String>)
        ensures
            !self.is_enabled() ==> (r matches Ok(v) && v@.len() == 0),
            self.is_enabled() ==> match rgb_decoding(image_data@) {
                Err(m) => r matches Err(e) && e@ == m,
                Ok((w, h, d)) => if w >= 10 && h >= 10 {
                    r matches Ok(names) && is_dominant_colors(names@, w, h, d)
                } else {
                    r matches Err(e) && e@ == too_small_message()
                },
            },
    {
        if !self.enabled {
            return Ok(Vec::new());
        }
        extract_dominant_colors(image_data)
    }
}

/// A detector bound to a model file.
pub struct TextDetector {
    model_path: String,
}

impl TextDetector {
    pub closed spec fn model(&self) -> Seq<char> {
        self.model_path@
    }

    /// A detector for the model at `model_path`; creation always succeeds.
    pub fn new(model_path: &str) -> (r: Result<TextDetector, anyhow::Error>)
        ensures
            r matches Ok(d) && d.model() == model_path@,
    {
        Ok(TextDetector { model_path: String::from_str(model_path) })
    }

    /// The detected text; the detector answers with a fixed sample text.
    pub fn detect_text(&self, _image_data: &[u8]) -> (r: Result<Option<String>, anyhow::Error>)
        ensures
            r matches Ok(Some(t)) && t@ == "Sample detected text"@,
    {
        Ok(Some(String::from_str("Sample detected text")))
    }

    /// The lettering style; the detector answers with a fixed style.
    pub fn classify_style(&self, _image_data: &[u8]) -> (r: Result<Option<String>, anyhow::Error>)
        ensures
            r matches Ok(Some(t)) && t@ == "handpainted"@,
    {
        Ok(Some(String::from_str("handpainted")))
    }
}

} // verus!
