//! Recognition settings that the library reads: decoder choice, UI language
//! and the configuration of one recognition run.

use vstd::prelude::*;

verus! {

/// Language of the user interface.
#[derive(Debug, Clone, Copy, PartialEq, Eq, Structural)]
pub enum UiLanguage {
    Chinese,
    English,
}

impl Default for UiLanguage {
    fn default() -> (r: Self)
        ensures
            r == UiLanguage::Chinese,
    {
        UiLanguage::Chinese
    }
}

/// Decoding algorithm used by the recognizer.
#[derive(Debug, Clone, Copy, PartialEq, Eq, Structural)]
pub enum Decoder {
    Greedy,
    BeamSearch,
    WordBeamSearch,
}

/// The flag value that the tool expects for each decoder.
pub open spec fn decoder_name(d: Decoder) -> Seq<char> {
    match d {
        Decoder::Greedy => "greedy"@,
        Decoder::BeamSearch => "beamsearch"@,
        Decoder::WordBeamSearch => "wordbeamsearch"@,
    }
}

/// The human-readable name of each decoder.
pub open spec fn decoder_label(d: Decoder) -> Seq<char> {
    match d {
        Decoder::Greedy => "Greedy (Fast)"@,
        Decoder::BeamSearch => "Beam Search (Accurate)"@,
        Decoder::WordBeamSearch => "Word Beam Search (Most Accurate)"@,
    }
}

impl Decoder {
    pub fn as_str(&self) -> (r: &'static str)
        ensures
            r@ == decoder_name(*self),
    {
        match self {
            Decoder::Greedy => "greedy",
            Decoder::BeamSearch => "beamsearch",
            Decoder::WordBeamSearch => "wordbeamsearch",
        }
    }

    pub fn label(&self) -> (r: &'static str)
        ensures
            r@ == decoder_label(*self),
    {
        match self {
            Decoder::Greedy => "Greedy (Fast)",
            Decoder::BeamSearch => "Beam Search (Accurate)",
            Decoder::WordBeamSearch => "Word Beam Search (Most Accurate)",
        }
    }

    /// Every decoder, in the order in which they are offered.
    pub fn all() -> (r: &'static [Decoder])
        ensures
            r@ == seq![Decoder::Greedy, Decoder::BeamSearch, Decoder::WordBeamSearch],
    {
        &[Decoder::Greedy, Decoder::BeamSearch, Decoder::WordBeamSearch]
    }
}

/// The configuration of one recognition run, taken as a snapshot. The five
/// thresholds and the margin ratio are fixed-point values in ten-thousandths
/// (`7000` is `0.7`), which the tool receives with four decimal places.
#[derive(Debug, Clone)]
pub struct OcrConfig {
    /// Language codes separated by commas, spaces or semicolons, e.g. "en,ch_sim".
    pub languages: String,
    /// Use GPU acceleration.
    pub gpu: bool,
    /// Number of parallel CPU workers (0 = automatic).
    pub workers: u32,
    pub decoder: Decoder,
    /// Beam width of the beam-search decoders.
    pub beam_width: u32,
    /// Batch size for recognition.
    pub batch_size: u32,
    /// Minimum text box size in pixels.
    pub min_size: u32,
    /// Text confidence threshold.
    pub text_threshold: i64,
    /// Text low-bound score.
    pub low_text: i64,
    /// Link confidence threshold.
    pub link_threshold: i64,
    /// Contrast threshold: boxes below it are processed twice.
    pub contrast_ths: i64,
    /// Target contrast for low-contrast boxes.
    pub adjust_contrast: i64,
    /// Combine results into paragraphs.
    pub paragraph: bool,
    /// Use dynamic quantization.
    pub quantize: bool,
    /// Margin ratio by which bounding boxes are extended.
    pub add_margin: i64,
    /// Model storage directory; empty for the tool's own default.
    pub model_storage_directory: String,
    /// Path of the tool or of an interpreter that has it; empty to search.
    pub easyocr_exe: String,
}

} // verus!
