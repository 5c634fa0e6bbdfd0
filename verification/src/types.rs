//! Data types of predictors, predictions and their values.

use vstd::prelude::*;
use crate::acceleration::Acceleration;
use crate::dtype::Dtype;

verus! {

/// Enumeration member value.
#[derive(Debug, Clone, PartialEq, Eq)]
pub enum EnumerationValue {
    String(String),
    Int(i64),
}

/// Prediction parameter enumeration member.
#[derive(Debug, Clone, PartialEq, Eq)]
pub struct EnumerationMember {
    /// Enumeration member name.
    pub name: String,
    /// Enumeration member value.
    pub value: EnumerationValue,
}

/// Prediction parameter: a value that a predictor consumes or produces,
/// with what the library reads of it.
#[derive(Debug, Clone, PartialEq, Eq)]
pub struct Parameter {
    /// Parameter name.
    pub name: String,
    /// Parameter data type.
    pub dtype: Option<Dtype>,
    /// Parameter description.
    pub description: Option<String>,
    /// Parameter denotation for specialized data types.
    pub denotation: Option<String>,
    /// Parameter is optional.
    pub optional: Option<bool>,
    /// Parameter value choices for enumeration parameters.
    pub enumeration: Option<Vec<EnumerationMember>>,
    /// The `title` of the parameter's JSON schema, when it has one.
    pub schema_title: Option<String>,
    /// The parameter's maximum value when it is at least 1, as a whole
    /// number capped at `u32::MAX`.
    pub max: Option<u32>,
    /// Context length in tokens (chat messages inputs).
    pub context_length: Option<u32>,
    /// Audio sample rate in Hertz.
    pub sample_rate: Option<u32>,
}

/// Prediction signature.
#[derive(Debug, Clone, PartialEq, Eq)]
pub struct Signature {
    /// Prediction inputs.
    pub inputs: Vec<Parameter>,
    /// Prediction outputs.
    pub outputs: Vec<Parameter>,
}

/// Muna user.
#[derive(Debug, Clone, PartialEq, Eq)]
pub struct User {
    /// Muna username.
    pub username: String,
    /// Date created.
    pub created: Option<String>,
    /// Full name.
    pub name: Option<String>,
    /// User avatar URL.
    pub avatar: Option<String>,
    /// User bio.
    pub bio: Option<String>,
    /// User website.
    pub website: Option<String>,
    /// User GitHub.
    pub github: Option<String>,
}

/// Predictor access mode.
#[derive(Debug, Clone, Copy, PartialEq, Eq, Structural)]
pub enum PredictorAccess {
    Private,
    Public,
    Unlisted,
}

/// Predictor status.
#[derive(Debug, Clone, Copy, PartialEq, Eq, Structural)]
pub enum PredictorStatus {
    Compiling,
    Active,
    Archived,
}

/// Prediction function.
#[derive(Debug, Clone, PartialEq, Eq)]
pub struct Predictor {
    /// Predictor tag.
    pub tag: String,
    /// Predictor owner.
    pub owner: User,
    /// Predictor name.
    pub name: String,
    /// Predictor status.
    pub status: PredictorStatus,
    /// Predictor access mode.
    pub access: PredictorAccess,
    /// Predictor signature.
    pub signature: Signature,
    /// Date created.
    pub created: String,
    /// Predictor description.
    pub description: Option<String>,
    /// Predictor card.
    pub card: Option<String>,
    /// Predictor media URL.
    pub media: Option<String>,
    /// Predictor license URL.
    pub license: Option<String>,
}

/// Prediction resource.
#[derive(Debug, Clone, PartialEq, Eq)]
pub struct PredictionResource {
    /// Resource type.
    pub kind: String,
    /// Resource URL.
    pub url: String,
    /// Resource name.
    pub name: Option<String>,
}

/// Image value.
#[derive(Debug, Clone, PartialEq, Eq)]
pub struct Image {
    /// Pixel buffer (RGBA or RGB).
    pub data: Vec<u8>,
    /// Image width.
    pub width: u32,
    /// Image height.
    pub height: u32,
    /// Image channels.
    pub channels: u32,
}

/// Serialized remote value.
#[derive(Debug, Clone, PartialEq, Eq)]
pub struct RemoteValue {
    /// Data URL or base64 data URI.
    pub data: Option<String>,
    /// Value data type.
    pub dtype: Dtype,
}

/// Server-sent event.
#[derive(Debug, Clone, PartialEq, Eq)]
pub struct SseEvent<T> {
    pub event: String,
    pub data: T,
}

/// Encoding format for embedding vectors.
#[derive(Debug, Clone, Copy, PartialEq, Eq, Structural)]
pub enum EncodingFormat {
    Float,
    Base64,
}

/// Image size.
#[derive(Debug, Clone, Copy, PartialEq, Eq, Structural)]
pub enum ImageSize {
    Auto,
    Size256x256,
    Size512x512,
    Size1024x1024,
    Size1536x1024,
    Size1024x1536,
    Size1792x1024,
    Size1024x1792,
}

/// Requested `(width, height)` of each size; `Auto` requests neither.
pub open spec fn image_size_dimensions(size: ImageSize) -> (Option<i32>, Option<i32>) {
    match size {
        ImageSize::Auto => (None, None),
        ImageSize::Size256x256 => (Some(256), Some(256)),
        ImageSize::Size512x512 => (Some(512), Some(512)),
        ImageSize::Size1024x1024 => (Some(1024), Some(1024)),
        ImageSize::Size1536x1024 => (Some(1536), Some(1024)),
        ImageSize::Size1024x1536 => (Some(1024), Some(1536)),
        ImageSize::Size1792x1024 => (Some(1792), Some(1024)),
        ImageSize::Size1024x1792 => (Some(1024), Some(1792)),
    }
}

impl ImageSize {
    /// Requested `(width, height)`; `Auto` requests neither.
    pub fn dimensions(&self) -> (r: (Option<i32>, Option<i32>))
        ensures
            r == image_size_dimensions(*self),
    {
        match self {
            Self::Auto => (None, None),
            Self::Size256x256 => (Some(256), Some(256)),
            Self::Size512x512 => (Some(512), Some(512)),
            Self::Size1024x1024 => (Some(1024), Some(1024)),
            Self::Size1536x1024 => (Some(1536), Some(1024)),
            Self::Size1024x1536 => (Some(1024), Some(1536)),
            Self::Size1792x1024 => (Some(1792), Some(1024)),
            Self::Size1024x1792 => (Some(1024), Some(1792)),
        }
    }
}

/// Image creation parameters.
#[derive(Debug, Clone, PartialEq, Eq)]
pub struct ImageCreateParams {
    /// Text prompt.
    pub prompt: String,
    /// Image predictor tag.
    pub model: String,
    /// Background transparency.
    pub background: Option<String>,
    /// Number of images to generate.
    pub n: Option<i32>,
    /// Output format (`png`, `jpeg`, `webp`, `raw`).
    pub output_format: Option<String>,
    /// Compression level (0-100).
    pub output_compression: Option<i32>,
    /// Image size.
    pub size: Option<ImageSize>,
    /// Prediction acceleration.
    pub acceleration: Option<Acceleration>,
}

} // verus!
