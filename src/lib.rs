pub mod conversion;
pub mod encoder;
pub mod progress;
pub mod sequence;
pub mod text;
