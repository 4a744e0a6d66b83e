//! How video and audio encoders are chosen and configured.
pub mod encoders;
