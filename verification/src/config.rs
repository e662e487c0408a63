//! The configuration surface a caller hands to a backend: which sample
//! representation to emit, and which output device to address.

use vstd::prelude::*;

verus! {

/// A selector over the supported sample representations.
#[non_exhaustive]
#[derive(Debug, Eq, PartialEq, Clone, Copy, Structural)]
pub enum AudioFormatEnum {
    F32,
    I16,
    I32,
    I24_3,
    I24_4,
}

impl Default for AudioFormatEnum {
    /// The default wire format is the signed 16-bit one.
    fn default() -> (r: Self)
        ensures
            r == AudioFormatEnum::I16,
    {
        AudioFormatEnum::I16
    }
}

/// What a terminal sink is opened with: the sample representation and,
/// for a device sink, an optional target device name.
#[derive(Debug, Clone)]
pub struct SinkConfig {
    pub device_name: Option<String>,
    pub audio_format: AudioFormatEnum,
}

impl Default for SinkConfig {
    /// No named device, and the default wire format.
    fn default() -> (r: Self)
        ensures
            r.device_name is None,
            r.audio_format == AudioFormatEnum::I16,
    {
        SinkConfig { device_name: None, audio_format: AudioFormatEnum::I16 }
    }
}

} // verus!
