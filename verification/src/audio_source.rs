//! Sources of audio data.

use vstd::prelude::*;

verus! {

/// A source of audio data: the bytes of one encoded sound.
#[derive(Debug, Clone)]
pub struct AudioSource {
    pub bytes: Vec<u8>,
}

impl AudioSource {
    /// The encoded bytes.
    pub fn as_ref(&self) -> (r: &[u8])
        ensures
            r@ == self.bytes@,
    {
        self.bytes.as_slice()
    }
}

/// Makes audio sources of the bytes of sound files.
#[derive(Debug, Default)]
pub struct Mp3Loader;

impl Mp3Loader {
    /// The version of the loader.
    pub fn version_static() -> (v: u32)
        ensures
            v == 1,
    {
        1
    }

    /// The version of the loader.
    pub fn version(&self) -> (v: u32)
        ensures
            v == 1,
    {
        1
    }

    /// The audio source made of the bytes read from a sound file. The bytes are kept as
    /// they are; they are decoded when the sound is played.
    pub fn import(&self, bytes: Vec<u8>) -> (source: AudioSource)
        ensures
            source.bytes@ == bytes@,
    {
        AudioSource { bytes }
    }
}

/// A type that a decoder of sound can be made of.
pub trait Decodable: Send + Sync + 'static {
    /// The decoder.
    type Decoder;

    /// A decoder that plays this sound from its start.
    fn decoder(&self) -> Self::Decoder;
}

} // verus!
