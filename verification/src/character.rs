//! A character: its settings, animations, pictures and sounds.
use vstd::prelude::*;

use crate::actor::ActorSource;
use crate::types::{Animation, CharacterInfo, IndexedImage};

verus! {

/// Where the pictures of a character come from.
#[derive(Debug)]
pub enum Artwork {
    /// Metafiles composed into frames.
    Actor(ActorSource),
    /// Palette images.
    Indexed(Vec<IndexedImage>),
}

/// A character file, read.
#[derive(Debug)]
pub struct Character {
    pub info: CharacterInfo,
    pub animations: Vec<Animation>,
    pub artwork: Artwork,
    pub audio: Vec<Vec<u8>>,
}

impl Character {
    /// A character whose frames are composed from metafiles.
    pub fn from_actor(
        info: CharacterInfo,
        animations: Vec<Animation>,
        source: ActorSource,
        audio: Vec<Vec<u8>>,
    ) -> (r: Character)
        ensures
            r == (Character { info, animations, artwork: Artwork::Actor(source), audio }),
    {
        Character { info, animations, artwork: Artwork::Actor(source), audio }
    }

    /// A character made of palette images.
    pub fn from_legacy(
        info: CharacterInfo,
        animations: Vec<Animation>,
        images: Vec<IndexedImage>,
        audio: Vec<Vec<u8>>,
    ) -> (r: Character)
        ensures
            r == (Character { info, animations, artwork: Artwork::Indexed(images), audio }),
    {
        Character { info, animations, artwork: Artwork::Indexed(images), audio }
    }

    /// Whether the pictures are composed from metafiles.
    pub fn is_actor(&self) -> (r: bool)
        ensures
            r == (self.artwork is Actor),
    {
        match &self.artwork {
            Artwork::Actor(_) => true,
            Artwork::Indexed(_) => false,
        }
    }

    /// The number of pictures that frames can name.
    pub fn image_count(&self) -> (r: usize)
        ensures
            r == (match self.artwork {
                Artwork::Actor(a) => a.frames@.len(),
                Artwork::Indexed(i) => i@.len(),
            }),
    {
        match &self.artwork {
            Artwork::Actor(a) => a.frame_count(),
            Artwork::Indexed(i) => i.len(),
        }
    }

    /// The number of sounds.
    pub fn audio_count(&self) -> (r: usize)
        ensures
            r == self.audio@.len(),
    {
        self.audio.len()
    }

    /// A sound, if there is one of that number.
    pub fn audio(&self, index: usize) -> (r: Option<&Vec<u8>>)
        ensures
            r == (if index < self.audio@.len() {
                Some(&self.audio@[index as int])
            } else {
                None
            }),
    {
        if index < self.audio.len() {
            Some(&self.audio[index])
        } else {
            None
        }
    }
}

} // verus!
