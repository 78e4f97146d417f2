//! Audio categories shared by the engine's sound channels.

use vstd::prelude::*;

verus! {

/// The mixing category a sound belongs to; each category plays at most
/// one sound at a time and carries its own volume.
#[derive(Clone, Copy, Debug, PartialEq, Eq, Hash, Structural)]
pub enum AudioCategory {
    Music,
    Dialog,
    SoundEffect,
}

} // verus!
