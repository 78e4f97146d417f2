//! Dialog-tree state: the static tree data handed in by the scene
//! loader and the small state machine of the on-screen dialog menu.

use vstd::prelude::*;

verus! {

/// One level of a dialog tree: the options offered at that level.
#[derive(Debug, Clone)]
pub struct DialogNode {
    pub level: u32,
    pub options: Vec<DialogOption>,
}

/// One selectable line of a dialog level: its display text, the audio
/// responses it can trigger, and the level the conversation jumps to.
#[derive(Debug, Clone)]
pub struct DialogOption {
    pub id: u32,
    pub text: String,
    pub response_audio: Vec<String>,
    pub target: u32,
}

/// The state of the dialog menu overlay.
pub struct DialogMenu {
    pub open: bool,
    pub current_dialog_id: Option<u32>,
    pub current_level: usize,
    pub hovered_option: Option<usize>,
}

impl DialogMenu {
    /// A closed menu with no active dialog, at the root level, with
    /// nothing hovered.
    pub fn new() -> (m: DialogMenu)
        ensures
            !m.open,
            m.current_dialog_id is None,
            m.current_level == 0,
            m.hovered_option is None,
    {
        DialogMenu {
            open: false,
            current_dialog_id: None,
            current_level: 0,
            hovered_option: None,
        }
    }
}

} // verus!
