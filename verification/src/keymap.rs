//! Key-binding reference for the TUI.

use vstd::prelude::*;

verus! {

/// The one-line help shown in the status bar.
pub const HELP: &'static str = "Tab agents | Esc chat | PgUp/PgDn scroll | y/s/n approval | Ctrl+R/Alt+A show approval | [/] diff hunk | c stage diff | Enter send | Ctrl+U clear | Ctrl+V paste image | Ctrl+C interrupt | q quit";

/// Ctrl+V, the clipboard-image paste chord. It is shared: while the diff
/// preview is up it toggles the preview's view mode; otherwise an image on
/// the clipboard is staged, and when there is none the key falls through to
/// the ordinary text paste.
pub const CLIPBOARD_IMAGE_PASTE_CHORD: &'static str = "Ctrl+V";

} // verus!
