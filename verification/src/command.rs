//! Commands the interface hands back to the host application, which
//! applies them to the active project and the attached target.

use crate::field::FieldKind;
use vstd::prelude::*;

verus! {

/// One user request raised by the tool bar or the inspector.
#[derive(Debug, Clone, Copy, PartialEq, Eq, Structural)]
pub enum ToolBarResponse {
    /// Attach to the process with this id.
    ProcessAttach(u32),
    /// Detach from the active target.
    ProcessDetach,
    /// Append this many bytes of padding fields.
    Add(usize),
    /// Remove this many fields from the selection on.
    Remove(usize),
    /// Insert this many padding bytes before the selection.
    Insert(usize),
    /// Change the selected field to this kind.
    ChangeKind(FieldKind),
}

} // verus!
