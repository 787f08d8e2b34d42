//! A batch file-renaming engine: declarative rename rules, a pure preview with
//! conflict detection, a two-phase commit state machine for the renames
//! themselves, and an undo/redo history.

pub mod text;
pub mod decimal;
pub mod rules;
pub mod paths;
pub mod preview;
pub mod history;
pub mod executor;
pub mod undo;

pub use rules::{detect_conflicts, has_invalid_chars, PreviewResult, RenameRule};
pub use preview::{preview_names, preview_rename};
pub use history::{HistoryStore, RenameHistory};
pub use executor::{BatchExecution, BatchRenameResult, FileProbe, RenameOperation, RenameOperationResult};
pub use undo::{UndoResult, UndoRun};
