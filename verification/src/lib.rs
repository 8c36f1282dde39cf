//! Interactive bulk file sorting: the decisions behind moving each file of a
//! source folder into a destination subfolder chosen at a prompt.

pub mod text;
pub mod names;
pub mod size;
pub mod files;
pub mod walk;
pub mod rank;
pub mod kind;
pub mod preview;
pub mod session;
pub mod prompt;
pub mod video;
pub mod player;
pub mod status;
pub mod gui;

pub use files::get_subdirs;
pub use kind::{detect_kind, FileKind};
pub use names::resolve_collision;
pub use session::{Action, MoveReport, Outcome, Progress, SortSession};
pub use size::format_size;
pub use video::FrameSize;
pub use walk::{collect_files, FileWalk};
