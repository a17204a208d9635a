//! A host-agnostic vim engine.
//!
//! The engine knows nothing about windows, fonts or the system clipboard. It
//! operates on a buffer through the [`buffer::VimBufferMut`] trait and
//! surfaces side effects through the [`host::VimHost`] trait. Feed it keys
//! with [`state::VimState::handle_key`]; draw the cursor, selection and
//! highlights from the state it exposes.
//!
//! Around the engine stand what editors need to embed it: key and text
//! dispatch, overlays for painting lines, an edit box, a read-only pager, a
//! rope buffer with its host, and layered configuration.
use vstd::prelude::*;

pub mod api;
pub mod block;
pub mod block_laws;
pub mod bracket_laws;
pub mod buffer;
pub mod cells;
pub mod charmap;
pub mod chars;
pub mod cmdline;
pub mod commands;
pub mod command_laws;
pub mod config;
pub mod config_laws;
pub mod dispatch;
pub mod doc;
pub mod doc_laws;
pub mod drive;
pub mod edit;
pub mod edit_host;
pub mod editor;
pub mod edit_laws;
pub mod edits;
pub mod engine;
pub mod ex;
pub mod ex_laws;
pub mod execute;
pub mod flat;
pub mod format;
pub mod groups;
pub mod host;
pub mod host_laws;
pub mod insert_laws;
pub mod insert_mode;
pub mod join_laws;
pub mod key;
pub mod keymap;
pub mod landing_laws;
pub mod layers;
pub mod lines;
pub mod lists;
pub mod mapping_laws;
pub mod marks;
pub mod mode;
pub mod motion_laws;
pub mod motions;
pub mod movement;
pub mod newline_laws;
pub mod normal;
pub mod number;
pub mod number_laws;
pub mod object_laws;
pub mod objects;
pub mod operator_laws;
pub mod operators;
pub mod ops;
pub mod option_laws;
pub mod options;
pub mod overlay;
pub mod pager;
pub mod pipeline;
pub mod prompt_laws;
pub mod record;
pub mod register_laws;
pub mod registers;
pub mod replay;
pub mod rope;
pub mod screen_laws;
pub mod search;
pub mod search_laws;
pub mod sentence_laws;
pub mod shift;
pub mod shifting;
pub mod snapshots;
pub mod state;
pub mod strs;
pub mod tables;
pub mod tag_laws;
pub mod tck;
pub mod text;
pub mod view_laws;
pub mod visual;
pub mod visual_laws;
pub mod word;
pub mod word_laws;

pub use buffer::{VimBuffer, VimBufferMut};
pub use host::VimHost;
pub use key::{Key, KeyKind, Modifiers};
pub use keymap::ModeClass;
pub use mode::{Mode, VisualKind};
pub use motions::Motion;
pub use objects::TextObject;
pub use ops::Operator;
pub use registers::RegisterKind;
pub use state::{Ctx, KeyResult, VimState};

verus! {

} // verus!
