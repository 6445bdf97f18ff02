//! Annotations kept inside the issues of an issue tracker.
//!
//! An annotation is a comment or a highlight on a reference document. It is
//! stored as a block inside the body of an issue; the tracker is the only
//! store. This library holds the annotation and the texts derived from it
//! (`model`), the block in free text (`codec`), the search through the
//! tracker's issues (`tracker`) and the filing of an annotation (`protocol`).
//! It talks to no tracker itself: it says what to ask of the tracker, and is
//! told what came back.

pub mod codec;
pub mod config;
pub mod migration;
pub mod model;
pub mod protocol;
pub mod text;
pub mod tracker;

pub use codec::{embed, extract_annotation};
pub use config::{render_index, Config, Mode, ServerState};
pub use model::{Annotation, Body, GitHubStatus, Selector, Target};
pub use protocol::{Command, Event, Listing, ListingPhase, Phase, Upsert, Workflow};
pub use tracker::{find_issue, list_page, stamp, DecodeError, Embedded, Issue};
