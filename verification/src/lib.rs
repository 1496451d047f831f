//! Line statistics of a source tree by language and by contributor, and the
//! state of the viewer that browses them.

pub mod classify;
pub mod git;
pub mod languages;
pub mod navigator;
pub mod stats;
pub mod table;
pub mod text;
pub mod walk;

pub use git::GitError;
pub use navigator::App;
pub use stats::{ContributorInfo, LanguageInfo, Stats};
pub use walk::get_stats;
