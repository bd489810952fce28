//! A media library's verified core: archive detection and playback planning,
//! metadata-service request rules, configuration defaults and bounds, direct
//! link policy and indexing records, download naming and chunking, the store
//! of download jobs, title matching, duplicate detection and the choice of
//! shows to merge, and the watch
//! streak.
use vstd::prelude::*;

pub mod text;
pub mod media;
pub mod archive;
pub mod imdb;
pub mod balloon;
pub mod cinemeta;
pub mod paths;
pub mod config;
pub mod direct_link;
pub mod download;
pub mod titles;
pub mod history;
pub mod jobs;
pub mod duplicates;
pub mod merging;

verus! {
} // verus!
