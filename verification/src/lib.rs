//! fox-cull's library: the rules and formats of a photo and video culler,
//! with their contracts proved by Verus.
use vstd::prelude::*;

pub mod text;
pub mod calendar;
pub mod media;
pub mod jpeg;
pub mod naming;
pub mod video;
pub mod thumbs;
pub mod order;
pub mod catalog;
pub mod library;
pub mod browse;
pub mod listing;
pub mod capture;
pub mod recycle;
pub mod config;
pub mod clock;

verus! {

} // verus!
