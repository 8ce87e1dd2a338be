//! Verified core of `prmn`, a terminal project manager: configuration model,
//! path layout, argument grammar, fuzzy ranking and menu decisions.

pub mod cmd;
pub mod data;
pub mod listing;
pub mod paths;
pub mod rank;
pub mod text;
pub mod ui;
