//! Analysis of Apollo Connectors schemas ahead of a move from
//! `connect/v0.3` to `connect/v0.4`: finding the `@connect(selection: …)`
//! sites whose meaning changes, recommending a decision for each token, and
//! rendering the recommendations document.
use vstd::prelude::*;

pub mod classify;
pub mod decode;
pub mod laws;
pub mod line_index;
pub mod markdown;
pub mod model;
pub mod rewrite;
pub mod scan;
pub mod sites;
pub mod text;
pub mod tree;
