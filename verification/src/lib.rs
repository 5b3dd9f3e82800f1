use vstd::prelude::*;

pub mod text;
pub mod paths;
pub mod compare;
pub mod strset;
pub mod sort;
pub mod tags;
pub mod collections;
pub mod folders;
pub mod markdown;
pub mod pipeline;
pub mod panel;
pub mod queue;
pub mod history;
pub mod activity;
pub mod image_ops;
pub mod viewer;
pub mod filmstrip;
pub mod styles;
pub mod labels;
pub mod drops;

verus! {

} // verus!
