use vstd::prelude::*;

pub mod api;
pub mod catalog;
pub mod draft;
pub mod editor;
pub mod index;
pub mod indexing;
pub mod locks;
pub mod match_index;
pub mod mastery;
pub mod mock_draft;
pub mod ordered;
pub mod overview;
pub mod profile;
pub mod protocol;
pub mod recommend;
pub mod requests;
pub mod runtime;
pub mod schema;
pub mod selection;
pub mod text;
pub mod tsv;
pub mod wire;

verus! {

} // verus!
