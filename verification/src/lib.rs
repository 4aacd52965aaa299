use vstd::prelude::*;

pub mod collision;
pub mod component;
pub mod dialog;
pub mod input;
pub mod mesh;
pub mod prefab;
pub mod render;
pub mod save;
pub mod ui;
pub mod world;

verus! {

} // verus!
