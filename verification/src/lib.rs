use vstd::prelude::*;

pub mod freelist;
pub mod buffers;
pub mod block;
pub mod mesher;
pub mod chunk;
pub mod world;
pub mod input;
pub mod ui;
pub mod menu;
pub mod texture;
pub mod screens;
pub mod render;
pub mod vertices;
pub mod font;
pub mod barriers;

verus! {

} // verus!
