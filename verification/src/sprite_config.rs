//! The configuration of the collection: sizes of portraits and the ordered
//! lists of emotions and actions.

use vstd::prelude::*;
use std::collections::HashMap;

verus! {

/// The configuration that the repository declares.
#[derive(Debug, Clone)]
pub struct SpriteConfig {
    pub portrait_size: i32,
    pub portrait_tile_x: i32,
    pub portrait_tile_y: i32,
    pub completion_emotions: Vec<Vec<i32>>,
    pub emotions: Vec<String>,
    pub completion_actions: Vec<Vec<i32>>,
    pub actions: Vec<String>,
    pub action_map: HashMap<i32, String>,
}

} // verus!
