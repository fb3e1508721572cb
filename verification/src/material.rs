//! Material cells: an alternative cell type for fields that simulate
//! materials rather than plain live/dead states.

use vstd::prelude::*;

use crate::field::{Cell, Field};

verus! {

/// A material, identified by a small numeric id.
#[derive(Clone, Copy, PartialEq, Eq, Structural, Debug)]
pub struct Material {
    pub id: u16,
}

impl Cell for Material {
    fn cell_eq(&self, other: &Self) -> (r: bool) {
        self.id == other.id
    }
}

/// A toroidal grid of materials.
pub type MaterialField = Field<Material>;

} // verus!
