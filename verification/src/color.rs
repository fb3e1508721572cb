//! Color fields: grids whose cells are RGBA pixels, and their projection to
//! the flat byte sequence a texture consumer expects.

use vstd::prelude::*;
use vstd::arithmetic::div_mod::lemma_small_mod;

use crate::field::Field;

verus! {

/// A toroidal grid of RGBA pixels, four bytes per cell.
pub type ColorField = Field<[u8; 4]>;

/// The gradient pixel a test card holds at `(x, y)`: red and green grow
/// with the coordinates, blue stays zero, alpha is opaque.
pub open spec fn gradient_pixel(x: int, y: int) -> [u8; 4] {
    [(x * 16) as u8, (y * 16) as u8, 0u8, 0xFFu8]
}

/// Builds a 16x16 color test card with a red/green gradient, used to check
/// a texture pipeline end to end.
pub fn gen_test() -> (f: ColorField)
    ensures
        f.wf(),
        f.width() == 16,
        f.height() == 16,
        forall|i: int, j: int| f.in_range(i, j) ==> #[trigger] f.at(i, j) == gradient_pixel(i, j),
{
    let mut f: ColorField = Field::new(16, 16, [0xFFu8, 0x00u8, 0x00u8, 0xFFu8]);
    let mut x: usize = 0;
    while x < 16
        invariant
            x <= 16,
            f.wf(),
            f.width() == 16,
            f.height() == 16,
            forall|i: int, j: int|
                0 <= i < x && 0 <= j < 16 ==> #[trigger] f.at(i, j) == gradient_pixel(i, j),
            forall|i: int, j: int|
                x <= i < 16 && 0 <= j < 16 ==> #[trigger] f.at(i, j) == ([0xFFu8, 0x00u8, 0x00u8,
                    0xFFu8]),
        decreases 16 - x,
    {
        let mut y: usize = 0;
        while y < 16
            invariant
                y <= 16,
                x < 16,
                f.wf(),
                f.width() == 16,
                f.height() == 16,
                forall|i: int, j: int|
                    0 <= i < x && 0 <= j < 16 ==> #[trigger] f.at(i, j) == gradient_pixel(i, j),
                forall|j: int|
                    0 <= j < y ==> #[trigger] f.at(x as int, j) == gradient_pixel(x as int, j),
                forall|j: int|
                    y <= j < 16 ==> #[trigger] f.at(x as int, j) == ([0xFFu8, 0x00u8, 0x00u8,
                        0xFFu8]),
                forall|i: int, j: int|
                    x < i < 16 && 0 <= j < 16 ==> #[trigger] f.at(i, j) == ([0xFFu8, 0x00u8,
                        0x00u8, 0xFFu8]),
            decreases 16 - y,
        {
            proof {
                lemma_small_mod(x as nat, 16nat);
                lemma_small_mod(y as nat, 16nat);
            }
            let pixel = [(x * 16) as u8, (y * 16) as u8, 0x00u8, 0xFFu8];
            proof {
                assert(pixel == gradient_pixel(x as int, y as int));
            }
            f.set(x as i32, y as i32, pixel);
            y = y + 1;
        }
        x = x + 1;
    }
    f
}

} // verus!
