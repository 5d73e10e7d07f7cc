//! The canvas: a grid of colors, row after row.

use crate::color::{rgb_black, Color, ColorModel};
use crate::scalar::Scalar;
use vstd::prelude::*;

verus! {

/// The gamma of a canvas made without one, in raw units (2.2).
pub const DEFAULT_GAMMA_RAW: i64 = 2_200_000_000;

pub struct Canvas {
    width: u32,
    height: u32,
    buff: Vec<Color>,
    gamma: Scalar,
}

/// The place in the buffer of the pixel `(x, y)` of a canvas `width` wide.
pub open spec fn pixel_index(width: int, x: int, y: int) -> int {
    x + y * width
}

impl Canvas {
    #[verifier::type_invariant]
    spec fn well_formed(self) -> bool {
        self.buff@.len() == self.width * self.height && self.width * self.height <= u32::MAX
    }

    pub closed spec fn spec_width(&self) -> int {
        self.width as int
    }

    pub closed spec fn spec_height(&self) -> int {
        self.height as int
    }

    pub closed spec fn spec_gamma(&self) -> int {
        self.gamma@
    }

    /// The colors of the canvas, row after row.
    pub closed spec fn pixels(&self) -> Seq<ColorModel> {
        Seq::new(self.buff@.len(), |i: int| self.buff@[i]@)
    }

    /// A black canvas. `gamma` is the exponent of the gamma correction, 2.2
    /// where none is given.
    pub fn new(width: u32, height: u32, gamma: Option<Scalar>) -> (canvas: Self)
        requires
            width * height <= u32::MAX,
        ensures
            canvas.spec_width() == width,
            canvas.spec_height() == height,
            canvas.spec_gamma() == (match gamma {
                Some(g) => g@,
                None => DEFAULT_GAMMA_RAW as int,
            }),
            canvas.pixels() == Seq::new((width * height) as nat, |i: int| rgb_black()),
    {
        let size: u32 = width * height;
        let mut buff: Vec<Color> = Vec::new();
        let mut i: u32 = 0;
        while i < size
            invariant
                i <= size,
                buff@.len() == i,
                forall|k: int| 0 <= k < i ==> (#[trigger] buff@[k])@ == rgb_black(),
            decreases size - i,
        {
            buff.push(Color::black());
            i = i + 1;
        }
        let gamma = match gamma {
            Some(gamma) => gamma,
            None => Scalar::from_raw(DEFAULT_GAMMA_RAW),
        };
        let canvas = Self { width, height, buff, gamma };
        assert(canvas.pixels() =~= Seq::new((width * height) as nat, |i: int| rgb_black()));
        canvas
    }

    /// The color of the pixel `(x, y)`.
    pub fn pixel_at(&self, x: u32, y: u32) -> (c: Color)
        requires
            0 <= pixel_index(self.spec_width(), x as int, y as int) < self.pixels().len(),
        ensures
            c@ == self.pixels()[pixel_index(self.spec_width(), x as int, y as int)],
    {
        let idx = self.get_index(x, y);
        self.buff[idx as usize]
    }

    /// Sets the color of the pixel `(x, y)`.
    pub fn write_pixel(&mut self, x: u32, y: u32, color: Color)
        requires
            0 <= pixel_index(old(self).spec_width(), x as int, y as int) < old(self).pixels().len(),
        ensures
            final(self).pixels() == old(self).pixels().update(
                pixel_index(old(self).spec_width(), x as int, y as int),
                color@,
            ),
            final(self).spec_width() == old(self).spec_width(),
            final(self).spec_height() == old(self).spec_height(),
            final(self).spec_gamma() == old(self).spec_gamma(),
    {
        proof {
            use_type_invariant(&*self);
        }
        let idx = self.get_index(x, y);
        self.buff[idx as usize] = color;
        assert(self.pixels() =~= old(self).pixels().update(
            pixel_index(old(self).spec_width(), x as int, y as int),
            color@,
        ));
    }

    /// The width and the height.
    pub fn get_size(&self) -> (size: (u32, u32))
        ensures
            size.0 == self.spec_width(),
            size.1 == self.spec_height(),
            self.pixels().len() == size.0 * size.1,
    {
        proof {
            use_type_invariant(self);
        }
        (self.width, self.height)
    }

    /// The exponent of the gamma correction.
    pub fn gamma(&self) -> (g: Scalar)
        ensures
            g@ == self.spec_gamma(),
    {
        self.gamma
    }

    fn get_index(&self, x: u32, y: u32) -> (idx: u32)
        requires
            0 <= pixel_index(self.spec_width(), x as int, y as int) < self.pixels().len(),
        ensures
            idx == pixel_index(self.spec_width(), x as int, y as int),
            idx < self.buff@.len(),
    {
        proof {
            use_type_invariant(self);
            assert(y * self.width >= 0) by (nonlinear_arith)
                requires
                    y >= 0,
                    self.width >= 0,
            ;
        }
        x + y * self.width
    }

    /// The pixel `(x, y)` that the place `idx` of the buffer holds, in a
    /// canvas `width` wide.
    pub fn get_xy(width: u32, idx: u32) -> (xy: (u32, u32))
        requires
            width > 0,
        ensures
            xy.0 == idx % width,
            xy.1 == idx / width,
            xy.0 < width,
            pixel_index(width as int, xy.0 as int, xy.1 as int) == idx,
    {
        let x = idx % width;
        let y = idx / width;
        proof {
            vstd::arithmetic::div_mod::lemma_fundamental_div_mod(idx as int, width as int);
            assert(width * (idx / width) == (idx / width) * width) by (nonlinear_arith);
        }
        (x, y)
    }
}

} // verus!
