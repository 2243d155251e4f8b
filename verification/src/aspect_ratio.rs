//! The fixed catalog of target aspect ratios, in output-naming order.

use vstd::prelude::*;
use crate::crop::{compute_crop, crop_rect_for, CropRect};

verus! {

/// One entry of the fixed ratio catalog.
#[derive(Clone, Copy, Debug, PartialEq, Eq, Structural)]
pub enum AspectRatio {
    Square,
    Wide,
    LongRectangle,
    Tall,
    TallRectangle,
}

impl AspectRatio {
    /// The target `w:h` ratio of this catalog entry.
    pub open spec fn spec_ratio(self) -> (int, int) {
        match self {
            AspectRatio::Square => (1int, 1int),
            AspectRatio::Wide => (2int, 1int),
            AspectRatio::LongRectangle => (4int, 3int),
            AspectRatio::Tall => (1int, 2int),
            AspectRatio::TallRectangle => (3int, 4int),
        }
    }

    /// The name of this catalog entry, as used in output filenames.
    pub open spec fn spec_name(self) -> Seq<char> {
        match self {
            AspectRatio::Square => "square"@,
            AspectRatio::Wide => "wide"@,
            AspectRatio::LongRectangle => "long_rectangle"@,
            AspectRatio::Tall => "tall"@,
            AspectRatio::TallRectangle => "tall_rectangle"@,
        }
    }

    /// The catalog, in its fixed order.
    pub fn all_ratios() -> (r: Vec<AspectRatio>)
        ensures
            r@ =~= seq![
                AspectRatio::Square,
                AspectRatio::Wide,
                AspectRatio::LongRectangle,
                AspectRatio::Tall,
                AspectRatio::TallRectangle,
            ],
    {
        let mut v: Vec<AspectRatio> = Vec::new();
        v.push(AspectRatio::Square);
        v.push(AspectRatio::Wide);
        v.push(AspectRatio::LongRectangle);
        v.push(AspectRatio::Tall);
        v.push(AspectRatio::TallRectangle);
        v
    }

    /// The target ratio as a pair of positive integers.
    pub fn ratio(&self) -> (r: (u32, u32))
        ensures
            (r.0 as int, r.1 as int) == self.spec_ratio(),
            r.0 > 0,
            r.1 > 0,
    {
        match self {
            AspectRatio::Square => (1, 1),
            AspectRatio::Wide => (2, 1),
            AspectRatio::LongRectangle => (4, 3),
            AspectRatio::Tall => (1, 2),
            AspectRatio::TallRectangle => (3, 4),
        }
    }

    pub fn name(&self) -> (r: &'static str)
        ensures
            r@ == self.spec_name(),
    {
        match self {
            AspectRatio::Square => "square",
            AspectRatio::Wide => "wide",
            AspectRatio::LongRectangle => "long_rectangle",
            AspectRatio::Tall => "tall",
            AspectRatio::TallRectangle => "tall_rectangle",
        }
    }

    /// The crop rectangle for a source of the given dimensions at this
    /// catalog ratio, as `[width, height, offset_x, offset_y]`.
    pub fn crop_data(&self, source_width: u32, source_height: u32) -> (r: [u32; 4])
        requires
            source_width > 0,
            source_height > 0,
        ensures
            ({
                let (rw, rh) = self.spec_ratio();
                crop_rect_for(
                    source_width as int,
                    source_height as int,
                    rw,
                    rh,
                    CropRect { width: r[0], height: r[1], offset_x: r[2], offset_y: r[3] },
                )
            }),
            r[0] <= source_width,
            r[1] <= source_height,
            r[2] + r[0] <= source_width,
            r[3] + r[1] <= source_height,
    {
        let (ratio_w, ratio_h) = self.ratio();
        match compute_crop(source_width, source_height, ratio_w, ratio_h) {
            Ok(c) => [c.width, c.height, c.offset_x, c.offset_y],
            Err(_) => {
                proof {
                    assert(false);
                }
                [0, 0, 0, 0]
            },
        }
    }
}

} // verus!
