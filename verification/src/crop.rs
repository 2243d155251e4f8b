//! The crop-rectangle algorithm: maps a source image size and a target
//! aspect ratio to the largest centered rectangle of that exact ratio
//! that fits inside the source.

use vstd::prelude::*;

verus! {

/// A centered, axis-aligned crop region of a source image.
#[derive(Clone, Copy, Debug, PartialEq, Eq, Structural)]
pub struct CropRect {
    pub width: u32,
    pub height: u32,
    pub offset_x: u32,
    pub offset_y: u32,
}

/// Why a crop computation was rejected.
#[derive(Clone, Copy, Debug, PartialEq, Eq, Structural)]
pub enum CropError {
    /// A source dimension or a ratio component was zero.
    InvalidDimensions,
}

/// The target ratio `rw:rh` is at least as wide as the source ratio `w:h`,
/// compared exactly (`rw/rh >= w/h` over the rationals).
pub open spec fn crop_is_wider(w: int, h: int, rw: int, rh: int) -> bool {
    rw * h >= w * rh
}

/// The largest integer `k` such that a `k*rw` by `k*rh` rectangle fits
/// within the source on its limiting axis.
pub open spec fn scale_factor(w: int, h: int, rw: int, rh: int) -> int {
    if crop_is_wider(w, h, rw, rh) {
        w / rw
    } else {
        h / rh
    }
}

/// `c` is the crop rectangle that the algorithm assigns to a `w` by `h`
/// source and target ratio `rw:rh`: an exact multiple of the ratio, centered
/// by floor division (an odd margin leaves the extra pixel on the
/// bottom/right side).
pub open spec fn crop_rect_for(w: int, h: int, rw: int, rh: int, c: CropRect) -> bool {
    let k = scale_factor(w, h, rw, rh);
    &&& c.width == k * rw
    &&& c.height == k * rh
    &&& c.offset_x == (w - c.width) / 2
    &&& c.offset_y == (h - c.height) / 2
}

/// Compute the centered crop rectangle of ratio `ratio_w:ratio_h` for a
/// `source_width` by `source_height` image.
///
/// Succeeds exactly when every argument is positive; the rectangle then
/// fits inside the source and is pinned down by `crop_rect_for`.
pub fn compute_crop(source_width: u32, source_height: u32, ratio_w: u32, ratio_h: u32) -> (r:
    Result<CropRect, CropError>)
    ensures
        r is Ok <==> (source_width > 0 && source_height > 0 && ratio_w > 0 && ratio_h > 0),
        r is Err ==> r == Err::<CropRect, CropError>(CropError::InvalidDimensions),
        r matches Ok(c) ==> crop_rect_for(
            source_width as int,
            source_height as int,
            ratio_w as int,
            ratio_h as int,
            c,
        ),
        r matches Ok(c) ==> c.width <= source_width && c.height <= source_height
            && c.offset_x + c.width <= source_width && c.offset_y + c.height <= source_height,
{
    if source_width == 0 || source_height == 0 || ratio_w == 0 || ratio_h == 0 {
        return Err(CropError::InvalidDimensions);
    }
    proof {
        assert((ratio_w as int) * (source_height as int) <= 0xffff_ffff * 0xffff_ffff
            && (source_width as int) * (ratio_h as int) <= 0xffff_ffff * 0xffff_ffff)
            by (nonlinear_arith)
            requires
                0 <= ratio_w as int <= 0xffff_ffff,
                0 <= source_height as int <= 0xffff_ffff,
                0 <= source_width as int <= 0xffff_ffff,
                0 <= ratio_h as int <= 0xffff_ffff,
        ;
    }
    let is_crop_wider: bool = (ratio_w as u64) * (source_height as u64) >= (source_width as u64)
        * (ratio_h as u64);
    let k: u32 = if is_crop_wider {
        source_width / ratio_w
    } else {
        source_height / ratio_h
    };
    proof {
        lemma_scale_fits(
            source_width as int,
            source_height as int,
            ratio_w as int,
            ratio_h as int,
        );
    }
    let crop_width: u32 = k * ratio_w;
    let crop_height: u32 = k * ratio_h;
    let offset_x: u32 = (source_width - crop_width) / 2;
    let offset_y: u32 = (source_height - crop_height) / 2;
    Ok(CropRect { width: crop_width, height: crop_height, offset_x, offset_y })
}

/// For positive inputs, the scaled rectangle fits inside the source on
/// both axes.
pub proof fn lemma_scale_fits(w: int, h: int, rw: int, rh: int)
    requires
        w > 0,
        h > 0,
        rw > 0,
        rh > 0,
    ensures
        scale_factor(w, h, rw, rh) >= 0,
        scale_factor(w, h, rw, rh) * rw <= w,
        scale_factor(w, h, rw, rh) * rh <= h,
{
    let k = scale_factor(w, h, rw, rh);
    if crop_is_wider(w, h, rw, rh) {
        assert(k == w / rw);
        assert(k >= 0 && k * rw <= w) by (nonlinear_arith)
            requires
                w > 0,
                rw > 0,
                k == w / rw,
        ;
        assert(k * rh <= h) by (nonlinear_arith)
            requires
                k >= 0,
                rw > 0,
                rh > 0,
                k * rw <= w,
                rw * h >= w * rh,
        ;
    } else {
        assert(k == h / rh);
        assert(k >= 0 && k * rh <= h) by (nonlinear_arith)
            requires
                h > 0,
                rh > 0,
                k == h / rh,
        ;
        assert(k * rw <= w) by (nonlinear_arith)
            requires
                k >= 0,
                rw > 0,
                rh > 0,
                k * rh <= h,
                rw * h < w * rh,
        ;
    }
}

/// The crop rectangle is a function of its inputs alone: two rectangles
/// assigned to the same source size and ratio are equal.
pub proof fn lemma_crop_deterministic(w: int, h: int, rw: int, rh: int, c1: CropRect, c2: CropRect)
    requires
        crop_rect_for(w, h, rw, rh, c1),
        crop_rect_for(w, h, rw, rh, c2),
    ensures
        c1 == c2,
{
}

/// Centering: the crop sits at exactly the floor of half the margin on
/// each axis, so twice the offset plus the crop dimension reaches the
/// source dimension, short by at most the one pixel an odd margin leaves
/// on the bottom/right side.
pub proof fn lemma_centering(w: int, h: int, rw: int, rh: int, c: CropRect)
    requires
        w > 0,
        h > 0,
        rw > 0,
        rh > 0,
        crop_rect_for(w, h, rw, rh, c),
    ensures
        2 * c.offset_x + c.width == w || 2 * c.offset_x + c.width == w - 1,
        2 * c.offset_y + c.height == h || 2 * c.offset_y + c.height == h - 1,
{
    lemma_scale_fits(w, h, rw, rh);
    let mx = w - c.width;
    let my = h - c.height;
    assert(mx >= 0 && my >= 0);
    assert(2 * (mx / 2) + mx % 2 == mx);
    assert(2 * (my / 2) + my % 2 == my);
}

/// Ratio fidelity: both crop dimensions are exact multiples of the target
/// ratio by the same scale factor, so dividing each by its ratio component
/// recovers that factor.
pub proof fn lemma_ratio_fidelity(w: int, h: int, rw: int, rh: int, c: CropRect)
    requires
        w > 0,
        h > 0,
        rw > 0,
        rh > 0,
        crop_rect_for(w, h, rw, rh, c),
    ensures
        c.width as int / rw == scale_factor(w, h, rw, rh),
        c.height as int / rh == scale_factor(w, h, rw, rh),
        c.width as int / rw == c.height as int / rh,
{
    let k = scale_factor(w, h, rw, rh);
    lemma_scale_fits(w, h, rw, rh);
    assert((k * rw) / rw == k) by (nonlinear_arith)
        requires
            rw > 0,
            k >= 0,
    ;
    assert((k * rh) / rh == k) by (nonlinear_arith)
        requires
            rh > 0,
            k >= 0,
    ;
}

} // verus!
