//! Area capture: a selection rectangle, already scaled to the physical
//! pixels of the frozen frame, is clamped to the frame and cut out of it.
use vstd::prelude::*;
use vstd::string::*;

verus! {

/// Physical crop rectangle `(x0, y0, width, height)` for a selection whose
/// edges sit at `left`, `top`, `right` and `bottom` physical pixels, or
/// `None` when the clamped rectangle is thinner than two pixels.
pub open spec fn crop_rect(frame_w: u32, frame_h: u32, left: u32, top: u32, right: u32, bottom: u32)
    -> Option<(u32, u32, u32, u32)>
{
    let x0 = if left < frame_w { left } else { frame_w };
    let y0 = if top < frame_h { top } else { frame_h };
    let x1 = if right < frame_w { right } else { frame_w };
    let y1 = if bottom < frame_h { bottom } else { frame_h };
    let w = if x1 >= x0 { (x1 - x0) as u32 } else { 0u32 };
    let h = if y1 >= y0 { (y1 - y0) as u32 } else { 0u32 };
    if w < 2 || h < 2 {
        None
    } else {
        Some((x0, y0, w, h))
    }
}

/// Clamps a selection whose edges sit at `left`, `top`, `right` and
/// `bottom` physical pixels to a `frame_w` x `frame_h` frame and returns
/// the crop as `(x0, y0, w, h)`; a crop thinner than two pixels in either
/// direction is refused.
pub fn crop_bounds(frame_w: u32, frame_h: u32, left: u32, top: u32, right: u32, bottom: u32)
    -> (r: Result<(u32, u32, u32, u32), String>)
    ensures
        match crop_rect(frame_w, frame_h, left, top, right, bottom) {
            Some(rect) => r == Ok::<(u32, u32, u32, u32), String>(rect),
            None => r matches Err(e) && e@ == "selection too small"@,
        },
{
    let x0 = if left < frame_w { left } else { frame_w };
    let y0 = if top < frame_h { top } else { frame_h };
    let x1 = if right < frame_w { right } else { frame_w };
    let y1 = if bottom < frame_h { bottom } else { frame_h };
    let crop_w = x1.saturating_sub(x0);
    let crop_h = y1.saturating_sub(y0);
    if crop_w < 2 || crop_h < 2 {
        let e = String::from_str("selection too small");
        proof { reveal_strlit("selection too small"); }
        return Err(e);
    }
    Ok((x0, y0, crop_w, crop_h))
}

/// Byte offset of pixel `(x, y)` in an RGBA frame `frame_w` pixels wide.
pub open spec fn pixel_offset(frame_w: nat, x: nat, y: nat) -> nat {
    (y * frame_w + x) * 4
}

/// The first `rows` rows of the `w`-pixel-wide cut at `(x0, y0)`, row by
/// row, each row a contiguous run of the frame's bytes.
pub open spec fn crop_rows(rgba: Seq<u8>, frame_w: nat, x0: nat, y0: nat, w: nat, rows: nat) -> Seq<u8>
    decreases rows,
{
    if rows == 0 {
        Seq::empty()
    } else {
        let y = (y0 + rows - 1) as nat;
        crop_rows(rgba, frame_w, x0, y0, w, (rows - 1) as nat) + rgba.subrange(
            pixel_offset(frame_w, x0, y) as int,
            pixel_offset(frame_w, x0 + w, y) as int,
        )
    }
}

proof fn lemma_row_fits(frame_w: nat, frame_h: nat, x0: nat, w: nat, y: nat)
    requires
        x0 + w <= frame_w,
        y < frame_h,
    ensures
        pixel_offset(frame_w, x0, y) <= pixel_offset(frame_w, x0 + w, y),
        pixel_offset(frame_w, x0 + w, y) <= frame_w * frame_h * 4,
        pixel_offset(frame_w, x0 + w, y) - pixel_offset(frame_w, x0, y) == w * 4,
{
    assert(y * frame_w + x0 + w <= frame_w * frame_h) by (nonlinear_arith)
        requires
            x0 + w <= frame_w,
            y < frame_h,
    ;
}

/// Each byte of a cut is the byte of the frame at the same place.
pub proof fn lemma_crop_rows_content(
    rgba: Seq<u8>,
    frame_w: nat,
    frame_h: nat,
    x0: nat,
    y0: nat,
    w: nat,
    rows: nat,
)
    requires
        rgba.len() == frame_w * frame_h * 4,
        x0 + w <= frame_w,
        y0 + rows <= frame_h,
    ensures
        crop_rows(rgba, frame_w, x0, y0, w, rows).len() == rows * w * 4,
        forall|r: nat, c: nat|
            r < rows && c < w * 4 ==> #[trigger] crop_rows(rgba, frame_w, x0, y0, w, rows)[(r * (w * 4)
                + c) as int] == rgba[(pixel_offset(frame_w, x0, y0 + r) + c) as int],
    decreases rows,
{
    if rows > 0 {
        let k = (rows - 1) as nat;
        lemma_crop_rows_content(rgba, frame_w, frame_h, x0, y0, w, k);
        lemma_row_fits(frame_w, frame_h, x0, w, y0 + k);
        let prev = crop_rows(rgba, frame_w, x0, y0, w, k);
        assert(prev.len() == k * w * 4);
        assert(rows * w * 4 == k * w * 4 + w * 4) by (nonlinear_arith)
            requires rows == k + 1;
        assert forall|r: nat, c: nat| r < rows && c < w * 4 implies #[trigger] crop_rows(
            rgba,
            frame_w,
            x0,
            y0,
            w,
            rows,
        )[(r * (w * 4) + c) as int] == rgba[(pixel_offset(frame_w, x0, y0 + r) + c) as int] by {
            if r < k {
                assert(r * (w * 4) + c < k * w * 4) by (nonlinear_arith)
                    requires r < k, c < w * 4, r + 1 <= k;
            } else {
                assert(r == k);
                assert(r * (w * 4) == k * w * 4) by (nonlinear_arith)
                    requires r == k;
            }
        }
    }
}

/// Copies the `w` x `h` pixel cut at `(x0, y0)` out of an RGBA frame that
/// is `frame_w` x `frame_h` pixels.
pub fn crop_rgba(rgba: &[u8], frame_w: u32, frame_h: u32, x0: u32, y0: u32, w: u32, h: u32) -> (out: Vec<u8>)
    requires
        rgba@.len() == frame_w * frame_h * 4,
        x0 + w <= frame_w,
        y0 + h <= frame_h,
    ensures
        out@ == crop_rows(rgba@, frame_w as nat, x0 as nat, y0 as nat, w as nat, h as nat),
        out@.len() == w * h * 4,
{
    proof {
        lemma_crop_rows_content(rgba@, frame_w as nat, frame_h as nat, x0 as nat, y0 as nat, w as nat, h as nat);
        assert(w * h * 4 == h * w * 4) by (nonlinear_arith);
        assert(w * h * 4 <= frame_w * frame_h * 4) by (nonlinear_arith)
            requires w <= frame_w, h <= frame_h;
    }
    let len = rgba.len();
    if h == 0 {
        return Vec::new();
    }
    proof {
        assert(frame_w * 4 <= frame_w * frame_h * 4) by (nonlinear_arith)
            requires frame_h >= 1;
    }
    let stride: usize = frame_w as usize * 4;
    let mut out: Vec<u8> = Vec::with_capacity(w as usize * h as usize * 4);
    let mut row: u32 = y0;
    while row < y0 + h
        invariant
            y0 <= row <= y0 + h,
            rgba@.len() == frame_w * frame_h * 4,
            x0 + w <= frame_w,
            y0 + h <= frame_h,
            stride == frame_w * 4,
            len == rgba@.len(),
            out@ == crop_rows(rgba@, frame_w as nat, x0 as nat, y0 as nat, w as nat, (row - y0) as nat),
        decreases y0 + h - row,
    {
        proof {
            lemma_row_fits(frame_w as nat, frame_h as nat, x0 as nat, w as nat, row as nat);
            assert(row as int * stride == row * frame_w * 4) by (nonlinear_arith)
                requires stride == frame_w * 4;
        }
        let start: usize = row as usize * stride + x0 as usize * 4;
        let end: usize = start + w as usize * 4;
        let ghost before = out@;
        out.extend_from_slice(&rgba[start..end]);
        proof {
            assert(out@ =~= before + rgba@.subrange(start as int, end as int));
        }
        row = row + 1;
    }
    out
}

/// The full-screen frame grabbed when the overlay opens; area selection
/// crops from it so the pixels cannot change mid drag.
pub struct FrozenScreen {
    pub width: u32,
    pub height: u32,
    pub rgba: Vec<u8>,
}

impl FrozenScreen {
    /// The pixel buffer holds exactly `width * height` RGBA pixels.
    pub open spec fn wf(&self) -> bool {
        self.rgba@.len() == self.width * self.height * 4
    }

    /// Wraps a captured frame, or `None` when the buffer is not
    /// `width * height` RGBA pixels.
    pub fn from_capture(width: u32, height: u32, rgba: Vec<u8>) -> (r: Option<FrozenScreen>)
        ensures
            r is Some <==> rgba@.len() == width * height * 4,
            r matches Some(f) ==> f.width == width && f.height == height && f.rgba == rgba,
    {
        let w128 = width as u128;
        let h128 = height as u128;
        assert(w128 * h128 <= 0xffff_ffff * 0xffff_ffff) by (nonlinear_arith)
            requires w128 <= 0xffff_ffff, h128 <= 0xffff_ffff;
        if rgba.len() as u128 == w128 * h128 * 4 {
            Some(FrozenScreen { width, height, rgba })
        } else {
            None
        }
    }

    /// Cuts the selection with the given physical edges out of the frame:
    /// the pixels and their width and height.
    pub fn crop_selection(&self, left: u32, top: u32, right: u32, bottom: u32)
        -> (r: Result<(Vec<u8>, u32, u32), String>)
        requires
            self.wf(),
        ensures
            match crop_rect(self.width, self.height, left, top, right, bottom) {
                Some((x0, y0, w, h)) => r matches Ok((px, rw, rh)) && rw == w && rh == h && px@
                    == crop_rows(self.rgba@, self.width as nat, x0 as nat, y0 as nat, w as nat, h as nat)
                    && px@.len() == w * h * 4,
                None => r matches Err(e) && e@ == "selection too small"@,
            },
    {
        let (x0, y0, w, h) = crop_bounds(self.width, self.height, left, top, right, bottom)?;
        let px = crop_rgba(self.rgba.as_slice(), self.width, self.height, x0, y0, w, h);
        Ok((px, w, h))
    }
}

/// A crop rectangle lies inside the frame and is at least two pixels in
/// each direction.
pub proof fn lemma_crop_rect_inside(frame_w: u32, frame_h: u32, left: u32, top: u32, right: u32, bottom: u32)
    ensures
        crop_rect(frame_w, frame_h, left, top, right, bottom) matches Some((x0, y0, w, h)) ==> {
            &&& x0 + w <= frame_w
            &&& y0 + h <= frame_h
            &&& w >= 2
            &&& h >= 2
        },
{
}

/// The crop is the selection clamped to the frame: its left and top edges
/// are `left` and `top` pulled back to the frame's width and height, its
/// width and height run from there to `right` and `bottom` pulled back the
/// same way, and it is refused exactly when either extent comes out below
/// two pixels (an edge past its opposite counts as no extent).
pub proof fn lemma_crop_is_clamped_selection(
    frame_w: u32,
    frame_h: u32,
    left: u32,
    top: u32,
    right: u32,
    bottom: u32,
)
    ensures
        ({
            let x0 = vstd::math::min(left as int, frame_w as int);
            let y0 = vstd::math::min(top as int, frame_h as int);
            let w = vstd::math::max(vstd::math::min(right as int, frame_w as int) - x0, 0);
            let h = vstd::math::max(vstd::math::min(bottom as int, frame_h as int) - y0, 0);
            &&& (crop_rect(frame_w, frame_h, left, top, right, bottom) is Some <==> w >= 2 && h >= 2)
            &&& crop_rect(frame_w, frame_h, left, top, right, bottom) matches Some((rx, ry, rw, rh)) ==> rx == x0
                && ry == y0 && rw == w && rh == h
        }),
{
}

} // verus!
