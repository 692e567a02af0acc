use vstd::prelude::*;
use crate::transform::TransformError;

verus! {

/// An in-memory image raster: the pixel-layout model on which the
/// orientation-correcting transforms are stated and proved.  Pixels are
/// opaque 32-bit values held in rows, top to bottom, left to right.
pub struct Raster {
    width: usize,
    height: usize,
    rows: Vec<Vec<u32>>,
}

impl Raster {
    /// Width in pixels.
    pub closed spec fn spec_width(self) -> int {
        self.width as int
    }

    /// Height in pixels.
    pub closed spec fn spec_height(self) -> int {
        self.height as int
    }

    /// Every row is present and has the full width.
    pub closed spec fn wf(self) -> bool {
        &&& self.rows@.len() == self.height
        &&& forall|y: int| #![trigger self.rows@[y]] 0 <= y < self.height ==> self.rows@[y]@.len()
            == self.width
    }

    /// The pixel in column `x` of row `y`.
    pub closed spec fn pix(self, x: int, y: int) -> u32 {
        self.rows@[y]@[x]
    }

    /// Build a raster from rows, each of which must have length `width`.
    pub fn new(rows: Vec<Vec<u32>>, width: usize) -> (r: Option<Raster>)
        ensures
            match r {
                Some(t) => {
                    &&& t.wf()
                    &&& t.spec_width() == width
                    &&& t.spec_height() == rows@.len()
                    &&& forall|x: int, y: int|
                        #![trigger t.pix(x, y)]
                        0 <= x < width && 0 <= y < rows@.len() ==> t.pix(x, y) == rows@[y]@[x]
                },
                None => exists|y: int| 0 <= y < rows@.len() && rows@[y]@.len() != width,
            },
    {
        let n = rows.len();
        let mut y: usize = 0;
        while y < n
            invariant
                y <= n,
                n == rows@.len(),
                forall|j: int| #![trigger rows@[j]] 0 <= j < y ==> rows@[j]@.len() == width,
            decreases n - y,
        {
            if rows[y].len() != width {
                return None;
            }
            y += 1;
        }
        Some(Raster { width, height: n, rows })
    }

    /// Width in pixels.
    pub fn width(&self) -> (w: usize)
        ensures
            w == self.spec_width(),
    {
        self.width
    }

    /// Height in pixels.
    pub fn height(&self) -> (h: usize)
        ensures
            h == self.spec_height(),
    {
        self.height
    }

    /// Read the pixel in column `x` of row `y`.
    pub fn get(&self, x: usize, y: usize) -> (p: u32)
        requires
            self.wf(),
            x < self.spec_width(),
            y < self.spec_height(),
        ensures
            p == self.pix(x as int, y as int),
    {
        self.rows[y][x]
    }

    /// Mirror across the vertical axis.
    pub fn fliph(&self) -> (r: Raster)
        requires
            self.wf(),
        ensures
            r.wf(),
            r.spec_width() == self.spec_width(),
            r.spec_height() == self.spec_height(),
            forall|x: int, y: int|
                #![trigger r.pix(x, y)]
                0 <= x < r.spec_width() && 0 <= y < r.spec_height() ==> r.pix(x, y) == self.pix(
                    self.spec_width() - 1 - x,
                    y,
                ),
    {
        let ow = self.width;
        let oh = self.height;
        let mut rows: Vec<Vec<u32>> = Vec::new();
        let mut y: usize = 0;
        while y < oh
            invariant
                self.wf(),
                ow == self.spec_width(),
                oh == self.spec_height(),
                y <= oh,
                rows@.len() == y,
                forall|j: int| #![trigger rows@[j]] 0 <= j < y ==> rows@[j]@.len() == ow,
                forall|xx: int, j: int|
                    #![trigger rows@[j]@[xx]]
                    0 <= j < y && 0 <= xx < ow ==> rows@[j]@[xx] == self.pix(
                        self.spec_width() - 1 - xx,
                        j,
                    ),
            decreases oh - y,
        {
            let mut row: Vec<u32> = Vec::new();
            let mut x: usize = 0;
            while x < ow
                invariant
                    self.wf(),
                    ow == self.spec_width(),
                    oh == self.spec_height(),
                    y < oh,
                    x <= ow,
                    row@.len() == x,
                    forall|xx: int|
                        #![trigger row@[xx]]
                        0 <= xx < x ==> row@[xx] == self.pix(
                            self.spec_width() - 1 - xx,
                            y as int,
                        ),
                decreases ow - x,
            {
                row.push(self.get(ow - 1 - x, y));
                x += 1;
            }
            rows.push(row);
            y += 1;
        }
        Raster { width: ow, height: oh, rows }
    }

    /// Mirror across the horizontal axis.
    pub fn flipv(&self) -> (r: Raster)
        requires
            self.wf(),
        ensures
            r.wf(),
            r.spec_width() == self.spec_width(),
            r.spec_height() == self.spec_height(),
            forall|x: int, y: int|
                #![trigger r.pix(x, y)]
                0 <= x < r.spec_width() && 0 <= y < r.spec_height() ==> r.pix(x, y) == self.pix(
                    x,
                    self.spec_height() - 1 - y,
                ),
    {
        let ow = self.width;
        let oh = self.height;
        let mut rows: Vec<Vec<u32>> = Vec::new();
        let mut y: usize = 0;
        while y < oh
            invariant
                self.wf(),
                ow == self.spec_width(),
                oh == self.spec_height(),
                y <= oh,
                rows@.len() == y,
                forall|j: int| #![trigger rows@[j]] 0 <= j < y ==> rows@[j]@.len() == ow,
                forall|xx: int, j: int|
                    #![trigger rows@[j]@[xx]]
                    0 <= j < y && 0 <= xx < ow ==> rows@[j]@[xx] == self.pix(
                        xx,
                        self.spec_height() - 1 - j,
                    ),
            decreases oh - y,
        {
            let mut row: Vec<u32> = Vec::new();
            let mut x: usize = 0;
            while x < ow
                invariant
                    self.wf(),
                    ow == self.spec_width(),
                    oh == self.spec_height(),
                    y < oh,
                    x <= ow,
                    row@.len() == x,
                    forall|xx: int|
                        #![trigger row@[xx]]
                        0 <= xx < x ==> row@[xx] == self.pix(
                            xx,
                            self.spec_height() - 1 - y,
                        ),
                decreases ow - x,
            {
                row.push(self.get(x, oh - 1 - y));
                x += 1;
            }
            rows.push(row);
            y += 1;
        }
        Raster { width: ow, height: oh, rows }
    }

    /// Rotate a quarter turn clockwise.
    pub fn rotate90(&self) -> (r: Raster)
        requires
            self.wf(),
        ensures
            r.wf(),
            r.spec_width() == self.spec_height(),
            r.spec_height() == self.spec_width(),
            forall|x: int, y: int|
                #![trigger r.pix(x, y)]
                0 <= x < r.spec_width() && 0 <= y < r.spec_height() ==> r.pix(x, y) == self.pix(
                    y,
                    self.spec_height() - 1 - x,
                ),
    {
        let ow = self.height;
        let oh = self.width;
        let mut rows: Vec<Vec<u32>> = Vec::new();
        let mut y: usize = 0;
        while y < oh
            invariant
                self.wf(),
                ow == self.spec_height(),
                oh == self.spec_width(),
                y <= oh,
                rows@.len() == y,
                forall|j: int| #![trigger rows@[j]] 0 <= j < y ==> rows@[j]@.len() == ow,
                forall|xx: int, j: int|
                    #![trigger rows@[j]@[xx]]
                    0 <= j < y && 0 <= xx < ow ==> rows@[j]@[xx] == self.pix(
                        j,
                        self.spec_height() - 1 - xx,
                    ),
            decreases oh - y,
        {
            let mut row: Vec<u32> = Vec::new();
            let mut x: usize = 0;
            while x < ow
                invariant
                    self.wf(),
                    ow == self.spec_height(),
                    oh == self.spec_width(),
                    y < oh,
                    x <= ow,
                    row@.len() == x,
                    forall|xx: int|
                        #![trigger row@[xx]]
                        0 <= xx < x ==> row@[xx] == self.pix(
                            y as int,
                            self.spec_height() - 1 - xx,
                        ),
                decreases ow - x,
            {
                row.push(self.get(y, ow - 1 - x));
                x += 1;
            }
            rows.push(row);
            y += 1;
        }
        Raster { width: ow, height: oh, rows }
    }

    /// Rotate a half turn.
    pub fn rotate180(&self) -> (r: Raster)
        requires
            self.wf(),
        ensures
            r.wf(),
            r.spec_width() == self.spec_width(),
            r.spec_height() == self.spec_height(),
            forall|x: int, y: int|
                #![trigger r.pix(x, y)]
                0 <= x < r.spec_width() && 0 <= y < r.spec_height() ==> r.pix(x, y) == self.pix(
                    self.spec_width() - 1 - x,
                    self.spec_height() - 1 - y,
                ),
    {
        let ow = self.width;
        let oh = self.height;
        let mut rows: Vec<Vec<u32>> = Vec::new();
        let mut y: usize = 0;
        while y < oh
            invariant
                self.wf(),
                ow == self.spec_width(),
                oh == self.spec_height(),
                y <= oh,
                rows@.len() == y,
                forall|j: int| #![trigger rows@[j]] 0 <= j < y ==> rows@[j]@.len() == ow,
                forall|xx: int, j: int|
                    #![trigger rows@[j]@[xx]]
                    0 <= j < y && 0 <= xx < ow ==> rows@[j]@[xx] == self.pix(
                        self.spec_width() - 1 - xx,
                        self.spec_height() - 1 - j,
                    ),
            decreases oh - y,
        {
            let mut row: Vec<u32> = Vec::new();
            let mut x: usize = 0;
            while x < ow
                invariant
                    self.wf(),
                    ow == self.spec_width(),
                    oh == self.spec_height(),
                    y < oh,
                    x <= ow,
                    row@.len() == x,
                    forall|xx: int|
                        #![trigger row@[xx]]
                        0 <= xx < x ==> row@[xx] == self.pix(
                            self.spec_width() - 1 - xx,
                            self.spec_height() - 1 - y,
                        ),
                decreases ow - x,
            {
                row.push(self.get(ow - 1 - x, oh - 1 - y));
                x += 1;
            }
            rows.push(row);
            y += 1;
        }
        Raster { width: ow, height: oh, rows }
    }

    /// Rotate a quarter turn counter-clockwise.
    pub fn rotate270(&self) -> (r: Raster)
        requires
            self.wf(),
        ensures
            r.wf(),
            r.spec_width() == self.spec_height(),
            r.spec_height() == self.spec_width(),
            forall|x: int, y: int|
                #![trigger r.pix(x, y)]
                0 <= x < r.spec_width() && 0 <= y < r.spec_height() ==> r.pix(x, y) == self.pix(
                    self.spec_width() - 1 - y,
                    x,
                ),
    {
        let ow = self.height;
        let oh = self.width;
        let mut rows: Vec<Vec<u32>> = Vec::new();
        let mut y: usize = 0;
        while y < oh
            invariant
                self.wf(),
                ow == self.spec_height(),
                oh == self.spec_width(),
                y <= oh,
                rows@.len() == y,
                forall|j: int| #![trigger rows@[j]] 0 <= j < y ==> rows@[j]@.len() == ow,
                forall|xx: int, j: int|
                    #![trigger rows@[j]@[xx]]
                    0 <= j < y && 0 <= xx < ow ==> rows@[j]@[xx] == self.pix(
                        self.spec_width() - 1 - j,
                        xx,
                    ),
            decreases oh - y,
        {
            let mut row: Vec<u32> = Vec::new();
            let mut x: usize = 0;
            while x < ow
                invariant
                    self.wf(),
                    ow == self.spec_height(),
                    oh == self.spec_width(),
                    y < oh,
                    x <= ow,
                    row@.len() == x,
                    forall|xx: int|
                        #![trigger row@[xx]]
                        0 <= xx < x ==> row@[xx] == self.pix(
                            self.spec_width() - 1 - y,
                            xx,
                        ),
                decreases ow - x,
            {
                row.push(self.get(oh - 1 - y, x));
                x += 1;
            }
            rows.push(row);
            y += 1;
        }
        Raster { width: ow, height: oh, rows }
    }

    /// Correct this raster by one of the eight standard orientation
    /// values.  0 and 1 are the identity; 2..=8 are the flips, rotations
    /// and transpositions of the standard table; anything above 8 is
    /// refused as unsupported, never silently passed through.
    pub fn apply_orientation(&self, o: u32) -> (r: Result<Raster, TransformError>)
        requires
            self.wf(),
        ensures
            r is Ok <==> orientation_supported(o),
            match r {
                Ok(t) => is_oriented(t, *self, o),
                Err(e) => e == (TransformError::UnsupportedOrientation { orientation: o }) && o
                    > 8,
            },
    {
        match o {
            0 | 1 => Ok(self.clone_raster()),
            2 => Ok(self.fliph()),
            3 => Ok(self.rotate180()),
            4 => Ok(self.flipv()),
            5 => {
                let quarter = self.rotate90();
                let r = quarter.fliph();
                assert forall|x: int, y: int|
                    #![trigger r.pix(x, y)]
                    0 <= x < r.spec_width() && 0 <= y < r.spec_height() implies r.pix(x, y)
                    == self.pix(y, x) by {
                    assert(r.pix(x, y) == quarter.pix(quarter.spec_width() - 1 - x, y));
                }
                Ok(r)
            },
            6 => Ok(self.rotate90()),
            7 => {
                let quarter = self.rotate270();
                let r = quarter.fliph();
                assert forall|x: int, y: int|
                    #![trigger r.pix(x, y)]
                    0 <= x < r.spec_width() && 0 <= y < r.spec_height() implies r.pix(x, y)
                    == self.pix(self.spec_width() - 1 - y, self.spec_height() - 1 - x) by {
                    assert(r.pix(x, y) == quarter.pix(quarter.spec_width() - 1 - x, y));
                }
                Ok(r)
            },
            8 => Ok(self.rotate270()),
            _ => Err(TransformError::UnsupportedOrientation { orientation: o }),
        }
    }

    /// An independent copy with the same pixel layout.
    pub fn clone_raster(&self) -> (r: Raster)
        requires
            self.wf(),
        ensures
            r.wf(),
            r.spec_width() == self.spec_width(),
            r.spec_height() == self.spec_height(),
            forall|x: int, y: int|
                #![trigger r.pix(x, y)]
                0 <= x < r.spec_width() && 0 <= y < r.spec_height() ==> r.pix(x, y) == self.pix(
                    x,
                    y,
                ),
    {
        let ow = self.width;
        let oh = self.height;
        let mut rows: Vec<Vec<u32>> = Vec::new();
        let mut y: usize = 0;
        while y < oh
            invariant
                self.wf(),
                ow == self.spec_width(),
                oh == self.spec_height(),
                y <= oh,
                rows@.len() == y,
                forall|j: int| #![trigger rows@[j]] 0 <= j < y ==> rows@[j]@.len() == ow,
                forall|xx: int, j: int|
                    #![trigger rows@[j]@[xx]]
                    0 <= j < y && 0 <= xx < ow ==> rows@[j]@[xx] == self.pix(xx, j),
            decreases oh - y,
        {
            let mut row: Vec<u32> = Vec::new();
            let mut x: usize = 0;
            while x < ow
                invariant
                    self.wf(),
                    ow == self.spec_width(),
                    oh == self.spec_height(),
                    y < oh,
                    x <= ow,
                    row@.len() == x,
                    forall|xx: int|
                        #![trigger row@[xx]]
                        0 <= xx < x ==> row@[xx] == self.pix(xx, y as int),
                decreases ow - x,
            {
                row.push(self.get(x, y));
                x += 1;
            }
            rows.push(row);
            y += 1;
        }
        Raster { width: ow, height: oh, rows }
    }
}

/// The orientation values of the standard table; anything else is an
/// error.
pub open spec fn orientation_supported(o: u32) -> bool {
    o <= 8
}

/// Whether correcting by `o` swaps the two axes.
pub open spec fn swaps_axes(o: u32) -> bool {
    o == 5 || o == 6 || o == 7 || o == 8
}

/// The source pixel that lands at output position (x, y) when a raster
/// of width `w` and height `h` is corrected by orientation `o`:
/// 0 and 1 leave pixels in place, 2 mirrors horizontally, 3 rotates a
/// half turn, 4 mirrors vertically, 5 transposes, 6 rotates a quarter
/// turn clockwise, 7 anti-transposes, 8 rotates a quarter turn
/// counter-clockwise.
pub open spec fn orientation_source(o: u32, w: int, h: int, x: int, y: int) -> (int, int) {
    if o == 2 {
        (w - 1 - x, y)
    } else if o == 3 {
        (w - 1 - x, h - 1 - y)
    } else if o == 4 {
        (x, h - 1 - y)
    } else if o == 5 {
        (y, x)
    } else if o == 6 {
        (y, h - 1 - x)
    } else if o == 7 {
        (w - 1 - y, h - 1 - x)
    } else if o == 8 {
        (w - 1 - y, x)
    } else {
        (x, y)
    }
}

/// `out` is `src` corrected by orientation `o`: the axes are swapped
/// exactly for the transposing values, and every output pixel is the
/// source pixel the table prescribes.
pub open spec fn is_oriented(out: Raster, src: Raster, o: u32) -> bool {
    &&& out.wf()
    &&& out.spec_width() == if swaps_axes(o) {
        src.spec_height()
    } else {
        src.spec_width()
    }
    &&& out.spec_height() == if swaps_axes(o) {
        src.spec_width()
    } else {
        src.spec_height()
    }
    &&& forall|x: int, y: int|
        #![trigger out.pix(x, y)]
        0 <= x < out.spec_width() && 0 <= y < out.spec_height() ==> out.pix(x, y) == src.pix(
            orientation_source(o, src.spec_width(), src.spec_height(), x, y).0,
            orientation_source(o, src.spec_width(), src.spec_height(), x, y).1,
        )
}

/// The orientation that undoes `o`: the two quarter turns undo each
/// other and every other value is its own inverse.
pub open spec fn inverse_orientation(o: u32) -> u32 {
    if o == 6 {
        8
    } else if o == 8 {
        6
    } else {
        o
    }
}

/// Two rasters with the same dimensions and the same pixel everywhere.
pub open spec fn same_pixels(a: Raster, b: Raster) -> bool {
    &&& a.spec_width() == b.spec_width()
    &&& a.spec_height() == b.spec_height()
    &&& forall|x: int, y: int|
        #![trigger a.pix(x, y)]
        0 <= x < a.spec_width() && 0 <= y < a.spec_height() ==> a.pix(x, y) == b.pix(x, y)
}

/// Orientation round-trip: correcting by any supported orientation and
/// then by its inverse restores the original pixel layout exactly.
pub proof fn lemma_orientation_round_trip(src: Raster, mid: Raster, out: Raster, o: u32)
    requires
        src.wf(),
        orientation_supported(o),
        is_oriented(mid, src, o),
        is_oriented(out, mid, inverse_orientation(o)),
    ensures
        same_pixels(out, src),
{
    let w = src.spec_width();
    let h = src.spec_height();
    assert forall|x: int, y: int|
        #![trigger out.pix(x, y)]
        0 <= x < out.spec_width() && 0 <= y < out.spec_height() implies out.pix(x, y) == src.pix(
        x,
        y,
    ) by {
        let back = orientation_source(inverse_orientation(o), mid.spec_width(), mid.spec_height(), x, y);
        assert(out.pix(x, y) == mid.pix(back.0, back.1));
        assert(mid.pix(back.0, back.1) == src.pix(
            orientation_source(o, w, h, back.0, back.1).0,
            orientation_source(o, w, h, back.0, back.1).1,
        ));
    }
}

} // verus!
