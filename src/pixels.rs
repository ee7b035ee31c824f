use vstd::prelude::*;

verus! {

/// Bytes per pixel: red, green, blue.
pub const CHANNELS: usize = 3;

/// Offset of the first byte of pixel `(x, y)` in a row-major buffer `width` pixels wide.
pub open spec fn pixel_offset(width: int, x: int, y: int) -> int {
    CHANNELS * (y * width + x)
}

/// `data` with the three bytes of pixel `(x, y)` replaced by `rgb`.
pub open spec fn with_pixel(data: Seq<u8>, width: int, x: int, y: int, rgb: [u8; 3]) -> Seq<u8> {
    let o = pixel_offset(width, x, y);
    data.update(o, rgb[0]).update(o + 1, rgb[1]).update(o + 2, rgb[2])
}

/// The three bytes of pixel `(x, y)` in `data`.
pub open spec fn pixel_at(data: Seq<u8>, width: int, x: int, y: int) -> [u8; 3] {
    let o = pixel_offset(width, x, y);
    [data[o], data[o + 1], data[o + 2]]
}

/// A byte offset of a pixel inside a `width` by `height` frame: each row of
/// `CHANNELS * width` bytes follows the one above it.
proof fn lemma_offset_in_frame(width: int, height: int, x: int, y: int)
    requires
        0 <= x < width,
        0 <= y < height,
    ensures
        0 <= y * width,
        y * width + x < width * height,
        CHANNELS * width * height == CHANNELS * (width * height),
        0 <= pixel_offset(width, x, y),
        pixel_offset(width, x, y) + CHANNELS <= CHANNELS * width * height,
{
    assert(CHANNELS * width * height == CHANNELS * (width * height)) by (nonlinear_arith);
    assert(y * width + x + 1 <= width * height) by (nonlinear_arith)
        requires
            0 <= x < width,
            0 <= y < height,
    ;
    assert(0 <= y * width) by (nonlinear_arith)
        requires
            0 <= y,
            0 <= width,
    ;
}

/// Two distinct pixels own disjoint bytes.
proof fn lemma_offsets_apart(width: int, x1: int, y1: int, x2: int, y2: int)
    requires
        0 <= x1 < width,
        0 <= x2 < width,
        (x1, y1) != (x2, y2),
    ensures
        pixel_offset(width, x1, y1) + CHANNELS <= pixel_offset(width, x2, y2)
            || pixel_offset(width, x2, y2) + CHANNELS <= pixel_offset(width, x1, y1),
{
    if y1 == y2 {
    } else if y1 < y2 {
        assert(y1 * width + width <= y2 * width) by (nonlinear_arith)
            requires
                y1 < y2,
                0 <= width,
        ;
    } else {
        assert(y2 * width + width <= y1 * width) by (nonlinear_arith)
            requires
                y2 < y1,
                0 <= width,
        ;
    }
}

/// A finished pixel: its column, its row and its color.
pub type PixelWrite = (u32, u32, [u8; 3]);

/// Byte `c` (0, 1 or 2) of a color.
pub open spec fn channel(rgb: [u8; 3], c: int) -> u8 {
    if c == 0 {
        rgb[0]
    } else if c == 1 {
        rgb[1]
    } else {
        rgb[2]
    }
}

/// `data` after the pixel writes `writes`, applied first to last.
pub open spec fn fill(data: Seq<u8>, width: int, writes: Seq<PixelWrite>) -> Seq<u8>
    decreases writes.len(),
{
    if writes.len() == 0 {
        data
    } else {
        let w = writes.last();
        with_pixel(fill(data, width, writes.drop_last()), width, w.0 as int, w.1 as int, w.2)
    }
}

/// Every write lands inside a `width` by `height` frame.
pub open spec fn writes_in_frame(writes: Seq<PixelWrite>, width: int, height: int) -> bool {
    forall|i: int| 0 <= i < writes.len() ==> (#[trigger] writes[i]).0 < width && writes[i].1 < height
}

/// No two writes target the same pixel.
pub open spec fn distinct_pixels(writes: Seq<PixelWrite>) -> bool {
    forall|i: int, j: int|
        0 <= i < j < writes.len() ==> (#[trigger] writes[i].0, writes[i].1) != (
            #[trigger] writes[j].0,
            writes[j].1,
        )
}

/// Byte `n` belongs to the pixel that `w` writes.
pub open spec fn covers(width: int, w: PixelWrite, n: int) -> bool {
    let o = pixel_offset(width, w.0 as int, w.1 as int);
    o <= n < o + CHANNELS
}

/// What byte `n` of a filled frame holds: the matching byte of the write that
/// covers it, or the byte it held before when no write covers it.
proof fn lemma_fill_byte(data: Seq<u8>, width: int, height: int, writes: Seq<PixelWrite>, n: int)
    requires
        data.len() == CHANNELS * width * height,
        writes_in_frame(writes, width, height),
        distinct_pixels(writes),
        0 <= n < data.len(),
    ensures
        fill(data, width, writes).len() == data.len(),
        forall|i: int|
            0 <= i < writes.len() && covers(width, #[trigger] writes[i], n) ==> fill(
                data,
                width,
                writes,
            )[n] == channel(writes[i].2, n - pixel_offset(width, writes[i].0 as int, writes[i].1 as int)),
        (forall|i: int| 0 <= i < writes.len() ==> !covers(width, #[trigger] writes[i], n)) ==> fill(
            data,
            width,
            writes,
        )[n] == data[n],
    decreases writes.len(),
{
    if writes.len() > 0 {
        let k = writes.len() - 1;
        let prefix = writes.drop_last();
        let w = writes.last();
        assert forall|i: int| 0 <= i < prefix.len() implies #[trigger] prefix[i] == writes[i] by {}
        lemma_fill_byte(data, width, height, prefix, n);
        lemma_offset_in_frame(width, height, w.0 as int, w.1 as int);
        assert forall|i: int|
            0 <= i < writes.len() && covers(width, #[trigger] writes[i], n) implies fill(
                data,
                width,
                writes,
            )[n] == channel(writes[i].2, n - pixel_offset(width, writes[i].0 as int, writes[i].1 as int)) by {
            if i < k {
                assert(prefix[i] == writes[i]);
                if covers(width, w, n) {
                    assert((writes[i].0, writes[i].1) != (writes[k].0, writes[k].1));
                    lemma_offsets_apart(width, writes[i].0 as int, writes[i].1 as int, w.0 as int, w.1 as int);
                }
            }
        }
        if forall|i: int| 0 <= i < writes.len() ==> !covers(width, #[trigger] writes[i], n) {
            assert(!covers(width, writes[k], n));
            assert forall|i: int| 0 <= i < prefix.len() implies !covers(width, #[trigger] prefix[i], n) by {
                assert(prefix[i] == writes[i]);
                assert(!covers(width, writes[i], n));
            }
        }
    }
}

/// A frame filled from pixel writes that target distinct pixels does not
/// depend on the order of the writes: any reordering of them gives the same
/// bytes. Per-pixel results may therefore arrive in any order.
pub proof fn lemma_fill_order_independent(
    data: Seq<u8>,
    width: int,
    height: int,
    a: Seq<PixelWrite>,
    b: Seq<PixelWrite>,
)
    requires
        data.len() == CHANNELS * width * height,
        writes_in_frame(a, width, height),
        distinct_pixels(a),
        distinct_pixels(b),
        a.to_multiset() == b.to_multiset(),
    ensures
        fill(data, width, a) == fill(data, width, b),
{
    broadcast use vstd::seq_lib::to_multiset_contains;

    assert forall|j: int| 0 <= j < b.len() implies (#[trigger] b[j]).0 < width && b[j].1 < height by {
        assert(b.contains(b[j]));
        assert(a.to_multiset().count(b[j]) > 0);
        assert(a.contains(b[j]));
    }
    assert forall|n: int| 0 <= n < data.len() implies fill(data, width, a)[n] == fill(
        data,
        width,
        b,
    )[n] by {
        lemma_fill_byte(data, width, height, a, n);
        lemma_fill_byte(data, width, height, b, n);
        if exists|i: int| 0 <= i < a.len() && covers(width, #[trigger] a[i], n) {
            let i = choose|i: int| 0 <= i < a.len() && covers(width, #[trigger] a[i], n);
            assert(a.contains(a[i]));
            assert(b.to_multiset().count(a[i]) > 0);
            assert(b.contains(a[i]));
            let j = choose|j: int| 0 <= j < b.len() && b[j] == a[i];
            assert(covers(width, b[j], n));
        } else {
            assert forall|j: int| 0 <= j < b.len() implies !covers(width, #[trigger] b[j], n) by {
                assert(b.contains(b[j]));
                assert(a.to_multiset().count(b[j]) > 0);
                assert(a.contains(b[j]));
                let i = choose|i: int| 0 <= i < a.len() && a[i] == b[j];
                assert(!covers(width, a[i], n));
            }
        }
    }
    lemma_fill_byte_len(data, width, height, a);
    lemma_fill_byte_len(data, width, height, b);
    assert(fill(data, width, a) =~= fill(data, width, b));
}

/// Filling keeps the length of a frame.
proof fn lemma_fill_byte_len(data: Seq<u8>, width: int, height: int, writes: Seq<PixelWrite>)
    requires
        data.len() == CHANNELS * width * height,
        writes_in_frame(writes, width, height),
    ensures
        fill(data, width, writes).len() == data.len(),
    decreases writes.len(),
{
    if writes.len() > 0 {
        let prefix = writes.drop_last();
        let w = writes.last();
        assert forall|i: int| 0 <= i < prefix.len() implies #[trigger] prefix[i] == writes[i] by {}
        lemma_fill_byte_len(data, width, height, prefix);
        assert(writes[writes.len() - 1] == w);
        lemma_offset_in_frame(width, height, w.0 as int, w.1 as int);
    }
}

/// An RGB raster of `width` by `height` pixels, stored row-major from the top
/// row down, three bytes per pixel.
pub struct Frame {
    width: u32,
    height: u32,
    data: Vec<u8>,
}

impl View for Frame {
    type V = Seq<u8>;

    closed spec fn view(&self) -> Seq<u8> {
        self.data@
    }
}

impl Frame {
    pub closed spec fn spec_width(&self) -> nat {
        self.width as nat
    }

    pub closed spec fn spec_height(&self) -> nat {
        self.height as nat
    }

    pub open spec fn wf(&self) -> bool {
        &&& self@.len() == CHANNELS * self.spec_width() * self.spec_height()
        &&& CHANNELS * self.spec_width() * self.spec_height() <= usize::MAX
    }

    /// The pixel `(x, y)` of this frame.
    pub open spec fn pixel(&self, x: int, y: int) -> [u8; 3] {
        pixel_at(self@, self.spec_width() as int, x, y)
    }

    /// A black frame.
    pub fn new(width: u32, height: u32) -> (r: Frame)
        requires
            CHANNELS * width * height <= usize::MAX,
        ensures
            r.wf(),
            r.spec_width() == width,
            r.spec_height() == height,
            forall|n: int| 0 <= n < r@.len() ==> #[trigger] r@[n] == 0,
    {
        assert(width * height <= CHANNELS * width * height) by (nonlinear_arith);
        assert(CHANNELS * width * height == CHANNELS * (width * height)) by (nonlinear_arith);
        let len = CHANNELS * ((width as usize) * (height as usize));
        let mut data: Vec<u8> = Vec::new();
        let mut n: usize = 0;
        while n < len
            invariant
                n <= len,
                data@.len() == n,
                forall|m: int| 0 <= m < n ==> #[trigger] data@[m] == 0,
            decreases len - n,
        {
            data.push(0);
            n = n + 1;
        }
        Frame { width, height, data }
    }

    pub fn width(&self) -> (r: u32)
        ensures
            r == self.spec_width(),
    {
        self.width
    }

    pub fn height(&self) -> (r: u32)
        ensures
            r == self.spec_height(),
    {
        self.height
    }

    /// Sets pixel `(x, y)` to `rgb`; every other byte stays as it was.
    pub fn put_pixel(&mut self, x: u32, y: u32, rgb: [u8; 3])
        requires
            old(self).wf(),
            x < old(self).spec_width(),
            y < old(self).spec_height(),
        ensures
            final(self).wf(),
            final(self).spec_width() == old(self).spec_width(),
            final(self).spec_height() == old(self).spec_height(),
            final(self)@ == with_pixel(old(self)@, old(self).spec_width() as int, x as int, y as int, rgb),
    {
        proof {
            lemma_offset_in_frame(self.width as int, self.height as int, x as int, y as int);
        }
        let o = CHANNELS * ((y as usize) * (self.width as usize) + (x as usize));
        self.data.set(o, rgb[0]);
        self.data.set(o + 1, rgb[1]);
        self.data.set(o + 2, rgb[2]);
    }

    /// Applies the pixel writes `writes`, first to last.
    pub fn put_pixels(&mut self, writes: &Vec<PixelWrite>)
        requires
            old(self).wf(),
            writes_in_frame(writes@, old(self).spec_width() as int, old(self).spec_height() as int),
        ensures
            final(self).wf(),
            final(self).spec_width() == old(self).spec_width(),
            final(self).spec_height() == old(self).spec_height(),
            final(self)@ == fill(old(self)@, old(self).spec_width() as int, writes@),
    {
        let ghost start = self@;
        let ghost width = self.spec_width() as int;
        let mut i: usize = 0;
        while i < writes.len()
            invariant
                i <= writes@.len(),
                self.wf(),
                self.spec_width() == old(self).spec_width(),
                self.spec_height() == old(self).spec_height(),
                width == self.spec_width(),
                writes_in_frame(writes@, width, self.spec_height() as int),
                self@ == fill(start, width, writes@.take(i as int)),
            decreases writes@.len() - i,
        {
            let (x, y, rgb) = writes[i];
            proof {
                assert(writes@.take(i + 1).drop_last() =~= writes@.take(i as int));
                assert(writes@.take(i + 1).last() == writes@[i as int]);
            }
            self.put_pixel(x, y, rgb);
            i = i + 1;
        }
        proof {
            assert(writes@.take(i as int) =~= writes@);
        }
    }

    /// The three bytes of pixel `(x, y)`.
    pub fn get_pixel(&self, x: u32, y: u32) -> (r: [u8; 3])
        requires
            self.wf(),
            x < self.spec_width(),
            y < self.spec_height(),
        ensures
            r == self.pixel(x as int, y as int),
    {
        proof {
            lemma_offset_in_frame(self.width as int, self.height as int, x as int, y as int);
        }
        let o = CHANNELS * ((y as usize) * (self.width as usize) + (x as usize));
        [self.data[o], self.data[o + 1], self.data[o + 2]]
    }

    /// The bytes of the frame, row-major from the top row down.
    pub fn into_bytes(self) -> (r: Vec<u8>)
        ensures
            r@ == self@,
    {
        self.data
    }
}

/// A texel index computed from a texture coordinate in `[0, 1]`, clamped to the
/// last texel of a dimension `size` texels long (a coordinate of exactly 1 maps
/// one past the end).
pub fn texel_coord(scaled: u32, size: u32) -> (r: u32)
    requires
        size > 0,
    ensures
        r == if scaled >= size {
            (size - 1) as u32
        } else {
            scaled
        },
        r < size,
{
    if scaled >= size {
        size - 1
    } else {
        scaled
    }
}

} // verus!
