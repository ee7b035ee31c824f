use vstd::prelude::*;

verus! {

/// The image row that holds scan line `line`: scan lines count up from the
/// bottom of the picture, image rows count down from its top.
pub open spec fn spec_image_row(line: int, height: int) -> int {
    height - 1 - line
}

/// The pixels of scan line `y`, as `(line, column)` pairs from left to right.
pub open spec fn line_pixels(y: int, width: nat) -> Seq<(u32, u32)> {
    Seq::new(width, |x: int| (y as u32, x as u32))
}

/// The pixels that worker `worker` of `workers` renders among the first `lines`
/// scan lines: every line whose number leaves remainder `worker` when divided
/// by `workers`, in increasing order, each line from left to right.
pub open spec fn worker_pixels(width: nat, lines: nat, workers: nat, worker: nat) -> Seq<
    (u32, u32),
>
    decreases lines,
{
    if lines == 0 {
        Seq::empty()
    } else {
        let y = lines - 1;
        let before = worker_pixels(width, y as nat, workers, worker);
        if y % (workers as int) == worker {
            before + line_pixels(y, width)
        } else {
            before
        }
    }
}

/// The concatenation of `rows`, in order.
pub open spec fn concat(rows: Seq<Seq<u8>>) -> Seq<u8>
    decreases rows.len(),
{
    if rows.len() == 0 {
        Seq::empty()
    } else {
        concat(rows.drop_last()) + rows.last()
    }
}

/// The image row of scan line `line` in a picture `height` lines tall.
pub fn image_row(line: u32, height: u32) -> (r: u32)
    requires
        line < height,
    ensures
        r == spec_image_row(line as int, height as int),
{
    height - 1 - line
}

/// The scan lines of a picture `height` lines tall, top line first: the order
/// in which the rows of the output buffer are filled.
pub fn render_lines(height: u32) -> (r: Vec<u32>)
    ensures
        r@.len() == height,
        forall|n: int| 0 <= n < height ==> #[trigger] r@[n] == spec_image_row(n, height as int),
{
    let mut lines: Vec<u32> = Vec::new();
    let mut n: u32 = 0;
    while n < height
        invariant
            n <= height,
            lines@.len() == n,
            forall|m: int| 0 <= m < n ==> #[trigger] lines@[m] == spec_image_row(m, height as int),
        decreases height - n,
    {
        lines.push(height - 1 - n);
        n = n + 1;
    }
    lines
}

/// The bytes of `rows` one after the other: per-row results merged in row
/// order, whatever order they were computed in.
pub fn concat_rows(rows: Vec<Vec<u8>>) -> (r: Vec<u8>)
    ensures
        r@ == concat(rows@.map_values(|row: Vec<u8>| row@)),
{
    let ghost views = rows@.map_values(|row: Vec<u8>| row@);
    let mut out: Vec<u8> = Vec::new();
    let mut n: usize = 0;
    while n < rows.len()
        invariant
            n <= rows@.len(),
            views == rows@.map_values(|row: Vec<u8>| row@),
            out@ == concat(views.take(n as int)),
        decreases rows@.len() - n,
    {
        let row = &rows[n];
        let mut k: usize = 0;
        while k < row.len()
            invariant
                n < rows@.len(),
                *row == rows@[n as int],
                k <= row@.len(),
                out@ == concat(views.take(n as int)) + row@.take(k as int),
            decreases row@.len() - k,
        {
            out.push(row[k]);
            proof {
                assert(row@.take(k + 1) =~= row@.take(k as int).push(row@[k as int]));
            }
            k = k + 1;
        }
        proof {
            assert(row@.take(k as int) =~= row@);
            assert(views.take(n + 1).drop_last() =~= views.take(n as int));
        }
        n = n + 1;
    }
    proof {
        assert(views.take(n as int) =~= views);
    }
    out
}

/// The pixels of a `width` by `height` picture dealt out to `workers` workers,
/// whole scan lines at a time: line `y` goes to worker `y % workers`.
pub fn pixel_chunks(width: u32, height: u32, workers: usize) -> (r: Vec<Vec<(u32, u32)>>)
    requires
        workers > 0,
    ensures
        r@.len() == workers,
        forall|w: int|
            0 <= w < workers ==> #[trigger] r@[w]@ == worker_pixels(
                width as nat,
                height as nat,
                workers as nat,
                w as nat,
            ),
{
    let mut chunks: Vec<Vec<(u32, u32)>> = Vec::new();
    let mut w: usize = 0;
    while w < workers
        invariant
            w <= workers,
            chunks@.len() == w,
            forall|v: int|
                0 <= v < w ==> #[trigger] chunks@[v]@ == worker_pixels(
                    width as nat,
                    height as nat,
                    workers as nat,
                    v as nat,
                ),
        decreases workers - w,
    {
        let mut chunk: Vec<(u32, u32)> = Vec::new();
        let mut y: u32 = 0;
        while y < height
            invariant
                w < workers,
                y <= height,
                chunk@ == worker_pixels(width as nat, y as nat, workers as nat, w as nat),
            decreases height - y,
        {
            if (y as usize) % workers == w {
                let mut x: u32 = 0;
                while x < width
                    invariant
                        y < height,
                        w < workers,
                        (y as int) % (workers as int) == w,
                        x <= width,
                        chunk@ == worker_pixels(width as nat, y as nat, workers as nat, w as nat)
                            + line_pixels(y as int, width as nat).take(x as int),
                    decreases width - x,
                {
                    chunk.push((y, x));
                    proof {
                        assert(line_pixels(y as int, width as nat).take(x + 1) =~= line_pixels(
                            y as int,
                            width as nat,
                        ).take(x as int).push((y, x)));
                    }
                    x = x + 1;
                }
                proof {
                    assert(line_pixels(y as int, width as nat).take(x as int) =~= line_pixels(
                        y as int,
                        width as nat,
                    ));
                }
            }
            y = y + 1;
        }
        chunks.push(chunk);
        w = w + 1;
    }
    chunks
}

} // verus!
