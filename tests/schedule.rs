use raytracer::schedule::{concat_rows, image_row, pixel_chunks, render_lines};

#[test]
fn image_row_flips_scan_lines() {
    assert_eq!(image_row(0, 10), 9);
    assert_eq!(image_row(9, 10), 0);
    assert_eq!(image_row(3, 10), 6);
}

#[test]
fn render_lines_start_at_the_top() {
    assert_eq!(render_lines(4), vec![3, 2, 1, 0]);
    assert_eq!(render_lines(0), Vec::<u32>::new());
}

#[test]
fn concat_rows_keeps_row_order() {
    let rows = vec![vec![1u8, 2, 3], vec![], vec![4, 5, 6, 7, 8, 9]];
    assert_eq!(concat_rows(rows), vec![1, 2, 3, 4, 5, 6, 7, 8, 9]);
    assert_eq!(concat_rows(Vec::new()), Vec::<u8>::new());
}

#[test]
fn pixel_chunks_deal_whole_lines_round_robin() {
    let chunks = pixel_chunks(2, 3, 2);
    assert_eq!(chunks.len(), 2);
    assert_eq!(chunks[0], vec![(0, 0), (0, 1), (2, 0), (2, 1)]);
    assert_eq!(chunks[1], vec![(1, 0), (1, 1)]);
}

#[test]
fn pixel_chunks_leave_extra_workers_idle() {
    let chunks = pixel_chunks(1, 2, 4);
    assert_eq!(chunks.len(), 4);
    assert_eq!(chunks[0], vec![(0, 0)]);
    assert_eq!(chunks[1], vec![(1, 0)]);
    assert!(chunks[2].is_empty());
    assert!(chunks[3].is_empty());
}
