use bmp2goose::bitmap_parser::{Bitmap, DecodeError, RGB};
use bmp2goose::bitmap_parser::{read_4_bytes, round_to_4_bytes};

/// Builds a minimal image buffer: a 54-byte header holding only the width at
/// offset 18 and the height at offset 22 (little-endian), followed by the
/// pixel data, rows given top-to-bottom but stored bottom-to-top, each pixel
/// as a blue-green-red triple, each row padded with zeros to the stride.
fn build_bmp(width: u32, height: u32, rows_top_to_bottom: &[Vec<(u8, u8, u8)>]) -> Vec<u8> {
    assert_eq!(rows_top_to_bottom.len(), height as usize);
    let stride = round_to_4_bytes(width).unwrap() as usize;
    let mut bytes = vec![0u8; 54];
    bytes[18..22].copy_from_slice(&width.to_le_bytes());
    bytes[22..26].copy_from_slice(&height.to_le_bytes());
    for disk_row in 0..height as usize {
        let grid_row = &rows_top_to_bottom[height as usize - 1 - disk_row];
        assert_eq!(grid_row.len(), width as usize);
        let mut row_bytes = Vec::new();
        for &(r, g, b) in grid_row {
            row_bytes.push(b);
            row_bytes.push(g);
            row_bytes.push(r);
        }
        row_bytes.resize(stride, 0);
        bytes.extend_from_slice(&row_bytes);
    }
    bytes
}

#[test]
fn reads_little_endian_u32() {
    assert_eq!(read_4_bytes(&[0x78, 0x56, 0x34, 0x12]), 0x1234_5678);
    assert_eq!(read_4_bytes(&[0, 0, 0, 0]), 0);
    assert_eq!(read_4_bytes(&[0xff, 0xff, 0xff, 0xff]), u32::MAX);
}

#[test]
fn stride_for_width_divisible_by_4_is_exactly_three_times_width() {
    assert_eq!(round_to_4_bytes(0), Ok(0));
    assert_eq!(round_to_4_bytes(4), Ok(12));
    assert_eq!(round_to_4_bytes(8), Ok(24));
    assert_eq!(round_to_4_bytes(100), Ok(300));
}

#[test]
fn stride_for_other_widths_rounds_up_to_multiple_of_4() {
    // smallest multiple of 4 that is >= 3 * width
    assert_eq!(round_to_4_bytes(1), Ok(4));
    assert_eq!(round_to_4_bytes(2), Ok(8));
    assert_eq!(round_to_4_bytes(3), Ok(12));
    assert_eq!(round_to_4_bytes(5), Ok(16));
    assert_eq!(round_to_4_bytes(6), Ok(20));
    assert_eq!(round_to_4_bytes(7), Ok(24));
}

#[test]
fn stride_overflow_is_reported() {
    assert_eq!(round_to_4_bytes(u32::MAX), Err(DecodeError::StrideOverflow));
    assert_eq!(round_to_4_bytes(0x8000_0000), Err(DecodeError::StrideOverflow));
    assert_eq!(round_to_4_bytes(0x5555_5557), Err(DecodeError::StrideOverflow));
}

#[test]
fn pixel_channels_are_swapped_from_disk_order() {
    // a pixel stored on disk as [B, G, R] decodes to {r: R, g: G, b: B}
    let bytes = build_bmp(1, 1, &[vec![(30, 20, 10)]]);
    assert_eq!(bytes[54], 10);
    assert_eq!(bytes[55], 20);
    assert_eq!(bytes[56], 30);
    let bmp = Bitmap::from(&bytes).unwrap();
    assert_eq!(*bmp.get_pixel_at(0, 0), RGB { r: 30, g: 20, b: 10 });
}

#[test]
fn row_zero_is_the_last_stored_scanline() {
    let top = (1, 2, 3);
    let bottom = (4, 5, 6);
    let bytes = build_bmp(1, 2, &[vec![top], vec![bottom]]);
    // the bottom row is stored first, the top row last
    assert_eq!(&bytes[54..57], &[6, 5, 4]);
    let stride = round_to_4_bytes(1).unwrap() as usize;
    let last_scanline_start = 54 + stride;
    assert_eq!(&bytes[last_scanline_start..last_scanline_start + 3], &[3, 2, 1]);
    let bmp = Bitmap::from(&bytes).unwrap();
    assert_eq!(*bmp.get_pixel_at(0, 0), RGB { r: 1, g: 2, b: 3 });
    assert_eq!(*bmp.get_pixel_at(0, 1), RGB { r: 4, g: 5, b: 6 });
}

#[test]
fn decodes_padded_rows() {
    // width 3 has a 9-byte payload padded to a 12-byte stride
    let rows = vec![
        vec![(1, 2, 3), (4, 5, 6), (7, 8, 9)],
        vec![(11, 12, 13), (14, 15, 16), (17, 18, 19)],
    ];
    let bytes = build_bmp(3, 2, &rows);
    assert_eq!(bytes.len(), 54 + 2 * 12);
    let bmp = Bitmap::from(&bytes).unwrap();
    assert_eq!(bmp.width, 3);
    assert_eq!(bmp.height, 2);
    for y in 0..2 {
        for x in 0..3 {
            let (r, g, b) = rows[y as usize][x as usize];
            assert_eq!(*bmp.get_pixel_at(x, y), RGB { r, g, b });
        }
    }
}

#[test]
fn buffer_shorter_than_header_is_truncated() {
    assert_eq!(Bitmap::from(&[]), Err(DecodeError::TruncatedFile));
    assert_eq!(Bitmap::from(&[0u8; 53]), Err(DecodeError::TruncatedFile));
}

#[test]
fn buffer_shorter_than_pixel_data_is_truncated() {
    let mut bytes = build_bmp(2, 2, &[
        vec![(1, 1, 1), (2, 2, 2)],
        vec![(3, 3, 3), (4, 4, 4)],
    ]);
    bytes.pop();
    assert_eq!(Bitmap::from(&bytes), Err(DecodeError::TruncatedFile));
    // header alone, while the header claims pixel data
    assert_eq!(Bitmap::from(&bytes[..54]), Err(DecodeError::TruncatedFile));
}

#[test]
fn empty_image_decodes_to_empty_grid() {
    let bytes = build_bmp(0, 0, &[]);
    let bmp = Bitmap::from(&bytes).unwrap();
    assert_eq!(bmp.width, 0);
    assert_eq!(bmp.height, 0);
}

#[test]
fn reads_one_pixel_from_bgr_bytes() {
    let p = RGB::from_bytes(&[9, 8, 7]);
    assert_eq!(p, RGB { r: 7, g: 8, b: 9 });
}
