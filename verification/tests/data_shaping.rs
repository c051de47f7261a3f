//! Key bytes, grid snapshots, text extents, layout helpers, GPU upload
//! decisions and PNG normalisation on concrete values.

use januas::{
    frame_action, FrameAction, SurfaceStatus,
    choose_present_mode, choose_surface_format, grown_capacity, image_batches, key_to_bytes,
    load_image_png, png_to_rgba8, push_gradient, snapshot_grid, text_extent, CrossAlign,
    Direction, GridSize, ImageBatch, ImageDecodeError, ImageId, KeyInput, PngLayout, PresentMode,
    NO_GRADIENT,
};

#[test]
fn named_keys_send_control_bytes() {
    assert_eq!(key_to_bytes(KeyInput::Enter, None), b"\r".to_vec());
    assert_eq!(key_to_bytes(KeyInput::Backspace, Some("x")), b"\x7f".to_vec());
    assert_eq!(key_to_bytes(KeyInput::Tab, None), b"\t".to_vec());
    assert_eq!(key_to_bytes(KeyInput::Escape, None), b"\x1b".to_vec());
    assert_eq!(key_to_bytes(KeyInput::ArrowUp, None), b"\x1b[A".to_vec());
    assert_eq!(key_to_bytes(KeyInput::ArrowDown, None), b"\x1b[B".to_vec());
    assert_eq!(key_to_bytes(KeyInput::ArrowRight, None), b"\x1b[C".to_vec());
    assert_eq!(key_to_bytes(KeyInput::ArrowLeft, None), b"\x1b[D".to_vec());
}

#[test]
fn other_keys_send_their_text() {
    assert_eq!(key_to_bytes(KeyInput::Other, Some("a")), b"a".to_vec());
    assert_eq!(key_to_bytes(KeyInput::Other, Some("é")), vec![0xc3, 0xa9]);
    assert_eq!(key_to_bytes(KeyInput::Other, None), Vec::<u8>::new());
}

#[test]
fn snapshot_trims_trailing_white_space_per_row() {
    let rows = vec![
        "ls -la   ".chars().collect::<Vec<_>>(),
        "  a b\t".chars().collect::<Vec<_>>(),
        "    ".chars().collect::<Vec<_>>(),
        "x\u{3000}".chars().collect::<Vec<_>>(),
    ];
    assert_eq!(snapshot_grid(&rows), "ls -la\n  a b\n\nx\n");
    assert_eq!(snapshot_grid(&Vec::new()), "");
}

#[test]
fn grid_size_reports_its_dimensions() {
    let size = GridSize { columns: 100, screen_lines: 32 };
    assert_eq!(size.columns(), 100);
    assert_eq!(size.screen_lines(), 32);
    assert_eq!(size.total_lines(), 32);
}

#[test]
fn text_extent_counts_lines_and_widest_line() {
    assert_eq!(text_extent(""), (0, 1));
    assert_eq!(text_extent("abc"), (3, 1));
    assert_eq!(text_extent("a\nbcd\n"), (3, 2));
    assert_eq!(text_extent("ab\r\ncd"), (2, 2));
    assert_eq!(text_extent("x\r"), (2, 1));
    assert_eq!(text_extent("\n\n"), (0, 2));
    assert_eq!(text_extent("é😀"), (2, 1));
}

#[test]
fn text_extent_matches_str_lines() {
    for s in ["", "a", "a\n", "a\r\nbb\r\n", "\r\n", "one\ntwo\n\nthree", "x\ry\n"] {
        let lines: Vec<&str> = s.lines().collect();
        let widest = lines.iter().map(|l| l.chars().count()).max().unwrap_or(0);
        assert_eq!(text_extent(s), (widest, lines.len().max(1)), "{s:?}");
    }
}

#[test]
fn direction_picks_main_and_cross_axes() {
    assert_eq!(Direction::Row.axes(), (0, 1));
    assert_eq!(Direction::Column.axes(), (1, 0));
    assert_eq!(CrossAlign::default(), CrossAlign::Stretch);
}

#[test]
fn push_gradient_returns_table_index() {
    let mut table: Vec<u8> = Vec::new();
    assert_eq!(push_gradient(&mut table, None), NO_GRADIENT);
    assert_eq!(push_gradient(&mut table, Some(7)), 0);
    assert_eq!(push_gradient(&mut table, Some(9)), 1);
    assert_eq!(push_gradient(&mut table, None), -1);
    assert_eq!(table, vec![7, 9]);
}

#[test]
fn capacity_doubles_until_it_fits() {
    assert_eq!(grown_capacity(64, 10), 64);
    assert_eq!(grown_capacity(64, 64), 64);
    assert_eq!(grown_capacity(64, 65), 128);
    assert_eq!(grown_capacity(8, 9), 16);
    assert_eq!(grown_capacity(3, 7), 12);
    assert_eq!(grown_capacity(0, 3), 4);
    assert_eq!(grown_capacity(0, 0), 0);
}

#[test]
fn image_instances_batch_by_consecutive_image() {
    assert_eq!(image_batches(&[]), Vec::<ImageBatch>::new());
    let ids = [ImageId(0), ImageId(0), ImageId(1), ImageId(1), ImageId(1), ImageId(0)];
    assert_eq!(
        image_batches(&ids),
        vec![
            ImageBatch { image: 0, first: 0, count: 2 },
            ImageBatch { image: 1, first: 2, count: 3 },
            ImageBatch { image: 0, first: 5, count: 1 },
        ]
    );
    assert_eq!(image_batches(&[ImageId(4)]), vec![ImageBatch { image: 4, first: 0, count: 1 }]);
}

#[test]
fn present_mode_prefers_mailbox_then_immediate() {
    let (fifo, immediate, mailbox) = (PresentMode::Fifo, PresentMode::Immediate, PresentMode::Mailbox);
    assert_eq!(choose_present_mode(&[fifo, immediate, mailbox]), mailbox);
    assert_eq!(choose_present_mode(&[fifo, immediate]), immediate);
    assert_eq!(choose_present_mode(&[PresentMode::AutoVsync, fifo]), PresentMode::AutoVsync);
}

#[test]
fn surface_format_prefers_first_srgb() {
    assert_eq!(choose_surface_format(&[false, true, true]), 1);
    assert_eq!(choose_surface_format(&[true]), 0);
    assert_eq!(choose_surface_format(&[false, false]), 0);
}

fn layout(bit_depth: u8, color_type: u8) -> PngLayout {
    PngLayout { width: 2, height: 1, bit_depth, color_type }
}

#[test]
fn png_frames_normalise_to_rgba8() {
    assert_eq!(png_to_rgba8(&layout(8, 6), &[1, 2, 3, 4, 5, 6, 7, 8]), Ok(vec![1, 2, 3, 4, 5, 6, 7, 8]));
    assert_eq!(png_to_rgba8(&layout(8, 2), &[1, 2, 3, 4, 5, 6]), Ok(vec![1, 2, 3, 255, 4, 5, 6, 255]));
    assert_eq!(png_to_rgba8(&layout(8, 4), &[9, 100, 7, 200]), Ok(vec![9, 9, 9, 100, 7, 7, 7, 200]));
    assert_eq!(png_to_rgba8(&layout(8, 2), &[1, 2, 3, 4]), Ok(vec![1, 2, 3, 255]));
}

#[test]
fn png_unsupported_formats_are_refused() {
    assert_eq!(png_to_rgba8(&layout(16, 6), &[]), Err(ImageDecodeError::UnsupportedBitDepth(16)));
    assert_eq!(png_to_rgba8(&layout(8, 0), &[]), Err(ImageDecodeError::UnsupportedColorType(0)));
    assert_eq!(png_to_rgba8(&layout(8, 3), &[]), Err(ImageDecodeError::UnsupportedColorType(3)));
}

fn encode(width: u32, height: u32, color: png::ColorType, depth: png::BitDepth, data: &[u8]) -> Vec<u8> {
    let mut out = Vec::new();
    let mut encoder = png::Encoder::new(&mut out, width, height);
    encoder.set_color(color);
    encoder.set_depth(depth);
    let mut writer = encoder.write_header().unwrap();
    writer.write_image_data(data).unwrap();
    writer.finish().unwrap();
    out
}

#[test]
fn png_files_decode_to_rgba8() {
    let rgb = encode(2, 1, png::ColorType::Rgb, png::BitDepth::Eight, &[10, 20, 30, 40, 50, 60]);
    let img = load_image_png(&rgb).unwrap();
    assert_eq!((img.width, img.height), (2, 1));
    assert_eq!(img.rgba, vec![10, 20, 30, 255, 40, 50, 60, 255]);

    let ga = encode(1, 2, png::ColorType::GrayscaleAlpha, png::BitDepth::Eight, &[5, 6, 7, 8]);
    let img = load_image_png(&ga).unwrap();
    assert_eq!((img.width, img.height), (1, 2));
    assert_eq!(img.rgba, vec![5, 5, 5, 6, 7, 7, 7, 8]);

    let rgba = encode(1, 1, png::ColorType::Rgba, png::BitDepth::Eight, &[1, 2, 3, 4]);
    assert_eq!(load_image_png(&rgba).unwrap().rgba, vec![1, 2, 3, 4]);
}

#[test]
fn png_files_in_other_formats_or_broken_are_refused() {
    let gray16 = encode(1, 1, png::ColorType::Grayscale, png::BitDepth::Sixteen, &[1, 2]);
    assert_eq!(load_image_png(&gray16).unwrap_err(), ImageDecodeError::UnsupportedBitDepth(16));
    let gray = encode(1, 1, png::ColorType::Grayscale, png::BitDepth::Eight, &[1]);
    assert_eq!(load_image_png(&gray).unwrap_err(), ImageDecodeError::UnsupportedColorType(0));
    assert_eq!(load_image_png(b"not a png").unwrap_err(), ImageDecodeError::ReadInfo);
    let mut truncated = encode(2, 1, png::ColorType::Rgb, png::BitDepth::Eight, &[1, 2, 3, 4, 5, 6]);
    truncated.truncate(truncated.len() - 20);
    assert_eq!(load_image_png(&truncated).unwrap_err(), ImageDecodeError::Decode);
}

#[test]
fn final_line_ending_is_optional() {
    for s in ["ab", "a\nbcd", "x\r\ny", "\nz"] {
        assert_eq!(text_extent(&format!("{s}\n")), text_extent(s), "{s:?}");
        assert_eq!(text_extent(&format!("{s}\r\n")), text_extent(s), "{s:?}");
    }
}

#[test]
fn surface_status_decides_the_frame() {
    assert_eq!(frame_action(SurfaceStatus::Success), FrameAction::Draw);
    assert_eq!(frame_action(SurfaceStatus::Suboptimal), FrameAction::Draw);
    assert_eq!(frame_action(SurfaceStatus::Timeout), FrameAction::Skip);
    assert_eq!(frame_action(SurfaceStatus::Occluded), FrameAction::Skip);
    assert_eq!(frame_action(SurfaceStatus::Outdated), FrameAction::Skip);
    assert_eq!(frame_action(SurfaceStatus::Lost), FrameAction::Fail);
    assert_eq!(frame_action(SurfaceStatus::Validation), FrameAction::Fail);
}

fn encode_indexed(palette: &[u8], trns: Option<&[u8]>, data: &[u8]) -> Vec<u8> {
    let mut out = Vec::new();
    let mut encoder = png::Encoder::new(&mut out, 2, 1);
    encoder.set_color(png::ColorType::Indexed);
    encoder.set_depth(png::BitDepth::Eight);
    encoder.set_palette(palette.to_vec());
    if let Some(t) = trns {
        encoder.set_trns(t.to_vec());
    }
    let mut writer = encoder.write_header().unwrap();
    writer.write_image_data(data).unwrap();
    writer.finish().unwrap();
    out
}

#[test]
fn png_palettes_and_transparency_expand() {
    let palette = [10, 20, 30, 40, 50, 60];
    let img = load_image_png(&encode_indexed(&palette, None, &[1, 0])).unwrap();
    assert_eq!(img.rgba, vec![40, 50, 60, 255, 10, 20, 30, 255]);
    let img = load_image_png(&encode_indexed(&palette, Some(&[0, 128]), &[1, 0])).unwrap();
    assert_eq!(img.rgba, vec![40, 50, 60, 128, 10, 20, 30, 0]);

    let mut out = Vec::new();
    let mut encoder = png::Encoder::new(&mut out, 2, 1);
    encoder.set_color(png::ColorType::Rgb);
    encoder.set_depth(png::BitDepth::Eight);
    encoder.set_trns(vec![0, 1, 0, 2, 0, 3]);
    let mut writer = encoder.write_header().unwrap();
    writer.write_image_data(&[1, 2, 3, 4, 5, 6]).unwrap();
    writer.finish().unwrap();
    let img = load_image_png(&out).unwrap();
    assert_eq!(img.rgba, vec![1, 2, 3, 0, 4, 5, 6, 255]);
}
