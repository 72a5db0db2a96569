use zombs_engine::engine::components::{MaterialId, TextureAtlasRegion};
use image::codecs::png::PngEncoder;
use image::{ColorType, ImageEncoder};
use zombs_engine::engine::renderer::{
    atlas_uv, decode_texture, draw_plan, grown_capacity, group_instances, instance_attributes,
    is_drawn, material_index, resized, texture_from_rgba8, texture_upload_layout, AttributeFormat,
    DrawBatch,
    TextureUploadLayout, INSTANCE_STRIDE,
};

fn png(pixels: &[u8], width: u32, height: u32, color: ColorType) -> Vec<u8> {
    let mut out = Vec::new();
    PngEncoder::new(&mut out).write_image(pixels, width, height, color).unwrap();
    out
}

#[test]
fn attribute_table_matches_record_layout() {
    let attrs = instance_attributes();
    let offsets: Vec<u64> = attrs.iter().map(|a| a.offset).collect();
    assert_eq!(offsets, vec![0, 12, 24, 40, 56, 60, 68]);
    let locations: Vec<u32> = attrs.iter().map(|a| a.shader_location).collect();
    assert_eq!(locations, vec![1, 2, 3, 4, 5, 6, 7]);
    assert_eq!(attrs[4].format, AttributeFormat::Uint32);
    assert_eq!(attrs[6].offset + attrs[6].format.size(), INSTANCE_STRIDE);
}

#[test]
fn capacity_growth() {
    assert_eq!(grown_capacity(10, 1000), 1000);
    assert_eq!(grown_capacity(1000, 1000), 1000);
    assert_eq!(grown_capacity(1001, 1000), 2000);
    assert_eq!(grown_capacity(5000, 1000), 5000);
}

#[test]
fn draw_batches() {
    let p = draw_plan(3, 2);
    assert_eq!(p.default_batch, Some(DrawBatch { byte_start: 0, byte_end: 240, instances: 3 }));
    assert_eq!(p.zombob_batch, Some(DrawBatch { byte_start: 240, byte_end: 400, instances: 2 }));
    let q = draw_plan(0, 4);
    assert_eq!(q.default_batch, None);
    assert_eq!(q.zombob_batch, Some(DrawBatch { byte_start: 0, byte_end: 320, instances: 4 }));
    assert_eq!(draw_plan(0, 0).zombob_batch, None);
}

#[test]
fn grouping_keeps_order_within_groups() {
    let tagged: Vec<(u32, bool)> = vec![(1, false), (2, true), (3, false), (4, true), (5, false)];
    let b = group_instances(&tagged);
    assert_eq!(b.instances, vec![1, 3, 5, 2, 4]);
    assert_eq!(b.default_count, 3);
    assert_eq!(b.zombob_count, 2);
}

#[test]
fn material_and_uv_defaults() {
    assert_eq!(material_index(None), 0);
    assert_eq!(material_index(Some(MaterialId::Shadow)), 2);
    let uv = atlas_uv(Some(TextureAtlasRegion { x: 16, y: 48, w: 4, h: 12, d: 4 }));
    assert_eq!(uv.origin, [16, 48]);
    assert_eq!(uv.dims, [4, 12, 4]);
    let none = atlas_uv(None);
    assert_eq!(none.origin, [0, 0]);
    assert_eq!(none.dims, [0, 0, 0]);
}

#[test]
fn drawing_and_resizing() {
    assert!(is_drawn(false, false));
    assert!(!is_drawn(true, false));
    assert!(is_drawn(true, true));
    assert_eq!(resized(1024, 768), Some((1024, 768)));
    assert_eq!(resized(0, 768), None);
    assert_eq!(resized(1024, 0), None);
}

#[test]
fn texture_decodes_rgba_png() {
    let pixels: Vec<u8> = vec![255, 0, 0, 255, 0, 255, 0, 128, 0, 0, 255, 0, 10, 20, 30, 40, 1, 2, 3, 4, 5, 6, 7, 8];
    let bytes = png(&pixels, 3, 2, ColorType::Rgba8);
    let t = decode_texture(&bytes).unwrap();
    assert_eq!((t.width, t.height), (3, 2));
    assert_eq!(t.pixels, pixels);
    assert_eq!(t.layout, TextureUploadLayout { bytes_per_row: 12, rows_per_image: 2 });
}

#[test]
fn texture_decoding_expands_grey_to_rgba() {
    let bytes = png(&[0x80, 0x00], 1, 2, ColorType::L8);
    let t = decode_texture(&bytes).unwrap();
    assert_eq!((t.width, t.height), (1, 2));
    assert_eq!(t.pixels, vec![0x80, 0x80, 0x80, 0xff, 0x00, 0x00, 0x00, 0xff]);
    assert_eq!(t.layout, TextureUploadLayout { bytes_per_row: 4, rows_per_image: 2 });
}

#[test]
fn texture_decoding_rejects_garbage() {
    assert!(decode_texture(b"not an image").is_err());
    assert!(decode_texture(&[]).is_err());
    let mut truncated = png(&[1, 2, 3, 4], 1, 1, ColorType::Rgba8);
    truncated.truncate(20);
    assert!(decode_texture(&truncated).is_err());
}

#[test]
fn texture_upload_layout_rows() {
    assert_eq!(
        texture_upload_layout(64, 32),
        TextureUploadLayout { bytes_per_row: 256, rows_per_image: 32 }
    );
    assert_eq!(
        texture_upload_layout(u32::MAX / 4, 1),
        TextureUploadLayout { bytes_per_row: u32::MAX - 3, rows_per_image: 1 }
    );
}

#[test]
fn texture_from_pixels_checks_row_length() {
    let t = texture_from_rgba8(2, 1, vec![1, 2, 3, 4, 5, 6, 7, 8]).unwrap();
    assert_eq!((t.width, t.height), (2, 1));
    assert_eq!(t.pixels, vec![1, 2, 3, 4, 5, 6, 7, 8]);
    assert_eq!(t.layout, TextureUploadLayout { bytes_per_row: 8, rows_per_image: 1 });
    assert!(texture_from_rgba8(u32::MAX / 4 + 1, 0, vec![]).is_err());
    let widest = texture_from_rgba8(u32::MAX / 4, 0, vec![]).unwrap();
    assert_eq!(widest.layout.bytes_per_row, u32::MAX - 3);
}
