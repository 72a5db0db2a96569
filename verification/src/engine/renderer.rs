use vstd::prelude::*;
use super::components::{MaterialId, TextureAtlasRegion};

verus! {

/// The vertex formats of the per-instance attributes.
#[derive(Debug, Clone, Copy, PartialEq, Eq, Structural)]
pub enum AttributeFormat {
    Float32x3,
    Float32x4,
    Uint32,
    Uint32x2,
    Uint32x3,
}

impl AttributeFormat {
    /// Bytes taken by one attribute of this format.
    pub open spec fn byte_len(self) -> u64 {
        match self {
            AttributeFormat::Float32x3 => 12,
            AttributeFormat::Float32x4 => 16,
            AttributeFormat::Uint32 => 4,
            AttributeFormat::Uint32x2 => 8,
            AttributeFormat::Uint32x3 => 12,
        }
    }

    /// Bytes taken by one attribute of this format.
    pub fn size(&self) -> (n: u64)
        ensures
            n == self.byte_len(),
    {
        match self {
            AttributeFormat::Float32x3 => 12,
            AttributeFormat::Float32x4 => 16,
            AttributeFormat::Uint32 => 4,
            AttributeFormat::Uint32x2 => 8,
            AttributeFormat::Uint32x3 => 12,
        }
    }
}

/// One per-instance vertex attribute: where it starts in an instance record, the
/// shader location it feeds and its format.
#[derive(Debug, Clone, Copy, PartialEq, Eq, Structural)]
pub struct InstanceAttribute {
    pub offset: u64,
    pub shader_location: u32,
    pub format: AttributeFormat,
}

/// Bytes per instance record: position, size, rotation, color, material, texture
/// origin and texture box, packed without padding.
pub const INSTANCE_STRIDE: u64 = 80;

/// The fields of an instance record, in order: model position, size, rotation
/// quaternion, color, material id, texture origin, texture box.
pub open spec fn instance_formats() -> Seq<AttributeFormat> {
    seq![
        AttributeFormat::Float32x3,
        AttributeFormat::Float32x3,
        AttributeFormat::Float32x4,
        AttributeFormat::Float32x4,
        AttributeFormat::Uint32,
        AttributeFormat::Uint32x2,
        AttributeFormat::Uint32x3,
    ]
}

/// Bytes taken by the first `n` fields of an instance record.
pub open spec fn fields_len(n: int) -> int
    decreases n,
{
    if n <= 0 {
        0
    } else {
        fields_len(n - 1) + instance_formats()[n - 1].byte_len()
    }
}

/// The per-instance attribute table: field `i` feeds shader location `i + 1` and
/// starts where the fields before it end.
pub fn instance_attributes() -> (attrs: Vec<InstanceAttribute>)
    ensures
        attrs@.len() == instance_formats().len(),
        forall|i: int|
            0 <= i < attrs@.len() ==> (#[trigger] attrs@[i]) == (InstanceAttribute {
                offset: fields_len(i) as u64,
                shader_location: (i + 1) as u32,
                format: instance_formats()[i],
            }),
        fields_len(instance_formats().len() as int) == INSTANCE_STRIDE,
{
    let formats: [AttributeFormat; 7] = [
        AttributeFormat::Float32x3,
        AttributeFormat::Float32x3,
        AttributeFormat::Float32x4,
        AttributeFormat::Float32x4,
        AttributeFormat::Uint32,
        AttributeFormat::Uint32x2,
        AttributeFormat::Uint32x3,
    ];
    assert(formats@ =~= instance_formats());
    reveal_with_fuel(fields_len, 8);
    assert(fields_len(7) == 80);
    let mut attrs: Vec<InstanceAttribute> = Vec::new();
    let mut offset: u64 = 0;
    let mut i: usize = 0;
    while i < 7
        invariant
            i <= 7,
            formats@ == instance_formats(),
            offset == fields_len(i as int),
            offset <= 80,
            attrs@.len() == i,
            forall|j: int|
                0 <= j < i ==> (#[trigger] attrs@[j]) == (InstanceAttribute {
                    offset: fields_len(j) as u64,
                    shader_location: (j + 1) as u32,
                    format: instance_formats()[j],
                }),
        decreases 7 - i,
    {
        reveal_with_fuel(fields_len, 8);
        let format = formats[i];
        attrs.push(InstanceAttribute { offset, shader_location: (i + 1) as u32, format });
        offset = offset + format.size();
        i = i + 1;
    }
    attrs
}

/// The capacity of the instance buffer after a frame of `needed` instances: kept when
/// large enough, otherwise grown to the larger of `needed` and double the old capacity.
pub fn grown_capacity(needed: usize, capacity: usize) -> (cap: usize)
    requires
        needed > capacity ==> capacity * 2 <= usize::MAX,
    ensures
        cap == (if needed > capacity {
            if needed > capacity * 2 {
                needed as int
            } else {
                capacity * 2
            }
        } else {
            capacity as int
        }),
        cap >= needed,
        cap >= capacity,
{
    if needed > capacity {
        let doubled = capacity * 2;
        if needed > doubled {
            needed
        } else {
            doubled
        }
    } else {
        capacity
    }
}

/// A draw of consecutive instance records: the byte range of the buffer it reads and
/// the number of instances.
#[derive(Debug, Clone, Copy, PartialEq, Eq, Structural)]
pub struct DrawBatch {
    pub byte_start: u64,
    pub byte_end: u64,
    pub instances: u32,
}

/// The frame's two draws: default-skinned instances first, then zombob-skinned ones;
/// an empty group is not drawn.
#[derive(Debug, Clone, Copy, PartialEq, Eq, Structural)]
pub struct DrawPlan {
    pub default_batch: Option<DrawBatch>,
    pub zombob_batch: Option<DrawBatch>,
}

/// Splits the instance buffer into the default draw and the zombob draw.
pub fn draw_plan(default_count: usize, zombob_count: usize) -> (plan: DrawPlan)
    requires
        (default_count + zombob_count) * INSTANCE_STRIDE <= usize::MAX,
    ensures
        plan.default_batch == (if default_count > 0 {
            Some(
                DrawBatch {
                    byte_start: 0,
                    byte_end: (default_count * INSTANCE_STRIDE) as u64,
                    instances: default_count as u32,
                },
            )
        } else {
            None::<DrawBatch>
        }),
        plan.zombob_batch == (if zombob_count > 0 {
            Some(
                DrawBatch {
                    byte_start: (default_count * INSTANCE_STRIDE) as u64,
                    byte_end: ((default_count + zombob_count) * INSTANCE_STRIDE) as u64,
                    instances: zombob_count as u32,
                },
            )
        } else {
            None::<DrawBatch>
        }),
{
    let stride: usize = 80;
    assert((default_count + zombob_count) * 80 == default_count * 80 + zombob_count * 80)
        by (nonlinear_arith);
    assert(default_count * 80 <= (default_count + zombob_count) * 80) by (nonlinear_arith);
    let default_end = default_count * stride;
    let all_end = (default_count + zombob_count) * stride;
    let default_batch = if default_count > 0 {
        Some(
            DrawBatch {
                byte_start: 0,
                byte_end: default_end as u64,
                instances: default_count as u32,
            },
        )
    } else {
        None
    };
    let zombob_batch = if zombob_count > 0 {
        Some(
            DrawBatch {
                byte_start: default_end as u64,
                byte_end: all_end as u64,
                instances: zombob_count as u32,
            },
        )
    } else {
        None
    };
    DrawPlan { default_batch, zombob_batch }
}

/// The two draws read disjoint, adjacent slices of the buffer, each exactly as long as
/// its instances, together covering every instance.
pub proof fn lemma_draws_tile_buffer(default_count: usize, zombob_count: usize)
    requires
        default_count > 0,
        zombob_count > 0,
        (default_count + zombob_count) * INSTANCE_STRIDE <= usize::MAX,
    ensures
        ({
            let end_default = default_count * INSTANCE_STRIDE;
            let end_all = (default_count + zombob_count) * INSTANCE_STRIDE;
            &&& end_default - 0 == default_count * INSTANCE_STRIDE
            &&& end_all - end_default == zombob_count * INSTANCE_STRIDE
            &&& end_default < end_all
        }),
{
    assert((default_count + zombob_count) * 80 == default_count * 80 + zombob_count * 80)
        by (nonlinear_arith);
    assert(zombob_count * 80 > 0) by (nonlinear_arith)
        requires
            zombob_count > 0,
    ;
}

/// The instances tagged with `zombob_skin == flag`, in their original order.
pub open spec fn with_skin<T>(items: Seq<(T, bool)>, flag: bool) -> Seq<T>
    decreases items.len(),
{
    if items.len() == 0 {
        Seq::empty()
    } else {
        let rest = with_skin(items.drop_last(), flag);
        if items.last().1 == flag {
            rest.push(items.last().0)
        } else {
            rest
        }
    }
}

/// The instances of a frame grouped for drawing: all default-skinned ones, then all
/// zombob-skinned ones, each group in collection order.
pub struct InstanceBatches<T> {
    pub instances: Vec<T>,
    pub default_count: usize,
    pub zombob_count: usize,
}

/// Groups instances tagged with whether they use the zombob skin: default-skinned first,
/// keeping collection order within each group.
pub fn group_instances<T: Copy>(tagged: &Vec<(T, bool)>) -> (b: InstanceBatches<T>)
    ensures
        b.instances@ == with_skin(tagged@, false) + with_skin(tagged@, true),
        b.default_count == with_skin(tagged@, false).len(),
        b.zombob_count == with_skin(tagged@, true).len(),
{
    let mut defaults: Vec<T> = Vec::new();
    let mut zombobs: Vec<T> = Vec::new();
    let n = tagged.len();
    let mut i: usize = 0;
    while i < n
        invariant
            n == tagged.len(),
            i <= n,
            defaults@ == with_skin(tagged@.subrange(0, i as int), false),
            zombobs@ == with_skin(tagged@.subrange(0, i as int), true),
        decreases n - i,
    {
        let (item, zombob_skin) = tagged[i];
        let ghost pre = tagged@.subrange(0, i as int);
        let ghost next = tagged@.subrange(0, i + 1);
        assert(next.drop_last() =~= pre);
        assert(next.last() == (item, zombob_skin));
        if zombob_skin {
            zombobs.push(item);
        } else {
            defaults.push(item);
        }
        i = i + 1;
    }
    assert(tagged@.subrange(0, n as int) =~= tagged@);
    let default_count = defaults.len();
    let zombob_count = zombobs.len();
    let mut instances = defaults;
    let mut j: usize = 0;
    let ghost start = instances@;
    while j < zombob_count
        invariant
            zombob_count == zombobs.len(),
            j <= zombob_count,
            instances@ == start + zombobs@.subrange(0, j as int),
        decreases zombob_count - j,
    {
        instances.push(zombobs[j]);
        assert(zombobs@.subrange(0, j + 1) =~= zombobs@.subrange(0, j as int).push(zombobs@[j as int]));
        j = j + 1;
    }
    assert(zombobs@.subrange(0, zombob_count as int) =~= zombobs@);
    InstanceBatches { instances, default_count, zombob_count }
}

/// Grouping keeps every instance exactly once: the two groups together are as many as
/// the tagged instances.
pub proof fn lemma_grouping_keeps_count<T>(items: Seq<(T, bool)>)
    ensures
        with_skin(items, false).len() + with_skin(items, true).len() == items.len(),
    decreases items.len(),
{
    if items.len() > 0 {
        lemma_grouping_keeps_count(items.drop_last());
    }
}

/// The shader material of an instance: its material, or the default one.
pub fn material_index(material: Option<MaterialId>) -> (id: u32)
    ensures
        id == (match material {
            Some(m) => m.shader_index(),
            None => 0,
        }),
{
    match material {
        Some(m) => m.shader_id(),
        None => 0,
    }
}

/// Texture coordinates handed to the shader for one instance.
#[derive(Debug, Clone, Copy)]
pub struct AtlasUv {
    pub origin: [u32; 2],
    pub dims: [u32; 3],
}

/// The texture origin and box of an instance: its skin region, or all zeros when it is
/// not skinned.
pub fn atlas_uv(region: Option<TextureAtlasRegion>) -> (uv: AtlasUv)
    ensures
        uv.origin@ == (match region {
            Some(r) => seq![r.x, r.y],
            None => seq![0u32, 0u32],
        }),
        uv.dims@ == (match region {
            Some(r) => seq![r.w, r.h, r.d],
            None => seq![0u32, 0u32, 0u32],
        }),
{
    match region {
        Some(r) => {
            let uv = AtlasUv { origin: [r.x, r.y], dims: [r.w, r.h, r.d] };
            assert(uv.origin@ =~= seq![r.x, r.y]);
            assert(uv.dims@ =~= seq![r.w, r.h, r.d]);
            uv
        },
        None => {
            let uv = AtlasUv { origin: [0, 0], dims: [0, 0, 0] };
            assert(uv.origin@ =~= seq![0u32, 0u32]);
            assert(uv.dims@ =~= seq![0u32, 0u32, 0u32]);
            uv
        },
    }
}

/// Whether an entity is drawn: everything except the hidden player body, but the gun
/// model always.
pub fn is_drawn(hidden: bool, is_gun_model: bool) -> (b: bool)
    ensures
        b == (!hidden || is_gun_model),
{
    !hidden || is_gun_model
}

/// The new surface size for a resize request, or `None` when a side is zero and the
/// request is ignored.
pub fn resized(width: u32, height: u32) -> (size: Option<(u32, u32)>)
    ensures
        size == (if width > 0 && height > 0 {
            Some((width, height))
        } else {
            None::<(u32, u32)>
        }),
{
    if width > 0 && height > 0 {
        Some((width, height))
    } else {
        None
    }
}

/// What decoding an encoded image (a PNG file, say) gives: its width, its height and
/// its pixels as 8-bit RGBA, row by row, or nothing when the bytes are no image the
/// decoder reads.
pub uninterp spec fn decoded_rgba8(bytes: Seq<u8>) -> Option<(u32, u32, Seq<u8>)>;

/// Decodes an encoded image into its width, height and 8-bit RGBA pixels.
///
/// Calls `image::load_from_memory`, then `DynamicImage::to_rgba8` and, on the RGBA
/// buffer, `ImageBuffer::dimensions` and `ImageBuffer::into_raw`. Trusted: the result is
/// the decoding of `bytes` (an error exactly when there is none), and the pixel buffer,
/// which `to_rgba8` allocates for the image's size, holds four bytes per pixel. The
/// error's message is the decoder's and is left unsaid.
#[verifier::external_body]
fn decode_rgba8(bytes: &[u8]) -> (r: Result<(u32, u32, Vec<u8>), String>)
    ensures
        r matches Ok((w, h, px)) ==> decoded_rgba8(bytes@) == Some((w, h, px@)),
        r matches Ok((w, h, px)) ==> px@.len() == 4 * w * h,
        r is Err ==> decoded_rgba8(bytes@) is None,
{
    match image::load_from_memory(bytes) {
        Ok(img) => {
            let rgba = img.to_rgba8();
            let (width, height) = rgba.dimensions();
            Ok((width, height, rgba.into_raw()))
        },
        Err(e) => Err(e.to_string()),
    }
}

/// How tightly packed RGBA8 rows are laid out for a copy into a texture.
#[derive(Debug, Clone, Copy, PartialEq, Eq, Structural)]
pub struct TextureUploadLayout {
    pub bytes_per_row: u32,
    pub rows_per_image: u32,
}

/// The copy layout of a `width` by `height` RGBA8 image: four bytes per pixel in a row,
/// `height` rows.
pub fn texture_upload_layout(width: u32, height: u32) -> (layout: TextureUploadLayout)
    requires
        4 * width <= u32::MAX,
    ensures
        layout.bytes_per_row == 4 * width,
        layout.rows_per_image == height,
{
    TextureUploadLayout { bytes_per_row: 4 * width, rows_per_image: height }
}

/// A decoded image ready for upload into a texture of its size.
#[derive(Debug, Clone)]
pub struct DecodedTexture {
    pub width: u32,
    pub height: u32,
    pub pixels: Vec<u8>,
    pub layout: TextureUploadLayout,
}

/// Prepares decoded RGBA8 pixels of a `width` by `height` image for upload: the image
/// with its copy layout. Fails when a row of the image is too long to give its length in
/// bytes as a `u32`.
pub fn texture_from_rgba8(width: u32, height: u32, pixels: Vec<u8>) -> (r: Result<
    DecodedTexture,
    String,
>)
    ensures
        if 4 * width > u32::MAX {
            r is Err
        } else {
            r matches Ok(t) && t.width == width && t.height == height && t.pixels@ == pixels@
                && t.layout == (TextureUploadLayout {
                bytes_per_row: (4 * width) as u32,
                rows_per_image: height,
            })
        },
{
    if width > u32::MAX / 4 {
        Err("texture too wide for a row length in bytes".to_owned())
    } else {
        let layout = texture_upload_layout(width, height);
        Ok(DecodedTexture { width, height, pixels, layout })
    }
}

/// Decodes an encoded image for a texture: its size, its RGBA8 pixels and their copy
/// layout. Fails with the decoder's message when the bytes are no image, and when a
/// row of the image is too long to give its length in bytes as a `u32`.
pub fn decode_texture(bytes: &[u8]) -> (r: Result<DecodedTexture, String>)
    ensures
        match decoded_rgba8(bytes@) {
            None => r is Err,
            Some((w, h, px)) => if 4 * w > u32::MAX {
                r is Err
            } else {
                r matches Ok(t) && t.width == w && t.height == h && t.pixels@ == px
                    && t.pixels@.len() == 4 * w * h && t.layout == (TextureUploadLayout {
                    bytes_per_row: (4 * w) as u32,
                    rows_per_image: h,
                })
            },
        },
{
    match decode_rgba8(bytes) {
        Ok((width, height, pixels)) => texture_from_rgba8(width, height, pixels),
        Err(message) => Err(message),
    }
}

} // verus!
