//! Procedural 8x8 RGBA debug textures: a 32-byte palette row tiled so that
//! each row is the previous one rotated right by one texel (four bytes).
//! The embedding renderer wraps the returned byte grid into its own image
//! type.

use vstd::prelude::*;

verus! {

/// The byte each texture position holds: row `y` is the palette rotated
/// right by `4*y` bytes, so position `(y, i)` reads palette byte
/// `(i + 28*y) % 32`.
pub open spec fn tiled_byte(palette: Seq<u8>, y: int, i: int) -> u8 {
    palette[(i + 28 * y) % 32]
}

/// Tile a 32-byte RGBA palette row into the 256-byte data of an 8x8
/// texture, rotating the palette right by four bytes for every row.
pub fn uv_texture_data(palette: &Vec<u8>) -> (r: Vec<u8>)
    requires
        palette@.len() == 32,
    ensures
        r@.len() == 256,
        forall|y: int, i: int|
            0 <= y < 8 && 0 <= i < 32 ==> r@[y * 32 + i] == tiled_byte(palette@, y, i),
{
    let mut out: Vec<u8> = Vec::new();
    let mut y: usize = 0;
    while y < 8
        invariant
            y <= 8,
            palette@.len() == 32,
            out@.len() == y * 32,
            forall|t: int, i: int|
                0 <= t < y && 0 <= i < 32 ==> out@[t * 32 + i] == tiled_byte(palette@, t, i),
        decreases 8 - y,
    {
        let mut i: usize = 0;
        while i < 32
            invariant
                i <= 32,
                y < 8,
                palette@.len() == 32,
                out@.len() == y * 32 + i,
                forall|t: int, j: int|
                    0 <= t < y && 0 <= j < 32 ==> out@[t * 32 + j] == tiled_byte(palette@, t, j),
                forall|j: int| 0 <= j < i ==> out@[y * 32 + j] == tiled_byte(palette@, y as int, j),
            decreases 32 - i,
        {
            let idx: usize = (i + 28 * y) % 32;
            out.push(palette[idx]);
            i = i + 1;
        }
        y = y + 1;
    }
    out
}

/// The palette bytes of the general-purpose debug texture.
pub open spec fn debug_palette_spec() -> Seq<u8> {
    seq![
        255u8, 102u8, 159u8, 255u8, 255u8, 159u8, 102u8, 255u8, 236u8, 255u8, 102u8, 255u8,
        121u8, 255u8, 102u8, 255u8, 102u8, 255u8, 198u8, 255u8, 102u8, 198u8, 255u8, 255u8,
        121u8, 102u8, 255u8, 255u8, 236u8, 102u8, 255u8, 255u8,
    ]
}

/// The palette bytes of the sun texture: uniformly yellow texels.
pub open spec fn sun_palette_spec() -> Seq<u8> {
    seq![
        255u8, 255u8, 0u8, 255u8, 255u8, 255u8, 0u8, 255u8, 255u8, 255u8, 0u8, 255u8, 255u8,
        255u8, 0u8, 255u8, 255u8, 255u8, 0u8, 255u8, 255u8, 255u8, 0u8, 255u8, 255u8, 255u8,
        0u8, 255u8, 255u8, 255u8, 0u8, 255u8,
    ]
}

/// The palette of the general-purpose debug texture.
pub fn uv_debug_palette() -> (r: Vec<u8>)
    ensures
        r@ == debug_palette_spec(),
        r@.len() == 32,
{
    vec![
        255, 102, 159, 255, 255, 159, 102, 255, 236, 255, 102, 255, 121, 255, 102, 255, 102, 255,
        198, 255, 102, 198, 255, 255, 121, 102, 255, 255, 236, 102, 255, 255,
    ]
}

/// The palette of the sun texture: uniformly yellow texels.
pub fn uv_sun_palette() -> (r: Vec<u8>)
    ensures
        r@ == sun_palette_spec(),
        r@.len() == 32,
{
    vec![
        255, 255, 0, 255, 255, 255, 0, 255, 255, 255, 0, 255, 255, 255, 0, 255, 255, 255, 0, 255,
        255, 255, 0, 255, 255, 255, 0, 255, 255, 255, 0, 255,
    ]
}

/// Texture data of the general-purpose debug texture.
pub fn uv_debug_texture() -> (r: Vec<u8>)
    ensures
        r@.len() == 256,
        forall|y: int, i: int|
            0 <= y < 8 && 0 <= i < 32 ==> r@[y * 32 + i] == tiled_byte(debug_palette_spec(), y, i),
{
    let palette = uv_debug_palette();
    uv_texture_data(&palette)
}

/// Texture data of the sun texture.
pub fn uv_sun_texture() -> (r: Vec<u8>)
    ensures
        r@.len() == 256,
        forall|y: int, i: int|
            0 <= y < 8 && 0 <= i < 32 ==> r@[y * 32 + i] == tiled_byte(sun_palette_spec(), y, i),
{
    let palette = uv_sun_palette();
    uv_texture_data(&palette)
}

} // verus!
