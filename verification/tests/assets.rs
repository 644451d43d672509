use solarsim::rhai_asset_loader::{script_from_bytes, RhaiAssetLoaderError};
use solarsim::textures::{uv_debug_palette, uv_debug_texture, uv_sun_texture, uv_texture_data};

#[test]
fn empty_script_bytes_give_empty_script() {
    let r = script_from_bytes(Vec::new(), "assets/empty.rhai".to_string());
    match r {
        Ok(s) => {
            assert_eq!(s.content, "");
            assert_eq!(s.path, "assets/empty.rhai");
        }
        Err(_) => panic!("empty input must load"),
    }
}

#[test]
fn clean_utf8_script_is_decoded() {
    let bytes = "let x = 42; // gruß".as_bytes().to_vec();
    let r = script_from_bytes(bytes, "assets/a.rhai".to_string());
    match r {
        Ok(s) => {
            assert_eq!(s.content, "let x = 42; // gruß");
            assert_eq!(s.path, "assets/a.rhai");
        }
        Err(_) => panic!("valid UTF-8 must load"),
    }
}

#[test]
fn malformed_bytes_are_rejected_with_replacement_text() {
    let bytes = vec![b'h', b'i', 0xFF, b'!'];
    let r = script_from_bytes(bytes, "assets/bad.rhai".to_string());
    match r {
        Ok(_) => panic!("malformed input must be rejected"),
        Err(RhaiAssetLoaderError::InvalidCharactersFound(text)) => {
            assert_eq!(text, "hi\u{FFFD}!");
        }
        Err(_) => panic!("wrong error variant"),
    }
}

#[test]
fn texture_rows_rotate_the_palette() {
    let palette = uv_debug_palette();
    let data = uv_texture_data(&palette);
    assert_eq!(data.len(), 256);
    // row 0 is the palette itself
    for i in 0..32 {
        assert_eq!(data[i], palette[i]);
    }
    // row 1 is the palette rotated right by one texel (4 bytes)
    for i in 0..32 {
        assert_eq!(data[32 + i], palette[(i + 28) % 32]);
    }
    // row 7 rotated by seven texels
    for i in 0..32 {
        assert_eq!(data[7 * 32 + i], palette[(i + 28 * 7) % 32]);
    }
}

#[test]
fn sun_texture_is_uniform_yellow() {
    let data = uv_sun_texture();
    assert_eq!(data.len(), 256);
    for p in 0..64 {
        assert_eq!(data[4 * p], 255);
        assert_eq!(data[4 * p + 1], 255);
        assert_eq!(data[4 * p + 2], 0);
        assert_eq!(data[4 * p + 3], 255);
    }
}

#[test]
fn debug_texture_first_texel() {
    let data = uv_debug_texture();
    assert_eq!(&data[0..4], &[255, 102, 159, 255]);
}
