use ltk::texture::{
    bc7_surface, encodable_dimensions, encode_bgra8, mip_levels, encode_rgba, encode_rgba_with_mipmaps, pad_to_block_grid, DecodeErr, EncodeError, EncodeFormat,
    EncodeOptions, Format, MipmapFilter, PixelFormat, Pixels, ReadError, ResourceType, Tex,
    TexSurface, TextureFilter, TextureFlags,
};

#[test]
fn pads_partial_blocks_with_replicated_edges() {
    // 2x1 image [A, B] -> 4x4 where every row is [A, B, B, B]
    let a = [1, 2, 3, 4];
    let b = [5, 6, 7, 8];
    let pixels = [a, b].concat();
    let (w, h, padded) = pad_to_block_grid(2, 1, &pixels);
    assert_eq!((w, h), (4, 4));
    let expected_row = [a, b, b, b].concat();
    for row in padded.as_slice().chunks_exact(4 * 4) {
        assert_eq!(row, expected_row);
    }

    // block-aligned data is passed through without copying
    let rgba = vec![0u8; 8 * 4 * 4];
    let (w, h, padded) = pad_to_block_grid(8, 4, &rgba);
    assert_eq!((w, h), (8, 4));
    assert!(matches!(padded, Pixels::Borrowed(_)));
}

#[test]
fn parses_new_format_ids() {
    assert_eq!(Format::from_u8(13).unwrap(), Format::Bc7);
    assert_eq!(Format::from_u8(14).unwrap(), Format::Bc5Snorm);
    assert_eq!(Format::Bc7.to_u8(), 13);
    assert_eq!(Format::Bc5Snorm.to_u8(), 14);
}

fn tex_file(format: u8, data: &[u8]) -> Vec<u8> {
    let mut file = Vec::new();
    file.extend_from_slice(b"TEX\0");
    file.extend_from_slice(&4u16.to_le_bytes()); // width
    file.extend_from_slice(&4u16.to_le_bytes()); // height
    file.push(1); // depth
    file.push(format);
    file.push(0); // resource type: texture
    file.push(0); // flags: no mipmaps
    file.extend_from_slice(data);
    file
}

#[test]
fn write_roundtrips_header_bytes() {
    let file = tex_file(20, &[0u8; 64]);
    let tex = Tex::from_bytes(&file).unwrap();
    assert_eq!(tex.depth, 1);
    assert_eq!(tex.resource_type, ResourceType::Texture);
    assert_eq!(tex.to_bytes(), file);
}

#[test]
fn decodes_volume_texture_slices() {
    // 2x2x2 BGRA8 volume texture, no mips: two sequential 16-byte z-slices
    let mut file = Vec::new();
    file.extend_from_slice(b"TEX\0");
    file.extend_from_slice(&2u16.to_le_bytes());
    file.extend_from_slice(&2u16.to_le_bytes());
    file.push(2); // depth
    file.push(20); // Bgra8
    file.push(3); // resource type: volume texture
    file.push(0); // flags: no mipmaps
    file.extend_from_slice(&[0x11; 16]);
    file.extend_from_slice(&[0x22; 16]);

    let tex = Tex::from_bytes(&file).unwrap();
    assert_eq!(tex.depth, 2);
    assert_eq!(tex.resource_type, ResourceType::VolumeTexture);

    assert_eq!(&tex.decode_mipmap_slice(0, 0).unwrap().data[..], &[0x11; 16]);
    assert_eq!(&tex.decode_mipmap_slice(0, 1).unwrap().data[..], &[0x22; 16]);
    assert_eq!(&tex.decode_mipmap(0).unwrap().data[..], &[0x11; 16]);
    assert!(matches!(
        tex.decode_mipmap_slice(0, 2),
        Err(DecodeErr::SliceOutOfBounds { slice: 2, depth: 2 })
    ));
}

#[test]
fn reads_and_decodes_bc5_snorm_tex() {
    let mut block = Vec::new();
    block.extend_from_slice(&[127, 0x81, 0, 0, 0, 0, 0, 0]);
    block.extend_from_slice(&[0x81, 0x81, 0, 0, 0, 0, 0, 0]);
    let file = tex_file(14, &block);

    let tex = Tex::from_bytes(&file).unwrap();
    assert_eq!(tex.format, Format::Bc5Snorm);
    assert_eq!(tex.mip_count, 1);

    let surface = tex.decode_mipmap(0).unwrap();
    assert_eq!(surface.format, PixelFormat::Rg8Snorm);
    for pixel in surface.data.chunks_exact(2) {
        assert_eq!([pixel[0] as i8, pixel[1] as i8], [127, -127]);
    }

    // the presentation remaps to [0, 255]
    let rgba = surface.rgba8_pixels().unwrap();
    assert_eq!(rgba.len(), 4 * 4 * 4);
    for pixel in rgba.chunks_exact(4) {
        assert_eq!(pixel, [255, 0, 0, 255]);
    }
}

#[test]
fn truncated_data_errors_instead_of_panicking() {
    let file = tex_file(13, &[0; 4]); // BC7 4x4 needs a full 16-byte block
    let tex = Tex::from_bytes(&file).unwrap();
    assert!(matches!(tex.decode_mipmap(0), Err(DecodeErr::MipOutOfBounds { .. })));
}

#[test]
fn old_format_numbers_still_read() {
    assert_eq!(Format::from_u8(3).unwrap(), Format::Etc2Eac);
    assert_eq!(Format::from_u8(11).unwrap(), Format::Bc1);
    assert!(Format::from_u8(4).is_err());
    assert_eq!(Format::Bc1.bytes_per_block(), 8);
    assert_eq!(Format::Bgra8.block_size(), (1, 1));
    assert_eq!(Format::Bc7.block_size(), (4, 4));
}

#[test]
fn read_errors_name_what_was_wrong() {
    assert!(matches!(Tex::from_bytes(b"TE"), Err(ReadError::Io(_))));
    assert!(matches!(
        Tex::from_bytes(b"DDS \0\0\0\0\0\0\0\0"),
        Err(ReadError::UnexpectedMagic { expected: 0x0058_4554, got: 0x2053_4444 })
    ));
    let mut bad_flags = tex_file(20, &[]);
    bad_flags[11] = 4;
    assert!(matches!(
        Tex::from_bytes(&bad_flags),
        Err(ReadError::Tex(ltk::texture::Error::InvalidTextureFlags(4)))
    ));
    let mut bad_type = tex_file(20, &[]);
    bad_type[10] = 9;
    assert!(matches!(
        Tex::from_bytes(&bad_type),
        Err(ReadError::Tex(ltk::texture::Error::UnknownResourceType(9)))
    ));
}

#[test]
fn mip_count_follows_the_largest_dimension() {
    let mut file = tex_file(20, &[0u8; 4 * (16 + 4 + 1)]);
    file[11] = 1; // has mipmaps
    let tex = Tex::from_bytes(&file).unwrap();
    assert!(tex.has_mipmaps());
    assert_eq!(tex.mip_count, 3);
    // The smallest mip comes first: level 2 is 1x1 at offset 0.
    assert_eq!(tex.decode_mipmap(2).unwrap().data.len(), 4);
    assert_eq!(tex.decode_mipmap(0).unwrap().data.len(), 64);
    // A level past the last reads the last.
    assert_eq!(tex.decode_mipmap(9).unwrap().width, 1);
}

#[test]
fn bgra8_swaps_red_and_blue() {
    let out = encode_bgra8(&[1, 2, 3, 4, 5, 6, 7, 8, 9]).unwrap();
    assert_eq!(out, vec![3, 2, 1, 4, 7, 6, 5, 8]);
    let surface = TexSurface { width: 1, height: 1, format: PixelFormat::Bgra8Unorm, data: vec![3, 2, 1, 4] };
    assert_eq!(surface.rgba8_pixels().unwrap(), vec![1, 2, 3, 4]);
}

#[test]
fn encoding_checks_the_pixel_count() {
    let options = EncodeOptions::new(EncodeFormat::Bc1 { weigh_colour_by_alpha: false });
    assert_eq!(encode_rgba(4, 4, &[0u8; 10], &options).unwrap_err(), EncodeError::InvalidPixelData);
    let encoded = encode_rgba(4, 4, &[0u8; 64], &options).unwrap();
    assert_eq!(encoded.len(), 8);
    let bc3 = EncodeOptions::new(EncodeFormat::Bc3 { weigh_colour_by_alpha: false });
    assert_eq!(encode_rgba(5, 5, &[0u8; 100], &bc3).unwrap().len(), 4 * 16);
}

#[test]
fn bc7_pads_to_whole_blocks() {
    let (w, h, surface) = bc7_surface(2, 3, &[0x80u8; 24]).unwrap();
    assert_eq!((w, h), (4, 4));
    assert_eq!(surface, vec![0x80u8; 64]);
    assert_eq!(bc7_surface(2, 3, &[0u8; 10]).unwrap_err(), EncodeError::InvalidPixelData);
}

#[test]
fn bc7_is_refused_without_an_encoder() {
    let options = EncodeOptions::new(EncodeFormat::Bc7);
    assert_eq!(
        encode_rgba(2, 3, &[0x80u8; 24], &options).unwrap_err(),
        EncodeError::UnsupportedFormat(Format::Bc7)
    );
    assert_eq!(
        encode_rgba_with_mipmaps(4, 4, &[0u8; 64], &options.with_mipmaps()).unwrap_err(),
        EncodeError::UnsupportedFormat(Format::Bc7)
    );
}

#[test]
fn encode_options_default_to_bc3_without_mipmaps() {
    let options = EncodeOptions::default();
    assert_eq!(options.format, EncodeFormat::Bc3 { weigh_colour_by_alpha: false });
    assert!(!options.generate_mipmaps);
    assert_eq!(options.mipmap_filter, MipmapFilter::Triangle);
    let with = options.with_mipmaps().with_mipmap_filter(MipmapFilter::Lanczos3);
    assert!(with.generate_mipmaps);
    assert_eq!(with.mipmap_filter, MipmapFilter::Lanczos3);
    assert_eq!(EncodeFormat::try_from_format(Format::Etc1).unwrap_err(), EncodeError::UnsupportedFormat(Format::Etc1));
}

#[test]
fn encoded_image_with_mipmaps_reads_back() {
    let options = EncodeOptions::new(EncodeFormat::Bgra8).with_mipmaps();
    let tex = Tex::encode_rgba_image(4, 2, &[9u8; 32], options).unwrap();
    assert_eq!(tex.mip_count, 3);
    assert!(tex.has_mipmaps());
    // 1x1, 2x1 and 4x2 mips, 4 bytes a pixel.
    assert_eq!(tex.data().len(), 4 + 8 + 32);
    let back = Tex::from_bytes(&tex.to_bytes()).unwrap();
    assert_eq!(back.mip_count, 3);
    assert_eq!(back.data(), tex.data());
    let err = Tex::encode_rgba_image(0, 2, &[], options).unwrap_err();
    assert_eq!(err, EncodeError::ZeroSizedImage);
}

#[test]
fn flags_and_filters_number_as_stored() {
    assert!(TextureFlags::from_bits(4).is_none());
    assert_eq!(TextureFlags::from_bits(3).unwrap().bits(), 3);
    assert!(TextureFlags::from_bits(1).unwrap().contains(1));
    assert_eq!(TextureFilter::try_from_u8(0), Some(TextureFilter::NoFilter));
    assert_eq!(TextureFilter::Linear.to_u8(), 2);
    assert_eq!(PixelFormat::Rgba16Float.bytes_per_pixel(), 8);
    assert_eq!(PixelFormat::Rg8Snorm.channel_count(), 2);
}

#[test]
fn encodable_dimensions_bound_the_padded_grid() {
    assert!(encodable_dimensions(256, 256));
    assert!(encodable_dimensions(0, 0));
    assert!(!encodable_dimensions(u32::MAX, u32::MAX));
    assert!(!encodable_dimensions(65_532, 65_533));
    assert!(encodable_dimensions(65_531, 65_531));
}

#[test]
fn mip_levels_halve_down_to_one_by_one() {
    let rgba = vec![7u8; 4 * 2 * 4];
    let levels = mip_levels(4, 2, &rgba, MipmapFilter::Nearest);
    let dims: Vec<(u32, u32)> = levels.iter().map(|(w, h, _)| (*w, *h)).collect();
    assert_eq!(dims, vec![(4, 2), (2, 1), (1, 1)]);
    assert_eq!(levels[0].2, rgba);
    for (w, h, pixels) in &levels {
        assert_eq!(pixels.len(), (*w * *h * 4) as usize);
        assert!(pixels.iter().all(|b| *b == 7));
    }
}

#[test]
fn mips_encoded_elsewhere_are_stored_smallest_first() {
    let tex = Tex::from_encoded_mips(4, 4, Format::Bc7, vec![vec![1u8; 16], vec![2u8; 16], vec![3u8; 16]], true);
    assert_eq!(tex.width, 4);
    assert_eq!(tex.height, 4);
    assert_eq!(tex.format, Format::Bc7);
    assert_eq!(tex.mip_count, 3);
    assert!(tex.has_mipmaps());
    let mut expected = vec![3u8; 16];
    expected.extend_from_slice(&[2u8; 16]);
    expected.extend_from_slice(&[1u8; 16]);
    assert_eq!(tex.data(), &expected[..]);

    let single = Tex::from_encoded_mips(8, 4, Format::Bc7, vec![vec![9u8; 32]], false);
    assert!(!single.has_mipmaps());
    assert_eq!(single.mip_count, 1);
    let reread = Tex::from_bytes(&single.to_bytes()).expect("the texture reads back");
    assert_eq!(reread.data(), single.data());
    assert_eq!(reread.format, Format::Bc7);
}
