use quiche::ico::{BitmapInfoHeader, IcoError, IconDir, ResourceType, VecExt};

/// A 40-byte BMP header for a 16x16 icon at the given bit depth, followed
/// by `pixel_bytes`.
fn bmp(bits_per_pixel: u16, pixel_bytes: Vec<u8>) -> Vec<u8> {
    let mut d: Vec<u8> = Vec::new();
    d.write_u32(40); // header size
    d.write_u32(16); // width
    d.write_u32(32); // stored height, doubled
    d.write_u16(1); // planes
    d.write_u16(bits_per_pixel);
    d.write_u32(0); // compression
    d.write_i32(0); // image size
    d.write_u32(0); // x pixels per meter
    d.write_u32(0); // y pixels per meter
    d.write_u32(0); // colors used
    d.write_u32(0); // colors important
    d.write_bytes(&pixel_bytes);
    d
}

/// A one-entry icon file holding a 16x16, 32-bit image.
fn icon_file() -> Vec<u8> {
    // every pixel is blue 1, green 2, red 3, alpha 4
    let mut pixels: Vec<u8> = Vec::new();
    for _ in 0..(16 * 16) {
        pixels.write_u8(1);
        pixels.write_u8(2);
        pixels.write_u8(3);
        pixels.write_u8(4);
    }
    let image = bmp(32, pixels);
    let mut file: Vec<u8> = Vec::new();
    file.write_u16(0); // reserved
    file.write_u16(1); // icon resource
    file.write_u16(1); // one entry
    file.write_u8(16); // width
    file.write_u8(16); // height
    file.write_u8(0); // palette colors
    file.write_u8(0); // reserved
    file.write_u16(1); // color planes
    file.write_u16(32); // bits per pixel
    file.write_u32(image.len() as u32);
    file.write_u32(22); // data offset: 6-byte header + one 16-byte record
    file.write_bytes(&image);
    file
}

#[test]
fn reader_is_little_endian() {
    let data: Vec<u8> = vec![0x01, 0x02, 0x03, 0x04, 0xff, 0xff, 0xff, 0xff];
    let mut cursor: usize = 0;
    assert_eq!(data.read_u32(&mut cursor).unwrap(), 0x04030201);
    assert_eq!(cursor, 4);
    assert_eq!(data.read_i32(&mut cursor).unwrap(), -1);
    assert_eq!(cursor, 8);
    cursor = 0;
    assert_eq!(data.read_u16(&mut cursor).unwrap(), 0x0201);
    assert_eq!(data.read_u8(&mut cursor).unwrap(), 0x03);
    cursor = 6;
    assert!(data.read_u32(&mut cursor).is_err());
    assert_eq!(cursor, 6);
}

#[test]
fn writer_mirrors_the_reader() {
    let mut data: Vec<u8> = Vec::new();
    data.write_u32(0x04030201);
    data.write_u16(0x0605);
    data.write_u8(0x07);
    data.write_i32(-2);
    assert_eq!(&data[0..7], &[1, 2, 3, 4, 5, 6, 7]);
    let mut cursor: usize = 7;
    assert_eq!(data.read_i32(&mut cursor).unwrap(), -2);
    assert_eq!(data.slice(1, 3), vec![2, 3, 4]);
}

#[test]
fn bitmap_header_reads_its_fields() {
    let data = bmp(32, vec![0u8; 1024]);
    let mut cursor: usize = 0;
    let header = BitmapInfoHeader::new(&data, &mut cursor).unwrap();
    assert_eq!(cursor, 40);
    assert_eq!(header.size, 40);
    assert_eq!(header.width, 16);
    assert_eq!(header.height, 16); // the stored height is halved
    assert_eq!(header.planes, 1);
    assert_eq!(header.bits_per_pixel, 32);
}

#[test]
fn bitmap_header_rejects_odd_stored_height() {
    let mut data = bmp(32, vec![]);
    data[8] = 31; // stored height must divide by two
    let mut cursor: usize = 0;
    assert!(BitmapInfoHeader::new(&data, &mut cursor).is_err());
}

#[test]
fn icon_file_parses_and_decodes() {
    let file = icon_file();
    let dir = IconDir::from(&file).unwrap();
    assert_eq!(dir.entries.len(), 1);
    assert_eq!(dir.entries[0].width, 16);
    assert_eq!(dir.entries[0].height, 16);
    assert!(!dir.entries[0].is_png());
    let image = dir.entries[0].decode().unwrap();
    assert_eq!(image.get_width(), 16);
    assert_eq!(image.get_height(), 16);
    assert_eq!(image.data.len(), 4 * 16 * 16);
    // pixels decode to red 3, green 2, blue 1, alpha 4
    assert_eq!(&image.data[0..4], &[3, 2, 1, 4]);
}

#[test]
fn encode_round_trips_a_parsed_file() {
    let file = icon_file();
    let dir = IconDir::from(&file).unwrap();
    assert_eq!(dir.encode().unwrap(), file);
}

#[test]
fn parser_rejects_bad_headers() {
    let mut file = icon_file();
    file[0] = 1; // reserved must be zero
    assert!(matches!(IconDir::from(&file), Err(IcoError::InvalidFileType(_))));

    let mut file = icon_file();
    file[2] = 2; // a cursor file is not supported
    assert!(matches!(IconDir::from(&file), Err(IcoError::UnsupportedFileType(_))));

    let mut file = icon_file();
    file[2] = 9; // not a known resource type
    assert!(matches!(IconDir::from(&file), Err(IcoError::InvalidResourceType(_))));

    let mut file = icon_file();
    file[18] = 0xff; // entry data reaches outside the file
    assert!(matches!(IconDir::from(&file), Err(IcoError::BufferOutOfBounds(_))));

    let mut file = icon_file();
    file[9] = 7; // an entry's reserved byte must be zero
    assert!(matches!(IconDir::from(&file), Err(IcoError::UnexpectedValue(_))));

    let mut file = icon_file();
    file.truncate(12); // the entry record is cut short
    assert!(matches!(IconDir::from(&file), Err(IcoError::BufferOutOfBounds(_))));
}

#[test]
fn png_entries_are_refused() {
    let png = vec![0x89, b'P', b'N', b'G', 0, 0, 0, 0];
    let mut file: Vec<u8> = Vec::new();
    file.write_u16(0);
    file.write_u16(1);
    file.write_u16(1);
    file.write_u8(16);
    file.write_u8(16);
    file.write_u8(0);
    file.write_u8(0);
    file.write_u16(1);
    file.write_u16(32);
    file.write_u32(png.len() as u32);
    file.write_u32(22);
    file.write_bytes(&png);
    let dir = IconDir::from(&file).unwrap();
    assert!(dir.entries[0].is_png());
    assert!(dir.entries[0].decode().is_err());
}

#[test]
fn resource_type_numbers() {
    assert_eq!(ResourceType::from_number(1).unwrap(), ResourceType::Icon);
    assert_eq!(ResourceType::from_number(2).unwrap(), ResourceType::Cursor);
    assert!(ResourceType::from_number(3).is_err());
    assert_eq!(ResourceType::Icon.number(), 1);
    assert_eq!(ResourceType::Cursor.number(), 2);
}

#[test]
fn one_bit_bitmaps_decode_through_palette_and_mask() {
    // a 16x16 1-bit image: palette of two colors, every pixel index 1,
    // an all-clear mask
    let mut body: Vec<u8> = Vec::new();
    // palette entry 0: blue (stored blue, green, red, reserved)
    body.write_u8(0xff);
    body.write_u8(0);
    body.write_u8(0);
    body.write_u8(0);
    // palette entry 1: red
    body.write_u8(0);
    body.write_u8(0);
    body.write_u8(0xff);
    body.write_u8(0);
    // 16 color rows: two data bytes of ones, two padding bytes
    for _ in 0..16 {
        body.write_u8(0xff);
        body.write_u8(0xff);
        body.write_u8(0);
        body.write_u8(0);
    }
    // 16 mask rows: two clear bytes, two padding bytes
    for _ in 0..16 {
        body.write_u8(0);
        body.write_u8(0);
        body.write_u8(0);
        body.write_u8(0);
    }
    let data = bmp(1, body);
    let image = quiche::ico::IconImage::read_bmp(&data).unwrap();
    assert_eq!(image.get_width(), 16);
    assert_eq!(image.get_height(), 16);
    // every pixel decodes to palette entry 1: red, fully opaque
    assert_eq!(&image.data[0..4], &[0xff, 0, 0, 0xff]);
    assert_eq!(&image.data[1020..1024], &[0xff, 0, 0, 0xff]);
}
