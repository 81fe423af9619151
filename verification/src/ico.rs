//! A self-contained decoder and encoder for the ICO icon-file format.
//!
//! Everything here is ordinary byte-level parsing, verified end to end: the
//! little-endian reader primitives state exactly which bytes make up each
//! value, and the directory parser states exactly which record fields each
//! entry was read from.

use vstd::prelude::*;

verus! {

/// What can be wrong with an icon file or a request against one.
#[derive(Debug, Clone)]
pub enum IcoError {
    InvalidDimensions(String),
    InvalidLength(String),
    TooManyEntries(String),
    InvalidFileType(String),
    InvalidResourceType(String),
    UnexpectedValue(String),
    UnknownColorDepth(String),
    InvalidBitmap(String),
    UnsupportedFileType(String),
    BufferOutOfBounds(String),
}

impl IcoError {
    /// The text carried by the error.
    pub fn message(&self) -> (r: String)
        ensures
            r@ == spec_ico_message(*self),
    {
        match self {
            IcoError::InvalidDimensions(s) => s.clone(),
            IcoError::InvalidLength(s) => s.clone(),
            IcoError::TooManyEntries(s) => s.clone(),
            IcoError::InvalidFileType(s) => s.clone(),
            IcoError::InvalidResourceType(s) => s.clone(),
            IcoError::UnexpectedValue(s) => s.clone(),
            IcoError::UnknownColorDepth(s) => s.clone(),
            IcoError::InvalidBitmap(s) => s.clone(),
            IcoError::UnsupportedFileType(s) => s.clone(),
            IcoError::BufferOutOfBounds(s) => s.clone(),
        }
    }
}

/// The text carried by each error variant.
pub open spec fn spec_ico_message(e: IcoError) -> Seq<char> {
    match e {
        IcoError::InvalidDimensions(s) => s@,
        IcoError::InvalidLength(s) => s@,
        IcoError::TooManyEntries(s) => s@,
        IcoError::InvalidFileType(s) => s@,
        IcoError::InvalidResourceType(s) => s@,
        IcoError::UnexpectedValue(s) => s@,
        IcoError::UnknownColorDepth(s) => s@,
        IcoError::InvalidBitmap(s) => s@,
        IcoError::UnsupportedFileType(s) => s@,
        IcoError::BufferOutOfBounds(s) => s@,
    }
}

/// Icon dimensions the format accepts.
pub const MIN_WIDTH: u32 = 16;

pub const MAX_WIDTH: u32 = 256;

pub const MIN_HEIGHT: u32 = 16;

pub const MAX_HEIGHT: u32 = 256;

/// The reserved byte of the directory header, zero by specification.
pub const RESERVED: u8 = 0;

/// The bitmap info header is 40 bytes on disk.
pub const BITMAP_HEADER_SIZE: u32 = 40;

/// The little-endian value of two bytes at `i`.
pub open spec fn le16(s: Seq<u8>, i: int) -> int {
    s[i] + s[i + 1] * 0x100
}

/// The little-endian value of four bytes at `i`.
pub open spec fn le32(s: Seq<u8>, i: int) -> int {
    s[i] + s[i + 1] * 0x100 + s[i + 2] * 0x10000 + s[i + 3] * 0x1000000
}

/// The signed reading of an unsigned 32-bit value, two's complement.
pub open spec fn as_signed32(n: int) -> int {
    if n < 0x80000000 {
        n
    } else {
        n - 0x100000000
    }
}

/// The two little-endian bytes of a 16-bit value.
pub open spec fn le16_bytes(v: int) -> Seq<u8> {
    seq![(v % 0x100) as u8, ((v / 0x100) % 0x100) as u8]
}

/// The four little-endian bytes of a 32-bit value.
pub open spec fn le32_bytes(v: int) -> Seq<u8> {
    seq![
        (v % 0x100) as u8,
        ((v / 0x100) % 0x100) as u8,
        ((v / 0x10000) % 0x100) as u8,
        ((v / 0x1000000) % 0x100) as u8,
    ]
}

/// The unsigned 32-bit representation of a signed value, two's complement.
pub open spec fn as_unsigned32(v: int) -> int {
    if v >= 0 {
        v
    } else {
        v + 0x100000000
    }
}

/// Reading back two little-endian bytes yields the value they were written
/// from.
pub proof fn lemma_le16_round_trip(v: int)
    requires
        0 <= v < 0x10000,
    ensures
        le16(le16_bytes(v), 0) == v,
{
}

/// Reading back four little-endian bytes yields the value they were written
/// from.
pub proof fn lemma_le32_round_trip(v: int)
    requires
        0 <= v < 0x100000000,
    ensures
        le32(le32_bytes(v), 0) == v,
{
}

/// A simple binary reader and writer over a byte vector, without relying on
/// an outside crate.  Reads advance the cursor only on success; writes
/// append to the vector.
pub trait VecExt: View<V = Seq<u8>> {
    fn read_u32(&self, offset: &mut usize) -> (r: Result<u32, IcoError>)
        ensures
            r matches Ok(v) ==> *old(offset) + 4 <= self@.len() && v == le32(
                self@,
                *old(offset) as int,
            ) && *final(offset) == *old(offset) + 4,
            r matches Err(e) ==> *old(offset) + 4 > self@.len() && *final(offset) == *old(offset)
                && e matches IcoError::BufferOutOfBounds(_),
    ;

    fn read_i32(&self, offset: &mut usize) -> (r: Result<i32, IcoError>)
        ensures
            r matches Ok(v) ==> *old(offset) + 4 <= self@.len() && v == as_signed32(
                le32(self@, *old(offset) as int),
            ) && *final(offset) == *old(offset) + 4,
            r matches Err(e) ==> *old(offset) + 4 > self@.len() && *final(offset) == *old(offset)
                && e matches IcoError::BufferOutOfBounds(_),
    ;

    fn read_u16(&self, offset: &mut usize) -> (r: Result<u16, IcoError>)
        ensures
            r matches Ok(v) ==> *old(offset) + 2 <= self@.len() && v == le16(
                self@,
                *old(offset) as int,
            ) && *final(offset) == *old(offset) + 2,
            r matches Err(e) ==> *old(offset) + 2 > self@.len() && *final(offset) == *old(offset)
                && e matches IcoError::BufferOutOfBounds(_),
    ;

    fn read_u8(&self, offset: &mut usize) -> (r: Result<u8, IcoError>)
        ensures
            r matches Ok(v) ==> *old(offset) + 1 <= self@.len() && v == self@[*old(offset) as int]
                && *final(offset) == *old(offset) + 1,
            r matches Err(e) ==> *old(offset) + 1 > self@.len() && *final(offset) == *old(offset)
                && e matches IcoError::BufferOutOfBounds(_),
    ;

    fn write_u32(&mut self, value: u32)
        ensures
            final(self)@ == old(self)@ + le32_bytes(value as int),
    ;

    fn write_i32(&mut self, value: i32)
        ensures
            final(self)@ == old(self)@ + le32_bytes(as_unsigned32(value as int)),
    ;

    fn write_u16(&mut self, value: u16)
        ensures
            final(self)@ == old(self)@ + le16_bytes(value as int),
    ;

    fn write_u8(&mut self, value: u8)
        ensures
            final(self)@ == old(self)@ + seq![value],
    ;

    fn write_bytes(&mut self, value: &Vec<u8>)
        ensures
            final(self)@ == old(self)@ + value@,
    ;

    fn slice(&self, offset: usize, length: usize) -> (r: Vec<u8>)
        requires
            offset + length <= self@.len(),
        ensures
            r@ == self@.subrange(offset as int, offset + length),
    ;
}

impl VecExt for Vec<u8> {
    /// Reads a four-byte little-endian unsigned integer and advances the
    /// cursor by four bytes.
    fn read_u32(&self, offset: &mut usize) -> (r: Result<u32, IcoError>) {
        let n = self.len();
        if n < 4 || *offset > n - 4 {
            return Err(
                IcoError::BufferOutOfBounds(
                    ("Reading past the end of the buffer.").to_owned(),
                ),
            );
        }
        let b0 = self[*offset];
        let b1 = self[*offset + 1];
        let b2 = self[*offset + 2];
        let b3 = self[*offset + 3];
        let v = (b0 as u32) + (b1 as u32) * 0x100 + (b2 as u32) * 0x10000 + (b3 as u32)
            * 0x1000000;
        *offset = *offset + 4;
        Ok(v)
    }

    /// Reads a four-byte little-endian signed integer and advances the
    /// cursor by four bytes.
    fn read_i32(&self, offset: &mut usize) -> (r: Result<i32, IcoError>) {
        let n = self.len();
        if n < 4 || *offset > n - 4 {
            return Err(
                IcoError::BufferOutOfBounds(
                    ("Reading past the end of the buffer.").to_owned(),
                ),
            );
        }
        let b0 = self[*offset];
        let b1 = self[*offset + 1];
        let b2 = self[*offset + 2];
        let b3 = self[*offset + 3];
        let low = (b0 as i32) + (b1 as i32) * 0x100 + (b2 as i32) * 0x10000;
        let v = if b3 < 128 {
            low + (b3 as i32) * 0x1000000
        } else {
            low + ((b3 as i32) - 256) * 0x1000000
        };
        *offset = *offset + 4;
        Ok(v)
    }

    /// Reads a two-byte little-endian unsigned integer and advances the
    /// cursor by two bytes.
    fn read_u16(&self, offset: &mut usize) -> (r: Result<u16, IcoError>) {
        let n = self.len();
        if n < 2 || *offset > n - 2 {
            return Err(
                IcoError::BufferOutOfBounds(
                    ("Reading past the end of the buffer.").to_owned(),
                ),
            );
        }
        let b0 = self[*offset];
        let b1 = self[*offset + 1];
        let v = (b0 as u16) + (b1 as u16) * 0x100;
        *offset = *offset + 2;
        Ok(v)
    }

    /// Reads the next byte and advances the cursor by one.
    fn read_u8(&self, offset: &mut usize) -> (r: Result<u8, IcoError>) {
        let n = self.len();
        if n < 1 || *offset > n - 1 {
            return Err(
                IcoError::BufferOutOfBounds(
                    ("Reading past the end of the buffer.").to_owned(),
                ),
            );
        }
        let v = self[*offset];
        *offset = *offset + 1;
        Ok(v)
    }

    /// Appends a four-byte little-endian unsigned integer.
    fn write_u32(&mut self, value: u32) {
        self.push((value % 0x100) as u8);
        self.push(((value / 0x100) % 0x100) as u8);
        self.push(((value / 0x10000) % 0x100) as u8);
        self.push(((value / 0x1000000) % 0x100) as u8);
        proof {
            assert(self@ =~= old(self)@ + le32_bytes(value as int));
        }
    }

    /// Appends a four-byte little-endian signed integer, two's complement.
    fn write_i32(&mut self, value: i32) {
        let u: u32 = if value >= 0 {
            value as u32
        } else {
            ((value as i64) + 0x100000000i64) as u32
        };
        self.write_u32(u);
        proof {
            assert(u as int == as_unsigned32(value as int));
        }
    }

    /// Appends a two-byte little-endian unsigned integer.
    fn write_u16(&mut self, value: u16) {
        self.push((value % 0x100) as u8);
        self.push(((value / 0x100) % 0x100) as u8);
        proof {
            assert(self@ =~= old(self)@ + le16_bytes(value as int));
        }
    }

    /// Appends one byte.
    fn write_u8(&mut self, value: u8) {
        self.push(value);
        proof {
            assert(self@ =~= old(self)@ + seq![value]);
        }
    }

    /// Appends a whole byte vector.
    fn write_bytes(&mut self, value: &Vec<u8>) {
        let mut i: usize = 0;
        while i < value.len()
            invariant
                i <= value@.len(),
                self@ == old(self)@ + value@.subrange(0, i as int),
            decreases value@.len() - i,
        {
            self.push(value[i]);
            i += 1;
            proof {
                assert(self@ =~= old(self)@ + value@.subrange(0, i as int));
            }
        }
        proof {
            assert(self@ =~= old(self)@ + value@);
        }
    }

    /// Copies `length` bytes starting at `offset` out of the vector.
    fn slice(&self, offset: usize, length: usize) -> (r: Vec<u8>) {
        let n = self.len();
        let mut r: Vec<u8> = Vec::new();
        let mut i: usize = 0;
        while i < length
            invariant
                n == self@.len(),
                offset + length <= self@.len(),
                i <= length,
                r@ == self@.subrange(offset as int, offset + i),
            decreases length - i,
        {
            r.push(self[offset + i]);
            i += 1;
            proof {
                assert(r@ =~= self@.subrange(offset as int, offset + i));
            }
        }
        r
    }
}

/// The RGB information of one palette entry.
pub struct IconColor {
    pub red: u8,
    pub green: u8,
    pub blue: u8,
}

/// A decoded icon image: its header and its RGBA pixels, four bytes per
/// pixel in row-major order from top to bottom.
pub struct IconImage {
    /// The bitmap header the image was decoded from.
    pub header: BitmapInfoHeader,
    /// The raw RGBA pixel data.
    pub data: Vec<u8>,
}

impl IconImage {
    /// A well-formed image: dimensions within the format's limits and four
    /// bytes of pixel data per pixel.
    pub open spec fn wf(self) -> bool {
        &&& MIN_WIDTH <= self.header.width <= MAX_WIDTH
        &&& MIN_HEIGHT <= self.header.height <= MAX_HEIGHT
        &&& self.data@.len() == 4 * self.header.width * self.header.height
    }

    /// The width of the underlying bitmap.
    pub fn get_width(&self) -> (r: u32)
        ensures
            r == self.header.width,
    {
        self.header.width
    }

    /// The height of the underlying bitmap.
    pub fn get_height(&self) -> (r: u32)
        ensures
            r == self.header.height,
    {
        self.header.height
    }

    /// Wraps pixel data under a header, accepting it exactly when the
    /// dimensions are within the format's limits and the buffer holds four
    /// bytes per pixel.
    pub fn from_pixel_data(header: BitmapInfoHeader, data: Vec<u8>) -> (r: Result<
        IconImage,
        IcoError,
    >)
        ensures
            (r is Ok) == (MIN_WIDTH <= header.width <= MAX_WIDTH && MIN_HEIGHT <= header.height
                <= MAX_HEIGHT && data@.len() == 4 * header.width * header.height),
            r matches Ok(img) ==> img.header == header && img.data@ == data@ && img.wf(),
            !(MIN_WIDTH <= header.width <= MAX_WIDTH && MIN_HEIGHT <= header.height <= MAX_HEIGHT)
                ==> (r matches Err(e) && e matches IcoError::InvalidDimensions(_)),
            MIN_WIDTH <= header.width <= MAX_WIDTH && MIN_HEIGHT <= header.height <= MAX_HEIGHT
                && data@.len() != 4 * header.width * header.height ==> (r matches Err(e)
                && e matches IcoError::InvalidLength(_)),
    {
        if header.width < MIN_WIDTH || header.width > MAX_WIDTH {
            return Err(IcoError::InvalidDimensions(("Invalid width").to_owned()));
        }
        if header.height < MIN_HEIGHT || header.height > MAX_HEIGHT {
            return Err(IcoError::InvalidDimensions(("Invalid height").to_owned()));
        }
        proof {
            assert(4 * header.width * header.height <= 262144) by (nonlinear_arith)
                requires
                    header.width <= 256,
                    header.height <= 256,
            ;
        }
        let expected_data_len = (4 * header.width * header.height) as usize;
        if data.len() != expected_data_len {
            return Err(IcoError::InvalidLength(("Invalid data length").to_owned()));
        }
        Ok(IconImage { header, data })
    }

    /// Decodes an uncompressed BMP held in an icon entry into RGBA pixels.
    /// On success the image is well-formed and carries exactly the header
    /// fields read from the first forty bytes; decoding is guaranteed to
    /// succeed whenever the buffer is well-formed and covers the padded
    /// pixel budget of its declared geometry.
    #[verifier::loop_isolation(false)]
    #[verifier::rlimit(100)]
    pub fn read_bmp(data: &Vec<u8>) -> (r: Result<IconImage, IcoError>)
        ensures
            spec_bmp_enough(data@) ==> r is Ok,
            r matches Err(e) ==> (e matches IcoError::BufferOutOfBounds(_) || e matches
                IcoError::InvalidBitmap(_) || e matches IcoError::InvalidDimensions(_)
                || e matches IcoError::UnknownColorDepth(_)),
            r matches Ok(img) ==> {
                &&& img.wf()
                &&& data@.len() >= 40
                &&& img.header.size == BITMAP_HEADER_SIZE
                &&& img.header.width == le32(data@, 4)
                &&& 2 * img.header.height == le32(data@, 8)
                &&& img.header.bits_per_pixel == le16(data@, 14)
            },
    {
        let mut cursor: usize = 0;
        let bitmap = BitmapInfoHeader::new(data, &mut cursor)?;
        let depth = bitmap.get_depth()?;
        let ghost gw = le32(data@, 4);
        let ghost gh = le32(data@, 8) / 2;
        let ghost gb = le16(data@, 14);
        let ghost gnc = spec_palette_colors(gb);
        let ghost budget = 40 + 4 * gnc + gh * (4 * gw + 3) + gh * (gw + 3);

        let ncolors = depth.num_colors();
        proof {
            assert(bitmap.width == gw && bitmap.height == gh && bitmap.bits_per_pixel == gb);
            assert(ncolors == gnc);
            if spec_bmp_enough(data@) {
                assert(data@.len() >= budget);
                assert(gh * (4 * gw + 3) >= 0 && gh * (gw + 3) >= 0 && (gh - 1) * (4 * gw + 3)
                    >= 0 && (gh - 1) * (gw + 3) >= 0) by (nonlinear_arith)
                    requires
                        16 <= gw <= 256,
                        16 <= gh <= 256,
                ;
                assert((gh - 1) * (4 * gw + 3) + (4 * gw + 3) == gh * (4 * gw + 3))
                    by (nonlinear_arith);
                assert((gh - 1) * (gw + 3) + (gw + 3) == gh * (gw + 3)) by (nonlinear_arith);
            }
        }
        let mut colors: Vec<IconColor> = Vec::new();
        let mut k: usize = 0;
        while k < ncolors
            invariant
                k <= ncolors,
                colors@.len() == k,
                cursor == 40 + 4 * k,
            decreases ncolors - k,
        {
            let blue = data.read_u8(&mut cursor)?;
            let green = data.read_u8(&mut cursor)?;
            let red = data.read_u8(&mut cursor)?;
            let _reserved = data.read_u8(&mut cursor)?;
            colors.push(IconColor { red, green, blue });
            k += 1;
        }

        let width = bitmap.width;
        let height = bitmap.height;
        proof {
            assert(4 * width * height <= 262144) by (nonlinear_arith)
                requires
                    width <= 256,
                    height <= 256,
            ;
        }
        let num_pixels = (4 * width * height) as usize;
        let mut rgba: Vec<u8> = vec![255u8; num_pixels];
        let bpp = bitmap.bits_per_pixel as u32;
        proof {
            assert(bpp <= 32);
            assert(width * bpp <= 8192) by (nonlinear_arith)
                requires
                    width <= 256,
                    bpp <= 32,
            ;
        }
        let row_data_size = (width * bpp + 7) / 8;
        let row_padding_size = ((row_data_size + 3) / 4) * 4 - row_data_size;
        proof {
            assert(row_padding_size <= 3) by (nonlinear_arith)
                requires
                    row_padding_size == ((row_data_size + 3) / 4) * 4 - row_data_size,
                    ((row_data_size + 3) / 4) * 4 >= row_data_size,
            ;
        }

        let mut row: u32 = 0;
        while row < height
            invariant
                16 <= width <= 256,
                16 <= height <= 256,
                row <= height,
                num_pixels == 4 * width * height,
                rgba@.len() == num_pixels,
                colors@.len() == ncolors,
                ncolors == (if depth == ColorDepth::One {
                    2int
                } else if depth == ColorDepth::Four {
                    16int
                } else if depth == ColorDepth::Eight {
                    256int
                } else {
                    0int
                }),
                cursor <= 40 + 4 * gnc + row * (4 * gw + 3),
            decreases height - row,
        {
            proof {
                assert(4 * (height - row - 1) * width <= 261120) by (nonlinear_arith)
                    requires
                        row < height <= 256,
                        width <= 256,
                ;
            }
            let mut start: usize = (4 * (height - row - 1) * width) as usize;
            let ghost rs = cursor as int;
            proof {
                assert(row * (4 * gw + 3) <= (gh - 1) * (4 * gw + 3)) by (nonlinear_arith)
                    requires
                        row as int <= gh - 1,
                        4 * gw + 3 >= 0,
                ;
            }
            let mut col: u32 = 0;
            let mut byte: u8 = 0;
            let mut word: u16 = 0;
            while col < width
                invariant
                    16 <= width <= 256,
                    16 <= height <= 256,
                    row < height,
                    col <= width,
                    num_pixels == 4 * width * height,
                    rgba@.len() == num_pixels,
                    colors@.len() == ncolors,
                    ncolors == (if depth == ColorDepth::One {
                        2int
                    } else if depth == ColorDepth::Four {
                        16int
                    } else if depth == ColorDepth::Eight {
                        256int
                    } else {
                        0int
                    }),
                    start == 4 * (height - row - 1) * width + 4 * col,
                    cursor <= rs + 4 * col,
                decreases width - col,
            {
                proof {
                    assert(start + 4 <= num_pixels) by (nonlinear_arith)
                        requires
                            start == 4 * (height - row - 1) * width + 4 * col,
                            num_pixels == 4 * width * height,
                            0 <= col < width,
                            0 <= row < height,
                    ;
                }
                match depth {
                    ColorDepth::One => {
                        if col % 8 == 0 {
                            byte = data.read_u8(&mut cursor)?;
                        }
                        let bit = (col % 8) as u8;
                        proof {
                            assert(bit <= 7 ==> ((byte >> ((7 - bit) as u8)) & 0x1) < 2)
                                by (bit_vector);
                        }
                        let index = (byte >> (7 - bit)) & 0x1;
                        let color = &colors[index as usize];
                        put_rgb(&mut rgba, start, color.red, color.green, color.blue);
                    },
                    ColorDepth::Four => {
                        if col % 2 == 0 {
                            byte = data.read_u8(&mut cursor)?;
                        }
                        let nibble = (col % 2) as u8;
                        proof {
                            assert(nibble <= 1 ==> ((byte >> ((4 * (1 - nibble)) as u8)) & 0xf)
                                < 16) by (bit_vector);
                        }
                        let index = (byte >> (4 * (1 - nibble))) & 0xf;
                        let color = &colors[index as usize];
                        put_rgb(&mut rgba, start, color.red, color.green, color.blue);
                    },
                    ColorDepth::Eight => {
                        let index = data.read_u8(&mut cursor)?;
                        let color = &colors[index as usize];
                        put_rgb(&mut rgba, start, color.red, color.green, color.blue);
                    },
                    ColorDepth::Sixteen => {
                        word = data.read_u16(&mut cursor)?;
                        let red = (word >> 10) & 0x1f;
                        let green = (word >> 5) & 0x1f;
                        let blue = word & 0x1f;
                        proof {
                            assert((word >> 10) & 0x1f < 32 && (word >> 5) & 0x1f < 32 && word
                                & 0x1f < 32) by (bit_vector);
                        }
                        put_rgb(
                            &mut rgba,
                            start,
                            ((red * 255 + 15) / 31) as u8,
                            ((green * 255 + 15) / 31) as u8,
                            ((blue * 255 + 15) / 31) as u8,
                        );
                    },
                    ColorDepth::TwentyFour => {
                        let blue = data.read_u8(&mut cursor)?;
                        let green = data.read_u8(&mut cursor)?;
                        let red = data.read_u8(&mut cursor)?;
                        put_rgb(&mut rgba, start, red, green, blue);
                    },
                    ColorDepth::ThirtyTwo => {
                        let blue = data.read_u8(&mut cursor)?;
                        let green = data.read_u8(&mut cursor)?;
                        let red = data.read_u8(&mut cursor)?;
                        let alpha = data.read_u8(&mut cursor)?;
                        put_rgb(&mut rgba, start, red, green, blue);
                        rgba.set(start + 3, alpha);
                    },
                }
                col += 1;
                start += 4;
            }
            if row_padding_size > 0 {
                cursor = add_clamped(cursor, row_padding_size as usize);
            }
            proof {
                assert((row + 1) * (4 * gw + 3) == row * (4 * gw + 3) + (4 * gw + 3))
                    by (nonlinear_arith);
            }
            row += 1;
        }

        if !matches!(depth, ColorDepth::ThirtyTwo) {
            let row_mask_size = (width + 7) / 8;
            let mask_padding_size = ((row_mask_size + 3) / 4) * 4 - row_mask_size;
            proof {
                assert(mask_padding_size <= 3) by (nonlinear_arith)
                    requires
                        mask_padding_size == ((row_mask_size + 3) / 4) * 4 - row_mask_size,
                        ((row_mask_size + 3) / 4) * 4 >= row_mask_size,
                ;
            }
            let mut row: u32 = 0;
            while row < height
                invariant
                    16 <= width <= 256,
                    16 <= height <= 256,
                    row <= height,
                    num_pixels == 4 * width * height,
                    rgba@.len() == num_pixels,
                    cursor <= 40 + 4 * gnc + gh * (4 * gw + 3) + row * (gw + 3),
                decreases height - row,
            {
                proof {
                    assert(4 * (height - row - 1) * width <= 261120) by (nonlinear_arith)
                        requires
                            row < height <= 256,
                            width <= 256,
                    ;
                }
                let mut start: usize = (4 * (height - row - 1) * width) as usize;
                let ghost ms = cursor as int;
                proof {
                    assert(row * (gw + 3) <= (gh - 1) * (gw + 3)) by (nonlinear_arith)
                        requires
                            row as int <= gh - 1,
                            gw + 3 >= 0,
                    ;
                }
                let mut col: u32 = 0;
                let mut byte: u8 = 0;
                while col < width
                    invariant
                        16 <= width <= 256,
                        16 <= height <= 256,
                        row < height,
                        col <= width,
                        num_pixels == 4 * width * height,
                        rgba@.len() == num_pixels,
                        start == 4 * (height - row - 1) * width + 4 * col,
                        cursor <= ms + col,
                    decreases width - col,
                {
                    proof {
                        assert(start + 4 <= num_pixels) by (nonlinear_arith)
                            requires
                                start == 4 * (height - row - 1) * width + 4 * col,
                                num_pixels == 4 * width * height,
                                0 <= col < width,
                                0 <= row < height,
                        ;
                    }
                    if col % 8 == 0 {
                        byte = data.read_u8(&mut cursor)?;
                    }
                    let bit = (col % 8) as u8;
                    proof {
                        assert(bit <= 7 ==> ((byte >> ((7 - bit) as u8)) & 0x1) < 2)
                            by (bit_vector);
                    }
                    if ((byte >> (7 - bit)) & 0x1) == 1 {
                        rgba.set(start + 3, 0);
                    }
                    col += 1;
                    start += 4;
                }
                if mask_padding_size > 0 {
                    cursor = add_clamped(cursor, mask_padding_size as usize);
                }
                proof {
                    assert((row + 1) * (gw + 3) == row * (gw + 3) + (gw + 3)) by (nonlinear_arith);
                }
                row += 1;
            }
        }
        IconImage::from_pixel_data(bitmap, rgba)
    }
}

/// Writes one pixel's color channels, leaving the buffer's length alone.
fn put_rgb(rgba: &mut Vec<u8>, start: usize, red: u8, green: u8, blue: u8)
    requires
        start + 4 <= old(rgba)@.len(),
    ensures
        final(rgba)@.len() == old(rgba)@.len(),
{
    let n = rgba.len();
    rgba.set(start, red);
    rgba.set(start + 1, green);
    rgba.set(start + 2, blue);
}

/// A sum that sticks to the top of `usize` instead of wrapping; used to
/// skip row padding without risking overflow on hostile headers.
fn add_clamped(a: usize, b: usize) -> (r: usize)
    ensures
        r == (if a + b <= usize::MAX {
            a + b
        } else {
            usize::MAX as int
        }),
{
    if a <= usize::MAX - b {
        a + b
    } else {
        usize::MAX
    }
}

/// The resource type an icon file declares.
#[derive(Debug, PartialEq, Eq, Structural, Copy, Clone)]
pub enum ResourceType {
    /// Plain images (ICO files).
    Icon,
    /// Images with cursor hotspots (CUR files).
    Cursor,
}

impl ResourceType {
    /// The resource type for the format's type number.
    pub fn from_number(number: u16) -> (r: Result<ResourceType, IcoError>)
        ensures
            number == 1 ==> r == Ok::<ResourceType, IcoError>(ResourceType::Icon),
            number == 2 ==> r == Ok::<ResourceType, IcoError>(ResourceType::Cursor),
            number != 1 && number != 2 ==> (r matches Err(e) && e matches
                IcoError::InvalidResourceType(_)),
    {
        match number {
            1 => Ok(ResourceType::Icon),
            2 => Ok(ResourceType::Cursor),
            _ => Err(
                IcoError::InvalidResourceType(
                    ("Could not locate a valid ICO resource type.").to_owned(),
                ),
            ),
        }
    }

    /// The format's type number of this resource type.
    pub fn number(&self) -> (r: u16)
        ensures
            *self == ResourceType::Icon ==> r == 1,
            *self == ResourceType::Cursor ==> r == 2,
    {
        match *self {
            ResourceType::Icon => 1,
            ResourceType::Cursor => 2,
        }
    }
}

/// The color depths the decoder understands.
#[derive(PartialEq, Eq, Structural, Copy, Clone)]
enum ColorDepth {
    One,
    Four,
    Eight,
    Sixteen,
    TwentyFour,
    ThirtyTwo,
}

impl ColorDepth {
    /// How many palette entries precede the pixel data at this depth.
    fn num_colors(&self) -> (r: usize)
        ensures
            *self == ColorDepth::One ==> r == 2,
            *self == ColorDepth::Four ==> r == 16,
            *self == ColorDepth::Eight ==> r == 256,
            (*self == ColorDepth::Sixteen || *self == ColorDepth::TwentyFour || *self
                == ColorDepth::ThirtyTwo) ==> r == 0,
    {
        match *self {
            ColorDepth::One => 2,
            ColorDepth::Four => 16,
            ColorDepth::Eight => 256,
            _ => 0,
        }
    }

    /// How many bits one pixel takes at this depth.
    spec fn bits(self) -> int {
        match self {
            ColorDepth::One => 1,
            ColorDepth::Four => 4,
            ColorDepth::Eight => 8,
            ColorDepth::Sixteen => 16,
            ColorDepth::TwentyFour => 24,
            ColorDepth::ThirtyTwo => 32,
        }
    }
}

/// The DIB header of one icon image.
pub struct BitmapInfoHeader {
    /// The number of bytes the structure itself takes on disk.
    pub size: u32,
    /// The width of the bitmap, in pixels.
    pub width: u32,
    /// The height of the bitmap, in pixels (already halved: the stored
    /// height counts the color rows and the mask rows together).
    pub height: u32,
    /// The number of planes for the target device.
    pub planes: u16,
    /// The number of bits per pixel.
    pub bits_per_pixel: u16,
    /// The compression code, a FOURCC for compressed formats.
    pub compression: u32,
    /// The size of the image in bytes; zero is allowed for uncompressed
    /// bitmaps.
    pub image_size: i32,
    /// Horizontal resolution, pixels per meter.
    pub x_pixels: u32,
    /// Vertical resolution, pixels per meter.
    pub y_pixels: u32,
    /// How many color indices of the palette are used.
    pub colors_used: u32,
    /// How many color indices matter for display.
    pub colors_important: u32,
}

impl BitmapInfoHeader {
    /// The color depth the header declares.
    fn get_depth(&self) -> (r: Result<ColorDepth, IcoError>)
        ensures
            (r is Ok) == (self.bits_per_pixel == 1 || self.bits_per_pixel == 4
                || self.bits_per_pixel == 8 || self.bits_per_pixel == 16 || self.bits_per_pixel
                == 24 || self.bits_per_pixel == 32),
            r matches Ok(d) ==> d.bits() == self.bits_per_pixel as int,
            r matches Err(e) ==> e matches IcoError::UnknownColorDepth(_),
    {
        match self.bits_per_pixel {
            1 => Ok(ColorDepth::One),
            4 => Ok(ColorDepth::Four),
            8 => Ok(ColorDepth::Eight),
            16 => Ok(ColorDepth::Sixteen),
            24 => Ok(ColorDepth::TwentyFour),
            32 => Ok(ColorDepth::ThirtyTwo),
            _ => Err(IcoError::UnknownColorDepth(("unknown color depth").to_owned())),
        }
    }

    /// Reads the header from the entry's bytes: forty bytes of fixed-layout
    /// little-endian fields, with the dimensions checked against the
    /// format's limits and the stored height halved into the color height.
    pub fn new(data: &Vec<u8>, cursor: &mut usize) -> (r: Result<BitmapInfoHeader, IcoError>)
        ensures
            (r is Ok) == ({
                &&& *old(cursor) + 40 <= data@.len()
                &&& le32(data@, *old(cursor) as int) == BITMAP_HEADER_SIZE
                &&& MIN_WIDTH <= le32(data@, *old(cursor) as int + 4) <= MAX_WIDTH
                &&& le32(data@, *old(cursor) as int + 8) % 2 == 0
                &&& MIN_HEIGHT <= le32(data@, *old(cursor) as int + 8) / 2 <= MAX_HEIGHT
            }),
            *old(cursor) + 40 <= data@.len() ==> (r matches Err(e) ==> (if le32(
                data@,
                *old(cursor) as int,
            ) != BITMAP_HEADER_SIZE {
                e matches IcoError::InvalidBitmap(_)
            } else {
                e matches IcoError::InvalidDimensions(_)
            })),
            r matches Err(e) ==> (e matches IcoError::BufferOutOfBounds(_) || e matches
                IcoError::InvalidBitmap(_) || e matches IcoError::InvalidDimensions(_)),
            r matches Ok(h) ==> {
                &&& *final(cursor) == *old(cursor) + 40
                &&& *old(cursor) + 40 <= data@.len()
                &&& h.size == BITMAP_HEADER_SIZE
                &&& h.width == le32(data@, *old(cursor) as int + 4)
                &&& MIN_WIDTH <= h.width <= MAX_WIDTH
                &&& le32(data@, *old(cursor) as int + 8) == 2 * h.height
                &&& MIN_HEIGHT <= h.height <= MAX_HEIGHT
                &&& h.planes == le16(data@, *old(cursor) as int + 12)
                &&& h.bits_per_pixel == le16(data@, *old(cursor) as int + 14)
                &&& h.compression == le32(data@, *old(cursor) as int + 16)
                &&& h.image_size == as_signed32(le32(data@, *old(cursor) as int + 20))
                &&& h.x_pixels == le32(data@, *old(cursor) as int + 24)
                &&& h.y_pixels == le32(data@, *old(cursor) as int + 28)
                &&& h.colors_used == le32(data@, *old(cursor) as int + 32)
                &&& h.colors_important == le32(data@, *old(cursor) as int + 36)
            },
    {
        let size = data.read_u32(cursor)?;
        if size != BITMAP_HEADER_SIZE {
            return Err(
                IcoError::InvalidBitmap(("bitmap header size is incorrect").to_owned()),
            );
        }
        let width = data.read_u32(cursor)?;
        if width < MIN_WIDTH || width > MAX_WIDTH {
            return Err(IcoError::InvalidDimensions(("Invalid BMP width").to_owned()));
        }
        let stored_height = data.read_u32(cursor)?;
        if stored_height % 2 != 0 {
            // The stored height doubles the real one, counting the color
            // rows and the alpha-mask rows; it must divide by two.
            return Err(
                IcoError::InvalidDimensions(("Invalid height field in BMP header").to_owned()),
            );
        }
        let height = stored_height / 2;
        if height < MIN_HEIGHT || height > MAX_HEIGHT {
            return Err(IcoError::InvalidDimensions(("Invalid BMP height").to_owned()));
        }
        let planes = data.read_u16(cursor)?;
        let bits_per_pixel = data.read_u16(cursor)?;
        let compression = data.read_u32(cursor)?;
        let image_size = data.read_i32(cursor)?;
        let x_pixels = data.read_u32(cursor)?;
        let y_pixels = data.read_u32(cursor)?;
        let colors_used = data.read_u32(cursor)?;
        let colors_important = data.read_u32(cursor)?;
        Ok(
            BitmapInfoHeader {
                size,
                width,
                height,
                planes,
                bits_per_pixel,
                compression,
                image_size,
                x_pixels,
                y_pixels,
                colors_used,
                colors_important,
            },
        )
    }
}

/// The palette entries that precede the pixels at a given bit depth.
pub open spec fn spec_palette_colors(bpp: int) -> int {
    if bpp == 1 {
        2
    } else if bpp == 4 {
        16
    } else if bpp == 8 {
        256
    } else {
        0
    }
}

/// A bitmap the decoder is sure to accept: a well-formed forty-byte header,
/// a known bit depth, and a buffer that covers the header, the palette and
/// a generous budget of four bytes per pixel plus padding for every color
/// row, and one byte per pixel plus padding for every mask row.  Low depths
/// need fewer bytes than this budget, so the condition is sufficient, not
/// necessary.
pub open spec fn spec_bmp_enough(data: Seq<u8>) -> bool {
    let w = le32(data, 4);
    let h = le32(data, 8) / 2;
    let bpp = le16(data, 14);
    &&& data.len() >= 40
    &&& le32(data, 0) == BITMAP_HEADER_SIZE
    &&& MIN_WIDTH <= w <= MAX_WIDTH
    &&& le32(data, 8) % 2 == 0
    &&& MIN_HEIGHT <= h <= MAX_HEIGHT
    &&& (bpp == 1 || bpp == 4 || bpp == 8 || bpp == 16 || bpp == 24 || bpp == 32)
    &&& data.len() >= 40 + 4 * spec_palette_colors(bpp) + h * (4 * w + 3) + h * (w + 3)
}

/// Whether a blob is a PNG stream: it opens with the PNG signature.
pub open spec fn spec_is_png(d: Seq<u8>) -> bool {
    d.len() >= 4 && d[0] == 0x89 && d[1] == 0x50 && d[2] == 0x4e && d[3] == 0x47
}

/// One entry of an icon directory: its declared geometry and its raw data.
pub struct IconDirEntry {
    /// The declared width of the icon.
    pub width: u8,
    /// The declared height of the icon.
    pub height: u8,
    /// The number of palette colors; zero at eight or more bits per pixel.
    pub colors: u8,
    /// The color planes field.
    pub color_planes: u16,
    /// The bits per pixel.
    pub bits_per_pixel: u16,
    /// The entry's image bytes, BMP or PNG encoded.
    pub data: Vec<u8>,
}

impl IconDirEntry {
    /// Whether the entry is encoded as a PNG.
    pub fn is_png(&self) -> (r: bool)
        ensures
            r == spec_is_png(self.data@),
    {
        self.data.len() >= 4 && self.data[0] == 0x89 && self.data[1] == 0x50 && self.data[2]
            == 0x4e && self.data[3] == 0x47
    }

    /// Decodes the entry into raw RGBA pixels.  PNG entries are not
    /// supported; a BMP entry that the decoder accepts is returned exactly
    /// when its decoded dimensions match the ones the directory declares
    /// for it, and refused as a dimension mismatch otherwise.
    pub fn decode(&self) -> (r: Result<IconImage, IcoError>)
        ensures
            r matches Ok(img) ==> {
                &&& !spec_is_png(self.data@)
                &&& img.wf()
                &&& img.header.width == self.width as int
                &&& img.header.height == self.height as int
            },
            spec_is_png(self.data@) ==> (r matches Err(e) && e matches
                IcoError::UnsupportedFileType(_)),
            !spec_is_png(self.data@) && spec_bmp_enough(self.data@) && le32(self.data@, 4)
                == self.width as int && le32(self.data@, 8) / 2 == self.height as int ==> r is Ok,
            !spec_is_png(self.data@) && spec_bmp_enough(self.data@) && !(le32(self.data@, 4)
                == self.width as int && le32(self.data@, 8) / 2 == self.height as int) ==> (
            r matches Err(e) && e matches IcoError::InvalidDimensions(_)),
            !spec_is_png(self.data@) ==> (r matches Err(e) ==> (e matches
                IcoError::InvalidDimensions(_) || e matches IcoError::BufferOutOfBounds(_)
                || e matches IcoError::InvalidBitmap(_) || e matches
                IcoError::UnknownColorDepth(_))),
    {
        if self.is_png() {
            return Err(
                IcoError::UnsupportedFileType(
                    ("PNG based ICO files are not currently supported.").to_owned(),
                ),
            );
        }
        let image = IconImage::read_bmp(&self.data)?;
        if image.get_width() != self.width as u32 || image.get_height() != self.height as u32 {
            return Err(
                IcoError::InvalidDimensions(("Encoded image has wrong dimensions").to_owned()),
            );
        }
        Ok(image)
    }
}

/// The sixteen-byte directory record of one entry, given the offset where
/// its data will stand.
pub open spec fn spec_entry_record(e: IconDirEntry, offset: int) -> Seq<u8> {
    seq![e.width, e.height, e.colors, RESERVED] + le16_bytes(e.color_planes as int) + le16_bytes(
        e.bits_per_pixel as int,
    ) + le32_bytes(e.data@.len() as int) + le32_bytes(offset)
}

/// The directory table of a list of entries whose first blob stands at
/// `offset`, each later blob following the one before.
pub open spec fn spec_table(entries: Seq<IconDirEntry>, offset: int) -> Seq<u8>
    decreases entries.len(),
{
    if entries.len() == 0 {
        Seq::empty()
    } else {
        spec_entry_record(entries[0], offset) + spec_table(
            entries.drop_first(),
            offset + entries[0].data@.len(),
        )
    }
}

/// All entry blobs, one after the other.
pub open spec fn spec_blobs(entries: Seq<IconDirEntry>) -> Seq<u8>
    decreases entries.len(),
{
    if entries.len() == 0 {
        Seq::empty()
    } else {
        entries[0].data@ + spec_blobs(entries.drop_first())
    }
}

/// The total length of the blobs of a list of entries.
pub open spec fn spec_blob_len(entries: Seq<IconDirEntry>) -> int
    decreases entries.len(),
{
    if entries.len() == 0 {
        0
    } else {
        entries[0].data@.len() + spec_blob_len(entries.drop_first())
    }
}

/// Blob lengths never go negative.
proof fn lemma_blob_len_nonneg(entries: Seq<IconDirEntry>)
    ensures
        spec_blob_len(entries) >= 0,
    decreases entries.len(),
{
    if entries.len() > 0 {
        lemma_blob_len_nonneg(entries.drop_first());
    }
}

/// The blob length of a concatenation is the sum of the parts.
proof fn lemma_blob_len_split(a: Seq<IconDirEntry>, b: Seq<IconDirEntry>)
    ensures
        spec_blob_len(a + b) == spec_blob_len(a) + spec_blob_len(b),
    decreases a.len(),
{
    if a.len() == 0 {
        assert(a + b =~= b);
    } else {
        assert((a + b)[0] == a[0]);
        assert((a + b).drop_first() =~= a.drop_first() + b);
        lemma_blob_len_split(a.drop_first(), b);
    }
}

/// One record is sixteen bytes.
proof fn lemma_record_len(e: IconDirEntry, offset: int)
    ensures
        spec_entry_record(e, offset).len() == 16,
{
}

/// The table holds sixteen bytes per entry.
proof fn lemma_table_len(entries: Seq<IconDirEntry>, offset: int)
    ensures
        spec_table(entries, offset).len() == 16 * entries.len(),
    decreases entries.len(),
{
    if entries.len() > 0 {
        lemma_table_len(entries.drop_first(), offset + entries[0].data@.len());
    }
}

/// The blobs hold exactly the blob length.
proof fn lemma_blobs_len(entries: Seq<IconDirEntry>)
    ensures
        spec_blobs(entries).len() == spec_blob_len(entries),
    decreases entries.len(),
{
    if entries.len() > 0 {
        lemma_blobs_len(entries.drop_first());
    }
}

/// Entry `i`'s slice of the table is its record, placed after all earlier
/// blobs.
proof fn lemma_table_slice(entries: Seq<IconDirEntry>, offset: int, i: int)
    requires
        0 <= i < entries.len(),
    ensures
        spec_table(entries, offset).subrange(16 * i, 16 * i + 16) == spec_entry_record(
            entries[i],
            offset + spec_blob_len(entries.subrange(0, i)),
        ),
    decreases i,
{
    lemma_table_len(entries, offset);
    lemma_record_len(entries[0], offset);
    lemma_table_len(entries.drop_first(), offset + entries[0].data@.len());
    if i == 0 {
        assert(spec_blob_len(entries.subrange(0, 0)) == 0);
        assert(spec_table(entries, offset).subrange(0, 16) =~= spec_entry_record(
            entries[0],
            offset,
        ));
    } else {
        lemma_table_slice(entries.drop_first(), offset + entries[0].data@.len(), i - 1);
        assert(entries.drop_first()[i - 1] == entries[i]);
        assert(entries.subrange(0, i).drop_first() =~= entries.drop_first().subrange(0, i - 1));
        assert(spec_blob_len(entries.subrange(0, i)) == entries[0].data@.len() + spec_blob_len(
            entries.drop_first().subrange(0, i - 1),
        )) by {
            assert(entries.subrange(0, i)[0] == entries[0]);
        }
        assert(spec_table(entries, offset).subrange(16 * i, 16 * i + 16) =~= spec_table(
            entries.drop_first(),
            offset + entries[0].data@.len(),
        ).subrange(16 * (i - 1), 16 * (i - 1) + 16));
    }
}

/// Entry `i`'s slice of the blobs is its data, placed after all earlier
/// blobs.
proof fn lemma_blobs_slice(entries: Seq<IconDirEntry>, i: int)
    requires
        0 <= i < entries.len(),
    ensures
        spec_blobs(entries).subrange(
            spec_blob_len(entries.subrange(0, i)),
            spec_blob_len(entries.subrange(0, i)) + entries[i].data@.len(),
        ) == entries[i].data@,
    decreases i,
{
    lemma_blobs_len(entries);
    lemma_blobs_len(entries.drop_first());
    lemma_blob_len_nonneg(entries.subrange(0, i));
    if i == 0 {
        assert(spec_blob_len(entries.subrange(0, 0)) == 0);
        assert(spec_blobs(entries).subrange(0, entries[0].data@.len() as int) =~= entries[0].data@);
    } else {
        lemma_blobs_slice(entries.drop_first(), i - 1);
        assert(entries.drop_first()[i - 1] == entries[i]);
        assert(entries.subrange(0, i).drop_first() =~= entries.drop_first().subrange(0, i - 1));
        assert(spec_blob_len(entries.subrange(0, i)) == entries[0].data@.len() + spec_blob_len(
            entries.drop_first().subrange(0, i - 1),
        )) by {
            assert(entries.subrange(0, i)[0] == entries[0]);
        }
        lemma_blob_len_nonneg(entries.drop_first().subrange(0, i - 1));
        assert(spec_blobs(entries) == entries[0].data@ + spec_blobs(entries.drop_first()));
        assert(entries.subrange(0, i).push(entries[i]) =~= entries.subrange(0, i + 1));
        lemma_blobs_push(entries.subrange(0, i), entries[i]);
        assert(entries.subrange(0, i + 1) + entries.subrange(i + 1, entries.len() as int)
            =~= entries);
        lemma_blob_len_split(
            entries.subrange(0, i + 1),
            entries.subrange(i + 1, entries.len() as int),
        );
        lemma_blob_len_nonneg(entries.subrange(i + 1, entries.len() as int));
        assert(spec_blobs(entries).subrange(
            spec_blob_len(entries.subrange(0, i)),
            spec_blob_len(entries.subrange(0, i)) + entries[i].data@.len(),
        ) =~= spec_blobs(entries.drop_first()).subrange(
            spec_blob_len(entries.drop_first().subrange(0, i - 1)),
            spec_blob_len(entries.drop_first().subrange(0, i - 1))
                + entries.drop_first()[i - 1].data@.len(),
        ));
    }
}

/// A whole icon file: the six-byte header, the table of records, then the
/// blobs, the first at offset `6 + 16 * count`.
pub open spec fn spec_encode_dir(d: IconDir) -> Seq<u8> {
    le16_bytes(RESERVED as int) + le16_bytes(
        if d.resource_type == ResourceType::Icon {
            1int
        } else {
            2int
        },
    ) + le16_bytes(d.entries@.len() as int) + spec_table(d.entries@, 6 + 16 * d.entries@.len() as int)
        + spec_blobs(d.entries@)
}

/// Appending an entry extends the table by that entry's record, placed
/// after all earlier blobs.
proof fn lemma_table_push(entries: Seq<IconDirEntry>, e: IconDirEntry, offset: int)
    ensures
        spec_table(entries.push(e), offset) == spec_table(entries, offset) + spec_entry_record(
            e,
            offset + spec_blob_len(entries),
        ),
    decreases entries.len(),
{
    let p = entries.push(e);
    if entries.len() == 0 {
        assert(p.drop_first() =~= Seq::<IconDirEntry>::empty());
        assert(p[0] == e);
        assert(spec_table(p.drop_first(), offset + p[0].data@.len()) =~= Seq::<u8>::empty());
        assert(spec_blob_len(entries) == 0);
        assert(spec_table(p, offset) =~= spec_table(entries, offset) + spec_entry_record(
            e,
            offset + spec_blob_len(entries),
        ));
    } else {
        assert(p[0] == entries[0]);
        assert(p.drop_first() =~= entries.drop_first().push(e));
        lemma_table_push(entries.drop_first(), e, offset + entries[0].data@.len());
        assert(spec_table(p, offset) == spec_entry_record(p[0], offset) + spec_table(
            p.drop_first(),
            offset + p[0].data@.len(),
        ));
        assert(spec_blob_len(entries) == entries[0].data@.len() + spec_blob_len(
            entries.drop_first(),
        ));
        assert(spec_table(p, offset) =~= spec_table(entries, offset) + spec_entry_record(
            e,
            offset + spec_blob_len(entries),
        ));
    }
}

/// Appending an entry extends the blobs by that entry's data.
proof fn lemma_blobs_push(entries: Seq<IconDirEntry>, e: IconDirEntry)
    ensures
        spec_blobs(entries.push(e)) == spec_blobs(entries) + e.data@,
        spec_blob_len(entries.push(e)) == spec_blob_len(entries) + e.data@.len(),
    decreases entries.len(),
{
    let p = entries.push(e);
    if entries.len() == 0 {
        assert(p.drop_first() =~= Seq::<IconDirEntry>::empty());
        assert(p[0] == e);
        assert(spec_blobs(p.drop_first()) =~= Seq::<u8>::empty());
        assert(spec_blob_len(p) == p[0].data@.len() + spec_blob_len(p.drop_first()));
        assert(spec_blob_len(p.drop_first()) == 0);
        assert(spec_blobs(p) =~= spec_blobs(entries) + e.data@);
    } else {
        assert(p[0] == entries[0]);
        assert(p.drop_first() =~= entries.drop_first().push(e));
        lemma_blobs_push(entries.drop_first(), e);
        assert(spec_blobs(p) == p[0].data@ + spec_blobs(p.drop_first()));
        assert(spec_blob_len(p) == p[0].data@.len() + spec_blob_len(p.drop_first()));
        assert(spec_blobs(p) =~= spec_blobs(entries) + e.data@);
    }
}

/// A collection of images stored inside one ICO file.
pub struct IconDir {
    /// The resource type the file declares.
    pub resource_type: ResourceType,
    /// The images, in file order.
    pub entries: Vec<IconDirEntry>,
}

/// Entry `i`'s record lies inside the file, keeps its reserved byte zero,
/// and names a data slice that lies inside the file.
pub open spec fn spec_entry_ok(data: Seq<u8>, i: int) -> bool {
    let base = 6 + 16 * i;
    &&& base + 16 <= data.len()
    &&& data[base + 3] == RESERVED
    &&& le32(data, base + 8) + le32(data, base + 12) <= data.len()
}

/// The six-byte header of a parsable icon file: a zero reserved field and
/// the icon resource type.
pub open spec fn spec_ico_header_ok(data: Seq<u8>) -> bool {
    &&& data.len() >= 6
    &&& le16(data, 0) == RESERVED
    &&& le16(data, 2) == 1
}

/// Every entry before `i` is well-formed.
pub open spec fn spec_entries_ok_before(data: Seq<u8>, i: int) -> bool {
    forall|j: int| 0 <= j < i ==> #[trigger] spec_entry_ok(data, j)
}

/// When parsing an icon file succeeds: the header is well-formed and so is
/// every entry the header announces.
pub open spec fn spec_ico_parse_ok(data: Seq<u8>) -> bool {
    &&& spec_ico_header_ok(data)
    &&& forall|i: int| 0 <= i < le16(data, 4) ==> #[trigger] spec_entry_ok(data, i)
}

/// The record of entry `i` as parsed out of an icon file: each field read
/// from its place in the sixteen-byte record, and the data cut from the
/// offset and size the record names.
pub open spec fn spec_entry_parsed(data: Seq<u8>, i: int, e: IconDirEntry) -> bool {
    let base = 6 + 16 * i;
    &&& base + 16 <= data.len()
    &&& e.width == data[base]
    &&& e.height == data[base + 1]
    &&& e.colors == data[base + 2]
    &&& data[base + 3] == RESERVED
    &&& e.color_planes == le16(data, base + 4)
    &&& e.bits_per_pixel == le16(data, base + 6)
    &&& le32(data, base + 8) + le32(data, base + 12) <= data.len()
    &&& e.data@ == data.subrange(le32(data, base + 12), le32(data, base + 12) + le32(
        data,
        base + 8,
    ))
}

/// Where entry `i`'s record stands in the encoded bytes: the sixteen
/// bytes at its slot are its record, placed after all earlier blobs.
#[verifier::rlimit(100)]
#[verifier::spinoff_prover]
proof fn lemma_encode_record_bytes(d: IconDir, i: int)
    requires
        d.resource_type == ResourceType::Icon,
        0 <= i < d.entries@.len(),
    ensures
        spec_encode_dir(d).len() == 6 + 16 * d.entries@.len() + spec_blob_len(d.entries@),
        forall|j: int|
            0 <= j < 16 ==> spec_encode_dir(d)[6 + 16 * i + j] == #[trigger] spec_entry_record(
                d.entries@[i],
                6 + 16 * d.entries@.len() + spec_blob_len(d.entries@.subrange(0, i)),
            )[j],
{
    let entries = d.entries@;
    let n = entries.len() as int;
    let base = 6 + 16 * n;
    let bytes = spec_encode_dir(d);
    let h = le16_bytes(RESERVED as int) + le16_bytes(1) + le16_bytes(n);
    let t = spec_table(entries, base);
    let b = spec_blobs(entries);
    let rec = spec_entry_record(entries[i], base + spec_blob_len(entries.subrange(0, i)));
    assert(bytes =~= h + t + b);
    lemma_table_len(entries, base);
    lemma_blobs_len(entries);
    lemma_table_slice(entries, base, i);
    lemma_record_len(entries[i], base + spec_blob_len(entries.subrange(0, i)));
    assert forall|j: int| 0 <= j < 16 implies bytes[6 + 16 * i + j] == #[trigger] rec[j] by {
        assert(bytes[6 + 16 * i + j] == t[16 * i + j]);
        assert(t.subrange(16 * i, 16 * i + 16)[j] == t[16 * i + j]);
    }
}

/// The blobs before entry `i`, and through it, stay within the whole.
proof fn lemma_blob_prefix_bounds(entries: Seq<IconDirEntry>, i: int)
    requires
        0 <= i < entries.len(),
    ensures
        0 <= spec_blob_len(entries.subrange(0, i)),
        spec_blob_len(entries.subrange(0, i)) + entries[i].data@.len() <= spec_blob_len(entries),
{
    let n = entries.len() as int;
    assert(entries.subrange(0, i).push(entries[i]) =~= entries.subrange(0, i + 1));
    lemma_blobs_push(entries.subrange(0, i), entries[i]);
    assert(entries.subrange(0, i + 1) + entries.subrange(i + 1, n) =~= entries);
    lemma_blob_len_split(entries.subrange(0, i + 1), entries.subrange(i + 1, n));
    lemma_blob_len_nonneg(entries.subrange(i + 1, n));
    lemma_blob_len_nonneg(entries.subrange(0, i));
}

/// Where entry `i`'s data stands in the encoded bytes: the slice after all
/// earlier blobs is the entry's own data.
#[verifier::rlimit(100)]
#[verifier::spinoff_prover]
proof fn lemma_encode_data_slice(d: IconDir, i: int)
    requires
        d.resource_type == ResourceType::Icon,
        0 <= i < d.entries@.len(),
    ensures
        spec_encode_dir(d).subrange(
            6 + 16 * d.entries@.len() + spec_blob_len(d.entries@.subrange(0, i)),
            6 + 16 * d.entries@.len() + spec_blob_len(d.entries@.subrange(0, i))
                + d.entries@[i].data@.len(),
        ) == d.entries@[i].data@,
{
    let entries = d.entries@;
    let n = entries.len() as int;
    let base = 6 + 16 * n;
    let bytes = spec_encode_dir(d);
    let h = le16_bytes(RESERVED as int) + le16_bytes(1) + le16_bytes(n);
    let t = spec_table(entries, base);
    let b = spec_blobs(entries);
    let off = base + spec_blob_len(entries.subrange(0, i));
    assert(bytes =~= h + t + b);
    lemma_table_len(entries, base);
    lemma_blobs_len(entries);
    lemma_blob_prefix_bounds(entries, i);
    lemma_blobs_slice(entries, i);
    assert(bytes.subrange(off, off + entries[i].data@.len()) =~= b.subrange(
        spec_blob_len(entries.subrange(0, i)),
        spec_blob_len(entries.subrange(0, i)) + entries[i].data@.len(),
    ));
}

/// The sixteen bytes of a record, one by one.
#[verifier::rlimit(100)]
#[verifier::spinoff_prover]
proof fn lemma_record_fields(e: IconDirEntry, offset: int)
    ensures
        spec_entry_record(e, offset).len() == 16,
        spec_entry_record(e, offset)[0] == e.width,
        spec_entry_record(e, offset)[1] == e.height,
        spec_entry_record(e, offset)[2] == e.colors,
        spec_entry_record(e, offset)[3] == RESERVED,
        spec_entry_record(e, offset)[4] == le16_bytes(e.color_planes as int)[0],
        spec_entry_record(e, offset)[5] == le16_bytes(e.color_planes as int)[1],
        spec_entry_record(e, offset)[6] == le16_bytes(e.bits_per_pixel as int)[0],
        spec_entry_record(e, offset)[7] == le16_bytes(e.bits_per_pixel as int)[1],
        spec_entry_record(e, offset)[8] == le32_bytes(e.data@.len() as int)[0],
        spec_entry_record(e, offset)[9] == le32_bytes(e.data@.len() as int)[1],
        spec_entry_record(e, offset)[10] == le32_bytes(e.data@.len() as int)[2],
        spec_entry_record(e, offset)[11] == le32_bytes(e.data@.len() as int)[3],
        spec_entry_record(e, offset)[12] == le32_bytes(offset)[0],
        spec_entry_record(e, offset)[13] == le32_bytes(offset)[1],
        spec_entry_record(e, offset)[14] == le32_bytes(offset)[2],
        spec_entry_record(e, offset)[15] == le32_bytes(offset)[3],
{
}

/// Entry `i` of an encodable directory parses back from the encoded bytes
/// to exactly its own fields and data.
#[verifier::rlimit(100)]
#[verifier::spinoff_prover]
proof fn lemma_encode_entry_parsed(d: IconDir, i: int)
    requires
        d.resource_type == ResourceType::Icon,
        d.entries@.len() <= 0xffff,
        6 + 16 * d.entries@.len() + spec_blob_len(d.entries@) <= 0xffffffff,
        0 <= i < d.entries@.len(),
    ensures
        spec_entry_parsed(spec_encode_dir(d), i, d.entries@[i]),
{
    let entries = d.entries@;
    let n = entries.len() as int;
    let base = 6 + 16 * n;
    let bytes = spec_encode_dir(d);
    let e = entries[i];
    let rb = 6 + 16 * i;
    let off = base + spec_blob_len(entries.subrange(0, i));
    lemma_encode_record_bytes(d, i);
    lemma_blob_prefix_bounds(entries, i);
    lemma_record_fields(e, off);
    lemma_le16_round_trip(e.color_planes as int);
    lemma_le16_round_trip(e.bits_per_pixel as int);
    lemma_le32_round_trip(e.data@.len() as int);
    lemma_le32_round_trip(off);
    assert(le16(bytes, rb + 4) == e.color_planes);
    assert(le16(bytes, rb + 6) == e.bits_per_pixel);
    assert(le32(bytes, rb + 8) == e.data@.len());
    assert(le32(bytes, rb + 12) == off);
    lemma_encode_data_slice(d, i);
    assert(e.data@ == bytes.subrange(
        le32(bytes, rb + 12),
        le32(bytes, rb + 12) + le32(bytes, rb + 8),
    ));
}

/// Parsing re-reads what encoding wrote: a directory that encode accepts
/// yields bytes the parser accepts, announcing the same number of entries,
/// and entry `i`'s record parses back to exactly the entry's own fields
/// and data.  With the parser's own contract, decoding is thereby a left
/// inverse of encoding.
pub proof fn lemma_encode_then_parse(d: IconDir)
    requires
        d.resource_type == ResourceType::Icon,
        d.entries@.len() <= 0xffff,
        6 + 16 * d.entries@.len() + spec_blob_len(d.entries@) <= 0xffffffff,
    ensures
        spec_ico_parse_ok(spec_encode_dir(d)),
        le16(spec_encode_dir(d), 4) == d.entries@.len(),
        forall|i: int|
            0 <= i < d.entries@.len() ==> spec_entry_parsed(
                spec_encode_dir(d),
                i,
                #[trigger] d.entries@[i],
            ),
{
    let entries = d.entries@;
    let n = entries.len() as int;
    let base = 6 + 16 * n;
    let bytes = spec_encode_dir(d);
    let h = le16_bytes(RESERVED as int) + le16_bytes(1) + le16_bytes(n);
    let t = spec_table(entries, base);
    let b = spec_blobs(entries);
    assert(bytes =~= h + t + b);
    lemma_table_len(entries, base);
    lemma_blobs_len(entries);
    lemma_blob_len_nonneg(entries);
    assert(bytes.len() == base + spec_blob_len(entries));
    lemma_le16_round_trip(RESERVED as int);
    lemma_le16_round_trip(1);
    lemma_le16_round_trip(n);
    assert(bytes[0] == h[0] && bytes[1] == h[1] && bytes[2] == h[2] && bytes[3] == h[3] && bytes[4]
        == h[4] && bytes[5] == h[5]);
    assert(le16(bytes, 0) == RESERVED);
    assert(le16(bytes, 2) == 1);
    assert(le16(bytes, 4) == n);
    assert forall|i: int| 0 <= i < n implies spec_entry_parsed(
        bytes,
        i,
        #[trigger] entries[i],
    ) by {
        lemma_encode_entry_parsed(d, i);
    }
    assert forall|i: int| 0 <= i < le16(bytes, 4) implies #[trigger] spec_entry_ok(bytes, i) by {
        assert(spec_entry_parsed(bytes, i, entries[i]));
    }
}

impl IconDir {
    /// Encodes the directory back into a valid ICO file, useful after
    /// entries were added or removed.  On success the output is exactly the
    /// header, the record table and the blobs; an entry count or a data
    /// offset that does not fit the format's sixteen- and thirty-two-bit
    /// fields is refused.
    pub fn encode(&self) -> (r: Result<Vec<u8>, IcoError>)
        ensures
            (r is Ok) == (self.entries@.len() <= 0xffff && 6 + 16 * self.entries@.len()
                + spec_blob_len(self.entries@) <= 0xffffffff),
            r matches Ok(bytes) ==> bytes@ == spec_encode_dir(*self),
            r matches Err(e) ==> (if self.entries@.len() > 0xffff {
                e matches IcoError::TooManyEntries(_)
            } else {
                e matches IcoError::InvalidLength(_)
            }),
    {
        let mut buffer: Vec<u8> = Vec::new();
        if self.entries.len() > 0xffff {
            return Err(IcoError::TooManyEntries(("Too many entries in IconDir").to_owned()));
        }
        let count = self.entries.len();
        buffer.write_u16(RESERVED as u16);
        buffer.write_u16(self.resource_type.number());
        buffer.write_u16(count as u16);
        let ghost header = buffer@;
        let base: u32 = 6 + 16 * (count as u32);
        let mut data_offset: u32 = base;
        let mut i: usize = 0;
        proof {
            assert(spec_table(self.entries@.subrange(0, 0), base as int) =~= Seq::<u8>::empty());
            assert(buffer@ =~= header + spec_table(self.entries@.subrange(0, 0), base as int));
        }
        while i < count
            invariant
                count == self.entries@.len(),
                count <= 0xffff,
                i <= count,
                base == 6 + 16 * count,
                header == le16_bytes(RESERVED as int) + le16_bytes(
                    if self.resource_type == ResourceType::Icon {
                        1int
                    } else {
                        2int
                    },
                ) + le16_bytes(count as int),
                data_offset == base + spec_blob_len(self.entries@.subrange(0, i as int)),
                buffer@ == header + spec_table(self.entries@.subrange(0, i as int), base as int),
            decreases count - i,
        {
            let ghost prefix = self.entries@.subrange(0, i as int);
            let entry = &self.entries[i];
            if entry.data.len() > 0xffffffffusize - (data_offset as usize) {
                proof {
                    lemma_blobs_push(prefix, self.entries@[i as int]);
                    assert(prefix.push(self.entries@[i as int]) =~= self.entries@.subrange(
                        0,
                        i + 1,
                    ));
                    assert(self.entries@.subrange(0, i + 1) + self.entries@.subrange(
                        i + 1,
                        count as int,
                    ) =~= self.entries@);
                    lemma_blob_len_split(
                        self.entries@.subrange(0, i + 1),
                        self.entries@.subrange(i + 1, count as int),
                    );
                    lemma_blob_len_nonneg(self.entries@.subrange(i + 1, count as int));
                }
                return Err(
                    IcoError::InvalidLength(
                        ("Entry data does not fit the format's offsets").to_owned(),
                    ),
                );
            }
            buffer.write_u8(entry.width);
            buffer.write_u8(entry.height);
            buffer.write_u8(entry.colors);
            buffer.write_u8(RESERVED);
            buffer.write_u16(entry.color_planes);
            buffer.write_u16(entry.bits_per_pixel);
            buffer.write_u32(entry.data.len() as u32);
            buffer.write_u32(data_offset);
            proof {
                lemma_table_push(prefix, self.entries@[i as int], base as int);
                assert(prefix.push(self.entries@[i as int]) =~= self.entries@.subrange(
                    0,
                    i + 1,
                ));
                assert(buffer@ =~= header + spec_table(
                    self.entries@.subrange(0, i + 1),
                    base as int,
                ));
                lemma_blobs_push(prefix, self.entries@[i as int]);
            }
            data_offset = data_offset + (entry.data.len() as u32);
            i += 1;
        }
        proof {
            assert(self.entries@.subrange(0, count as int) =~= self.entries@);
            assert(spec_blobs(self.entries@.subrange(0, 0)) =~= Seq::<u8>::empty());
        }
        let ghost with_table = buffer@;
        let mut i: usize = 0;
        while i < count
            invariant
                count == self.entries@.len(),
                i <= count,
                buffer@ == with_table + spec_blobs(self.entries@.subrange(0, i as int)),
            decreases count - i,
        {
            let ghost prefix = self.entries@.subrange(0, i as int);
            buffer.write_bytes(&self.entries[i].data);
            proof {
                lemma_blobs_push(prefix, self.entries@[i as int]);
                assert(prefix.push(self.entries@[i as int]) =~= self.entries@.subrange(
                    0,
                    i + 1,
                ));
                assert(buffer@ =~= with_table + spec_blobs(self.entries@.subrange(0, i + 1)));
            }
            i += 1;
        }
        proof {
            assert(self.entries@.subrange(0, count as int) =~= self.entries@);
            assert(buffer@ =~= spec_encode_dir(*self));
        }
        Ok(buffer)
    }

    /// Parses an ICO file; it succeeds exactly when the header and every
    /// announced entry are well-formed.  On success the file declared the
    /// icon resource type, and every entry carries exactly the fields and
    /// the data slice its sixteen-byte record names.  Cursor files are not
    /// supported; entries are checked in order, and for the first malformed
    /// one a record cut short by the end of the file or a data slice
    /// outside the file is refused as out of bounds, while a non-zero
    /// reserved byte in a whole record is refused as an unexpected value.
    pub fn from(ico_file_data: &Vec<u8>) -> (r: Result<IconDir, IcoError>)
        ensures
            (r is Ok) == spec_ico_parse_ok(ico_file_data@),
            forall|i: int|
                (#[trigger] spec_entries_ok_before(ico_file_data@, i) && spec_ico_header_ok(
                    ico_file_data@,
                ) && 0 <= i < le16(ico_file_data@, 4) && 6 + 16 * (i + 1) > ico_file_data@.len())
                    ==> (r matches Err(e) && e matches IcoError::BufferOutOfBounds(_)),
            forall|i: int|
                (#[trigger] spec_entries_ok_before(ico_file_data@, i) && spec_ico_header_ok(
                    ico_file_data@,
                ) && 0 <= i < le16(ico_file_data@, 4) && 6 + 16 * (i + 1) <= ico_file_data@.len()
                    && ico_file_data@[6 + 16 * i + 3] != RESERVED) ==> (r matches Err(e)
                    && e matches IcoError::UnexpectedValue(_)),
            forall|i: int|
                (#[trigger] spec_entries_ok_before(ico_file_data@, i) && spec_ico_header_ok(
                    ico_file_data@,
                ) && 0 <= i < le16(ico_file_data@, 4) && 6 + 16 * (i + 1) <= ico_file_data@.len()
                    && ico_file_data@[6 + 16 * i + 3] == RESERVED && le32(
                    ico_file_data@,
                    6 + 16 * i + 8,
                ) + le32(ico_file_data@, 6 + 16 * i + 12) > ico_file_data@.len()) ==> (r matches
                    Err(e) && e matches IcoError::BufferOutOfBounds(_)),
            r matches Err(e) ==> (e matches IcoError::InvalidFileType(_) || e matches
                IcoError::UnsupportedFileType(_) || e matches IcoError::InvalidResourceType(_)
                || e matches IcoError::UnexpectedValue(_) || e matches
                IcoError::BufferOutOfBounds(_)),
            ico_file_data@.len() >= 2 && le16(ico_file_data@, 0) != RESERVED ==> (r matches Err(e)
                && e matches IcoError::InvalidFileType(_)),
            ico_file_data@.len() >= 4 && le16(ico_file_data@, 0) == RESERVED && le16(
                ico_file_data@,
                2,
            ) == 2 ==> (r matches Err(e) && e matches IcoError::UnsupportedFileType(_)),
            ico_file_data@.len() >= 4 && le16(ico_file_data@, 0) == RESERVED && le16(
                ico_file_data@,
                2,
            ) != 1 && le16(ico_file_data@, 2) != 2 ==> (r matches Err(e) && e matches
                IcoError::InvalidResourceType(_)),
            r matches Ok(d) ==> {
                &&& ico_file_data@.len() >= 6
                &&& le16(ico_file_data@, 0) == RESERVED
                &&& le16(ico_file_data@, 2) == 1
                &&& d.resource_type == ResourceType::Icon
                &&& d.entries@.len() == le16(ico_file_data@, 4)
                &&& forall|i: int|
                    0 <= i < d.entries@.len() ==> spec_entry_parsed(
                        ico_file_data@,
                        i,
                        #[trigger] d.entries@[i],
                    )
            },
    {
        let mut cursor: usize = 0;
        let reserved = ico_file_data.read_u16(&mut cursor)?;
        if reserved != RESERVED as u16 {
            return Err(IcoError::InvalidFileType(("Could not find ICO header.").to_owned()));
        }
        let type_number = ico_file_data.read_u16(&mut cursor)?;
        let resource_type = ResourceType::from_number(type_number)?;
        if resource_type == ResourceType::Cursor {
            return Err(
                IcoError::UnsupportedFileType(
                    ("cursor files are currently not supported.").to_owned(),
                ),
            );
        }
        let total_entries = ico_file_data.read_u16(&mut cursor)? as usize;
        let n = ico_file_data.len();
        let mut entries: Vec<IconDirEntry> = Vec::new();
        let mut k: usize = 0;
        while k < total_entries
            invariant
                n == ico_file_data@.len(),
                cursor == 6 + 16 * k,
                k <= total_entries,
                total_entries == le16(ico_file_data@, 4),
                entries@.len() == k,
                le16(ico_file_data@, 0) == RESERVED,
                le16(ico_file_data@, 2) == 1,
                ico_file_data@.len() >= 6,
                forall|i: int|
                    0 <= i < k ==> spec_entry_parsed(ico_file_data@, i, #[trigger] entries@[i]),
            decreases total_entries - k,
        {
            if n < 16 || cursor > n - 16 {
                proof {
                    assert(6 + 16 * (k as int + 1) > ico_file_data@.len());
                    assert(!spec_entry_ok(ico_file_data@, k as int));
                    assert forall|i: int|
                        (#[trigger] spec_entries_ok_before(ico_file_data@, i) && 0 <= i < le16(
                            ico_file_data@,
                            4,
                        ) && i != k) implies (6 + 16 * (i + 1) <= ico_file_data@.len()
                        && ico_file_data@[6 + 16 * i + 3] == RESERVED && le32(
                        ico_file_data@,
                        6 + 16 * i + 8,
                    ) + le32(ico_file_data@, 6 + 16 * i + 12) <= ico_file_data@.len()) by {
                        if i < k {
                            assert(spec_entry_parsed(ico_file_data@, i, entries@[i]));
                            assert(spec_entry_ok(ico_file_data@, i));
                        } else {
                            assert(spec_entry_ok(ico_file_data@, k as int));
                            assert(false);
                        }
                    }
                }
                return Err(
                    IcoError::BufferOutOfBounds(
                        ("Entry record lies outside the file.").to_owned(),
                    ),
                );
            }
            let width = ico_file_data.read_u8(&mut cursor)?;
            let height = ico_file_data.read_u8(&mut cursor)?;
            let total_colors = ico_file_data.read_u8(&mut cursor)?;
            let reserved = ico_file_data.read_u8(&mut cursor)?;
            if reserved != RESERVED {
                proof {
                    assert(6 + 16 * (k as int + 1) <= ico_file_data@.len());
                    assert(ico_file_data@[6 + 16 * k + 3] != RESERVED);
                    assert(!spec_entry_ok(ico_file_data@, k as int));
                    assert forall|i: int|
                        (#[trigger] spec_entries_ok_before(ico_file_data@, i) && 0 <= i < le16(
                            ico_file_data@,
                            4,
                        ) && i != k) implies (6 + 16 * (i + 1) <= ico_file_data@.len()
                        && ico_file_data@[6 + 16 * i + 3] == RESERVED && le32(
                        ico_file_data@,
                        6 + 16 * i + 8,
                    ) + le32(ico_file_data@, 6 + 16 * i + 12) <= ico_file_data@.len()) by {
                        if i < k {
                            assert(spec_entry_parsed(ico_file_data@, i, entries@[i]));
                            assert(spec_entry_ok(ico_file_data@, i));
                        } else {
                            assert(spec_entry_ok(ico_file_data@, k as int));
                            assert(false);
                        }
                    }
                }
                return Err(IcoError::UnexpectedValue(("Expected RESERVED value.").to_owned()));
            }
            let color_planes = ico_file_data.read_u16(&mut cursor)?;
            let bits_per_pixel = ico_file_data.read_u16(&mut cursor)?;
            let entry_size = ico_file_data.read_u32(&mut cursor)?;
            let entry_offset = ico_file_data.read_u32(&mut cursor)?;
            if (entry_size as u64) + (entry_offset as u64) > (ico_file_data.len() as u64) {
                proof {
                    assert(6 + 16 * (k as int + 1) <= ico_file_data@.len());
                    assert(ico_file_data@[6 + 16 * k + 3] == RESERVED);
                    assert(!spec_entry_ok(ico_file_data@, k as int));
                    assert forall|i: int|
                        (#[trigger] spec_entries_ok_before(ico_file_data@, i) && 0 <= i < le16(
                            ico_file_data@,
                            4,
                        ) && i != k) implies (6 + 16 * (i + 1) <= ico_file_data@.len()
                        && ico_file_data@[6 + 16 * i + 3] == RESERVED && le32(
                        ico_file_data@,
                        6 + 16 * i + 8,
                    ) + le32(ico_file_data@, 6 + 16 * i + 12) <= ico_file_data@.len()) by {
                        if i < k {
                            assert(spec_entry_parsed(ico_file_data@, i, entries@[i]));
                            assert(spec_entry_ok(ico_file_data@, i));
                        } else {
                            assert(spec_entry_ok(ico_file_data@, k as int));
                            assert(false);
                        }
                    }
                }
                return Err(
                    IcoError::BufferOutOfBounds(
                        ("Entry data lies outside the file.").to_owned(),
                    ),
                );
            }
            let data = ico_file_data.slice(entry_offset as usize, entry_size as usize);
            let entry = IconDirEntry {
                width,
                height,
                colors: total_colors,
                color_planes,
                bits_per_pixel,
                data,
            };
            entries.push(entry);
            k += 1;
            proof {
                assert(forall|i: int|
                    0 <= i < k - 1 ==> spec_entry_parsed(
                        ico_file_data@,
                        i,
                        #[trigger] entries@[i],
                    ));
                assert(spec_entry_parsed(ico_file_data@, k - 1, entries@[k - 1]));
            }
        }
        proof {
            assert forall|i: int|
                0 <= i < le16(ico_file_data@, 4) implies #[trigger] spec_entry_ok(
                ico_file_data@,
                i,
            ) by {
                assert(spec_entry_parsed(ico_file_data@, i, entries@[i]));
            }
        }
        proof {
            // every announced entry is whole and in bounds, so none of the
            // failure hypotheses can hold of any index
            assert forall|i: int|
                #[trigger] spec_entries_ok_before(ico_file_data@, i) && 0 <= i < le16(
                    ico_file_data@,
                    4,
                ) implies 6 + 16 * (i + 1) <= ico_file_data@.len() && ico_file_data@[6 + 16 * i
                + 3] == RESERVED && le32(ico_file_data@, 6 + 16 * i + 8) + le32(
                ico_file_data@,
                6 + 16 * i + 12,
            ) <= ico_file_data@.len() by {
                assert(spec_entry_ok(ico_file_data@, i));
            }
        }
        Ok(IconDir { resource_type, entries })
    }
}

} // verus!
