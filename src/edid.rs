//! The Extended Display Identification Data (EDID) block exposed to the guest: a fixed
//! header, eight standard timings, one detailed timing built from the display's size and
//! refresh rate, a display name, and a checksum.
use vstd::prelude::*;

verus! {

pub const EDID_DATA_LENGTH: usize = 128;

pub const DEFAULT_HORIZONTAL_BLANKING: u16 = 560;

pub const DEFAULT_VERTICAL_BLANKING: u16 = 50;

pub const DEFAULT_HORIZONTAL_FRONT_PORCH: u16 = 64;

pub const DEFAULT_VERTICAL_FRONT_PORCH: u16 = 1;

pub const DEFAULT_HORIZONTAL_SYNC_PULSE: u16 = 192;

pub const DEFAULT_VERTICAL_SYNC_PULSE: u16 = 3;

/// A 128-byte EDID block.
pub struct EdidBytes {
    bytes: Vec<u8>,
}

impl View for EdidBytes {
    type V = Seq<u8>;

    closed spec fn view(&self) -> Seq<u8> {
        self.bytes@
    }
}

impl EdidBytes {
    /// The number of bytes in the block.
    pub fn len(&self) -> (r: usize)
        ensures
            r == self@.len(),
    {
        self.bytes.len()
    }

    /// The bytes of the block.
    pub fn as_bytes(&self) -> (r: &[u8])
        ensures
            r@ == self@,
    {
        self.bytes.as_slice()
    }
}

/// The greatest common divisor, by Euclid's algorithm.
pub open spec fn spec_gcd(x: nat, y: nat) -> nat
    decreases y,
{
    if y == 0 {
        x
    } else {
        spec_gcd(y, x % y)
    }
}

proof fn lemma_gcd_positive(x: nat, y: nat)
    requires
        x > 0 || y > 0,
    ensures
        spec_gcd(x, y) > 0,
    decreases y,
{
    if y > 0 {
        lemma_gcd_positive(y, x % y);
    }
}

/// The greatest common divisor of `x` and `y`.
pub fn gcd(x: u32, y: u32) -> (r: u32)
    ensures
        r == spec_gcd(x as nat, y as nat),
    decreases y,
{
    if y == 0 {
        x
    } else {
        gcd(y, x % y)
    }
}

/// A display resolution in pixels.
#[derive(Clone, Copy, Debug, PartialEq, Eq, Structural)]
pub struct Resolution {
    pub width: u32,
    pub height: u32,
}

/// The aspect ratio of a resolution, in lowest terms.
pub open spec fn aspect_ratio(width: u32, height: u32) -> (u32, u32) {
    let g = spec_gcd(width as nat, height as nat);
    ((width as nat / g) as u32, (height as nat / g) as u32)
}

impl Resolution {
    pub fn new(width: u32, height: u32) -> (r: Resolution)
        ensures
            r == (Resolution { width, height }),
    {
        Resolution { width, height }
    }

    /// The aspect ratio in lowest terms; the resolution must not be zero by zero.
    pub fn get_aspect_ratio(&self) -> (r: (u32, u32))
        requires
            self.width > 0 || self.height > 0,
        ensures
            r == aspect_ratio(self.width, self.height),
    {
        let divisor = gcd(self.width, self.height);
        proof {
            lemma_gcd_positive(self.width as nat, self.height as nat);
        }
        (self.width / divisor, self.height / divisor)
    }
}

/// What the EDID block says of a display: its resolution and refresh rate, and typical
/// blanking, front porch and sync pulse values.
#[derive(Clone, Copy, Debug, PartialEq, Eq, Structural)]
pub struct DisplayInfo {
    pub resolution: Resolution,
    pub refresh_rate: u32,
    pub horizontal_blanking: u16,
    pub vertical_blanking: u16,
    pub horizontal_front: u16,
    pub vertical_front: u16,
    pub horizontal_sync: u16,
    pub vertical_sync: u16,
}

impl DisplayInfo {
    /// A display of the given size and refresh rate, with typical values for the rest.
    pub fn new(width: u32, height: u32, refresh_rate: u32) -> (r: Self)
        ensures
            r == (DisplayInfo {
                resolution: Resolution { width, height },
                refresh_rate,
                horizontal_blanking: DEFAULT_HORIZONTAL_BLANKING,
                vertical_blanking: DEFAULT_VERTICAL_BLANKING,
                horizontal_front: DEFAULT_HORIZONTAL_FRONT_PORCH,
                vertical_front: DEFAULT_VERTICAL_FRONT_PORCH,
                horizontal_sync: DEFAULT_HORIZONTAL_SYNC_PULSE,
                vertical_sync: DEFAULT_VERTICAL_SYNC_PULSE,
            }),
    {
        Self {
            resolution: Resolution::new(width, height),
            refresh_rate,
            horizontal_blanking: DEFAULT_HORIZONTAL_BLANKING,
            vertical_blanking: DEFAULT_VERTICAL_BLANKING,
            horizontal_front: DEFAULT_HORIZONTAL_FRONT_PORCH,
            vertical_front: DEFAULT_VERTICAL_FRONT_PORCH,
            horizontal_sync: DEFAULT_HORIZONTAL_SYNC_PULSE,
            vertical_sync: DEFAULT_VERTICAL_SYNC_PULSE,
        }
    }

    pub fn width(&self) -> (r: u32)
        ensures
            r == self.resolution.width,
    {
        self.resolution.width
    }

    pub fn height(&self) -> (r: u32)
        ensures
            r == self.resolution.height,
    {
        self.resolution.height
    }
}

/// Why an EDID block could not be built.
#[derive(Clone, Copy, Debug, PartialEq, Eq, Structural)]
pub enum EdidError {
    /// A standard timing has an aspect ratio that EDID cannot express.
    UnsupportedAspectRatio(u32, u32),
}

/// `s` with the bytes from `at` on replaced by `x`.
pub open spec fn splice(s: Seq<u8>, at: int, x: Seq<u8>) -> Seq<u8> {
    s.subrange(0, at) + x + s.subrange(at + x.len(), s.len() as int)
}

/// The fixed header: the magic number, the manufacturer `GGL`, product 1, serial 1,
/// week 8 of 2022, and EDID version 1.4 (the version is written separately).
pub open spec fn header_bytes() -> Seq<u8> {
    seq![
        0x00u8, 0xFF, 0xFF, 0xFF, 0xFF, 0xFF, 0xFF, 0x00,
        0x1C, 0xEC,
        0x01, 0x00,
        0x01, 0x00, 0x00, 0x00,
        8, 32,
    ]
}

/// The EDID version bytes: 1.4.
pub open spec fn version_bytes() -> Seq<u8> {
    seq![1u8, 4]
}

/// The resolutions of the eight standard timings.
pub open spec fn standard_resolution(i: int) -> (u32, u32) {
    if i == 0 {
        (1440u32, 900u32)
    } else if i == 1 {
        (1600, 900)
    } else if i == 2 {
        (800, 600)
    } else if i == 3 {
        (1680, 1050)
    } else if i == 4 {
        (1856, 1392)
    } else if i == 5 {
        (1280, 1024)
    } else if i == 6 {
        (1400, 1050)
    } else {
        (1920, 1200)
    }
}

/// The two bits EDID uses for an aspect ratio, if it has them.
pub open spec fn aspect_code(ar: (u32, u32)) -> Option<u8> {
    if ar == (8u32, 5u32) {
        Some(0u8)
    } else if ar == (4u32, 3u32) {
        Some(1u8)
    } else if ar == (5u32, 4u32) {
        Some(2u8)
    } else if ar == (16u32, 9u32) {
        Some(3u8)
    } else {
        None
    }
}

/// The sixteen bytes of the standard timings: per timing, the width in pixels divided by
/// eight, less 31, then the aspect ratio code (the refresh rate bits stay zero, for 60 Hz).
pub open spec fn standard_timing_bytes() -> Seq<u8> {
    Seq::new(
        16,
        |k: int|
            {
                let (w, h) = standard_resolution(k / 2);
                if k % 2 == 0 {
                    (w / 8 - 31) as u8
                } else {
                    aspect_code(aspect_ratio(w, h))->Some_0
                }
            },
    )
}

/// The arithmetic of the detailed timing neither overflows nor panics.
pub open spec fn timing_fits(info: DisplayInfo) -> bool {
    let htotal = info.resolution.width + info.horizontal_blanking;
    let vtotal = info.resolution.height + info.vertical_blanking;
    &&& htotal <= u32::MAX
    &&& vtotal <= u32::MAX
    &&& info.refresh_rate * htotal <= u32::MAX
    &&& info.refresh_rate * htotal * vtotal <= u32::MAX
    &&& ((info.refresh_rate * htotal * vtotal / 10000) as u16) + 5 <= u16::MAX
}

/// The pixel clock in 10 kHz units, rounded to the nearest 100 kHz.
pub open spec fn pixel_clock(info: DisplayInfo) -> u16 {
    let htotal = info.resolution.width + info.horizontal_blanking;
    let vtotal = info.resolution.height + info.vertical_blanking;
    let clock = (info.refresh_rate * htotal * vtotal / 10000) as u16;
    ((clock + 5) / 10 * 10) as u16
}

/// The eighteen bytes of the detailed timing descriptor.
pub open spec fn detailed_timing_bytes(info: DisplayInfo) -> Seq<u8> {
    let w = info.resolution.width;
    let h = info.resolution.height;
    let hb = info.horizontal_blanking;
    let vb = info.vertical_blanking;
    let hf = info.horizontal_front;
    let vf = info.vertical_front;
    let hs = info.horizontal_sync;
    let vs = info.vertical_sync;
    let clock = pixel_clock(info);
    seq![
        clock as u8,
        (clock >> 8u16) as u8,
        (w & 0xFF) as u8,
        (hb & 0xFF) as u8,
        ((hb >> 8u16) & 0x0F) as u8 | ((((w >> 8u32) & 0x0F) as u8) << 4u8),
        (h & 0xFF) as u8,
        (vb & 0xFF) as u8,
        ((vb >> 8u16) & 0x0F) as u8 | ((((h >> 8u32) & 0x0F) as u8) << 4u8),
        (hf & 0xFF) as u8,
        (hs & 0xFF) as u8,
        (vs & 0xFF) as u8 | (((vf & 0x0F) as u8) << 4u8),
        ((vs >> 8u16) & 0x0F) as u8 | ((((vf >> 8u16) & 0x0F) as u8) << 2u8) | ((((hs >> 8u16)
            & 0x03) as u8) << 4u8) | ((((hf >> 8u16) & 0x03) as u8) << 6u8),
        0u8, 0, 0, 0, 0, 0,
    ]
}

/// The display product name descriptor: its tag, then `CrosvmDisplay` in ASCII.
pub open spec fn display_name_bytes() -> Seq<u8> {
    seq![
        0x00u8, 0x00, 0x00, 0xFC, 0x00,
        0x43, 0x72, 0x6f, 0x73, 0x76, 0x6d, 0x44, 0x69, 0x73, 0x70, 0x6c, 0x61, 0x79,
    ]
}

/// The sum of the bytes.
pub open spec fn byte_sum(s: Seq<u8>) -> nat
    decreases s.len(),
{
    if s.len() == 0 {
        0
    } else {
        byte_sum(s.drop_last()) + s.last() as nat
    }
}

/// The checksum byte: what brings the sum of all bytes to a multiple of 256.
pub open spec fn checksum_of(s: Seq<u8>) -> u8 {
    let c = byte_sum(s.take(127)) % 256;
    if c == 0 {
        0u8
    } else {
        (256 - c) as u8
    }
}

/// The block before its checksum: the header, the version, the standard timings, the
/// detailed timing, the display name, and zeros elsewhere.
pub open spec fn edid_body(info: DisplayInfo) -> Seq<u8> {
    let z = Seq::new(128, |k: int| 0u8);
    splice(
        splice(
            splice(splice(splice(z, 0, header_bytes()), 18, version_bytes()), 38, standard_timing_bytes()),
            54,
            detailed_timing_bytes(info),
        ),
        72,
        display_name_bytes(),
    )
}

/// The EDID block for a display.
pub open spec fn edid_block(info: DisplayInfo) -> Seq<u8> {
    edid_body(info).update(127, checksum_of(edid_body(info)))
}

fn populate_header(edid: &mut Vec<u8>)
    requires
        old(edid)@.len() == EDID_DATA_LENGTH,
    ensures
        final(edid)@ == splice(old(edid)@, 0, header_bytes()),
{
    edid[0] = 0x00;
    edid[1] = 0xFF;
    edid[2] = 0xFF;
    edid[3] = 0xFF;
    edid[4] = 0xFF;
    edid[5] = 0xFF;
    edid[6] = 0xFF;
    edid[7] = 0x00;
    // Five bits per letter of the manufacturer name `GGL`, with A as 1.
    let g = letter_code('G');
    let l = letter_code('L');
    let manufacturer_id: u16 = (((g << 5u16) | g) << 5u16) | l;
    assert(manufacturer_id == 0x1CEC) by (bit_vector)
        requires
            g == 7,
            l == 12,
            manufacturer_id == (((g << 5u16) | g) << 5u16) | l,
    ;
    assert((manufacturer_id >> 8u16) as u8 == 0x1C && manufacturer_id as u8 == 0xEC) by (bit_vector)
        requires
            manufacturer_id == 0x1CEC,
    ;
    edid[8] = (manufacturer_id >> 8u16) as u8;
    edid[9] = manufacturer_id as u8;
    let manufacture_product_id: u16 = 1;
    assert(manufacture_product_id as u8 == 1 && (manufacture_product_id >> 8u16) as u8 == 0)
        by (bit_vector)
        requires
            manufacture_product_id == 1,
    ;
    edid[10] = manufacture_product_id as u8;
    edid[11] = (manufacture_product_id >> 8u16) as u8;
    let serial_id: u32 = 1;
    assert(serial_id as u8 == 1 && (serial_id >> 8u32) as u8 == 0 && (serial_id >> 16u32) as u8
        == 0 && (serial_id >> 24u32) as u8 == 0) by (bit_vector)
        requires
            serial_id == 1,
    ;
    edid[12] = serial_id as u8;
    edid[13] = (serial_id >> 8u32) as u8;
    edid[14] = (serial_id >> 16u32) as u8;
    edid[15] = (serial_id >> 24u32) as u8;
    let manufacture_week: u8 = 8;
    edid[16] = manufacture_week;
    let manufacture_year: u32 = 2022;
    edid[17] = (manufacture_year - 1990u32) as u8;
    assert(edid@ =~= splice(old(edid)@, 0, header_bytes()));
}

/// The five-bit code of an upper-case letter, with A as 1.
fn letter_code(c: char) -> (r: u16)
    requires
        'A' <= c <= 'Z',
    ensures
        r == (c as u32 - 64) as u16,
{
    let x: u32 = (c as u32) - 65 + 1;
    assert(x & 0x1F == x) by (bit_vector)
        requires
            x < 32,
    ;
    (x & 0x1F) as u16
}

fn populate_edid_version(edid: &mut Vec<u8>)
    requires
        old(edid)@.len() == EDID_DATA_LENGTH,
    ensures
        final(edid)@ == splice(old(edid)@, 18, version_bytes()),
{
    edid[18] = 1;
    edid[19] = 4;
    assert(edid@ =~= splice(old(edid)@, 18, version_bytes()));
}

proof fn lemma_standard_aspects()
    ensures
        forall|i: int|
            0 <= i < 8 ==> (#[trigger] aspect_code(
                aspect_ratio(standard_resolution(i).0, standard_resolution(i).1),
            )) is Some,
{
    reveal_with_fuel(spec_gcd, 8);
    assert(spec_gcd(1440, 900) == 180);
    assert(spec_gcd(1600, 900) == 100);
    assert(spec_gcd(800, 600) == 200);
    assert(spec_gcd(1680, 1050) == 210);
    assert(spec_gcd(1856, 1392) == 464);
    assert(spec_gcd(1280, 1024) == 256);
    assert(spec_gcd(1400, 1050) == 350);
    assert(spec_gcd(1920, 1200) == 240);
    assert(aspect_ratio(1440, 900) == (8u32, 5u32));
    assert(aspect_ratio(1600, 900) == (16u32, 9u32));
    assert(aspect_ratio(800, 600) == (4u32, 3u32));
    assert(aspect_ratio(1680, 1050) == (8u32, 5u32));
    assert(aspect_ratio(1856, 1392) == (4u32, 3u32));
    assert(aspect_ratio(1280, 1024) == (5u32, 4u32));
    assert(aspect_ratio(1400, 1050) == (4u32, 3u32));
    assert(aspect_ratio(1920, 1200) == (8u32, 5u32));
    assert forall|i: int| 0 <= i < 8 implies (#[trigger] aspect_code(
        aspect_ratio(standard_resolution(i).0, standard_resolution(i).1),
    )) is Some by {
        if i == 0 {
        } else if i == 1 {
        } else if i == 2 {
        } else if i == 3 {
        } else if i == 4 {
        } else if i == 5 {
        } else if i == 6 {
        } else {
        }
    }
}

fn populate_standard_timings(edid: &mut Vec<u8>) -> (r: Result<(), EdidError>)
    requires
        old(edid)@.len() == EDID_DATA_LENGTH,
    ensures
        r is Ok,
        final(edid)@ == splice(old(edid)@, 38, standard_timing_bytes()),
{
    let resolutions = [
        Resolution::new(1440, 900),
        Resolution::new(1600, 900),
        Resolution::new(800, 600),
        Resolution::new(1680, 1050),
        Resolution::new(1856, 1392),
        Resolution::new(1280, 1024),
        Resolution::new(1400, 1050),
        Resolution::new(1920, 1200),
    ];
    proof {
        lemma_standard_aspects();
    }
    let ghost old_bytes = edid@;
    let mut index: usize = 0;
    while index < 8
        invariant
            index <= 8,
            edid@.len() == EDID_DATA_LENGTH,
            forall|i: int|
                0 <= i < 8 ==> (resolutions@[i].width, resolutions@[i].height)
                    == #[trigger] standard_resolution(i),
            forall|i: int|
                0 <= i < 8 ==> (#[trigger] aspect_code(
                    aspect_ratio(standard_resolution(i).0, standard_resolution(i).1),
                )) is Some,
            edid@ == splice(old_bytes, 38, standard_timing_bytes().take(2 * index as int)),
            old_bytes.len() == EDID_DATA_LENGTH,
        decreases 8 - index,
    {
        let r = resolutions[index];
        assert((r.width, r.height) == standard_resolution(index as int));
        assert(aspect_code(
            aspect_ratio(standard_resolution(index as int).0, standard_resolution(index as int).1),
        ) is Some);
        edid[0x26 + index * 2] = (r.width / 8 - 31) as u8;
        let ar_bits: u8 = match r.get_aspect_ratio() {
            (8, 5) => 0x0,
            (4, 3) => 0x1,
            (5, 4) => 0x2,
            (16, 9) => 0x3,
            (x, y) => {
                return Err(EdidError::UnsupportedAspectRatio(x, y));
            },
        };
        edid[0x27 + index * 2] = ar_bits;
        index = index + 1;
        assert(edid@ =~= splice(old_bytes, 38, standard_timing_bytes().take(2 * index as int)));
    }
    assert(standard_timing_bytes().take(16) =~= standard_timing_bytes());
    Ok(())
}

fn populate_detailed_timing(edid: &mut Vec<u8>, start: usize, info: &DisplayInfo)
    requires
        old(edid)@.len() == EDID_DATA_LENGTH,
        start + 18 <= EDID_DATA_LENGTH,
        timing_fits(*info),
    ensures
        final(edid)@ == splice(old(edid)@, start as int, detailed_timing_bytes(*info)),
{
    let horizontal_blanking_lsb: u8 = (info.horizontal_blanking & 0xFF) as u8;
    let horizontal_blanking_msb: u8 = ((info.horizontal_blanking >> 8u16) & 0x0F) as u8;

    let vertical_blanking_lsb: u8 = (info.vertical_blanking & 0xFF) as u8;
    let vertical_blanking_msb: u8 = ((info.vertical_blanking >> 8u16) & 0x0F) as u8;

    // The pixel clock sets the refresh rate: refresh_rate = clk * 10000 / (htotal * vtotal),
    // so clk = refresh_rate * htotal * vtotal / 10000, in 10 kHz steps.
    let htotal = info.width() + (info.horizontal_blanking as u32);
    let vtotal = info.height() + (info.vertical_blanking as u32);
    let mut clock: u16 = ((info.refresh_rate * htotal * vtotal) / 10000) as u16;
    // Round to the nearest 100 kHz.
    clock = ((clock + 5) / 10) * 10;
    edid[start] = clock as u8;
    edid[start + 1] = (clock >> 8u16) as u8;

    let width_lsb: u8 = (info.width() & 0xFF) as u8;
    let width_msb: u8 = ((info.width() >> 8u32) & 0x0F) as u8;

    // Horizontal addressable video in pixels, horizontal blanking, and their upper bits.
    edid[start + 2] = width_lsb;
    edid[start + 3] = horizontal_blanking_lsb;
    edid[start + 4] = horizontal_blanking_msb | (width_msb << 4u8);

    let vertical_active: u32 = info.height();
    let vertical_active_lsb: u8 = (vertical_active & 0xFF) as u8;
    let vertical_active_msb: u8 = ((vertical_active >> 8u32) & 0x0F) as u8;

    // Vertical addressable video in lines, vertical blanking, and their upper bits.
    edid[start + 5] = vertical_active_lsb;
    edid[start + 6] = vertical_blanking_lsb;
    edid[start + 7] = vertical_blanking_msb | (vertical_active_msb << 4u8);

    let horizontal_front_lsb: u8 = (info.horizontal_front & 0xFF) as u8;
    let horizontal_front_msb: u8 = ((info.horizontal_front >> 8u16) & 0x03) as u8;
    let horizontal_sync_lsb: u8 = (info.horizontal_sync & 0xFF) as u8;
    let horizontal_sync_msb: u8 = ((info.horizontal_sync >> 8u16) & 0x03) as u8;

    let vertical_front_lsb: u8 = (info.vertical_front & 0x0F) as u8;
    let vertical_front_msb: u8 = ((info.vertical_front >> 8u16) & 0x0F) as u8;
    let vertical_sync_lsb: u8 = (info.vertical_sync & 0xFF) as u8;
    let vertical_sync_msb: u8 = ((info.vertical_sync >> 8u16) & 0x0F) as u8;

    // Horizontal front porch and sync pulse width in pixels.
    edid[start + 8] = horizontal_front_lsb;
    edid[start + 9] = horizontal_sync_lsb;
    // Low bits of the vertical front porch and sync pulse.
    edid[start + 10] = vertical_sync_lsb | (vertical_front_lsb << 4u8);
    // Upper bits of the four values above.
    edid[start + 11] = vertical_sync_msb | (vertical_front_msb << 2u8) | (horizontal_sync_msb
        << 4u8) | (horizontal_front_msb << 6u8);
    // The last six bytes of the descriptor stay empty.
    let mut k: usize = 12;
    while k < 18
        invariant
            12 <= k <= 18,
            start + 18 <= EDID_DATA_LENGTH,
            edid@.len() == EDID_DATA_LENGTH,
            forall|i: int| start + 12 <= i < start + k ==> #[trigger] edid@[i] == 0u8,
            forall|i: int|
                start <= i < start + 12 ==> #[trigger] edid@[i] == detailed_timing_bytes(
                    *info,
                )[i - start],
            forall|j: int|
                0 <= j < EDID_DATA_LENGTH && !(start <= j < start + 18) ==> edid@[j] == old(
                    edid,
                )@[j],
        decreases 18 - k,
    {
        edid[start + k] = 0;
        k = k + 1;
    }
    assert(edid@ =~= splice(old(edid)@, start as int, detailed_timing_bytes(*info)));
}

fn populate_display_name(edid: &mut Vec<u8>, start: usize)
    requires
        old(edid)@.len() == EDID_DATA_LENGTH,
        start + 18 <= EDID_DATA_LENGTH,
    ensures
        final(edid)@ == splice(old(edid)@, start as int, display_name_bytes()),
{
    // The display product name descriptor tag.
    edid[start] = 0x00;
    edid[start + 1] = 0x00;
    edid[start + 2] = 0x00;
    edid[start + 3] = 0xFC;
    edid[start + 4] = 0x00;
    // The name `CrosvmDisplay`.
    edid[start + 5] = 0x43;
    edid[start + 6] = 0x72;
    edid[start + 7] = 0x6f;
    edid[start + 8] = 0x73;
    edid[start + 9] = 0x76;
    edid[start + 10] = 0x6d;
    edid[start + 11] = 0x44;
    edid[start + 12] = 0x69;
    edid[start + 13] = 0x73;
    edid[start + 14] = 0x70;
    edid[start + 15] = 0x6c;
    edid[start + 16] = 0x61;
    edid[start + 17] = 0x79;
    assert(edid@ =~= splice(old(edid)@, start as int, display_name_bytes()));
}

fn calculate_checksum(edid: &mut Vec<u8>)
    requires
        old(edid)@.len() == EDID_DATA_LENGTH,
    ensures
        final(edid)@ == old(edid)@.update(127, checksum_of(old(edid)@)),
        byte_sum(final(edid)@) % 256 == 0,
{
    let mut checksum: u8 = 0;
    let mut i: usize = 0;
    while i < EDID_DATA_LENGTH - 1
        invariant
            i <= 127,
            edid@.len() == EDID_DATA_LENGTH,
            checksum == byte_sum(edid@.take(i as int)) % 256,
        decreases 127 - i,
    {
        proof {
            assert(edid@.take(i + 1).drop_last() =~= edid@.take(i as int));
        }
        checksum = checksum.wrapping_add(edid[i]);
        i = i + 1;
    }
    if checksum != 0 {
        checksum = 255 - checksum + 1;
    }
    let ghost before = edid@;
    edid[127] = checksum;
    proof {
        assert(edid@.drop_last() =~= before.take(127));
        assert(edid@.last() == checksum);
    }
}

impl EdidBytes {
    /// Creates the virtual EDID block for a display.
    pub fn new(info: &DisplayInfo) -> (r: Result<EdidBytes, EdidError>)
        requires
            timing_fits(*info),
        ensures
            r is Ok,
            r is Ok ==> r->Ok_0@ == edid_block(*info),
    {
        let mut edid: Vec<u8> = Vec::new();
        let mut k: usize = 0;
        while k < EDID_DATA_LENGTH
            invariant
                k <= EDID_DATA_LENGTH,
                edid@ == Seq::new(k as nat, |j: int| 0u8),
            decreases EDID_DATA_LENGTH - k,
        {
            edid.push(0u8);
            k = k + 1;
            assert(edid@ =~= Seq::new(k as nat, |j: int| 0u8));
        }
        populate_header(&mut edid);
        populate_edid_version(&mut edid);
        populate_standard_timings(&mut edid)?;
        // Of the four descriptor blocks, the first holds the detailed timing and the
        // second the display name.
        populate_detailed_timing(&mut edid, 54, info);
        populate_display_name(&mut edid, 72);
        calculate_checksum(&mut edid);
        Ok(EdidBytes { bytes: edid })
    }
}

} // verus!
