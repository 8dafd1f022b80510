use vm_memory::edid::{gcd, DisplayInfo, EdidBytes, Resolution};

#[test]
fn gcd_and_aspect_ratio() {
    assert_eq!(gcd(1440, 900), 180);
    assert_eq!(gcd(7, 0), 7);
    assert_eq!(Resolution::new(1920, 1080).get_aspect_ratio(), (16, 9));
    assert_eq!(Resolution::new(1280, 1024).get_aspect_ratio(), (5, 4));
}

#[test]
fn display_info_defaults() {
    let info = DisplayInfo::new(1920, 1080, 60);
    assert_eq!(info.width(), 1920);
    assert_eq!(info.height(), 1080);
    assert_eq!(info.horizontal_blanking, 560);
    assert_eq!(info.vertical_blanking, 50);
}

#[test]
fn edid_block_layout() {
    let info = DisplayInfo::new(1920, 1080, 60);
    let edid = EdidBytes::new(&info).unwrap();
    assert_eq!(edid.len(), 128);
    let b = edid.as_bytes();
    assert_eq!(&b[0..8], &[0x00, 0xFF, 0xFF, 0xFF, 0xFF, 0xFF, 0xFF, 0x00]);
    // Manufacturer `GGL`, product 1, serial 1, week 8 of 2022, version 1.4.
    assert_eq!(&b[8..20], &[0x1C, 0xEC, 1, 0, 1, 0, 0, 0, 8, 32, 1, 4]);
    assert_eq!(
        &b[38..54],
        &[149, 0, 169, 3, 69, 1, 179, 0, 201, 1, 129, 2, 144, 1, 209, 0]
    );
    // Pixel clock 16810 (0x41AA) in 10 kHz units, then the timing fields.
    assert_eq!(
        &b[54..72],
        &[0xAA, 0x41, 0x80, 0x30, 0x72, 0x38, 0x32, 0x40, 0x40, 0xC0, 0x13, 0x00, 0, 0, 0, 0, 0, 0]
    );
    assert_eq!(&b[72..77], &[0x00, 0x00, 0x00, 0xFC, 0x00]);
    assert_eq!(&b[77..90], "CrosvmDisplay".as_bytes());
    assert!(b[90..127].iter().all(|&x| x == 0));
    let sum: u32 = b.iter().map(|&x| x as u32).sum();
    assert_eq!(sum % 256, 0);
}
