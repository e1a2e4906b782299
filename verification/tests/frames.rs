use alsb::Error;
use alsb::ImageIterator;
use alsb::Surface;

fn make_surface(width: u32, height: u32, fill: u8) -> Surface {
    let data = vec![fill; (width as usize) * (height as usize) * 3];
    Surface::new(width, height, data).unwrap()
}

/// The checkerboard-like surface the original test images used.
fn patterned_surface(width: u32, height: u32) -> Surface {
    let mut data = Vec::new();
    for y in 0..height {
        for x in 0..width {
            let v = if x % 2 == 0 || y % 2 == 0 { 0u8 } else { 255u8 };
            data.push(v);
            data.push(v);
            data.push(v);
        }
    }
    Surface::new(width, height, data).unwrap()
}

fn random_bytes(n: usize) -> Vec<u8> {
    let mut buf = vec![0u8; n];
    let mut rng = rand::rng();
    rand::Rng::fill_bytes(&mut rng, &mut buf);
    buf
}

#[test]
fn test_unwrapped_steg() {
    let mut img = patterned_surface(512, 512);
    let secret_bytes = random_bytes(128);
    alsb::steg(&secret_bytes, &mut img).unwrap();
    let found_bytes = alsb::unsteg_bytes(&img).unwrap();
    assert!(found_bytes == secret_bytes);
}

#[test]
fn test_not_enough_pixels() {
    let mut img = patterned_surface(12, 12);
    let before = img.data.clone();
    let secret_bytes = random_bytes(128);
    let r = alsb::steg(&secret_bytes, &mut img);
    assert_eq!(r, Err(Error::InsufficientCapacity));
    assert!(img.data == before);
}

#[test]
fn embed_extract_round_trip() {
    let mut s = make_surface(10, 10, 0b11001100);
    let payload = vec![1u8, 2, 3, 4, 5, 250, 251, 252];
    alsb::embed(&payload, &mut s).unwrap();
    assert_eq!(alsb::extract(&s).unwrap(), payload);
}

#[test]
fn embed_writes_big_endian_length_header() {
    let mut s = make_surface(10, 10, 0);
    let payload = vec![0xabu8];
    alsb::embed(&payload, &mut s).unwrap();
    // Header is 4 bytes big-endian: 0, 0, 0, 1. The single set bit is bit 0
    // of header byte 3, at traversal position 24.
    let lsbs: Vec<u8> = s.data.iter().take(32).map(|b| b & 1).collect();
    let mut expected = vec![0u8; 32];
    expected[24] = 1;
    assert_eq!(lsbs, expected);
}

#[test]
fn capacity_boundary_is_exclusive() {
    // A 2-byte payload needs (4 + 2) * 8 == 48 bits. A 4x4 surface holds
    // exactly 48: it must be refused, untouched.
    let mut s = make_surface(4, 4, 7);
    let before = s.data.clone();
    let payload = vec![0xa5u8, 0x5a];
    assert_eq!(alsb::embed(&payload, &mut s), Err(Error::InsufficientCapacity));
    assert!(s.data == before);
    // The next size up, 17x1 with 51 bits, must succeed.
    let mut s = make_surface(17, 1, 7);
    alsb::embed(&payload, &mut s).unwrap();
    assert_eq!(alsb::extract(&s).unwrap(), payload);
}

#[test]
fn steg_capacity_counts_both_frames() {
    // steg writes a 128-byte decoy frame and the payload frame: a surface
    // that could hold the payload frame alone is still refused.
    let mut img = make_surface(10, 10, 0);
    let secret = vec![1u8, 2, 3];
    assert_eq!(alsb::steg(&secret, &mut img), Err(Error::InsufficientCapacity));
    // 8*(4+128) + 8*(4+3) == 1112 bits; 372 pixels hold 1116.
    let mut img = make_surface(31, 12, 0);
    alsb::steg(&secret, &mut img).unwrap();
    assert_eq!(alsb::unsteg_bytes(&img).unwrap(), secret);
}

#[test]
fn steg_decoy_frame_announces_128_bytes() {
    let mut img = make_surface(31, 12, 0);
    let secret = vec![9u8];
    alsb::steg(&secret, &mut img).unwrap();
    // The first frame's header must read 128 big-endian: 0, 0, 0, 128; the
    // single set bit is bit 7 of header byte 3, at traversal position 31.
    let lsbs: Vec<u8> = img.data.iter().take(32).map(|b| b & 1).collect();
    let mut expected = vec![0u8; 32];
    expected[31] = 1;
    assert_eq!(lsbs, expected);
}

#[test]
fn extract_on_tiny_surface_is_exhausted() {
    // 1x1 holds 3 bits: not even the 32-bit header fits.
    let s = make_surface(1, 1, 0);
    assert_eq!(alsb::extract(&s), Err(Error::ExhaustedSequence));
    assert_eq!(alsb::unsteg_bytes(&s), Err(Error::ExhaustedSequence));
}

#[test]
fn forged_header_is_implausible() {
    // 4x4 holds 48 bits. A header announcing 3 payload bytes would need
    // 32 + 24 == 56 bits: the header decodes but cannot be satisfied.
    let mut s = make_surface(4, 4, 0);
    // Big-endian 3 is header byte 3 == 0b00000011: bits 0 and 1 of that
    // byte sit at traversal positions 24 and 25.
    s.write_bit(0, 2, 0, 1);
    s.write_bit(0, 2, 1, 1);
    assert_eq!(alsb::extract(&s), Err(Error::HeaderDecodeImplausible));
    assert_eq!(alsb::unsteg_bytes(&s), Err(Error::HeaderDecodeImplausible));
}

#[test]
fn second_frame_errors_surface_after_first() {
    // A valid empty first frame followed by too little room for a second
    // header: unsteg_bytes must report exhaustion on the second frame.
    let s = make_surface(5, 4, 0);
    // 60 bits; first frame: header 0 -> ends at 32; remaining 28 < 32.
    assert_eq!(alsb::unsteg_bytes(&s), Err(Error::ExhaustedSequence));
}

#[test]
fn frames_share_one_sequencer() {
    // Two frames written back to back read back in order over one
    // continuing sequencer.
    let mut s = make_surface(10, 4, 0xee);
    let first = vec![0x11u8, 0x22];
    let second = vec![0x33u8];
    let mut it = ImageIterator::new(&s);
    alsb::write_payload_with_header(&first, &mut s, &mut it);
    alsb::write_payload_with_header(&second, &mut s, &mut it);
    let mut it = ImageIterator::new(&s);
    assert_eq!(alsb::get_next_payload(&s, &mut it).unwrap(), first);
    assert_eq!(alsb::get_next_payload(&s, &mut it).unwrap(), second);
}

#[test]
fn empty_payload_round_trips() {
    let mut s = make_surface(4, 4, 0xff);
    let payload: Vec<u8> = Vec::new();
    alsb::embed(&payload, &mut s).unwrap();
    assert_eq!(alsb::extract(&s).unwrap(), payload);
}
