use alsb::Error;
use alsb::ImageIterator;
use alsb::Surface;

fn make_surface(width: u32, height: u32, fill: u8) -> Surface {
    let data = vec![fill; (width as usize) * (height as usize) * 3];
    Surface::new(width, height, data).unwrap()
}

#[test]
fn surface_new_rejects_wrong_length() {
    assert!(Surface::new(2, 2, vec![0u8; 11]).is_none());
    assert!(Surface::new(2, 2, vec![0u8; 12]).is_some());
}

#[test]
fn capacity_is_width_height_channels() {
    let s = make_surface(12, 12, 0);
    assert_eq!(s.capacity_bits(), 432);
    let s = make_surface(512, 512, 0);
    assert_eq!(s.capacity_bits(), 786432);
}

#[test]
fn traversal_order_channel_then_x_then_y() {
    let s = make_surface(2, 2, 0);
    let mut it = ImageIterator::new(&s);
    let expected = [
        (0u32, 0u32, 0u8),
        (0, 0, 1),
        (0, 0, 2),
        (1, 0, 0),
        (1, 0, 1),
        (1, 0, 2),
        (0, 1, 0),
        (0, 1, 1),
        (0, 1, 2),
        (1, 1, 0),
        (1, 1, 1),
        (1, 1, 2),
    ];
    for &(x, y, channel) in expected.iter() {
        let c = it.next().unwrap();
        assert_eq!((c.x, c.y, c.channel), (x, y, channel));
    }
    assert_eq!(it.next(), Err(Error::ExhaustedSequence));
    assert_eq!(it.next(), Err(Error::ExhaustedSequence));
}

#[test]
fn traversal_yields_each_position_once() {
    let s = make_surface(3, 5, 0);
    let mut it = ImageIterator::new(&s);
    let mut seen = vec![false; 3 * 5 * 3];
    for _ in 0..(3 * 5 * 3) {
        let c = it.next().unwrap();
        let flat = ((c.y as usize) * 3 + (c.x as usize)) * 3 + (c.channel as usize);
        assert!(!seen[flat]);
        seen[flat] = true;
    }
    assert!(seen.iter().all(|&v| v));
    assert!(it.next().is_err());
}

#[test]
fn last_position_is_bottom_right_blue() {
    let s = make_surface(4, 3, 0);
    let mut it = ImageIterator::new(&s);
    let mut last = it.next().unwrap();
    for _ in 1..(4 * 3 * 3) {
        last = it.next().unwrap();
    }
    assert_eq!((last.x, last.y, last.channel), (3, 2, 2));
    assert!(it.next().is_err());
}

#[test]
fn empty_surface_is_exhausted_at_once() {
    let s = Surface::new(0, 7, Vec::new()).unwrap();
    let mut it = ImageIterator::new(&s);
    assert_eq!(it.next(), Err(Error::ExhaustedSequence));
}

#[test]
fn write_bit_keeps_upper_seven_bits() {
    let mut s = make_surface(2, 1, 0b11111111);
    s.write_bit(0, 0, 0, 0);
    assert_eq!(s.data[0], 0b11111110);
    s.write_bit(1, 0, 2, 0);
    assert_eq!(s.data[5], 0b11111110);
    let mut s = make_surface(2, 1, 0b10101010);
    s.write_bit(0, 0, 1, 1);
    assert_eq!(s.data[1], 0b10101011);
    assert_eq!(s.data[0], 0b10101010);
    assert_eq!(s.data[2], 0b10101010);
}

#[test]
fn read_bit_returns_lsb() {
    let s = Surface::new(1, 1, vec![0b11111110, 0b00000001, 0b10000000]).unwrap();
    assert_eq!(s.read_bit(0, 0, 0), 0);
    assert_eq!(s.read_bit(0, 0, 1), 1);
    assert_eq!(s.read_bit(0, 0, 2), 0);
}

#[test]
fn bit_order_within_byte_is_lsb_first() {
    // Embedding 0b10110000: bit 0 (the LSB) lands on the first visited
    // position, bit 7 on the eighth.
    let mut s = make_surface(4, 1, 0);
    let mut it = ImageIterator::new(&s);
    alsb::write_bytes(&mut s, &mut it, &vec![0b10110000u8]);
    let lsbs: Vec<u8> = s.data.iter().take(8).map(|b| b & 1).collect();
    assert_eq!(lsbs, vec![0, 0, 0, 0, 1, 1, 0, 1]);
    // Reading back yields the same byte.
    let mut it = ImageIterator::new(&s);
    let mut bytes = vec![0u8];
    alsb::read_bytes(&s, &mut it, &mut bytes);
    assert_eq!(bytes[0], 0b10110000);
}

#[test]
fn write_bytes_then_read_bytes_round_trips() {
    let mut s = make_surface(5, 5, 0b01010101);
    let written = vec![0x00u8, 0xff, 0x5a, 0x01, 0x80];
    let mut it = ImageIterator::new(&s);
    alsb::write_bytes(&mut s, &mut it, &written);
    let mut it = ImageIterator::new(&s);
    let mut bytes = vec![0u8; 5];
    alsb::read_bytes(&s, &mut it, &mut bytes);
    assert_eq!(bytes, written);
}
