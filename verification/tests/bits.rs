use gaji::{BitReader, BitWriter};

fn push_all(writer: &mut BitWriter, bits: &[u8]) -> Vec<u8> {
    let mut bytes = Vec::new();
    for bit in bits {
        if let Some(byte) = writer.push(*bit == 1) {
            bytes.push(byte);
        }
    }
    bytes
}

fn take_all(reader: &mut BitReader) -> Vec<u8> {
    let mut bits = Vec::new();
    while let Some(bit) = reader.take() {
        bits.push(if bit { 1 } else { 0 });
    }
    bits
}

#[test]
fn eight_bits_make_a_byte_most_significant_first() {
    let mut writer = BitWriter::new();
    for bit in [true, false, true, true, false, false, false] {
        assert_eq!(writer.push(bit), None);
    }
    assert_eq!(writer.waiting(), 7);
    assert_eq!(writer.push(true), Some(0b1011_0001));
    assert_eq!(writer.waiting(), 0);
}

#[test]
fn the_first_bit_is_the_highest() {
    let mut writer = BitWriter::new();
    assert_eq!(push_all(&mut writer, &[1, 0, 0, 0, 0, 0, 0, 0]), vec![0x80]);
    assert_eq!(push_all(&mut writer, &[0, 0, 0, 0, 0, 0, 0, 1]), vec![0x01]);
    assert_eq!(push_all(&mut writer, &[1, 1, 1, 1, 1, 1, 1, 1]), vec![0xff]);
    assert_eq!(push_all(&mut writer, &[0, 0, 0, 0, 0, 0, 0, 0]), vec![0x00]);
}

#[test]
fn a_new_byte_starts_empty_after_each_full_one() {
    let mut writer = BitWriter::new();
    let bits = [1, 1, 1, 1, 1, 1, 1, 1, 0, 0, 0, 0, 0, 0, 1, 0, 1, 1];
    assert_eq!(push_all(&mut writer, &bits), vec![0xff, 0x02]);
    assert_eq!(writer.waiting(), 2);
}

#[test]
fn bits_that_fill_no_byte_give_no_byte() {
    let mut writer = BitWriter::new();
    for n in 0..7u8 {
        assert_eq!(writer.waiting(), n);
        assert_eq!(writer.push(true), None);
    }
    let mut other = BitWriter::new();
    for count in 0..40usize {
        let bits = vec![1u8; count];
        let mut fresh = BitWriter::new();
        assert_eq!(push_all(&mut fresh, &bits).len(), count / 8);
        assert_eq!(fresh.waiting() as usize, count % 8);
    }
    assert_eq!(push_all(&mut other, &[1, 0, 1]), Vec::<u8>::new());
}

#[test]
fn a_byte_gives_its_bits_least_significant_first() {
    let mut reader = BitReader::new();
    assert!(reader.is_empty());
    reader.refill(0b1011_0001);
    assert!(!reader.is_empty());
    assert_eq!(take_all(&mut reader), vec![1, 0, 0, 0, 1, 1, 0, 1]);
    assert!(reader.is_empty());
}

#[test]
fn an_empty_reader_gives_nothing_until_it_is_refilled() {
    let mut reader = BitReader::new();
    assert_eq!(reader.take(), None);
    assert_eq!(reader.take(), None);
    reader.refill(0x01);
    assert_eq!(reader.take(), Some(true));
    for _ in 0..7 {
        assert_eq!(reader.take(), Some(false));
    }
    assert_eq!(reader.take(), None);
    reader.refill(0x80);
    assert_eq!(take_all(&mut reader), vec![0, 0, 0, 0, 0, 0, 0, 1]);
}

#[test]
fn a_refill_replaces_what_was_left() {
    let mut reader = BitReader::new();
    reader.refill(0xff);
    assert_eq!(reader.take(), Some(true));
    reader.refill(0x02);
    assert_eq!(take_all(&mut reader), vec![0, 1, 0, 0, 0, 0, 0, 0]);
}

#[test]
fn bits_read_and_written_back_in_reverse_give_the_byte() {
    for byte in 0..=255u8 {
        let mut reader = BitReader::new();
        reader.refill(byte);
        let mut bits = take_all(&mut reader);
        assert_eq!(bits.len(), 8);
        bits.reverse();
        let mut writer = BitWriter::new();
        assert_eq!(push_all(&mut writer, &bits), vec![byte]);
    }
}
