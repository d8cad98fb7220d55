use msgpacker::Packable;
use xsm::msgpack::{pack_array, pack_uint, unpack_array, unpack_array_header, unpack_uint};

fn reference_unpack(bytes: &[u8]) -> Option<Vec<u64>> {
    msgpacker::unpack_array::<u64, Vec<u64>>(bytes).ok().map(|found| found.1)
}

fn reference_pack(value: u64) -> Vec<u8> {
    let mut bytes: Vec<u8> = Vec::new();
    value.pack(&mut bytes);
    bytes
}

fn reference_pack_array(values: &[u64]) -> Vec<u8> {
    let mut bytes: Vec<u8> = Vec::new();
    msgpacker::pack_array_slice(&mut bytes, values);
    bytes
}

struct Dice(u64);

impl Dice {
    fn next(&mut self) -> u64 {
        self.0 = self.0.wrapping_mul(6364136223846793005).wrapping_add(1442695040888963407);
        self.0 >> 11
    }

    fn below(&mut self, bound: u64) -> u64 {
        self.next() % bound
    }

    fn value(&mut self) -> u64 {
        match self.below(6) {
            0 => self.below(128),
            1 => self.below(256),
            2 => self.below(1 << 16),
            3 => self.below(1 << 32),
            4 => self.next() << 11 | self.below(1 << 11),
            _ => [0, 127, 128, 255, 256, 65535, 65536, u32::MAX as u64, 1 << 32, u64::MAX]
                [self.below(10) as usize],
        }
    }
}

#[test]
fn pack_uint_picks_the_shortest_form() {
    assert_eq!(pack_uint(0), vec![0x00]);
    assert_eq!(pack_uint(2), vec![0x02]);
    assert_eq!(pack_uint(127), vec![0x7f]);
    assert_eq!(pack_uint(128), vec![0xcc, 0x80]);
    assert_eq!(pack_uint(255), vec![0xcc, 0xff]);
    assert_eq!(pack_uint(256), vec![0xcd, 0x01, 0x00]);
    assert_eq!(pack_uint(1000), vec![0xcd, 0x03, 0xe8]);
    assert_eq!(pack_uint(65535), vec![0xcd, 0xff, 0xff]);
    assert_eq!(pack_uint(65536), vec![0xce, 0x00, 0x01, 0x00, 0x00]);
    assert_eq!(pack_uint(u32::MAX as u64), vec![0xce, 0xff, 0xff, 0xff, 0xff]);
    assert_eq!(pack_uint(1 << 32), vec![0xcf, 0, 0, 0, 1, 0, 0, 0, 0]);
    assert_eq!(pack_uint(u64::MAX), vec![0xcf, 0xff, 0xff, 0xff, 0xff, 0xff, 0xff, 0xff, 0xff]);
}

#[test]
fn pack_uint_writes_what_msgpacker_writes() {
    let mut dice = Dice(7);
    for _ in 0..5000 {
        let value = dice.value();
        assert_eq!(pack_uint(value), reference_pack(value));
    }
}

#[test]
fn unpack_uint_reads_every_form() {
    assert_eq!(unpack_uint(&[0x00]), Some((0, 1)));
    assert_eq!(unpack_uint(&[0x7f, 0xaa]), Some((127, 1)));
    assert_eq!(unpack_uint(&[0xcc, 0x05]), Some((5, 2)));
    assert_eq!(unpack_uint(&[0xcc, 0xff, 0x01]), Some((255, 2)));
    assert_eq!(unpack_uint(&[0xcd, 0x03, 0xe8]), Some((1000, 3)));
    assert_eq!(unpack_uint(&[0xce, 0, 0, 0, 7, 9]), Some((7, 5)));
    assert_eq!(unpack_uint(&[0xcf, 1, 0, 0, 0, 0, 0, 0, 0]), Some((1 << 56, 9)));
}

#[test]
fn unpack_uint_refuses_what_is_cut_short_or_no_unsigned_integer() {
    assert_eq!(unpack_uint(&[]), None);
    assert_eq!(unpack_uint(&[0xcc]), None);
    assert_eq!(unpack_uint(&[0xcd, 0x01]), None);
    assert_eq!(unpack_uint(&[0xce, 0, 0, 0]), None);
    assert_eq!(unpack_uint(&[0xcf, 0, 0, 0, 0, 0, 0, 0]), None);
    assert_eq!(unpack_uint(&[0x80]), None);
    assert_eq!(unpack_uint(&[0x90]), None);
    assert_eq!(unpack_uint(&[0xc0]), None);
    assert_eq!(unpack_uint(&[0xd0, 0x01]), None);
    assert_eq!(unpack_uint(&[0xd3, 0, 0, 0, 0, 0, 0, 0, 1]), None);
    assert_eq!(unpack_uint(&[0xff]), None);
}

#[test]
fn unpack_uint_reads_back_what_was_packed() {
    let mut dice = Dice(11);
    for _ in 0..5000 {
        let value = dice.value();
        let mut bytes = pack_uint(value);
        let used = bytes.len();
        bytes.push(dice.below(256) as u8);
        assert_eq!(unpack_uint(&bytes), Some((value, used)));
    }
}

#[test]
fn array_header_comes_in_three_widths() {
    assert_eq!(unpack_array_header(&[0x90]), Some((0, 1)));
    assert_eq!(unpack_array_header(&[0x95, 1, 2]), Some((5, 1)));
    assert_eq!(unpack_array_header(&[0x9f]), Some((15, 1)));
    assert_eq!(unpack_array_header(&[0xdc, 0x00, 0x10]), Some((16, 3)));
    assert_eq!(unpack_array_header(&[0xdc, 0x01, 0x00, 9]), Some((256, 3)));
    assert_eq!(unpack_array_header(&[0xdd, 0, 1, 0, 0]), Some((65536, 5)));
    assert_eq!(unpack_array_header(&[0xdd, 0xff, 0xff, 0xff, 0xff]), Some((u32::MAX, 5)));
    assert_eq!(unpack_array_header(&[]), None);
    assert_eq!(unpack_array_header(&[0xdc, 0x00]), None);
    assert_eq!(unpack_array_header(&[0xdd, 0, 0, 0]), None);
    assert_eq!(unpack_array_header(&[0x80]), None);
    assert_eq!(unpack_array_header(&[0x05]), None);
    assert_eq!(unpack_array_header(&[0xde, 0, 0]), None);
}

#[test]
fn unpack_array_reads_the_five_numbers_of_a_claim() {
    let bytes = [0x95, 0x02, 0x00, 0xcd, 0x03, 0xe8, 0x03, 0x04];
    assert_eq!(unpack_array(&bytes), Some(vec![2, 0, 1000, 3, 4]));
}

#[test]
fn unpack_array_ignores_what_follows_the_array() {
    assert_eq!(unpack_array(&[0x90]), Some(vec![]));
    assert_eq!(unpack_array(&[0x90, 0xc1, 0xc1]), Some(vec![]));
    assert_eq!(unpack_array(&[0x92, 1, 2, 3]), Some(vec![1, 2]));
}

#[test]
fn unpack_array_refuses_a_missing_or_foreign_element() {
    assert_eq!(unpack_array(&[]), None);
    assert_eq!(unpack_array(&[0x91]), None);
    assert_eq!(unpack_array(&[0x92, 1]), None);
    assert_eq!(unpack_array(&[0x92, 1, 0xcd, 0]), None);
    assert_eq!(unpack_array(&[0x91, 0xd0, 1]), None);
    assert_eq!(unpack_array(&[0x91, 0xa1, 0x61]), None);
    assert_eq!(unpack_array(&[0xdc, 0, 2, 1]), None);
    assert_eq!(unpack_array(&[0xdd, 0xff, 0xff, 0xff, 0xff, 1, 2, 3]), None);
    assert_eq!(unpack_array(&[0x01, 0x02]), None);
}

#[test]
fn unpack_array_reads_long_arrays() {
    for count in [15usize, 16, 17, 255, 256, 65535, 65536, 70000] {
        let values: Vec<u64> = (0..count as u64).map(|i| i * 977).collect();
        let bytes = reference_pack_array(&values);
        assert_eq!(unpack_array(&bytes), Some(values));
    }
}

#[test]
fn unpack_array_reads_back_what_msgpacker_packed() {
    let mut dice = Dice(3);
    for _ in 0..2000 {
        let count = dice.below(40) as usize;
        let values: Vec<u64> = (0..count).map(|_| dice.value()).collect();
        let mut bytes = reference_pack_array(&values);
        for _ in 0..dice.below(4) {
            bytes.push(dice.below(256) as u8);
        }
        assert_eq!(unpack_array(&bytes), Some(values));
    }
}

#[test]
fn unpack_array_agrees_with_msgpacker_on_every_short_input() {
    assert_eq!(unpack_array(&[]), reference_unpack(&[]));
    for a in 0..=255u8 {
        assert_eq!(unpack_array(&[a]), reference_unpack(&[a]));
        for b in 0..=255u8 {
            assert_eq!(unpack_array(&[a, b]), reference_unpack(&[a, b]));
        }
    }
    for a in [0x90u8, 0x91, 0x92, 0x93, 0xdc, 0xdd] {
        for b in 0..=255u8 {
            for c in 0..=255u8 {
                assert_eq!(unpack_array(&[a, b, c]), reference_unpack(&[a, b, c]));
            }
        }
    }
}

#[test]
fn unpack_array_agrees_with_msgpacker_on_arbitrary_bytes() {
    let tags = [0x90u8, 0x91, 0x92, 0x95, 0x9a, 0x9f, 0xdc, 0xdd, 0xcc, 0xcd, 0xce, 0xcf, 0xd0, 0xc0];
    let mut dice = Dice(99);
    for _ in 0..20000 {
        let len = dice.below(24) as usize;
        let mut bytes: Vec<u8> = Vec::new();
        for at in 0..len {
            let byte = if at == 0 || dice.below(3) == 0 {
                tags[dice.below(tags.len() as u64) as usize]
            } else if dice.below(2) == 0 {
                dice.below(4) as u8
            } else {
                dice.below(256) as u8
            };
            bytes.push(byte);
        }
        assert_eq!(unpack_array(&bytes), reference_unpack(&bytes));
    }
}

#[test]
fn unpack_array_agrees_with_msgpacker_on_every_cut_of_a_packed_array() {
    let mut dice = Dice(5);
    for _ in 0..300 {
        let count = dice.below(20) as usize;
        let values: Vec<u64> = (0..count).map(|_| dice.value()).collect();
        let bytes = reference_pack_array(&values);
        for cut in 0..=bytes.len() {
            assert_eq!(unpack_array(&bytes[..cut]), reference_unpack(&bytes[..cut]));
        }
    }
}

#[test]
fn pack_array_picks_the_shortest_header() {
    assert_eq!(pack_array(&[]), Some(vec![0x90]));
    assert_eq!(pack_array(&[2, 0, 1000, 3, 4]), Some(vec![0x95, 2, 0, 0xcd, 0x03, 0xe8, 3, 4]));
    assert_eq!(pack_array(&[0; 15]).unwrap()[..1], [0x9f]);
    assert_eq!(pack_array(&[0; 16]).unwrap()[..3], [0xdc, 0x00, 0x10]);
    assert_eq!(pack_array(&[0; 65535]).unwrap()[..3], [0xdc, 0xff, 0xff]);
    assert_eq!(pack_array(&vec![0; 65536]).unwrap()[..5], [0xdd, 0x00, 0x01, 0x00, 0x00]);
}

#[test]
fn pack_array_writes_what_msgpacker_writes() {
    let mut dice = Dice(13);
    for _ in 0..2000 {
        let count = dice.below(40) as usize;
        let values: Vec<u64> = (0..count).map(|_| dice.value()).collect();
        assert_eq!(pack_array(&values), Some(reference_pack_array(&values)));
    }
    for count in [15usize, 16, 17, 255, 256, 65535, 65536, 70000] {
        let values: Vec<u64> = (0..count as u64).map(|i| i * 977).collect();
        assert_eq!(pack_array(&values), Some(reference_pack_array(&values)));
    }
}

#[test]
fn unpack_array_reads_back_what_was_packed() {
    let mut dice = Dice(14);
    for _ in 0..2000 {
        let count = dice.below(40) as usize;
        let values: Vec<u64> = (0..count).map(|_| dice.value()).collect();
        assert_eq!(unpack_array(&pack_array(&values).unwrap()), Some(values));
    }
}
