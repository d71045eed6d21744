use bitstream_io::{BitWrite, BitWriter, LittleEndian};
use tort_meshlet::bit_reader::BitReader;
use tort_meshlet::decoder::words_from_bytes;

fn words_of(bytes: &[u8]) -> Vec<u32> {
    bytes
        .chunks(4)
        .map(|c| u32::from_le_bytes([c[0], c[1], c[2], c[3]]))
        .collect()
}

#[test]
fn read_unchecked() {
    let bytes = {
        let mut writer = BitWriter::<_, LittleEndian>::new(std::io::Cursor::new(Vec::new()));

        for i in 2..20 {
            writer.write(i, (1u32 << i) - 2).unwrap();
        }

        writer.byte_align().unwrap();

        let mut bytes = writer.into_writer().into_inner();
        while (bytes.len() & 3) != 0 {
            bytes.push(0);
        }

        bytes
    };

    let buffer = words_of(&bytes);

    let mut reader = BitReader::new(&buffer, 0);
    for i in 2..20 {
        assert_eq!(reader.read_bits_unchecked(i), (1 << i) - 2);
    }
}

#[test]
fn read_across_word_boundary() {
    let buffer = [0xdead_beefu32, 0x1234_5678u32];
    let mut reader = BitReader::new(&buffer, 28);
    // high nibble of the first word, then the low 4 bits of the second
    assert_eq!(reader.read_bits_unchecked(8), 0x8d);
    assert_eq!(reader.read_bits_unchecked(28), 0x0123_4567);
}

#[test]
fn read_full_words() {
    let buffer = [0xdead_beefu32, 0x1234_5678u32, 0xffff_ffffu32];
    let mut reader = BitReader::new(&buffer, 0);
    assert_eq!(reader.read_bits_unchecked(32), 0xdead_beef);
    assert_eq!(reader.read_bits_unchecked(32), 0x1234_5678);
    let mut reader = BitReader::new(&buffer, 16);
    assert_eq!(reader.read_bits_unchecked(32), 0x5678_dead);
    assert_eq!(reader.read_bits_unchecked(0), 0);
    assert_eq!(reader.read_bits_unchecked(1), 0);
}

#[test]
fn words_from_bytes_is_little_endian() {
    let bytes = vec![0xefu8, 0xbe, 0xad, 0xde, 0x78, 0x56, 0x34, 0x12];
    assert_eq!(words_from_bytes(&bytes), vec![0xdead_beefu32, 0x1234_5678]);
    assert_eq!(words_from_bytes(&[]), Vec::<u32>::new());
}
