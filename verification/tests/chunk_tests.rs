use pngme::chunk::Chunk;
use pngme::chunk_type::ChunkType;
use pngme::error::Error;
use std::str::FromStr;

fn testing_chunk() -> Chunk {
    let data_length: u32 = 42;
    let chunk_type = "RuSt".as_bytes();
    let message_bytes = "This is where your secret message will be!".as_bytes();
    let crc: u32 = 2882656334;

    let chunk_data: Vec<u8> = data_length
        .to_be_bytes()
        .iter()
        .chain(chunk_type.iter())
        .chain(message_bytes.iter())
        .chain(crc.to_be_bytes().iter())
        .copied()
        .collect();

    Chunk::try_from(chunk_data.as_ref()).unwrap()
}

fn record(length: u32, code: &[u8], payload: &[u8], crc: u32) -> Vec<u8> {
    let mut out = Vec::new();
    out.extend_from_slice(&length.to_be_bytes());
    out.extend_from_slice(code);
    out.extend_from_slice(payload);
    out.extend_from_slice(&crc.to_be_bytes());
    out
}

#[test]
fn test_new_chunk() {
    let chunk_type = ChunkType::from_str("RuSt").unwrap();
    let data = "This is where your secret message will be!"
        .as_bytes()
        .to_vec();
    let chunk = Chunk::new(chunk_type, data);
    assert_eq!(chunk.length(), 42);
    assert_eq!(chunk.crc(), 2882656334);
}

#[test]
fn test_chunk_length() {
    let chunk = testing_chunk();
    assert_eq!(chunk.length(), 42);
}

#[test]
fn test_chunk_type() {
    let chunk = testing_chunk();
    assert_eq!(chunk.chunk_type().to_string(), String::from("RuSt"));
}

#[test]
fn test_chunk_string() {
    let chunk = testing_chunk();
    let chunk_string = chunk.data_as_string().unwrap();
    let expected_chunk_string = String::from("This is where your secret message will be!");
    assert_eq!(chunk_string, expected_chunk_string);
}

#[test]
fn test_chunk_crc() {
    let chunk = testing_chunk();
    assert_eq!(chunk.crc(), 2882656334);
}

#[test]
fn test_valid_chunk_from_bytes() {
    let data_length: u32 = 42;
    let chunk_type = "RuSt".as_bytes();
    let message_bytes = "This is where your secret message will be!".as_bytes();
    let crc: u32 = 2882656334;

    let chunk_data: Vec<u8> = data_length
        .to_be_bytes()
        .iter()
        .chain(chunk_type.iter())
        .chain(message_bytes.iter())
        .chain(crc.to_be_bytes().iter())
        .copied()
        .collect();

    let chunk = Chunk::try_from(chunk_data.as_ref()).unwrap();

    let chunk_string = chunk.data_as_string().unwrap();
    let expected_chunk_string = String::from("This is where your secret message will be!");

    assert_eq!(chunk.length(), 42);
    assert_eq!(chunk.chunk_type().to_string(), String::from("RuSt"));
    assert_eq!(chunk_string, expected_chunk_string);
    assert_eq!(chunk.crc(), 2882656334);
}

#[test]
fn test_invalid_chunk_from_bytes() {
    let data_length: u32 = 42;
    let chunk_type = "RuSt".as_bytes();
    let message_bytes = "This is where your secret message will be!".as_bytes();
    let crc: u32 = 2882656333;

    let chunk_data: Vec<u8> = data_length
        .to_be_bytes()
        .iter()
        .chain(chunk_type.iter())
        .chain(message_bytes.iter())
        .chain(crc.to_be_bytes().iter())
        .copied()
        .collect();

    let chunk = Chunk::try_from(chunk_data.as_ref());

    assert!(chunk.is_err());
}

#[test]
pub fn test_chunk_trait_impls() {
    let data_length: u32 = 42;
    let chunk_type = "RuSt".as_bytes();
    let message_bytes = "This is where your secret message will be!".as_bytes();
    let crc: u32 = 2882656334;

    let chunk_data: Vec<u8> = data_length
        .to_be_bytes()
        .iter()
        .chain(chunk_type.iter())
        .chain(message_bytes.iter())
        .chain(crc.to_be_bytes().iter())
        .copied()
        .collect();

    let chunk: Chunk = TryFrom::try_from(chunk_data.as_ref()).unwrap();

    let _chunk_string = chunk.to_string();
}

#[test]
fn checksum_of_known_contents() {
    // the checksum of the four letters alone
    let code = ChunkType::from_text("abcd").unwrap();
    assert_eq!(Chunk::new(code, b"".to_vec()).crc(), 0xED82CD11);
    // the record that ends every PNG file
    let code = ChunkType::from_text("IEND").unwrap();
    assert_eq!(Chunk::new(code, Vec::new()).crc(), 0xAE426082);
    let code = ChunkType::from_text("RuSt").unwrap();
    let data = b"This is where your secret message will be!".to_vec();
    assert_eq!(Chunk::new(code, data).crc(), 2882656334);
}

#[test]
fn new_keeps_type_and_payload() {
    let code = ChunkType::from_text("teSt").unwrap();
    let chunk = Chunk::new(code, vec![0, 1, 2, 255, 254]);
    assert_eq!(chunk.length(), 5);
    assert_eq!(chunk.chunk_type().bytes(), *b"teSt");
    assert_eq!(chunk.data(), &[0, 1, 2, 255, 254]);
}

#[test]
fn as_bytes_lays_out_the_record() {
    let chunk = testing_chunk();
    let bytes = chunk.as_bytes();
    assert_eq!(bytes.len(), 12 + 42);
    assert_eq!(&bytes[0..4], &[0, 0, 0, 42]);
    assert_eq!(&bytes[4..8], b"RuSt");
    assert_eq!(&bytes[8..50], b"This is where your secret message will be!");
    assert_eq!(&bytes[50..54], &[0xAB, 0xD1, 0xD8, 0x4E]);
    assert_eq!(bytes, record(42, b"RuSt", b"This is where your secret message will be!", 2882656334));
}

#[test]
fn as_bytes_of_an_empty_payload() {
    let chunk = Chunk::new(ChunkType::from_text("IEND").unwrap(), Vec::new());
    assert_eq!(chunk.length(), 0);
    assert_eq!(chunk.as_bytes(), vec![0, 0, 0, 0, 73, 69, 78, 68, 0xAE, 0x42, 0x60, 0x82]);
}

#[test]
fn length_is_written_most_significant_byte_first() {
    let chunk = Chunk::new(ChunkType::from_text("daTa").unwrap(), vec![7; 0x01_02_03]);
    assert_eq!(chunk.length(), 0x01_02_03);
    let bytes = chunk.as_bytes();
    assert_eq!(&bytes[0..4], &[0x00, 0x01, 0x02, 0x03]);
    assert_eq!(bytes.len(), 12 + 0x01_02_03);
    let crc = chunk.crc();
    assert_eq!(&bytes[bytes.len() - 4..], &crc.to_be_bytes());
    let back = Chunk::decode(&bytes).unwrap();
    assert_eq!(back.length(), 0x01_02_03);
    assert_eq!(back.crc(), crc);
}

#[test]
fn decode_gives_back_what_as_bytes_wrote() {
    let payloads: [&[u8]; 5] = [b"", b"a", b"hello world", &[0, 255, 128, 10, 13], &[0x89; 300]];
    for text in ["RuSt", "IHDR", "tEXt", "zzzz"] {
        for payload in payloads {
            let chunk = Chunk::new(ChunkType::from_text(text).unwrap(), payload.to_vec());
            let back = Chunk::decode(&chunk.as_bytes()).unwrap();
            assert_eq!(back.length(), chunk.length());
            assert_eq!(back.chunk_type(), chunk.chunk_type());
            assert_eq!(back.data(), chunk.data());
            assert_eq!(back.crc(), chunk.crc());
            assert_eq!(back.as_bytes(), chunk.as_bytes());
        }
    }
}

#[test]
fn decode_leaves_bytes_behind_the_record_alone() {
    let mut bytes = testing_chunk().as_bytes();
    bytes.extend_from_slice(&[1, 2, 3, 4, 5]);
    let chunk = Chunk::decode(&bytes).unwrap();
    assert_eq!(chunk.length(), 42);
    assert_eq!(chunk.crc(), 2882656334);
    assert_eq!(chunk.as_bytes(), &bytes[..54]);
}

#[test]
fn decode_refuses_short_buffers() {
    let bytes = testing_chunk().as_bytes();
    for len in 0..12 {
        assert_eq!(Chunk::decode(&bytes[..len]).err(), Some(Error::MalformedInput));
    }
    let empty = Chunk::new(ChunkType::from_text("IEND").unwrap(), Vec::new()).as_bytes();
    assert_eq!(Chunk::decode(&empty[..11]).err(), Some(Error::MalformedInput));
    assert!(Chunk::decode(&empty).is_ok());
}

#[test]
fn decode_refuses_a_length_beyond_the_buffer() {
    let bytes = testing_chunk().as_bytes();
    for len in 12..bytes.len() {
        assert_eq!(Chunk::decode(&bytes[..len]).err(), Some(Error::MalformedInput));
    }
    let huge = record(u32::MAX, b"RuSt", b"abc", 0);
    assert_eq!(Chunk::decode(&huge).err(), Some(Error::MalformedInput));
    let one_more = record(4, b"RuSt", b"abc", 0);
    assert_eq!(Chunk::decode(&one_more).err(), Some(Error::MalformedInput));
}

#[test]
fn decode_refuses_a_type_that_is_not_letters() {
    let bytes = record(3, b"Ru1t", b"abc", 0);
    assert_eq!(Chunk::decode(&bytes).err(), Some(Error::InvalidFormat));
    // the type is looked at before the length is held against the buffer
    let bytes = record(u32::MAX, b"Ru1t", b"abc", 0);
    assert_eq!(Chunk::decode(&bytes).err(), Some(Error::InvalidFormat));
}

#[test]
fn decode_refuses_a_wrong_checksum() {
    let bytes = record(42, b"RuSt", b"This is where your secret message will be!", 2882656333);
    assert_eq!(Chunk::decode(&bytes).err(), Some(Error::IntegrityError));
    assert_eq!(Chunk::try_from(bytes.as_slice()).err(), Some(Error::IntegrityError));
}

#[test]
fn one_flipped_bit_is_found_out() {
    let good = testing_chunk().as_bytes();
    for at in 4..50 {
        for bit in 0..8 {
            let mut bytes = good.clone();
            bytes[at] ^= 1 << bit;
            let expected = if at < 8 && !bytes[at].is_ascii_alphabetic() {
                Error::InvalidFormat
            } else {
                Error::IntegrityError
            };
            assert_eq!(Chunk::decode(&bytes).err(), Some(expected));
        }
    }
}

#[test]
fn one_flipped_bit_in_the_checksum_is_found_out() {
    let good = testing_chunk().as_bytes();
    for at in 50..54 {
        for bit in 0..8 {
            let mut bytes = good.clone();
            bytes[at] ^= 1 << bit;
            assert_eq!(Chunk::decode(&bytes).err(), Some(Error::IntegrityError));
        }
    }
}

#[test]
fn read_fields_separates_without_judging() {
    let bytes = record(3, b"RuSt", b"abc", 0x01020304);
    let (code, data, stored) = Chunk::read_fields(&bytes).unwrap();
    assert_eq!(code.bytes(), *b"RuSt");
    assert_eq!(data, b"abc".to_vec());
    assert_eq!(stored, 0x01020304);

    assert_eq!(Chunk::read_fields(&bytes[..11]).err(), Some(Error::MalformedInput));
    assert_eq!(Chunk::read_fields(&bytes[..14]).err(), Some(Error::MalformedInput));
    let bytes = record(3, b"Ru5t", b"abc", 0x01020304);
    assert_eq!(Chunk::read_fields(&bytes).err(), Some(Error::InvalidFormat));
}

#[test]
fn check_crc_compares_the_two_checksums() {
    assert_eq!(Chunk::check_crc(2882656334, 2882656334), Ok(()));
    assert_eq!(Chunk::check_crc(0, 0), Ok(()));
    assert_eq!(Chunk::check_crc(u32::MAX, u32::MAX), Ok(()));
    assert_eq!(Chunk::check_crc(2882656333, 2882656334), Err(Error::IntegrityError));
    assert_eq!(Chunk::check_crc(2882656334, 2882656333), Err(Error::IntegrityError));
    assert_eq!(Chunk::check_crc(0, u32::MAX), Err(Error::IntegrityError));
}

#[test]
fn data_as_string_reads_utf8() {
    let code = ChunkType::from_text("tEXt").unwrap();
    let chunk = Chunk::new(code, "gr\u{fc}\u{df}e \u{2713}".as_bytes().to_vec());
    assert_eq!(chunk.data_as_string(), Ok(String::from("gr\u{fc}\u{df}e \u{2713}")));
    let code = ChunkType::from_text("tEXt").unwrap();
    assert_eq!(Chunk::new(code, Vec::new()).data_as_string(), Ok(String::new()));
}

#[test]
fn data_as_string_refuses_what_is_not_utf8() {
    for payload in [vec![0xFF], vec![b'a', 0x80], vec![0xC3], vec![0xED, 0xA0, 0x80], vec![0xC0, 0x80]] {
        let chunk = Chunk::new(ChunkType::from_text("tEXt").unwrap(), payload);
        assert_eq!(chunk.data_as_string(), Err(Error::EncodingError));
    }
}

#[test]
fn summary_names_every_field() {
    let chunk = testing_chunk();
    let expected = "Chunk {\n   Length: 42\n   Type: RuSt\n   Data: 42 bytes\n   Crc: 2882656334\n}\n";
    assert_eq!(chunk.to_string(), expected);
}

#[test]
fn summary_of_an_empty_chunk() {
    let chunk = Chunk::new(ChunkType::from_text("IEND").unwrap(), Vec::new());
    let expected = "Chunk {\n   Length: 0\n   Type: IEND\n   Data: 0 bytes\n   Crc: 2923585666\n}\n";
    assert_eq!(chunk.to_string(), expected);
}
