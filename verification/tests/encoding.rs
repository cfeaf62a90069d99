use ihex_link::encoder::{EncodeError, RecordEncoder};
use ihex_link::ihex::CommandType;
use ihex_link::sequence::CommandSequence;

fn encode(base: u32, image: &[u8], chunk_size: usize) -> CommandSequence {
    let mut encoder = RecordEncoder::begin(base);
    for chunk in image.chunks(chunk_size) {
        assert_eq!(encoder.push_chunk(chunk), Ok(()));
    }
    encoder.finish()
}

/// Stores the data records as a receiver would and returns each byte with
/// its 32-bit address, in the order of arrival.
fn receive(sequence: &CommandSequence) -> Vec<(u64, u8)> {
    let mut bank: u64 = 0;
    let mut stored: Vec<(u64, u8)> = Vec::new();
    for index in 0..sequence.len() {
        let record = sequence.get(index).unwrap();
        match record.command_type() {
            CommandType::ExtendedAddress => {
                bank = ((record.data()[0] as u64) << 8) | record.data()[1] as u64;
            }
            CommandType::Data => {
                for (i, byte) in record.data().iter().enumerate() {
                    stored.push(((bank << 16) + record.address() as u64 + i as u64, *byte));
                }
            }
            CommandType::EOF => {}
        }
    }
    stored
}

fn assert_round_trip(base: u32, image: &[u8], chunk_size: usize) {
    let sequence = encode(base, image, chunk_size);
    let stored = receive(&sequence);
    assert_eq!(stored.len(), image.len());
    for (i, (address, byte)) in stored.iter().enumerate() {
        assert_eq!(*address, base as u64 + i as u64);
        assert_eq!(*byte, image[i]);
    }
}

fn assert_shape(sequence: &CommandSequence) {
    let count = sequence.len();
    assert!(count >= 2);
    assert_eq!(sequence.get(0).unwrap().command_type(), CommandType::ExtendedAddress);
    for index in 0..count {
        let is_eof = sequence.get(index).unwrap().command_type() == CommandType::EOF;
        assert_eq!(is_eof, index == count - 1);
    }
    assert!(sequence.get(count).is_none());
}

#[test]
fn empty_image_is_bank_record_and_end_of_file() {
    let sequence = RecordEncoder::begin(0).finish();
    assert_eq!(sequence.lines(), vec![":020000040000FA", ":00000001FF"]);
    let sequence = RecordEncoder::begin(0x1234_5678).finish();
    assert_eq!(sequence.lines(), vec![":020000041234B4", ":00000001FF"]);
}

#[test]
fn small_image_is_one_data_record() {
    let sequence = encode(0, &[0x01, 0x02, 0x03], 255);
    assert_eq!(
        sequence.lines(),
        vec![":020000040000FA", ":03000000010203F7", ":00000001FF"]
    );
}

#[test]
fn data_address_is_low_half_of_the_offset() {
    let sequence = encode(0x0001_0010, &[0xAA], 255);
    assert_eq!(
        sequence.lines(),
        vec![":020000040001F9", ":01001000AA45", ":00000001FF"]
    );
}

#[test]
fn chunk_across_a_boundary_is_split() {
    let mut encoder = RecordEncoder::begin(0xFFFE);
    assert_eq!(encoder.push_chunk(&[1, 2, 3, 4]), Ok(()));
    let sequence = encoder.finish();
    assert_eq!(
        sequence.lines(),
        vec![
            ":020000040000FA",
            ":02FFFE000102FE",
            ":020000040001F9",
            ":020000000304F7",
            ":00000001FF",
        ]
    );
}

#[test]
fn chunk_that_fills_the_bank_defers_the_bank_record() {
    let mut encoder = RecordEncoder::begin(0xFFFE);
    assert_eq!(encoder.push_chunk(&[1, 2]), Ok(()));
    // Nothing announces bank 1 until a byte goes there.
    assert_eq!(encoder.push_chunk(&[]), Ok(()));
    assert_eq!(encoder.push_chunk(&[3]), Ok(()));
    let sequence = encoder.finish();
    assert_eq!(
        sequence.lines(),
        vec![
            ":020000040000FA",
            ":02FFFE000102FE",
            ":020000040001F9",
            ":0100000003FC",
            ":00000001FF",
        ]
    );
}

#[test]
fn full_bank_without_more_data_has_no_second_bank_record() {
    let mut encoder = RecordEncoder::begin(0xFFFF);
    assert_eq!(encoder.push_chunk(&[0x55]), Ok(()));
    let sequence = encoder.finish();
    assert_eq!(
        sequence.lines(),
        vec![":020000040000FA", ":01FFFF0055AC", ":00000001FF"]
    );
}

#[test]
fn image_of_0x10003_zero_bytes_announces_bank_one() {
    let image = vec![0u8; 0x10003];
    let sequence = encode(0, &image, 255);
    // 257 full chunks reach 0xFFFF; chunk 258 has one byte left in bank 0.
    assert_eq!(sequence.len(), 1 + 257 + 1 + 1 + 1 + 1);
    let last_in_bank = sequence.get(258).unwrap();
    assert_eq!(last_in_bank.command_type(), CommandType::Data);
    assert_eq!(last_in_bank.address(), 0xFFFF);
    assert_eq!(last_in_bank.len(), 1);
    let bank = sequence.get(259).unwrap();
    assert_eq!(bank.to_string(), ":020000040001F9");
    let first_in_next = sequence.get(260).unwrap();
    assert_eq!(first_in_next.command_type(), CommandType::Data);
    assert_eq!(first_in_next.address(), 0x0000);
    assert_eq!(first_in_next.len(), 3);
    assert_eq!(sequence.get(261).unwrap().command_type(), CommandType::EOF);
    assert_shape(&sequence);
    assert_round_trip(0, &image, 255);
}

#[test]
fn round_trip_for_many_bases_and_chunk_sizes() {
    let image: Vec<u8> = (0..70_000u32).map(|i| (i * 7 + i / 256) as u8).collect();
    for base in [0u32, 1, 0xFFFF, 0x1_0000, 0x1234_FF00, 0xFFFE_EE90] {
        for chunk_size in [1usize, 2, 16, 128, 255] {
            assert_round_trip(base, &image, chunk_size);
        }
    }
}

#[test]
fn no_data_record_reaches_past_its_bank() {
    let image = vec![0x5Au8; 0x2_0100];
    for chunk_size in [100usize, 128, 255] {
        let sequence = encode(0x0003_FF80, &image, chunk_size);
        assert_shape(&sequence);
        for index in 0..sequence.len() {
            let record = sequence.get(index).unwrap();
            if record.command_type() == CommandType::Data {
                assert!(record.len() > 0);
                assert!(record.address() as usize + record.len() <= 0x1_0000);
            }
        }
    }
}

#[test]
fn bank_record_stands_between_data_records_of_different_banks() {
    let image = vec![0u8; 0x3_0000];
    let base: u32 = 0x00FE_8000;
    let sequence = encode(base, &image, 128);
    let mut offset: u64 = base as u64;
    let mut announced: Option<u64> = None;
    let mut previous_bank: Option<u64> = None;
    for index in 0..sequence.len() {
        let record = sequence.get(index).unwrap();
        match record.command_type() {
            CommandType::ExtendedAddress => {
                announced = Some(((record.data()[0] as u64) << 8) | record.data()[1] as u64);
            }
            CommandType::Data => {
                let bank = offset >> 16;
                if previous_bank != Some(bank) {
                    assert_eq!(announced, Some(bank));
                }
                announced = None;
                previous_bank = Some(bank);
                offset += record.len() as u64;
            }
            CommandType::EOF => {}
        }
    }
    assert_eq!(offset, base as u64 + image.len() as u64);
}

#[test]
fn chunk_of_256_bytes_is_refused_and_changes_nothing() {
    let mut encoder = RecordEncoder::begin(0);
    assert_eq!(encoder.push_chunk(&[7]), Ok(()));
    assert_eq!(encoder.push_chunk(&[0u8; 256]), Err(EncodeError::ChunkTooLong));
    assert_eq!(encoder.push_chunk(&[8]), Ok(()));
    let sequence = encoder.finish();
    assert_eq!(
        sequence.lines(),
        vec![":020000040000FA", ":0100000007F8", ":0100010008F6", ":00000001FF"]
    );
}

#[test]
fn image_may_end_at_the_last_address() {
    let mut encoder = RecordEncoder::begin(0xFFFF_FFFE);
    assert_eq!(encoder.push_chunk(&[1, 2]), Ok(()));
    assert_eq!(encoder.push_chunk(&[]), Ok(()));
    assert_eq!(encoder.push_chunk(&[3]), Err(EncodeError::AddressOverflow));
    let sequence = encoder.finish();
    assert_eq!(
        sequence.lines(),
        vec![":02000004FFFFFC", ":02FFFE000102FE", ":00000001FF"]
    );
}

#[test]
fn chunk_past_the_last_address_is_refused_whole() {
    let mut encoder = RecordEncoder::begin(0xFFFF_FFFF);
    assert_eq!(encoder.push_chunk(&[1, 2]), Err(EncodeError::AddressOverflow));
    assert_eq!(encoder.push_chunk(&[1]), Ok(()));
    assert_eq!(
        encoder.finish().lines(),
        vec![":02000004FFFFFC", ":01FFFF000100", ":00000001FF"]
    );
}

#[test]
fn too_long_comes_before_overflow() {
    let mut encoder = RecordEncoder::begin(0xFFFF_FFFF);
    assert_eq!(encoder.push_chunk(&[0u8; 300]), Err(EncodeError::ChunkTooLong));
}
