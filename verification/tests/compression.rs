use hedpack::capability::Capability;
use hedpack::compression::{pack, pack_with, unpack_sized, unpack_to_buf, unpack_to_buf_with, Error};

#[test]
fn pack_matches_unpack1() {
    let original_data = (0..1_000_000)
        .map(|x| (x & 0xFF) as u8)
        .collect::<Vec<u8>>();

    let compressed = match pack(&original_data) {
        Ok(x) => x,
        Err(why) => {
            assert!(false, "Compression error: {:?}", why);
            return;
        }
    };

    let uncompressed = match unpack_sized(&compressed, original_data.len()) {
        Ok(x) => x,
        Err(why) => {
            assert!(false, "Decompression error: {:?}", why);
            return;
        }
    };

    assert_eq!(
        original_data, uncompressed,
        "Original data does not match uncompressed result"
    );
}

#[test]
fn pack_matches_unpack2() {
    let original_data = b"pub fn unpack_sized(src_data: &[u8], size: usize) -> Result<Vec<u8>, Error> {\n\
        let mut dest_data = vec![0u8; size];\n\
        let dest_size = unpack_to_buf(src_data, &mut dest_data)?;\n\
        dest_data.truncate(dest_size);\n\
        Ok(dest_data)\n}\n"
        .repeat(17)
        .to_vec();

    let compressed = match pack(&original_data) {
        Ok(x) => x,
        Err(why) => {
            assert!(false, "Compression error: {:?}", why);
            return;
        }
    };

    let uncompressed = match unpack_sized(&compressed, original_data.len()) {
        Ok(x) => x,
        Err(why) => {
            assert!(false, "Decompression error: {:?}", why);
            return;
        }
    };

    assert_eq!(
        original_data, uncompressed,
        "Original data does not match uncompressed result"
    );
}

#[test]
fn pack_encodes_runs_exactly() {
    assert_eq!(pack(&[1u8, 1, 1, 2]), Ok(vec![3u8, 1, 1, 2]));
    assert_eq!(pack(&[9u8]), Ok(vec![1u8, 9]));
    assert_eq!(pack(&[7u8; 300]), Ok(vec![255u8, 7, 45, 7]));
}

#[test]
fn pack_empty_unpacks_empty() {
    let compressed = pack(&[]).expect("packing an empty payload must succeed");
    assert_eq!(compressed, Vec::<u8>::new());
    let uncompressed = unpack_sized(&compressed, 0).expect("unpacking must succeed");
    assert_eq!(uncompressed, Vec::<u8>::new());
}

#[test]
fn unpack_sized_truncates_to_bytes_written() {
    // [5, 42] decodes to five bytes; asking for up to 10 must yield exactly 5.
    let out = unpack_sized(&[5u8, 42], 10).expect("decoding must succeed");
    assert_eq!(out, vec![42u8; 5]);
}

#[test]
fn unpack_to_buf_writes_prefix_and_reports_length() {
    let mut dest = vec![9u8; 10];
    let written = unpack_to_buf(&[5u8, 42], &mut dest).expect("decoding must succeed");
    assert_eq!(written, 5);
    assert_eq!(dest, vec![42, 42, 42, 42, 42, 9, 9, 9, 9, 9]);
}

#[test]
fn unpack_reports_malformed_input() {
    // A zero count byte is not a well-formed encoding.
    let mut dest = vec![0u8; 8];
    assert_eq!(
        unpack_to_buf(&[0u8, 0], &mut dest),
        Err(Error::ReturnCode(1))
    );
    // An odd-length encoding is not well formed either.
    assert_eq!(unpack_to_buf(&[3u8], &mut dest), Err(Error::ReturnCode(1)));
    assert_eq!(unpack_sized(&[1u8, 2, 3], 8), Err(Error::ReturnCode(1)));
}

#[test]
fn unpack_reports_too_small_output() {
    let mut dest = vec![0u8; 3];
    assert_eq!(
        unpack_to_buf(&[5u8, 42], &mut dest),
        Err(Error::ReturnCode(2))
    );
    assert_eq!(dest.len(), 3, "the output buffer must keep its capacity");
    assert_eq!(unpack_sized(&[5u8, 42], 3), Err(Error::ReturnCode(2)));
}

#[test]
fn unpack_sized_rejects_oversized_capacity() {
    assert_eq!(
        unpack_sized(&[1u8, 2], usize::MAX),
        Err(Error::OutputTooLarge)
    );
}

#[test]
fn repeated_packs_balance_allocations_and_releases() {
    let mut cap = Capability::new();
    let payloads: [&[u8]; 4] = [&[], &[1, 2, 3], &[5; 1000], &[0, 0, 7]];
    for round in 0..25u64 {
        let payload = payloads[(round % 4) as usize];
        let compressed = pack_with(&mut cap, payload).expect("packing must succeed");
        let restored =
            unpack_sized(&compressed, payload.len()).expect("unpacking must succeed");
        assert_eq!(restored, payload.to_vec());
    }
    assert_eq!(cap.allocs, 25, "one allocation per pack call");
    assert_eq!(
        cap.allocs, cap.releases,
        "every capability-allocated buffer must be released exactly once"
    );
    assert_eq!(cap.unpack_calls, 0, "packing never invokes the unpack entry point");
}

#[test]
fn unpack_to_buf_with_counts_capability_calls() {
    let mut cap = Capability::new();
    let mut dest = vec![0u8; 4];
    let written = unpack_to_buf_with(&mut cap, &[4u8, 8], &mut dest).expect("must succeed");
    assert_eq!(written, 4);
    assert_eq!(dest, vec![8u8; 4]);
    assert_eq!(cap.unpack_calls, 1);
    assert_eq!(cap.allocs, 0, "unpacking allocates no capability buffer");
    assert_eq!(cap.releases, 0);
}

#[test]
fn round_trip_of_highly_repetitive_data() {
    let mut original: Vec<u8> = Vec::new();
    for b in 0..8u8 {
        original.extend(std::iter::repeat(b).take(5000));
    }
    let compressed = pack(&original).expect("packing must succeed");
    assert!(compressed.len() < original.len());
    let restored = unpack_sized(&compressed, original.len()).expect("unpacking must succeed");
    assert_eq!(restored, original);
}
