use yava::archive::{archive, extract, make_header};
use yava::container::{decode, encode, separator_bytes, Header};
use yava::digest::digest;
use yava::error::ContainerError;
use yava::rewrite::{random_hex_checksum, rewrite, rewrite_random};
use yava::xz;

fn hex_str(bytes: &[u8]) -> String {
    String::from_utf8(bytes.to_vec()).unwrap()
}

#[test]
fn round_trip_restores_payload_and_extension() {
    let payload: Vec<u8> = b"some document body, twice: some document body".to_vec();
    let ext: Vec<u8> = b"txt".to_vec();
    let (header, container) = archive(&payload, &ext).unwrap();
    assert_eq!(header.extension, ext);
    assert_eq!(header.checksum, digest(&payload));
    let (back_header, back_payload) = extract(&container).unwrap();
    assert_eq!(back_payload, payload);
    assert_eq!(back_header.extension, ext);
    assert_eq!(back_header.checksum, header.checksum);
    assert_eq!(back_header.date, header.date);
}

#[test]
fn empty_payload_round_trips_with_empty_input_digest() {
    let payload: Vec<u8> = Vec::new();
    let ext: Vec<u8> = b"txt".to_vec();
    let (header, container) = archive(&payload, &ext).unwrap();
    assert_eq!(
        hex_str(&header.checksum),
        "e3b0c44298fc1c149afbf4c8996fb92427ae41e4649b934ca495991b7852b855"
    );
    let (back_header, back_payload) = extract(&container).unwrap();
    assert_eq!(back_payload.len(), 0);
    assert_eq!(back_header.extension, ext);
    assert_eq!(back_header.checksum, header.checksum);
}

#[test]
fn digest_matches_known_sha256_value() {
    let d = digest(&b"abc".to_vec());
    assert_eq!(
        hex_str(&d),
        "ba7816bf8f01cfea414140de5dae2223b00361a396177a9cb410ff61f20015ad"
    );
}

#[test]
fn digest_is_stable_and_separates_inputs() {
    let p1: Vec<u8> = b"first payload".to_vec();
    let p2: Vec<u8> = b"second payload".to_vec();
    assert_eq!(digest(&p1), digest(&p1));
    assert_ne!(digest(&p1), digest(&p2));
}

#[test]
fn compression_round_trips_raw_bytes() {
    let data: Vec<u8> = (0u16..2048).map(|n| (n % 251) as u8).collect();
    let packed = xz::compress(&data).unwrap();
    let unpacked = xz::decompress(&packed).unwrap();
    assert_eq!(unpacked, data);
}

#[test]
fn garbage_bytes_are_a_codec_error() {
    let garbage: Vec<u8> = b"this is not an xz stream at all".to_vec();
    assert_eq!(decode(&garbage).unwrap_err(), ContainerError::Codec);
    assert_eq!(extract(&garbage).unwrap_err(), ContainerError::Codec);
}

#[test]
fn truncated_stream_is_a_codec_error() {
    let payload: Vec<u8> = b"payload".to_vec();
    let (_, container) = archive(&payload, &b"bin".to_vec()).unwrap();
    let truncated: Vec<u8> = container[..container.len() / 2].to_vec();
    assert_eq!(decode(&truncated).unwrap_err(), ContainerError::Codec);
}

#[test]
fn content_without_separator_is_a_format_error() {
    let plain: Vec<u8> = b"no marker anywhere in this stream".to_vec();
    let container = xz::compress(&plain).unwrap();
    assert_eq!(decode(&container).unwrap_err(), ContainerError::Format);
    assert_eq!(extract(&container).unwrap_err(), ContainerError::Format);
}

#[test]
fn payload_holding_the_separator_is_rejected_on_decode() {
    let mut payload: Vec<u8> = b"before".to_vec();
    payload.extend_from_slice(&separator_bytes());
    payload.extend_from_slice(b"after");
    let (_, container) = archive(&payload, &b"bin".to_vec()).unwrap();
    assert_eq!(decode(&container).unwrap_err(), ContainerError::Format);
}

#[test]
fn missing_header_lines_fall_back_to_defaults() {
    let mut plain: Vec<u8> = separator_bytes();
    plain.extend_from_slice(b"bare payload");
    let container = xz::compress(&plain).unwrap();
    let (header, payload) = decode(&container).unwrap();
    assert_eq!(header.extension, b"unknown".to_vec());
    assert_eq!(header.date, Vec::<u8>::new());
    assert_eq!(header.checksum, Vec::<u8>::new());
    assert_eq!(payload, b"bare payload".to_vec());
    assert_eq!(extract(&container).unwrap_err(), ContainerError::Integrity);
}

#[test]
fn tampered_checksum_fails_closed() {
    let payload: Vec<u8> = b"important bytes".to_vec();
    let (_, container) = archive(&payload, &b"pdf".to_vec()).unwrap();
    let forged = rewrite(&container, b"deadbeef".to_vec()).unwrap();
    assert_eq!(extract(&forged).unwrap_err(), ContainerError::Integrity);
    // the payload itself is still intact under the forged header
    let (header, back) = decode(&forged).unwrap();
    assert_eq!(back, payload);
    assert_eq!(header.checksum, b"deadbeef".to_vec());
}

#[test]
fn rewrite_changes_only_the_checksum() {
    let payload: Vec<u8> = b"unchanged payload".to_vec();
    let (original_header, container) = archive(&payload, &b"log".to_vec()).unwrap();
    let new_checksum: Vec<u8> = b"0123456789abcdef".to_vec();
    let rewritten = rewrite(&container, new_checksum.clone()).unwrap();
    let (header, back) = decode(&rewritten).unwrap();
    assert_eq!(back, payload);
    assert_eq!(header.extension, original_header.extension);
    assert_eq!(header.date, original_header.date);
    assert_eq!(header.checksum, new_checksum);
}

#[test]
fn rewrite_of_garbage_reports_the_decode_error() {
    let garbage: Vec<u8> = b"not a container".to_vec();
    assert_eq!(
        rewrite(&garbage, b"deadbeef".to_vec()).unwrap_err(),
        ContainerError::Codec
    );
}

#[test]
fn random_rewrite_keeps_the_payload() {
    let payload: Vec<u8> = b"payload under a random checksum".to_vec();
    let (_, container) = archive(&payload, &b"dat".to_vec()).unwrap();
    let (rewritten, checksum) = rewrite_random(&container).unwrap();
    assert_eq!(checksum.len(), 64);
    assert!(checksum
        .iter()
        .all(|c| (b'0'..=b'9').contains(c) || (b'a'..=b'f').contains(c)));
    let (header, back) = decode(&rewritten).unwrap();
    assert_eq!(back, payload);
    assert_eq!(header.checksum, checksum);
}

#[test]
fn random_checksums_have_hex_shape() {
    let a = random_hex_checksum();
    let b = random_hex_checksum();
    assert_eq!(a.len(), 64);
    assert_eq!(b.len(), 64);
    assert!(a
        .iter()
        .all(|c| (b'0'..=b'9').contains(c) || (b'a'..=b'f').contains(c)));
}

#[test]
fn encode_accepts_a_hand_built_header() {
    let header = Header {
        extension: b"md".to_vec(),
        date: b"2024-05-06 07:08:09 UTC".to_vec(),
        checksum: digest(&b"text".to_vec()),
    };
    let container = encode(&header, &b"text".to_vec()).unwrap();
    let (back, payload) = extract(&container).unwrap();
    assert_eq!(back.extension, b"md".to_vec());
    assert_eq!(back.date, b"2024-05-06 07:08:09 UTC".to_vec());
    assert_eq!(payload, b"text".to_vec());
}

#[test]
fn header_dates_come_out_clean() {
    let header = make_header(&b"x".to_vec(), &b"txt".to_vec());
    assert!(header.date.iter().all(|&c| c != b'\n'));
    assert!(!header.date.windows(3).any(|w| w == b"---"));
}
