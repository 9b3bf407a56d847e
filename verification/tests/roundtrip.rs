use std::io::Read;

use base64::Engine;
use video_to_df::functions::process_single_frame;
use video_to_df::monoframe::MonoFrame;
use video_to_df::output::compress_and_encode;
use video_to_df::sdf::binary_sdf;

fn inflate(bytes: &[u8]) -> Vec<u8> {
    let mut decoder = flate2::read::ZlibDecoder::new(bytes);
    let mut out = Vec::new();
    decoder.read_to_end(&mut out).unwrap();
    out
}

#[test]
fn compress_and_encode_round_trip() {
    // Decoding the base64 text and inflating the compressed bytes
    // reproduces the original payload exactly.
    let payload: Vec<u8> = (0u16..512).map(|i| (i % 251) as u8).collect();
    let encoded = compress_and_encode(&payload);
    let compressed = base64::engine::general_purpose::STANDARD
        .decode(encoded.as_bytes())
        .unwrap();
    assert_ne!(compressed, payload, "the stream must actually be compressed");
    assert_eq!(inflate(&compressed), payload);
}

#[test]
fn compress_and_encode_empty_payload() {
    let payload: Vec<u8> = Vec::new();
    let encoded = compress_and_encode(&payload);
    let compressed = base64::engine::general_purpose::STANDARD
        .decode(encoded.as_bytes())
        .unwrap();
    assert_eq!(inflate(&compressed), payload);
}

#[test]
fn frame_record_round_trip() {
    // The payload inside a frame record decodes and inflates back to the
    // dual-sided transform of the bordered frame.
    let frame = MonoFrame::new(vec![0, 255, 0, 255], 2, 2);
    let file = process_single_frame(&frame, (4, 4), 6, 1, 255).unwrap();
    assert_eq!(file.path, "7.json");

    let value: serde_json::Value = serde_json::from_str(&file.contents).unwrap();
    let encoded = value["argument"]["argument"]["deflated_frame_data"]
        .as_str()
        .unwrap();
    let compressed = base64::engine::general_purpose::STANDARD
        .decode(encoded.as_bytes())
        .unwrap();
    let recovered = inflate(&compressed);

    let expected = binary_sdf(&frame.add_border(1, 255)).unwrap();
    assert_eq!(recovered, expected.data);
    assert_eq!(value["argument"]["argument"]["x_size"], 4);
    assert_eq!(value["argument"]["argument"]["z_size"], 4);
}

#[test]
fn base64_standard_vectors() {
    // The padding cases of RFC 4648 base64, as the standard engine
    // produces them.
    let engine = &base64::engine::general_purpose::STANDARD;
    assert_eq!(engine.encode([0u8]), "AA==");
    assert_eq!(engine.encode([0u8, 1]), "AAE=");
    assert_eq!(engine.encode([0u8, 1, 2]), "AAEC");
    assert_eq!(engine.encode([251u8, 239, 190]), "++++");
    assert_eq!(engine.encode([255u8, 255, 255, 77]), "////TQ==");
}

#[test]
fn process_single_frame_zero_area() {
    let frame = MonoFrame::new(Vec::new(), 0, 0);
    assert!(matches!(
        process_single_frame(&frame, (0, 0), 0, 0, 0),
        Err(video_to_df::error::ImplError::EmptyDistanceField)
    ));
}
