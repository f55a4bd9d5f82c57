use majiix_backend::codec::decode_header;
use majiix_backend::codec::encode_header;
use majiix_backend::codec::get_asset_info;
use majiix_backend::codec::media_label;
use majiix_backend::codec::ChunkRole;
use majiix_backend::codec::FileHeader;
use majiix_backend::codec::MediaPackager;
use majiix_backend::codec::MediaType;

#[test]
fn decode_video_key_byte() {
    assert_eq!(decode_header(0b0101_0000), (MediaType::Video, ChunkRole::Key));
}

#[test]
fn decode_audio_init_byte() {
    assert_eq!(decode_header(0b0010_0000), (MediaType::Audio, ChunkRole::Init));
}

#[test]
fn decode_defaults_to_audio_delta() {
    assert_eq!(decode_header(0x00), (MediaType::Audio, ChunkRole::Delta));
}

#[test]
fn decode_unmatched_media_patterns_are_audio() {
    // High bits 00, 10 and 11 all classify as audio; only 01 is video.
    assert_eq!(decode_header(0b0001_0000).0, MediaType::Audio);
    assert_eq!(decode_header(0b1001_0000).0, MediaType::Audio);
    assert_eq!(decode_header(0b1101_0000).0, MediaType::Audio);
    assert_eq!(decode_header(0b0101_0000).0, MediaType::Video);
}

#[test]
fn decode_role_bits() {
    assert_eq!(decode_header(0b0001_0000).1, ChunkRole::Key);
    assert_eq!(decode_header(0b0010_0000).1, ChunkRole::Init);
    assert_eq!(decode_header(0b0011_0000).1, ChunkRole::Delta);
    assert_eq!(decode_header(0b0000_0000).1, ChunkRole::Delta);
}

#[test]
fn decode_is_total_and_deterministic() {
    // Every byte value classifies, and classifying twice agrees.
    for b in 0..=255u8 {
        let first = decode_header(b);
        let second = decode_header(b);
        assert_eq!(first, second);
    }
}

#[test]
fn encode_decode_round_trip() {
    let medias = [MediaType::Audio, MediaType::Video];
    let roles = [ChunkRole::Key, ChunkRole::Init, ChunkRole::Delta];
    for &m in medias.iter() {
        for &r in roles.iter() {
            let b = encode_header(m, r);
            assert_eq!(decode_header(b), (m, r));
        }
    }
}

#[test]
fn media_labels() {
    assert_eq!(media_label(MediaType::Video), "video");
    assert_eq!(media_label(MediaType::Audio), "audio");
}

#[test]
fn file_header_defaults() {
    let h = FileHeader::new();
    assert_eq!(h.cache_control, "");
    assert_eq!(h.media_type, MediaType::Audio);
    assert_eq!(h.chunk_role, ChunkRole::Delta);
    assert_eq!(h.timestamp_ms, 0);
}

#[test]
fn packager_decode_classifies_leading_byte() {
    let mut h = FileHeader::new();
    let bytes = vec![0b0101_0000u8, 0xff, 0xff];
    MediaPackager::decode(&bytes, &mut h);
    assert_eq!(h.media_type, MediaType::Video);
    assert_eq!(h.chunk_role, ChunkRole::Key);
}

#[test]
fn packager_decode_empty_region_defaults() {
    // Decoding is total: an empty header region classifies as a zeroed byte
    // would, audio and delta, even over an earlier classification.
    let mut h = FileHeader::new();
    h.media_type = MediaType::Video;
    h.chunk_role = ChunkRole::Key;
    let empty: Vec<u8> = Vec::new();
    MediaPackager::decode(&empty, &mut h);
    assert_eq!(h.media_type, MediaType::Audio);
    assert_eq!(h.chunk_role, ChunkRole::Delta);
}

#[test]
fn asset_info_init_flag_follows_role() {
    let mut h = FileHeader::new();
    h.media_type = MediaType::Video;
    h.chunk_role = ChunkRole::Init;
    let (media, is_init) = get_asset_info(&h);
    assert_eq!(media, "video");
    assert!(is_init);

    h.chunk_role = ChunkRole::Key;
    let (media, is_init) = get_asset_info(&h);
    assert_eq!(media, "video");
    assert!(!is_init);
}
