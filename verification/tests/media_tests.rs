use majiix_backend::media::content_kind_for_extension;
use majiix_backend::media::content_type_label;
use majiix_backend::media::ContentKind;

#[test]
fn extension_classification() {
    assert_eq!(content_kind_for_extension("m3u8"), ContentKind::HlsPlaylist);
    assert_eq!(content_kind_for_extension("ts"), ContentKind::TransportStream);
    assert_eq!(content_kind_for_extension("mp4"), ContentKind::OctetStream);
    assert_eq!(content_kind_for_extension(""), ContentKind::OctetStream);
}

#[test]
fn content_type_labels() {
    assert_eq!(
        content_type_label(ContentKind::HlsPlaylist),
        "application/x-mpegURL"
    );
    assert_eq!(content_type_label(ContentKind::TransportStream), "video/MP2T");
    assert_eq!(
        content_type_label(ContentKind::OctetStream),
        "application/octet-stream"
    );
}
