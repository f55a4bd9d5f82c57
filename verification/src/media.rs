//! Content-type policy of the static media route: a served file's type is
//! chosen by its extension — `m3u8` is an HLS playlist, `ts` a transport
//! stream segment, everything else an opaque byte stream.

use vstd::prelude::*;

use crate::text::str_eq;

verus! {

/// Kind of content a file extension denotes.
#[derive(Clone, Copy, Debug, PartialEq, Eq, Structural)]
pub enum ContentKind {
    HlsPlaylist,
    TransportStream,
    OctetStream,
}

/// The content kind chosen by a file extension.
pub open spec fn spec_content_kind(ext: Seq<char>) -> ContentKind {
    if ext == seq!['m', '3', 'u', '8'] {
        ContentKind::HlsPlaylist
    } else if ext == seq!['t', 's'] {
        ContentKind::TransportStream
    } else {
        ContentKind::OctetStream
    }
}

/// The content-type header value of a kind.
pub open spec fn spec_content_type_label(k: ContentKind) -> Seq<char> {
    match k {
        ContentKind::HlsPlaylist => seq![
            'a', 'p', 'p', 'l', 'i', 'c', 'a', 't', 'i', 'o', 'n', '/', 'x', '-', 'm', 'p', 'e',
            'g', 'U', 'R', 'L',
        ],
        ContentKind::TransportStream => seq!['v', 'i', 'd', 'e', 'o', '/', 'M', 'P', '2', 'T'],
        ContentKind::OctetStream => seq![
            'a', 'p', 'p', 'l', 'i', 'c', 'a', 't', 'i', 'o', 'n', '/', 'o', 'c', 't', 'e', 't',
            '-', 's', 't', 'r', 'e', 'a', 'm',
        ],
    }
}

/// Classify a file extension (without its dot) into a content kind.
pub fn content_kind_for_extension(ext: &str) -> (k: ContentKind)
    ensures
        k == spec_content_kind(ext@),
{
    proof {
        reveal_strlit("m3u8");
        reveal_strlit("ts");
        assert("m3u8"@ =~= seq!['m', '3', 'u', '8']);
        assert("ts"@ =~= seq!['t', 's']);
    }
    if str_eq(ext, "m3u8") {
        ContentKind::HlsPlaylist
    } else if str_eq(ext, "ts") {
        ContentKind::TransportStream
    } else {
        ContentKind::OctetStream
    }
}

/// The content-type header value to serve for a kind.
pub fn content_type_label(k: ContentKind) -> (s: &'static str)
    ensures
        s@ == spec_content_type_label(k),
{
    match k {
        ContentKind::HlsPlaylist => {
            let s = "application/x-mpegURL";
            proof {
                reveal_strlit("application/x-mpegURL");
                assert(s@ =~= spec_content_type_label(ContentKind::HlsPlaylist));
            }
            s
        },
        ContentKind::TransportStream => {
            let s = "video/MP2T";
            proof {
                reveal_strlit("video/MP2T");
                assert(s@ =~= spec_content_type_label(ContentKind::TransportStream));
            }
            s
        },
        ContentKind::OctetStream => {
            let s = "application/octet-stream";
            proof {
                reveal_strlit("application/octet-stream");
                assert(s@ =~= spec_content_type_label(ContentKind::OctetStream));
            }
            s
        },
    }
}

} // verus!
