//! Chunk header codec: classify the leading byte of an ingested fragment.
//!
//! The two high bits of the leading byte select the media type (`01` means
//! video, every other pattern audio) and the next two bits select the chunk
//! role (`01` means key, `10` means init, anything else delta). Decoding is
//! total: every byte value maps to a defined classification.

use vstd::prelude::*;

verus! {

/// Media type carried by a chunk, made explicit rather than inferred
/// from loose bit masks at each use site.
#[derive(Clone, Copy, Debug, PartialEq, Eq, Structural)]
pub enum MediaType {
    Audio,
    Video,
}

/// Role of a chunk within a stream: a keyframe segment, an initialization
/// segment, or an ordinary delta segment (the default for unknown patterns).
#[derive(Clone, Copy, Debug, PartialEq, Eq, Structural)]
pub enum ChunkRole {
    Key,
    Init,
    Delta,
}

/// Media type encoded in the two high bits of a header byte.
pub open spec fn spec_media_of(b: u8) -> MediaType {
    if b & 0xc0 == 0x40 {
        MediaType::Video
    } else {
        MediaType::Audio
    }
}

/// Chunk role encoded in bits 4 and 5 of a header byte.
pub open spec fn spec_role_of(b: u8) -> ChunkRole {
    if b & 0x30 == 0x10 {
        ChunkRole::Key
    } else if b & 0x30 == 0x20 {
        ChunkRole::Init
    } else {
        ChunkRole::Delta
    }
}

/// Decode the leading header byte into its media type and chunk role.
/// Total: every byte value yields a classification; there is no reject path.
pub fn decode_header(b: u8) -> (r: (MediaType, ChunkRole))
    ensures
        r.0 == spec_media_of(b),
        r.1 == spec_role_of(b),
{
    let media = if b & 0xc0 == 0x40 {
        MediaType::Video
    } else {
        MediaType::Audio
    };
    let role = if b & 0x30 == 0x10 {
        ChunkRole::Key
    } else if b & 0x30 == 0x20 {
        ChunkRole::Init
    } else {
        ChunkRole::Delta
    };
    (media, role)
}

/// Header byte that encodes the given classification, with all other bits
/// clear: the inverse of [`decode_header`] on its range.
pub open spec fn spec_encode_header(media: MediaType, role: ChunkRole) -> u8 {
    (match media {
        MediaType::Video => 0x40u8,
        MediaType::Audio => 0x00u8,
    }) | (match role {
        ChunkRole::Key => 0x10u8,
        ChunkRole::Init => 0x20u8,
        ChunkRole::Delta => 0x00u8,
    })
}

/// Encode a classification into a single header byte, symmetric to
/// [`decode_header`].
pub fn encode_header(media: MediaType, role: ChunkRole) -> (b: u8)
    ensures
        b == spec_encode_header(media, role),
{
    let m: u8 = match media {
        MediaType::Video => 0x40,
        MediaType::Audio => 0x00,
    };
    let r: u8 = match role {
        ChunkRole::Key => 0x10,
        ChunkRole::Init => 0x20,
        ChunkRole::Delta => 0x00,
    };
    m | r
}

/// Classifying a byte twice yields the same result: decoding is a function
/// of the byte alone, so any two results of [`decode_header`] on the same
/// byte coincide.
pub proof fn lemma_decode_header_deterministic(
    b: u8,
    r1: (MediaType, ChunkRole),
    r2: (MediaType, ChunkRole),
)
    requires
        r1 == (spec_media_of(b), spec_role_of(b)),
        r2 == (spec_media_of(b), spec_role_of(b)),
    ensures
        r1 == r2,
{
}

/// Label under which a media type appears inside a cache key.
pub open spec fn spec_media_label(m: MediaType) -> Seq<char> {
    match m {
        MediaType::Video => seq!['v', 'i', 'd', 'e', 'o'],
        MediaType::Audio => seq!['a', 'u', 'd', 'i', 'o'],
    }
}

/// The textual name of a media type, as used in cache keys.
pub fn media_label(m: MediaType) -> (s: &'static str)
    ensures
        s@ == spec_media_label(m),
{
    match m {
        MediaType::Video => {
            let s = "video";
            proof {
                reveal_strlit("video");
                assert(s@ =~= spec_media_label(MediaType::Video));
            }
            s
        },
        MediaType::Audio => {
            let s = "audio";
            proof {
                reveal_strlit("audio");
                assert(s@ =~= spec_media_label(MediaType::Audio));
            }
            s
        },
    }
}

/// Decoded header of one ingested chunk: its classification, the free-text
/// cache-control directive string, and the capture time in milliseconds.
pub struct FileHeader {
    pub cache_control: String,
    pub media_type: MediaType,
    pub chunk_role: ChunkRole,
    pub timestamp_ms: u64,
}

impl FileHeader {
    /// A header before decoding: no cache-control text, the codec's default
    /// classification, and capture time zero (the caller stamps it).
    pub fn new() -> (h: FileHeader)
        ensures
            h.cache_control@ == Seq::<char>::empty(),
            h.media_type == MediaType::Audio,
            h.chunk_role == ChunkRole::Delta,
            h.timestamp_ms == 0,
    {
        FileHeader {
            cache_control: String::new(),
            media_type: MediaType::Audio,
            chunk_role: ChunkRole::Delta,
            timestamp_ms: 0,
        }
    }
}

/// The byte a header region is classified by: its first byte, or zero for
/// an empty region, which classifies as audio/delta like any other byte with
/// all bits clear.
pub open spec fn spec_leading_byte(s: Seq<u8>) -> u8 {
    if s.len() > 0 {
        s[0]
    } else {
        0
    }
}

/// Decoder for the binary header region of an ingested chunk.
pub struct MediaPackager;

impl MediaPackager {
    /// Decode the header region into `header`: its leading byte fixes the
    /// media type and chunk role, other fields are left as they were.
    /// Decoding is total and never errors: an empty region classifies as a
    /// zeroed byte would, audio and delta.
    pub fn decode(header_bytes: &[u8], header: &mut FileHeader)
        ensures
            final(header).media_type == spec_media_of(spec_leading_byte(header_bytes@)),
            final(header).chunk_role == spec_role_of(spec_leading_byte(header_bytes@)),
            final(header).cache_control == old(header).cache_control,
            final(header).timestamp_ms == old(header).timestamp_ms,
    {
        let b = if header_bytes.len() > 0 {
            header_bytes[0]
        } else {
            0
        };
        let (media, role) = decode_header(b);
        header.media_type = media;
        header.chunk_role = role;
    }
}

/// Media label and init flag of a decoded header, as the store's key
/// derivation consumes them: the chunk counts as an initialization segment
/// exactly where its role says so.
pub fn get_asset_info(header: &FileHeader) -> (r: (String, bool))
    ensures
        r.0@ == spec_media_label(header.media_type),
        r.1 == (header.chunk_role is Init),
{
    let media = media_label(header.media_type).to_owned();
    let is_init = match header.chunk_role {
        ChunkRole::Init => true,
        _ => false,
    };
    (media, is_init)
}

/// Decoding inverts encoding: every classification survives a round trip
/// through its header byte.
pub proof fn lemma_header_round_trip(media: MediaType, role: ChunkRole)
    ensures
        spec_media_of(spec_encode_header(media, role)) == media,
        spec_role_of(spec_encode_header(media, role)) == role,
{
    let b = spec_encode_header(media, role);
    match media {
        MediaType::Video => {
            match role {
                ChunkRole::Key => {
                    assert(0x40u8 | 0x10u8 == 0x50u8) by (bit_vector);
                    assert(0x50u8 & 0xc0 == 0x40u8) by (bit_vector);
                    assert(0x50u8 & 0x30 == 0x10u8) by (bit_vector);
                },
                ChunkRole::Init => {
                    assert(0x40u8 | 0x20u8 == 0x60u8) by (bit_vector);
                    assert(0x60u8 & 0xc0 == 0x40u8) by (bit_vector);
                    assert(0x60u8 & 0x30 == 0x20u8) by (bit_vector);
                },
                ChunkRole::Delta => {
                    assert(0x40u8 | 0x00u8 == 0x40u8) by (bit_vector);
                    assert(0x40u8 & 0xc0 == 0x40u8) by (bit_vector);
                    assert(0x40u8 & 0x30 == 0x00u8) by (bit_vector);
                },
            }
        },
        MediaType::Audio => {
            match role {
                ChunkRole::Key => {
                    assert(0x00u8 | 0x10u8 == 0x10u8) by (bit_vector);
                    assert(0x10u8 & 0xc0 == 0x00u8) by (bit_vector);
                    assert(0x10u8 & 0x30 == 0x10u8) by (bit_vector);
                },
                ChunkRole::Init => {
                    assert(0x00u8 | 0x20u8 == 0x20u8) by (bit_vector);
                    assert(0x20u8 & 0xc0 == 0x00u8) by (bit_vector);
                    assert(0x20u8 & 0x30 == 0x20u8) by (bit_vector);
                },
                ChunkRole::Delta => {
                    assert(0x00u8 | 0x00u8 == 0x00u8) by (bit_vector);
                    assert(0x00u8 & 0xc0 == 0x00u8) by (bit_vector);
                    assert(0x00u8 & 0x30 == 0x00u8) by (bit_vector);
                },
            }
        },
    }
}

} // verus!
