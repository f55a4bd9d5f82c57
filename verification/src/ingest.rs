//! Ingest framing: one media fragment per unidirectional stream.
//!
//! A stream carries an 8-byte big-endian length prefix, exactly that many
//! header bytes (classified by the codec), and then the raw fragment payload.
//! [`ingest_chunk`] turns one complete stream into its effect on the chunk
//! store: create the buffer for the fragment's cache key where none exists,
//! then append the payload to it.

use vstd::prelude::*;
use vstd::slice::slice_subrange;

use crate::cache::spec_cache_key;
use crate::cache::spec_find_directive;
use crate::codec::get_asset_info;
use crate::codec::spec_leading_byte;
use crate::codec::spec_media_label;
use crate::codec::spec_media_of;
use crate::codec::spec_role_of;
use crate::codec::ChunkRole;
use crate::codec::FileHeader;
use crate::codec::MediaPackager;
use crate::codec::MediaType;
use crate::store::spec_append;
use crate::store::spec_create;
use crate::store::ChunkSnapshot;
use crate::store::MemFiles;

verus! {

/// Rejection of a malformed ingest stream.
#[derive(Clone, Copy, Debug, PartialEq, Eq, Structural)]
pub enum IngestError {
    /// The stream ended before the 8-byte length prefix was complete.
    TruncatedLengthPrefix,
    /// The stream ended before the declared number of header bytes.
    TruncatedHeader,
}

/// Value of the 8-byte big-endian length prefix at the front of `s`.
pub open spec fn spec_be64(s: Seq<u8>) -> int {
    s[0] * 0x100_0000_0000_0000 + s[1] * 0x1_0000_0000_0000 + s[2] * 0x100_0000_0000 + s[3]
        * 0x1_0000_0000 + s[4] * 0x100_0000 + s[5] * 0x1_0000 + s[6] * 0x100 + s[7]
}

/// Read the 8-byte big-endian length prefix.
fn be64_prefix(b: &[u8]) -> (v: u64)
    requires
        b@.len() >= 8,
    ensures
        v == spec_be64(b@),
{
    (b[0] as u64) * 0x100_0000_0000_0000 + (b[1] as u64) * 0x1_0000_0000_0000 + (b[2] as u64)
        * 0x100_0000_0000 + (b[3] as u64) * 0x1_0000_0000 + (b[4] as u64) * 0x100_0000 + (
    b[5] as u64) * 0x1_0000 + (b[6] as u64) * 0x100 + (b[7] as u64)
}

/// Content of one well-formed ingest stream: the classification carried by
/// its leading header byte, and the payload that follows the header region.
pub struct FrameContent {
    pub media: MediaType,
    pub role: ChunkRole,
    pub payload: Seq<u8>,
}

/// Parse of a complete ingest stream. The length prefix must be complete
/// and the declared header region must be present; everything after it is
/// payload. The header codec itself never errors: a zero-length header
/// region classifies as a zeroed byte would, audio and delta.
pub open spec fn spec_parse_frame(s: Seq<u8>) -> Result<FrameContent, IngestError> {
    if s.len() < 8 {
        Err(IngestError::TruncatedLengthPrefix)
    } else {
        let hl = spec_be64(s);
        if 8 + hl > s.len() {
            Err(IngestError::TruncatedHeader)
        } else {
            let b0 = spec_leading_byte(s.subrange(8, 8 + hl));
            Ok(
                FrameContent {
                    media: spec_media_of(b0),
                    role: spec_role_of(b0),
                    payload: s.subrange(8 + hl, s.len() as int),
                },
            )
        }
    }
}

/// Snapshot of the buffer that an ingest stream creates: empty, stamped with
/// the stream's arrival time, and living forever (the ingest framing carries
/// no cache-control text, so the TTL falls back to the unbounded default).
pub open spec fn spec_ingest_snapshot(received_at_ms: u64) -> ChunkSnapshot {
    ChunkSnapshot { data: Seq::<u8>::empty(), received_at_ms, max_age: u64::MAX }
}

/// The store after one well-formed ingest stream for `asset`: the frame's
/// cache key is created where missing and the payload appended under it.
pub open spec fn spec_ingest_effect(
    m: Map<Seq<char>, ChunkSnapshot>,
    asset: Seq<char>,
    f: FrameContent,
    received_at_ms: u64,
) -> Map<Seq<char>, ChunkSnapshot> {
    let key = spec_cache_key(asset, spec_media_label(f.media), f.role is Init);
    spec_append(spec_create(m, key, spec_ingest_snapshot(received_at_ms)), key, f.payload)
}

/// Ingest one complete unidirectional stream into the store: validate the
/// framing, classify the header, derive the cache key, create the buffer
/// where none exists, and append the payload. A malformed stream is rejected
/// and leaves the store untouched; a well-formed one returns its cache key.
pub fn ingest_chunk(
    files: &mut MemFiles,
    asset_id: &str,
    stream: &[u8],
    received_at_ms: u64,
) -> (r: Result<String, IngestError>)
    requires
        old(files).wf(),
    ensures
        final(files).wf(),
        final(files).spec_house_keeping_period_ms() == old(files).spec_house_keeping_period_ms(),
        match spec_parse_frame(stream@) {
            Err(e) => r == Err::<String, IngestError>(e) && final(files)@ == old(files)@,
            Ok(f) => match r {
                Ok(key) => key@ == spec_cache_key(asset_id@, spec_media_label(f.media), f.role is Init)
                    && final(files)@ == spec_ingest_effect(
                    old(files)@,
                    asset_id@,
                    f,
                    received_at_ms,
                ),
                Err(_) => false,
            },
        },
{
    if stream.len() < 8 {
        return Err(IngestError::TruncatedLengthPrefix);
    }
    let header_len = be64_prefix(stream);
    let body_len = stream.len() - 8;
    if header_len > body_len as u64 {
        return Err(IngestError::TruncatedHeader);
    }
    let header_len_us = header_len as usize;
    let header_bytes = slice_subrange(stream, 8, 8 + header_len_us);
    let mut header = FileHeader::new();
    header.timestamp_ms = received_at_ms;
    MediaPackager::decode(header_bytes, &mut header);
    proof {
        if header_len_us > 0 {
            assert(header_bytes@[0] == stream@[8]);
        }
    }
    let (media, is_init) = get_asset_info(&header);
    let ghost decoded_header = header;
    let key = files.add_new_empty_file(
        asset_id,
        media.as_str(),
        is_init,
        header,
        received_at_ms,
    );
    proof {
        assert(spec_find_directive(Seq::<char>::empty(), 0) is None);
        assert(spec_ingest_snapshot(received_at_ms) =~= crate::store::spec_new_snapshot(
            decoded_header,
            received_at_ms,
        ));
        assert(files@.contains_key(key@));
    }
    let payload = slice_subrange(stream, 8 + header_len_us, stream.len());
    match files.append(key.as_str(), payload) {
        Ok(_) => {},
        Err(_) => {
            proof {
                assert(false);
            }
            return Err(IngestError::TruncatedHeader);
        },
    }
    Ok(key)
}

} // verus!
