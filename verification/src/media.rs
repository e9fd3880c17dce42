//! Binary framing of camera frames and audio chunks.
//!
//! A video packet is the tag `MEDIA_VIDEO_JPEG`, the timestamp as a big-endian
//! `u32`, width and height as big-endian `u16`, then the JPEG bytes.
//! An audio packet is the tag `MEDIA_AUDIO_PCM`, the timestamp as a big-endian
//! `u32`, the channel count, the sample rate as a big-endian `u32`, then the PCM bytes.
use vstd::prelude::*;
use vstd::slice::slice_subrange;

verus! {

/// First byte of a video packet.
pub const MEDIA_VIDEO_JPEG: u8 = 1;

/// First byte of an audio packet.
pub const MEDIA_AUDIO_PCM: u8 = 2;

/// Bytes before the JPEG payload of a video packet.
pub const VIDEO_HEADER_LEN: usize = 9;

/// Bytes before the PCM payload of an audio packet.
pub const AUDIO_HEADER_LEN: usize = 10;

/// Big-endian bytes of a `u16`.
pub open spec fn be16(v: u16) -> Seq<u8> {
    seq![(v / 0x100) as u8, (v % 0x100) as u8]
}

/// Big-endian bytes of a `u32`.
pub open spec fn be32(v: u32) -> Seq<u8> {
    seq![
        (v / 0x100_0000) as u8,
        ((v / 0x1_0000) % 0x100) as u8,
        ((v / 0x100) % 0x100) as u8,
        (v % 0x100) as u8,
    ]
}

/// The `u16` whose big-endian bytes are `s[at]`, `s[at + 1]`.
pub open spec fn be16_at(s: Seq<u8>, at: int) -> u16 {
    (s[at] * 0x100 + s[at + 1]) as u16
}

/// The `u32` whose big-endian bytes are `s[at] .. s[at + 3]`.
pub open spec fn be32_at(s: Seq<u8>, at: int) -> u32 {
    (s[at] * 0x100_0000 + s[at + 1] * 0x1_0000 + s[at + 2] * 0x100 + s[at + 3]) as u32
}

/// The bytes of a video packet.
pub open spec fn video_bytes(timestamp_ms: u32, width: u16, height: u16, jpeg: Seq<u8>) -> Seq<u8> {
    seq![MEDIA_VIDEO_JPEG] + be32(timestamp_ms) + be16(width) + be16(height) + jpeg
}

/// The bytes of an audio packet.
pub open spec fn audio_bytes(timestamp_ms: u32, channels: u8, sample_rate: u32, pcm: Seq<u8>) -> Seq<u8> {
    seq![MEDIA_AUDIO_PCM] + be32(timestamp_ms) + seq![channels] + be32(sample_rate) + pcm
}

/// Whether `packet` is read as a video packet: long enough for the header and tagged as video.
pub open spec fn is_video_packet(packet: Seq<u8>) -> bool {
    packet.len() >= VIDEO_HEADER_LEN && packet[0] == MEDIA_VIDEO_JPEG
}

/// Whether `packet` is read as an audio packet: long enough for the header and tagged as audio.
pub open spec fn is_audio_packet(packet: Seq<u8>) -> bool {
    packet.len() >= AUDIO_HEADER_LEN && packet[0] == MEDIA_AUDIO_PCM
}

/// What a video packet reads as: timestamp, width, height and JPEG bytes.
pub open spec fn read_video(packet: Seq<u8>) -> Option<(u32, u16, u16, Seq<u8>)> {
    if is_video_packet(packet) {
        Some((
            be32_at(packet, 1),
            be16_at(packet, 5),
            be16_at(packet, 7),
            packet.subrange(VIDEO_HEADER_LEN as int, packet.len() as int),
        ))
    } else {
        None
    }
}

/// What an audio packet reads as: timestamp, channels, sample rate and PCM bytes.
pub open spec fn read_audio(packet: Seq<u8>) -> Option<(u32, u8, u32, Seq<u8>)> {
    if is_audio_packet(packet) {
        Some((
            be32_at(packet, 1),
            packet[5],
            be32_at(packet, 6),
            packet.subrange(AUDIO_HEADER_LEN as int, packet.len() as int),
        ))
    } else {
        None
    }
}

/// A decoded video packet; `jpeg` borrows from the packet it was read from.
#[derive(Debug, Clone, PartialEq, Eq)]
pub struct VideoPacket<'a> {
    pub timestamp_ms: u32,
    pub width: u16,
    pub height: u16,
    pub jpeg: &'a [u8],
}

/// A decoded audio packet; `pcm` borrows from the packet it was read from.
#[derive(Debug, Clone, PartialEq, Eq)]
pub struct AudioPacket<'a> {
    pub timestamp_ms: u32,
    pub channels: u8,
    pub sample_rate: u32,
    pub pcm: &'a [u8],
}

fn push_be16(out: &mut Vec<u8>, v: u16)
    ensures
        final(out)@ == old(out)@ + be16(v),
{
    out.push((v / 0x100) as u8);
    out.push((v % 0x100) as u8);
    assert(final(out)@ =~= old(out)@ + be16(v));
}

fn push_be32(out: &mut Vec<u8>, v: u32)
    ensures
        final(out)@ == old(out)@ + be32(v),
{
    out.push((v / 0x100_0000) as u8);
    out.push(((v / 0x1_0000) % 0x100) as u8);
    out.push(((v / 0x100) % 0x100) as u8);
    out.push((v % 0x100) as u8);
    assert(final(out)@ =~= old(out)@ + be32(v));
}

fn push_all(out: &mut Vec<u8>, bytes: &[u8])
    ensures
        final(out)@ == old(out)@ + bytes@,
{
    let ghost start = out@;
    let mut i: usize = 0;
    while i < bytes.len()
        invariant
            i <= bytes@.len(),
            out@ == start + bytes@.subrange(0, i as int),
        decreases bytes@.len() - i,
    {
        out.push(bytes[i]);
        i = i + 1;
        assert(out@ =~= start + bytes@.subrange(0, i as int));
    }
    assert(bytes@.subrange(0, i as int) =~= bytes@);
}

fn read_be16(packet: &[u8], at: usize) -> (v: u16)
    requires
        at + 2 <= packet@.len(),
    ensures
        v == be16_at(packet@, at as int),
{
    (packet[at] as u16) * 0x100 + (packet[at + 1] as u16)
}

fn read_be32(packet: &[u8], at: usize) -> (v: u32)
    requires
        at + 4 <= packet@.len(),
    ensures
        v == be32_at(packet@, at as int),
{
    (packet[at] as u32) * 0x100_0000 + (packet[at + 1] as u32) * 0x1_0000 + (packet[at + 2] as u32)
        * 0x100 + (packet[at + 3] as u32)
}

/// Frames a JPEG camera frame for the binary channel.
pub fn encode_video(timestamp_ms: u32, width: u16, height: u16, jpeg: &[u8]) -> (packet: Vec<u8>)
    ensures
        packet@ == video_bytes(timestamp_ms, width, height, jpeg@),
{
    let mut packet = Vec::with_capacity(jpeg.len().saturating_add(VIDEO_HEADER_LEN));
    packet.push(MEDIA_VIDEO_JPEG);
    push_be32(&mut packet, timestamp_ms);
    push_be16(&mut packet, width);
    push_be16(&mut packet, height);
    push_all(&mut packet, jpeg);
    assert(packet@ =~= video_bytes(timestamp_ms, width, height, jpeg@));
    packet
}

/// Reads a video packet; `None` unless it has the full header and the video tag.
pub fn decode_video(packet: &[u8]) -> (decoded: Option<VideoPacket<'_>>)
    ensures
        decoded is Some <==> is_video_packet(packet@),
        decoded matches Some(v) ==> read_video(packet@) == Some(
            (v.timestamp_ms, v.width, v.height, v.jpeg@),
        ),
{
    if packet.len() < VIDEO_HEADER_LEN || packet[0] != MEDIA_VIDEO_JPEG {
        return None;
    }
    Some(
        VideoPacket {
            timestamp_ms: read_be32(packet, 1),
            width: read_be16(packet, 5),
            height: read_be16(packet, 7),
            jpeg: slice_subrange(packet, VIDEO_HEADER_LEN, packet.len()),
        },
    )
}

/// Frames a PCM audio chunk for the binary channel.
pub fn encode_audio(timestamp_ms: u32, channels: u8, sample_rate: u32, pcm: &[u8]) -> (packet: Vec<u8>)
    ensures
        packet@ == audio_bytes(timestamp_ms, channels, sample_rate, pcm@),
{
    let mut packet = Vec::with_capacity(pcm.len().saturating_add(AUDIO_HEADER_LEN));
    packet.push(MEDIA_AUDIO_PCM);
    push_be32(&mut packet, timestamp_ms);
    packet.push(channels);
    push_be32(&mut packet, sample_rate);
    push_all(&mut packet, pcm);
    assert(packet@ =~= audio_bytes(timestamp_ms, channels, sample_rate, pcm@));
    packet
}

/// Reads an audio packet; `None` unless it has the full header and the audio tag.
pub fn decode_audio(packet: &[u8]) -> (decoded: Option<AudioPacket<'_>>)
    ensures
        decoded is Some <==> is_audio_packet(packet@),
        decoded matches Some(a) ==> read_audio(packet@) == Some(
            (a.timestamp_ms, a.channels, a.sample_rate, a.pcm@),
        ),
{
    if packet.len() < AUDIO_HEADER_LEN || packet[0] != MEDIA_AUDIO_PCM {
        return None;
    }
    Some(
        AudioPacket {
            timestamp_ms: read_be32(packet, 1),
            channels: packet[5],
            sample_rate: read_be32(packet, 6),
            pcm: slice_subrange(packet, AUDIO_HEADER_LEN, packet.len()),
        },
    )
}

proof fn lemma_be16_value(v: u16)
    ensures
        be16_at(be16(v), 0) == v,
{
    let c0: u16 = v / 0x100;
    let c1: u16 = v % 0x100;
    assert(c0 < 0x100 && c1 < 0x100 && c0 * 0x100 + c1 == v) by (bit_vector)
        requires
            c0 == v / 0x100,
            c1 == v % 0x100,
    ;
}

proof fn lemma_be32_value(v: u32)
    ensures
        be32_at(be32(v), 0) == v,
{
    let c0: u32 = v / 0x100_0000;
    let c1: u32 = (v / 0x1_0000) % 0x100;
    let c2: u32 = (v / 0x100) % 0x100;
    let c3: u32 = v % 0x100;
    assert(c0 < 0x100 && c1 < 0x100 && c2 < 0x100 && c3 < 0x100 && c0 * 0x100_0000 + c1
        * 0x1_0000 + c2 * 0x100 + c3 == v) by (bit_vector)
        requires
            c0 == v / 0x100_0000,
            c1 == (v / 0x1_0000) % 0x100,
            c2 == (v / 0x100) % 0x100,
            c3 == v % 0x100,
    ;
}

proof fn lemma_be16_bytes(s: Seq<u8>, at: int)
    requires
        0 <= at,
        at + 2 <= s.len(),
    ensures
        be16(be16_at(s, at)) == s.subrange(at, at + 2),
{
    let b0 = s[at] as u16;
    let b1 = s[at + 1] as u16;
    let v = be16_at(s, at);
    assert(v == b0 * 0x100 + b1);
    assert(v / 0x100 == b0 && v % 0x100 == b1) by (bit_vector)
        requires
            b0 < 0x100,
            b1 < 0x100,
            v == b0 * 0x100 + b1,
    ;
    assert(be16(v) =~= s.subrange(at, at + 2));
}

proof fn lemma_be32_bytes(s: Seq<u8>, at: int)
    requires
        0 <= at,
        at + 4 <= s.len(),
    ensures
        be32(be32_at(s, at)) == s.subrange(at, at + 4),
{
    let b0 = s[at] as u32;
    let b1 = s[at + 1] as u32;
    let b2 = s[at + 2] as u32;
    let b3 = s[at + 3] as u32;
    let v = be32_at(s, at);
    assert(v == b0 * 0x100_0000 + b1 * 0x1_0000 + b2 * 0x100 + b3);
    assert(v / 0x100_0000 == b0 && (v / 0x1_0000) % 0x100 == b1 && (v / 0x100) % 0x100 == b2 && v
        % 0x100 == b3) by (bit_vector)
        requires
            b0 < 0x100,
            b1 < 0x100,
            b2 < 0x100,
            b3 < 0x100,
            v == b0 * 0x100_0000 + b1 * 0x1_0000 + b2 * 0x100 + b3,
    ;
    assert(be32(v) =~= s.subrange(at, at + 4));
}

/// Reading an encoded video packet gives back the timestamp, size and JPEG bytes that went in.
pub proof fn video_roundtrip(timestamp_ms: u32, width: u16, height: u16, jpeg: Seq<u8>)
    ensures
        read_video(video_bytes(timestamp_ms, width, height, jpeg)) == Some(
            (timestamp_ms, width, height, jpeg),
        ),
{
    let p = video_bytes(timestamp_ms, width, height, jpeg);
    lemma_be32_value(timestamp_ms);
    lemma_be16_value(width);
    lemma_be16_value(height);
    assert(p.subrange(1, 5) =~= be32(timestamp_ms));
    assert(p.subrange(5, 7) =~= be16(width));
    assert(p.subrange(7, 9) =~= be16(height));
    assert(be32_at(p, 1) == be32_at(p.subrange(1, 5), 0));
    assert(be16_at(p, 5) == be16_at(p.subrange(5, 7), 0));
    assert(be16_at(p, 7) == be16_at(p.subrange(7, 9), 0));
    assert(p.subrange(9, p.len() as int) =~= jpeg);
}

/// A packet that reads as video is exactly the encoding of what it reads as: no byte is lost or ignored.
pub proof fn video_reencode(packet: Seq<u8>)
    requires
        is_video_packet(packet),
    ensures
        read_video(packet) matches Some((t, w, h, jpeg)) && video_bytes(t, w, h, jpeg) == packet,
{
    lemma_be32_bytes(packet, 1);
    lemma_be16_bytes(packet, 5);
    lemma_be16_bytes(packet, 7);
    let (t, w, h, jpeg) = read_video(packet).unwrap();
    assert(video_bytes(t, w, h, jpeg) =~= packet);
}

/// Reading an encoded audio packet gives back the timestamp, channels, rate and PCM bytes that went in.
pub proof fn audio_roundtrip(timestamp_ms: u32, channels: u8, sample_rate: u32, pcm: Seq<u8>)
    ensures
        read_audio(audio_bytes(timestamp_ms, channels, sample_rate, pcm)) == Some(
            (timestamp_ms, channels, sample_rate, pcm),
        ),
{
    let p = audio_bytes(timestamp_ms, channels, sample_rate, pcm);
    lemma_be32_value(timestamp_ms);
    lemma_be32_value(sample_rate);
    assert(p.subrange(1, 5) =~= be32(timestamp_ms));
    assert(p.subrange(6, 10) =~= be32(sample_rate));
    assert(be32_at(p, 1) == be32_at(p.subrange(1, 5), 0));
    assert(be32_at(p, 6) == be32_at(p.subrange(6, 10), 0));
    assert(p.subrange(10, p.len() as int) =~= pcm);
}

/// A packet that reads as audio is exactly the encoding of what it reads as.
pub proof fn audio_reencode(packet: Seq<u8>)
    requires
        is_audio_packet(packet),
    ensures
        read_audio(packet) matches Some((t, c, r, pcm)) && audio_bytes(t, c, r, pcm) == packet,
{
    lemma_be32_bytes(packet, 1);
    lemma_be32_bytes(packet, 6);
    let (t, c, r, pcm) = read_audio(packet).unwrap();
    assert(audio_bytes(t, c, r, pcm) =~= packet);
}

/// The tag keeps the two kinds apart: no packet reads as both, an encoded video packet
/// never reads as audio, and an encoded audio packet never reads as video.
pub proof fn kinds_are_distinct(
    packet: Seq<u8>,
    timestamp_ms: u32,
    width: u16,
    height: u16,
    channels: u8,
    sample_rate: u32,
    payload: Seq<u8>,
)
    ensures
        !(is_video_packet(packet) && is_audio_packet(packet)),
        read_audio(video_bytes(timestamp_ms, width, height, payload)) is None,
        read_video(audio_bytes(timestamp_ms, channels, sample_rate, payload)) is None,
{
    assert(video_bytes(timestamp_ms, width, height, payload)[0] == MEDIA_VIDEO_JPEG);
    assert(audio_bytes(timestamp_ms, channels, sample_rate, payload)[0] == MEDIA_AUDIO_PCM);
}

} // verus!
