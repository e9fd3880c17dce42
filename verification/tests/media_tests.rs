use lesson_studio::media::{decode_audio, decode_video, encode_audio, encode_video};

#[test]
fn video_roundtrip() {
    let encoded = encode_video(1_500, 1280, 720, b"jpeg-bytes");
    let decoded = decode_video(&encoded).unwrap();
    assert_eq!(decoded.timestamp_ms, 1_500);
    assert_eq!(decoded.width, 1280);
    assert_eq!(decoded.height, 720);
    assert_eq!(decoded.jpeg, b"jpeg-bytes");
}

#[test]
fn audio_roundtrip() {
    let pcm = vec![0u8, 1, 2, 3];
    let encoded = encode_audio(40, 2, 48_000, &pcm);
    let decoded = decode_audio(&encoded).unwrap();
    assert_eq!(decoded.channels, 2);
    assert_eq!(decoded.sample_rate, 48_000);
    assert_eq!(decoded.pcm, pcm);
}

#[test]
fn video_header_is_big_endian() {
    let encoded = encode_video(1_500, 1280, 720, &[9, 8]);
    assert_eq!(encoded, vec![1, 0, 0, 0x05, 0xdc, 0x05, 0x00, 0x02, 0xd0, 9, 8]);
}

#[test]
fn audio_header_is_big_endian() {
    let encoded = encode_audio(0x0102_0304, 2, 48_000, &[7]);
    assert_eq!(encoded, vec![2, 1, 2, 3, 4, 2, 0, 0, 0xbb, 0x80, 7]);
}

#[test]
fn decoding_reads_fields_from_fixed_offsets() {
    let packet = [1u8, 0xff, 0xfe, 0xfd, 0xfc, 0xab, 0xcd, 0x00, 0x01];
    let decoded = decode_video(&packet).unwrap();
    assert_eq!(decoded.timestamp_ms, 0xfffe_fdfc);
    assert_eq!(decoded.width, 0xabcd);
    assert_eq!(decoded.height, 1);
    assert!(decoded.jpeg.is_empty());
}

#[test]
fn short_packets_are_rejected() {
    assert!(decode_video(&[1, 0, 0, 0, 0, 0, 0, 0]).is_none());
    assert!(decode_audio(&[2, 0, 0, 0, 0, 0, 0, 0, 0]).is_none());
    assert!(decode_video(&[]).is_none());
    assert!(decode_audio(&[]).is_none());
}

#[test]
fn wrong_tag_is_rejected() {
    let video = encode_video(1, 2, 3, b"frame");
    let audio = encode_audio(1, 2, 3, b"chunk");
    assert!(decode_audio(&video).is_none());
    assert!(decode_video(&audio).is_none());
}

#[test]
fn empty_payloads_roundtrip() {
    let video = encode_video(u32::MAX, u16::MAX, 0, &[]);
    assert_eq!(video.len(), 9);
    let v = decode_video(&video).unwrap();
    assert_eq!((v.timestamp_ms, v.width, v.height), (u32::MAX, u16::MAX, 0));
    let audio = encode_audio(0, 0, u32::MAX, &[]);
    assert_eq!(audio.len(), 10);
    let a = decode_audio(&audio).unwrap();
    assert_eq!((a.timestamp_ms, a.channels, a.sample_rate), (0, 0, u32::MAX));
}

#[test]
fn decoded_packet_reencodes_to_the_same_bytes() {
    let packet = vec![1u8, 9, 8, 7, 6, 5, 4, 3, 2, 1, 0];
    let v = decode_video(&packet).unwrap();
    assert_eq!(encode_video(v.timestamp_ms, v.width, v.height, v.jpeg), packet);
}
