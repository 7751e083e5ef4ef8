use std::sync::Arc;
use bytes::Bytes;
use m3u_filter::chunked_buffer::ChunkedBuffer;
use m3u_filter::ts_stream::{is_valid_mpeg_ts_package, TsPacketizer, TsStep};
use m3u_filter::video_stream::{custom_video_headers, CustomVideoStream, FreezeFrameStream};

#[test]
fn test_buffer() {
    let buffer: Vec<u8> = (0..20000).map(|x| (x % 256) as u8).collect();
    let mut chunked_buffer = ChunkedBuffer::new(Arc::new(buffer.clone()));

    let mut index: usize = 0;
    while let Some(chunk) = chunked_buffer.next_chunk() {
        for &byte in chunk.iter() {
            let expected_value = buffer[index % buffer.len()];
            assert_eq!(byte, expected_value, "Wrong value {byte} != {expected_value} at index {index} detected!");
            index += 1;
        }
        if index > 400000 {
            break;
        }
    }
    assert_eq!(buffer.len(), index);
}

#[test]
fn chunked_buffer_chunk_sizes() {
    let mut cb = ChunkedBuffer::new(Arc::new(vec![7u8; 8192 * 2 + 5]));
    assert_eq!(cb.next_chunk().map(|c| c.len()), Some(8192));
    assert_eq!(cb.next_chunk().map(|c| c.len()), Some(8192));
    assert_eq!(cb.next_chunk().map(|c| c.len()), Some(5));
    assert!(cb.next_chunk().is_none());
    let mut empty = ChunkedBuffer::new(Arc::new(Vec::new()));
    assert!(empty.next_chunk().is_none());
}

#[test]
fn custom_video_loops() {
    let data: Vec<u8> = (0..10000u32).map(|x| (x % 251) as u8).collect();
    let mut stream = CustomVideoStream::new(Arc::new(data.clone()));
    let first = stream.next_chunk().unwrap();
    assert_eq!(&first[..], &data[..8192]);
    let second = stream.next_chunk().unwrap();
    assert_eq!(&second[..], &data[8192..]);
    let third = stream.next_chunk().unwrap();
    assert_eq!(&third[..], &data[..8192]);
    let mut empty = CustomVideoStream::new(Arc::new(Vec::new()));
    assert!(empty.next_chunk().is_none());
}

#[test]
fn freeze_frame_repeats() {
    let frame = vec![1u8, 2, 3];
    let mut stream = FreezeFrameStream::new(200, Arc::new(frame.clone()));
    for _ in 0..3 {
        assert_eq!(stream.next_chunk().unwrap(), Bytes::from(frame.clone()));
    }
}

#[test]
fn custom_video_header_selection() {
    let headers = vec![
        ("content-type".to_string(), "text/html".to_string()),
        ("x-server".to_string(), "a".to_string()),
        ("content-length".to_string(), "12".to_string()),
        ("accept-ranges".to_string(), "bytes".to_string()),
        ("cache-control".to_string(), "no-cache".to_string()),
    ];
    let result = custom_video_headers(&headers);
    assert_eq!(
        result,
        vec![
            ("x-server".to_string(), "a".to_string()),
            ("cache-control".to_string(), "no-cache".to_string()),
            ("content-type".to_string(), "video/mp2t".to_string()),
        ]
    );
}

fn packet(fill: u8) -> Vec<u8> {
    let mut p = vec![fill; 188];
    p[0] = 0x47;
    p
}

#[test]
fn ts_packet_validity() {
    assert!(is_valid_mpeg_ts_package(&packet(1)));
    assert!(is_valid_mpeg_ts_package(&[0x47u8]));
    let mut bad = packet(1);
    bad[0] = 0x46;
    assert!(!is_valid_mpeg_ts_package(&bad));
}

#[test]
fn ts_packetizer_splits_packets() {
    let mut ts = TsPacketizer::new();
    assert!(matches!(ts.step(), TsStep::NeedData));
    let mut data = vec![0u8; 188];
    data.extend(packet(3));
    data.extend(packet(4));
    data.extend(vec![0x47u8, 9u8]);
    ts.push_chunk(&Bytes::from(data));
    assert!(matches!(ts.step(), TsStep::Skipped));
    match ts.step() {
        TsStep::Packet(b) => assert_eq!(b.to_vec(), packet(3)),
        _ => panic!("expected a packet"),
    }
    match ts.step() {
        TsStep::Packet(b) => assert_eq!(b.to_vec(), packet(4)),
        _ => panic!("expected a packet"),
    }
    assert!(matches!(ts.step(), TsStep::NeedData));
}

#[test]
fn ts_packetizer_drops_invalid_after_valid() {
    let mut ts = TsPacketizer::new();
    let mut data = packet(5);
    data.extend(vec![1u8; 188]);
    data.extend(packet(6));
    ts.push_chunk(&Bytes::from(data));
    assert!(matches!(ts.step(), TsStep::Packet(_)));
    assert!(matches!(ts.step(), TsStep::Skipped));
    match ts.step() {
        TsStep::Packet(b) => assert_eq!(b.to_vec(), packet(6)),
        _ => panic!("expected a packet"),
    }
    assert!(matches!(ts.step(), TsStep::NeedData));
}

#[test]
fn successive_reads_hand_out_the_buffer_in_order() {
    let buffer: Vec<u8> = (0..20000).map(|x| (x % 251) as u8).collect();
    let mut reader = ChunkedBuffer::new(Arc::new(buffer.clone()));
    let first = reader.next_chunk().expect("first chunk");
    let second = reader.next_chunk().expect("second chunk");
    let third = reader.next_chunk().expect("third chunk");
    assert_eq!(first.len(), 8192);
    assert_eq!(second.len(), 8192);
    assert_eq!(third.len(), 20000 - 2 * 8192);
    let mut joined: Vec<u8> = Vec::new();
    joined.extend_from_slice(&first);
    joined.extend_from_slice(&second);
    joined.extend_from_slice(&third);
    assert_eq!(joined, buffer);
    assert!(reader.next_chunk().is_none());
    assert!(reader.next_chunk().is_none());
}

#[test]
fn empty_buffer_gives_no_chunk() {
    let mut reader = ChunkedBuffer::new(Arc::new(Vec::new()));
    assert!(reader.next_chunk().is_none());
    let mut frozen = FreezeFrameStream::new(200, Arc::new(Vec::new()));
    assert!(frozen.next_chunk().is_none());
    let mut video = CustomVideoStream::new(Arc::new(Vec::new()));
    assert!(video.next_chunk().is_none());
}
