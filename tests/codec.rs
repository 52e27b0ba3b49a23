use msgpack_codec::frame::FrameCodec;
use msgpack_codec::{Builder, CodecError, MsgPackCodec};

fn sample_values() -> Vec<rmpv::Value> {
    vec![
        rmpv::Value::Nil,
        rmpv::Value::from(true),
        rmpv::Value::from(false),
        rmpv::Value::from(0u8),
        rmpv::Value::from(127u8),
        rmpv::Value::from(-1i64),
        rmpv::Value::from(-33i64),
        rmpv::Value::from(300u16),
        rmpv::Value::from(u64::MAX),
        rmpv::Value::from(i64::MIN),
        rmpv::Value::from(1.5f32),
        rmpv::Value::from(-2.25f64),
        rmpv::Value::from("hello"),
        rmpv::Value::from(""),
        rmpv::Value::from(vec![1u8, 2, 3]),
        rmpv::Value::Array(vec![]),
        rmpv::Value::Array(vec![rmpv::Value::from(1u8), rmpv::Value::from("x"), rmpv::Value::Nil]),
        rmpv::Value::Map(vec![
            (rmpv::Value::from("b"), rmpv::Value::from(2u8)),
            (rmpv::Value::from("a"), rmpv::Value::from(1u8)),
            (rmpv::Value::from("b"), rmpv::Value::from(3u8)),
        ]),
        rmpv::Value::Ext(5, vec![9, 8, 7]),
        rmpv::Value::Array(vec![rmpv::Value::Map(vec![(
            rmpv::Value::from(1u8),
            rmpv::Value::Array(vec![rmpv::Value::from(2.0f64)]),
        )])]),
    ]
}

#[test]
fn test_simple_value() {
    let test_items = vec![(123.321f32, vec![0u8, 0, 0, 5, 202, 66, 246, 164, 90])];

    for (val, expected) in test_items.into_iter() {
        let val = rmpv::Value::from(val);

        let mut buf = Vec::with_capacity(100);
        rmpv::encode::write_value(&mut buf, &val).unwrap();
        assert_eq!(&buf[..], &expected[4..]);

        let mut codec = MsgPackCodec::new();
        let mut bytes = Vec::new();
        codec.encode(val.clone(), &mut bytes).unwrap();

        assert_eq!(bytes, expected);
    }
}

#[test]
fn float_frame_decodes_to_the_float() {
    let mut codec = MsgPackCodec::new();
    let mut src = vec![0u8, 0, 0, 5, 0xCA, 0x42, 0xF6, 0xA4, 0x5A];
    let v = codec.decode(&mut src).unwrap().unwrap();
    assert_eq!(v, rmpv::Value::F32(123.321f32));
    assert!(src.is_empty());
}

#[test]
fn empty_array_frame() {
    let mut codec = MsgPackCodec::new();
    let mut dst = Vec::new();
    codec.encode(rmpv::Value::Array(vec![]), &mut dst).unwrap();
    assert_eq!(dst, vec![0u8, 0, 0, 1, 0x90]);
    let v = codec.decode(&mut dst).unwrap();
    assert_eq!(v, Some(rmpv::Value::Array(vec![])));
    assert!(dst.is_empty());
}

#[test]
fn values_round_trip() {
    let mut codec = MsgPackCodec::new();
    for v in sample_values() {
        let mut buf = Vec::new();
        codec.encode(v.clone(), &mut buf).unwrap();
        let back = codec.decode(&mut buf).unwrap();
        assert_eq!(back, Some(v));
        assert!(buf.is_empty());
    }
}

#[test]
fn values_round_trip_with_custom_framing() {
    let mut b = MsgPackCodec::builder();
    b.length_field_length(2).length_field_offset(3).max_frame_length(1000);
    let mut codec: MsgPackCodec = b.into();
    for v in sample_values() {
        let mut buf = Vec::new();
        codec.encode(v.clone(), &mut buf).unwrap();
        assert_eq!(&buf[..3], &[0u8, 0, 0]);
        let len = ((buf[3] as usize) << 8) | buf[4] as usize;
        assert_eq!(len, buf.len() - 5);
        assert_eq!(codec.decode(&mut buf).unwrap(), Some(v));
        assert!(buf.is_empty());
    }
}

#[test]
fn chunked_delivery_matches_whole() {
    let mut codec = MsgPackCodec::new();
    let mut stream = Vec::new();
    let values = sample_values();
    for v in values.iter() {
        codec.encode(v.clone(), &mut stream).unwrap();
    }
    for chunk_len in [1usize, 2, 3, 7, 64] {
        let mut acc = Vec::new();
        let mut got = Vec::new();
        for chunk in stream.chunks(chunk_len) {
            acc.extend_from_slice(chunk);
            while let Some(v) = codec.decode(&mut acc).unwrap() {
                got.push(v);
            }
        }
        assert_eq!(got, values);
        assert!(acc.is_empty());
    }
}

#[test]
fn incomplete_decode_is_idempotent() {
    let mut codec = MsgPackCodec::new();
    let partials: Vec<Vec<u8>> = vec![vec![], vec![0, 0], vec![0, 0, 0, 3], vec![0, 0, 0, 3, 0x92, 1]];
    for p in partials {
        let mut src = p.clone();
        for _ in 0..3 {
            assert_eq!(codec.decode(&mut src), Ok(None));
            assert_eq!(src, p);
        }
    }
}

#[test]
fn oversized_decode_is_rejected() {
    let mut codec = MsgPackCodec::builder().max_frame_length(4).build();
    let mut src = vec![0u8, 0, 0, 5, 0xCA, 0x42, 0xF6, 0xA4, 0x5A];
    assert_eq!(codec.decode(&mut src), Err(CodecError::FrameTooLarge));
    assert_eq!(src.len(), 9);
    // Once the caller drops the rejected bytes, a frame that fits decodes.
    src.clear();
    src.extend_from_slice(&[0, 0, 0, 1, 0x90]);
    assert_eq!(codec.decode(&mut src), Ok(Some(rmpv::Value::Array(vec![]))));
}

#[test]
fn oversized_encode_is_rejected() {
    let mut codec = MsgPackCodec::new();
    codec.set_max_frame_length(4);
    assert_eq!(codec.max_frame_length(), 4);
    let mut dst = vec![7u8];
    assert_eq!(codec.encode(rmpv::Value::from(123.321f32), &mut dst), Err(CodecError::FrameTooLarge));
    assert_eq!(dst, vec![7u8]);
    codec.encode(rmpv::Value::from(1u8), &mut dst).unwrap();
    assert_eq!(dst, vec![7u8, 0, 0, 0, 1, 1]);
}

#[test]
fn length_that_overflows_the_field_is_rejected() {
    let mut b = Builder::default();
    b.length_field_length(1);
    let codec = b.build();
    let frames = FrameCodec::new(usize::MAX, 1, 0);
    let mut dst = Vec::new();
    assert_eq!(frames.encode_frame(&[0u8; 256], &mut dst), Err(CodecError::FrameTooLarge));
    assert!(dst.is_empty());
    frames.encode_frame(&[1u8; 255], &mut dst).unwrap();
    assert_eq!(dst.len(), 256);
    assert_eq!(dst[0], 255);
    assert_eq!(codec.max_frame_length(), usize::MAX);
}

#[test]
fn pipelined_frames() {
    let mut codec = MsgPackCodec::new();
    let mut src = Vec::new();
    codec.encode(rmpv::Value::from("first"), &mut src).unwrap();
    codec.encode(rmpv::Value::from(42u8), &mut src).unwrap();
    assert_eq!(codec.decode(&mut src), Ok(Some(rmpv::Value::from("first"))));
    assert_eq!(codec.decode(&mut src), Ok(Some(rmpv::Value::from(42u8))));
    assert!(src.is_empty());
    assert_eq!(codec.decode(&mut src), Ok(None));
}

#[test]
fn malformed_payload_is_a_decode_error() {
    let mut codec = MsgPackCodec::new();
    let mut short_array = vec![0u8, 0, 0, 2, 0x92, 0x01, 0, 0, 0, 1, 0x90];
    assert_eq!(codec.decode(&mut short_array), Err(CodecError::Decode));
    assert_eq!(short_array, vec![0u8, 0, 0, 1, 0x90]);
    let mut truncated = vec![0u8, 0, 0, 2, 0xCA, 0x42];
    assert_eq!(codec.decode(&mut truncated), Err(CodecError::Decode));
    let mut empty = vec![0u8, 0, 0, 0];
    assert_eq!(codec.decode(&mut empty), Err(CodecError::Decode));
    assert!(empty.is_empty());
}

#[test]
fn frame_codec_exact_bytes() {
    let frames = FrameCodec::new(100, 3, 2);
    assert_eq!(frames.length_field_length(), 3);
    assert_eq!(frames.length_field_offset(), 2);
    let mut dst = Vec::new();
    frames.encode_frame(&[0xAB, 0xCD], &mut dst).unwrap();
    assert_eq!(dst, vec![0u8, 0, 0, 0, 2, 0xAB, 0xCD]);
    frames.encode_frame(&[], &mut dst).unwrap();
    assert_eq!(dst, vec![0u8, 0, 0, 0, 2, 0xAB, 0xCD, 0, 0, 0, 0, 0]);
    assert_eq!(frames.decode_frame(&mut dst), Ok(Some(vec![0xAB, 0xCD])));
    assert_eq!(frames.decode_frame(&mut dst), Ok(Some(vec![])));
    assert!(dst.is_empty());
}

#[test]
fn frame_codec_reads_big_endian_lengths() {
    let frames = FrameCodec::new(1000, 2, 0);
    let mut src = vec![0x01u8, 0x02];
    src.extend(std::iter::repeat(7u8).take(0x0102));
    src.push(9);
    let p = frames.decode_frame(&mut src).unwrap().unwrap();
    assert_eq!(p.len(), 0x0102);
    assert_eq!(src, vec![9u8]);
    let mut big = vec![0x03u8, 0xE9, 0];
    assert_eq!(frames.decode_frame(&mut big), Err(CodecError::FrameTooLarge));
    assert_eq!(big, vec![0x03u8, 0xE9, 0]);
}

#[test]
fn exact_encodings_with_default_framing() {
    let mut codec = MsgPackCodec::new();
    let cases: Vec<(rmpv::Value, Vec<u8>)> = vec![
        (
            rmpv::Value::Map(vec![(rmpv::Value::from("a"), rmpv::Value::from(1u8))]),
            vec![0, 0, 0, 4, 0x81, 0xA1, 0x61, 0x01],
        ),
        (rmpv::Value::from(256u64), vec![0, 0, 0, 3, 0xCD, 0x01, 0x00]),
        (rmpv::Value::from(-1i64), vec![0, 0, 0, 1, 0xFF]),
        (rmpv::Value::F64(1.0), vec![0, 0, 0, 9, 0xCB, 0x3F, 0xF0, 0, 0, 0, 0, 0, 0]),
    ];
    for (v, expected) in cases {
        let mut dst = Vec::new();
        assert_eq!(codec.encode(v, &mut dst), Ok(()));
        assert_eq!(dst, expected);
    }
}

#[test]
fn payload_equal_to_maximum_is_accepted() {
    let mut b = MsgPackCodec::builder();
    b.max_frame_length(1);
    let mut codec = MsgPackCodec::from(b);
    let mut dst = Vec::new();
    assert_eq!(codec.encode(rmpv::Value::Nil, &mut dst), Ok(()));
    assert_eq!(dst, vec![0u8, 0, 0, 1, 0xC0]);
    assert_eq!(codec.encode(rmpv::Value::from(123.321f32), &mut dst), Err(CodecError::FrameTooLarge));
    assert_eq!(dst, vec![0u8, 0, 0, 1, 0xC0]);
}

#[test]
fn two_byte_length_field() {
    let mut b = MsgPackCodec::builder();
    b.length_field_length(2);
    let mut codec = MsgPackCodec::from(b);
    let mut dst = Vec::new();
    assert_eq!(codec.encode(rmpv::Value::Nil, &mut dst), Ok(()));
    assert_eq!(dst, vec![0u8, 1, 0xC0]);
    assert_eq!(codec.decode(&mut dst), Ok(Some(rmpv::Value::Nil)));
    assert!(dst.is_empty());
}
