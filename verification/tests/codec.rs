use httpcodec::flags;
use httpcodec::frame::{decode_frame, encode_frame, Frame, FrameParseError, FrameType};
use httpcodec::hpack::{
    decode_headers, decode_integer, decode_string, encode_header, encode_headers, encode_integer,
    encode_string, Hpack, HpackContext, HpackError,
};
use httpcodec::huffman::{huffman_decode, huffman_encode};
use httpcodec::int31::Int31;
use httpcodec::payload::{
    DataPayload, FromBytes, FromBytesError, GoAwayPayload, PingPayload, Payload, PriorityPayload,
    SettingsPayload, WindowUpdatePayload,
};
use httpcodec::preface::{Http2Pri, Http2PriErr};
use httpcodec::u24::u24;
use httpcodec::u31::u31;
use httpcodec::wire::Len;

#[test]
fn u24_wire_round_trip() {
    for n in [0u32, 1, 255, 256, 0xFF_FFFF, 0x123456, 0x1FF_FFFF] {
        let v = u24::new(n);
        assert_eq!(u24::from_bytes(v.to_bytes()).to_u32(), v.to_u32());
        assert_eq!(v.to_u32(), n % 0x100_0000);
    }
}

#[test]
fn u31_wire_round_trip() {
    for n in [0u32, 1, 0x7FFF_FFFF, 0x8000_0001, 0x1234_5678] {
        let v = u31::new(n);
        assert_eq!(u31::from_bytes(v.to_bytes()).to_u32(), v.to_u32());
        assert_eq!(v.to_u32(), n % 0x8000_0000);
    }
}

#[test]
fn int31_arithmetic() {
    let a = Int31::new(0x7FFF_FFFF);
    let b = Int31::new(1);
    assert_eq!(a.wrapping_add(b).value(), 0);
    assert_eq!(b.wrapping_sub(a).value(), 2);
    assert_eq!(Int31::new(6).wrapping_mul(Int31::new(7)).value(), 42);
    assert_eq!(Int31::new(42).div(Int31::new(5)).value(), 8);
    assert_eq!(Int31::new(42).rem(Int31::new(5)).value(), 2);
    assert_eq!(Int31::new(0b1100).bitand(Int31::new(0b1010)).value(), 0b1000);
    assert_eq!(Int31::new(0b1100).bitor(Int31::new(0b1010)).value(), 0b1110);
    assert_eq!(Int31::new(0b1100).bitxor(Int31::new(0b1010)).value(), 0b0110);
    assert_eq!(Int31::new(0).not().value(), 0x7FFF_FFFF);
}

#[test]
fn preface_detection() {
    let mut buf = b"PRI * HTTP/2.0\r\n\r\nSM\r\n\r\nrest".to_vec();
    let pri = Http2Pri::read_and_remove(&mut buf).unwrap();
    assert_eq!(pri.content, b"PRI * HTTP/2.0\r\n\r\nSM\r\n\r\n".to_vec());
    assert_eq!(buf, b"rest".to_vec());

    let mut short = b"PRI".to_vec();
    assert!(matches!(
        Http2Pri::read_and_remove(&mut short),
        Err(Http2PriErr::BufferSizeError)
    ));

    let mut wrong = b"GET * HTTP/2.0\r\n\r\nSM\r\n\r\nxx".to_vec();
    assert!(matches!(
        Http2Pri::read_and_remove(&mut wrong),
        Err(Http2PriErr::ParseError)
    ));
}

#[test]
fn hpack_integer_small_is_one_byte() {
    // a value below the prefix capacity is one byte holding the value
    assert_eq!(encode_integer(10, 5), vec![10]);
    assert_eq!(decode_integer(&[10], 5).unwrap(), (10, 1));
}

#[test]
fn hpack_integer_multi_byte() {
    // 1337 with a 5-bit prefix (RFC 7541 C.1.2)
    assert_eq!(encode_integer(1337, 5), vec![31, 154, 10]);
    assert_eq!(decode_integer(&[31, 154, 10], 5).unwrap(), (1337, 3));
}

#[test]
fn hpack_integer_overflow_rejected() {
    let r = decode_integer(&[0x7F, 0xFF, 0xFF, 0xFF, 0xFF, 0x7F], 7);
    assert_eq!(r, Err(HpackError::InvalidIntegerEncoding));
    // continuation runs off the buffer
    let r2 = decode_integer(&[0x1F, 0x80], 5);
    assert_eq!(r2, Err(HpackError::InvalidIntegerEncoding));
}

#[test]
fn hpack_string_overrun_rejected() {
    let r = decode_string(&[0x05, 0x61]);
    assert_eq!(r, Err(HpackError::InvalidStringEncoding));
}

#[test]
fn hpack_indexed_header() {
    // encoding `:method: GET` against an empty context emits 0x82
    let mut ctx = HpackContext::new(4096);
    let bytes = encode_header(b":method", b"GET", &mut ctx);
    assert_eq!(bytes, vec![0x82]);
    assert_eq!(ctx.dynamic_len(), 0);
}

#[test]
fn hpack_literal_new_name() {
    // `custom-key: custom-header` (RFC 7541 C.2.1)
    let mut ctx = HpackContext::new(4096);
    let bytes = encode_header(b"custom-key", b"custom-header", &mut ctx);
    let expected: Vec<u8> = vec![
        0x40, 0x0A, 0x63, 0x75, 0x73, 0x74, 0x6F, 0x6D, 0x2D, 0x6B, 0x65, 0x79, 0x0D, 0x63, 0x75,
        0x73, 0x74, 0x6F, 0x6D, 0x2D, 0x68, 0x65, 0x61, 0x64, 0x65, 0x72,
    ];
    assert_eq!(bytes, expected);
    assert_eq!(ctx.current_size(), 55);
    let front = ctx.entry_at(62).unwrap();
    assert_eq!(front.0, b"custom-key".to_vec());
    assert_eq!(front.1, b"custom-header".to_vec());
}

#[test]
fn hpack_block_round_trip() {
    // headers encoded against one context decode to the same list
    // against an equal context
    let headers: Vec<(Vec<u8>, Vec<u8>)> = vec![
        (b":method".to_vec(), b"GET".to_vec()),
        (b"custom-key".to_vec(), b"custom-header".to_vec()),
        (b"custom-key".to_vec(), b"custom-header".to_vec()),
        (b":path".to_vec(), b"/somewhere".to_vec()),
    ];
    let mut enc = HpackContext::new(4096);
    let mut dec = HpackContext::new(4096);
    let block = encode_headers(&headers, &mut enc);
    let (decoded, size) = decode_headers(&block, &mut dec).unwrap();
    assert_eq!(decoded, headers);
    assert_eq!(enc.current_size(), dec.current_size());
    assert_eq!(enc.dynamic_len(), dec.dynamic_len());
    assert!(size > 0);
}

#[test]
fn hpack_decode_huffman_string() {
    // a literal whose value travels Huffman-coded: `a: www.example.com`
    // with the value bits from RFC 7541 C.4.1
    let mut block: Vec<u8> = vec![0x40, 0x01, 0x61, 0x8C];
    block.extend_from_slice(&[
        0xF1, 0xE3, 0xC2, 0xE5, 0xF2, 0x3A, 0x6B, 0xA0, 0xAB, 0x90, 0xF4, 0xFF,
    ]);
    let mut ctx = HpackContext::new(4096);
    let (decoded, _) = decode_headers(&block, &mut ctx).unwrap();
    assert_eq!(decoded.len(), 1);
    assert_eq!(decoded[0].0, b"a".to_vec());
    assert_eq!(decoded[0].1, b"www.example.com".to_vec());
}

#[test]
fn hpack_encode_string_huffman_flag() {
    let plain = encode_string(b"abc", false).unwrap();
    assert_eq!(plain, vec![0x03, 0x61, 0x62, 0x63]);
    let coded = encode_string(b"www.example.com", true).unwrap();
    assert!(coded[0] & 0x80 != 0);
    let (back, used) = decode_string(&coded).unwrap();
    assert_eq!(back, b"www.example.com".to_vec());
    assert_eq!(used, coded.len());
}

#[test]
fn hpack_invalid_index() {
    let mut ctx = HpackContext::new(4096);
    assert_eq!(
        decode_headers(&[0x80], &mut ctx),
        Err(HpackError::InvalidIndex)
    );
    assert_eq!(
        decode_headers(&[0xC0], &mut ctx),
        Err(HpackError::InvalidIndex)
    );
}

#[test]
fn hpack_table_size_update() {
    let mut enc = HpackContext::new(4096);
    let _ = encode_header(b"custom-key", b"custom-header", &mut enc);
    assert_eq!(enc.current_size(), 55);
    enc.resize(0);
    assert_eq!(enc.current_size(), 0);
    assert_eq!(enc.dynamic_len(), 0);
}

#[test]
fn hpack_oversized_entry_empties_table() {
    // an entry larger than the whole budget empties the table and
    // stores nothing (RFC 7541 section 4.4)
    let mut ctx = HpackContext::new(100);
    let _ = encode_header(b"custom-key", b"custom-header", &mut ctx);
    assert_eq!(ctx.dynamic_len(), 1);
    let big_value = vec![b'x'; 200];
    let _ = encode_header(b"another-key", &big_value, &mut ctx);
    assert_eq!(ctx.dynamic_len(), 0);
    assert_eq!(ctx.current_size(), 0);
}

#[test]
fn hpack_resize_keeps_front_order() {
    let mut ctx = HpackContext::new(4096);
    let _ = encode_header(b"k-one", b"v-one", &mut ctx);
    let _ = encode_header(b"k-two", b"v-two", &mut ctx);
    let _ = encode_header(b"k-three", b"v-three", &mut ctx);
    assert_eq!(ctx.dynamic_len(), 3);
    // keep room for the two newest entries only
    ctx.resize(90);
    assert_eq!(ctx.dynamic_len(), 2);
    assert_eq!(ctx.entry_at(62).unwrap().0, b"k-three".to_vec());
    assert_eq!(ctx.entry_at(63).unwrap().0, b"k-two".to_vec());
    assert!(ctx.current_size() <= 90);
}

#[test]
fn hpack_struct_encode_decode() {
    let headers: Vec<(Vec<u8>, Vec<u8>)> =
        vec![(b"status".to_vec(), b"200 OK".to_vec())];
    let mut enc = HpackContext::new(4096);
    let mut dec = HpackContext::new(4096);
    let mut hp = Hpack::new();
    let bytes = hp.encode(&headers, &mut enc).to_vec();
    assert_eq!(hp.encoded_size(), bytes.len());
    let mut hp2 = Hpack::from_bytes(bytes);
    let (decoded, _) = hp2.decode(&mut dec).unwrap();
    assert_eq!(decoded, headers);
}

#[test]
fn huffman_round_trip_small() {
    for text in [&b"hello"[..], b"", b"a", b"www.example.com", b"\x00\xff\x7f"] {
        let coded = huffman_encode(text);
        let back = huffman_decode(&coded).unwrap();
        assert_eq!(back, text.to_vec());
    }
}

#[test]
fn huffman_known_vector() {
    // RFC 7541 C.4.1
    let coded = huffman_encode(b"www.example.com");
    assert_eq!(
        coded,
        vec![0xF1, 0xE3, 0xC2, 0xE5, 0xF2, 0x3A, 0x6B, 0xA0, 0xAB, 0x90, 0xF4, 0xFF]
    );
}

#[test]
fn huffman_bad_padding() {
    // eight or more padding bits are not a valid sequence
    assert!(huffman_decode(&[0xFF]).is_err());
    assert!(huffman_decode(&[0xFF, 0xFF, 0xFF, 0xFF]).is_err());
}

#[test]
fn frame_data_round_trip() {
    // length 5, type Data, END_STREAM, stream 1, payload `hello`
    let frame = Frame {
        length: u24::new(5),
        frame_type: FrameType::Data,
        flags: flags::DATA_END_STREAM,
        reserved: false,
        stream_id: u31::new(1),
        payload: Payload::Data(DataPayload {
            pad_length: None,
            data: b"hello".to_vec(),
            padding: None,
        }),
    };
    let bytes = encode_frame(&frame);
    assert_eq!(
        bytes,
        vec![0x00, 0x00, 0x05, 0x00, 0x01, 0x00, 0x00, 0x00, 0x01, 0x68, 0x65, 0x6C, 0x6C, 0x6F]
    );
    let (back, used) = decode_frame(&bytes).unwrap();
    assert_eq!(used, 14);
    assert_eq!(back.length.to_u32(), 5);
    assert!(matches!(back.frame_type, FrameType::Data));
    assert_eq!(back.flags, 0x01);
    assert_eq!(back.stream_id.to_u32(), 1);
    match back.payload {
        Payload::Data(d) => {
            assert_eq!(d.data, b"hello".to_vec());
            assert!(d.pad_length.is_none());
        }
        _ => panic!("wrong payload variant"),
    }
}

#[test]
fn frame_settings_wire() {
    let settings = SettingsPayload {
        settings: vec![(1, 4096), (2, 0), (3, 100), (4, 65535), (5, 16384), (6, 50)],
    };
    assert_eq!(settings.binary_len(), 36);
    let payload_bytes = settings.to_bytes();
    assert_eq!(
        &payload_bytes[..12],
        &[0x00, 0x01, 0x00, 0x00, 0x10, 0x00, 0x00, 0x02, 0x00, 0x00, 0x00, 0x00]
    );
    let frame = Frame {
        length: u24::new(36),
        frame_type: FrameType::Settings,
        flags: 0,
        reserved: false,
        stream_id: u31::new(0),
        payload: Payload::Settings(settings),
    };
    let bytes = encode_frame(&frame);
    assert_eq!(bytes.len(), 45);
    assert_eq!(bytes[3], 4);
    let (back, used) = decode_frame(&bytes).unwrap();
    assert_eq!(used, 45);
    match back.payload {
        Payload::Settings(s) => assert_eq!(s.settings.len(), 6),
        _ => panic!("wrong payload variant"),
    }
}

#[test]
fn frame_empty_payloads() {
    // length 0 parses for types that allow empty; Ping does not,
    // Settings ACK requires 0
    let empty_data: Vec<u8> = vec![0, 0, 0, 0, 0, 0, 0, 0, 1];
    assert!(decode_frame(&empty_data).is_ok());

    let empty_settings: Vec<u8> = vec![0, 0, 0, 4, 0, 0, 0, 0, 0];
    assert!(decode_frame(&empty_settings).is_ok());

    let settings_ack: Vec<u8> = vec![0, 0, 0, 4, 1, 0, 0, 0, 0];
    assert!(decode_frame(&settings_ack).is_ok());

    let empty_ping: Vec<u8> = vec![0, 0, 0, 6, 0, 0, 0, 0, 0];
    assert!(matches!(
        decode_frame(&empty_ping),
        Err(FrameParseError::PayloadParseError(
            FromBytesError::InvalidLength
        ))
    ));

    let ack_with_body: Vec<u8> = vec![0, 0, 1, 4, 1, 0, 0, 0, 0, 9];
    assert!(matches!(
        decode_frame(&ack_with_body),
        Err(FrameParseError::PayloadParseError(
            FromBytesError::InvalidLength
        ))
    ));
}

#[test]
fn frame_max_padding_round_trip() {
    // padding of length 255 at the boundary of a Data payload
    let frame = Frame {
        length: u24::new(1 + 4 + 255),
        frame_type: FrameType::Data,
        flags: flags::DATA_PADDED,
        reserved: false,
        stream_id: u31::new(3),
        payload: Payload::Data(DataPayload {
            pad_length: Some(255),
            data: b"body".to_vec(),
            padding: Some(vec![0u8; 255]),
        }),
    };
    let bytes = encode_frame(&frame);
    let (back, used) = decode_frame(&bytes).unwrap();
    assert_eq!(used, bytes.len());
    match back.payload {
        Payload::Data(d) => {
            assert_eq!(d.pad_length, Some(255));
            assert_eq!(d.data, b"body".to_vec());
            assert_eq!(d.padding.unwrap().len(), 255);
        }
        _ => panic!("wrong payload variant"),
    }
    let decoded_again = decode_frame(&bytes).unwrap().0;
    let again = encode_frame(&decoded_again);
    assert_eq!(again, bytes);
}

#[test]
fn frame_short_buffers() {
    assert!(matches!(
        decode_frame(&[0, 0]),
        Err(FrameParseError::InsufficentLength)
    ));
    assert!(matches!(
        decode_frame(&[0, 0, 9, 0, 0, 0, 0, 0, 1, 1]),
        Err(FrameParseError::InsufficentPayloadLength)
    ));
}

#[test]
fn payload_fixed_forms() {
    let prio = <PriorityPayload as FromBytes>::from(vec![0x80, 0, 0, 7, 42], 0).unwrap();
    assert!(prio.exclusive_flag);
    assert_eq!(prio.stream_dependency.to_u32(), 7);
    assert_eq!(prio.weight, 42);
    assert_eq!(prio.to_bytes(), vec![0x80, 0, 0, 7, 42]);

    let ping = <PingPayload as FromBytes>::from(vec![1, 2, 3, 4, 5, 6, 7, 8], 0).unwrap();
    assert_eq!(ping.opaque_data, 0x0102030405060708);
    assert_eq!(ping.to_bytes(), vec![1, 2, 3, 4, 5, 6, 7, 8]);

    let wu = <WindowUpdatePayload as FromBytes>::from(vec![0, 1, 0, 0], 0).unwrap();
    assert_eq!(wu.window_size_increment, 0x10000);

    let ga = <GoAwayPayload as FromBytes>::from(vec![0, 0, 0, 9, 0, 0, 0, 2, 0xAA], 0).unwrap();
    assert_eq!(ga.last_stream_id.to_u32(), 9);
    assert_eq!(ga.error_code, 2);
    assert_eq!(ga.additional_data, vec![0xAA]);
}

#[test]
fn unknown_frame_type_preserved() {
    let bytes: Vec<u8> = vec![0, 0, 2, 77, 0, 0, 0, 0, 1, 0xDE, 0xAD];
    let (frame, used) = decode_frame(&bytes).unwrap();
    assert_eq!(used, 11);
    assert!(matches!(frame.frame_type, FrameType::Unknown));
    match frame.payload {
        Payload::Unknown(b) => assert_eq!(b, vec![0xDE, 0xAD]),
        _ => panic!("wrong payload variant"),
    }
}

#[test]
fn hpack_find_header_prefers_static() {
    // the pair `:method: GET` sits at static index 2; a dynamic copy
    // must not shadow it
    let mut ctx = HpackContext::new(4096);
    ctx.add_header(b":method".to_vec(), b"GET".to_vec());
    assert_eq!(ctx.find_header(b":method", b"GET"), Some(2));
    // the dynamic copy is still reachable for other pairs
    ctx.add_header(b"x-a".to_vec(), b"1".to_vec());
    assert_eq!(ctx.find_header(b"x-a", b"1"), Some(62));
}

#[test]
fn hpack_encode_indexed_leaves_context_unchanged() {
    let mut ctx = HpackContext::new(4096);
    let bytes = encode_header(b":method", b"GET", &mut ctx);
    assert_eq!(bytes, vec![0x82]);
    assert_eq!(ctx.dynamic_len(), 0);
    assert_eq!(ctx.current_size(), 0);
}
