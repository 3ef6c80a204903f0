//! The bytes of the wire format, checked against the encoding functions of
//! the `prost` crate, and the reading rules of the format.

use monaka_vfs::protocol::{
    frame_length, frame_message, from_proto_request, from_proto_response_bytes,
    to_proto_request_bytes, ErrorCode, Request,
    Response, RpcRequestMessage,
};
use monaka_vfs::vfs;
use prost::encoding::{encode_key, encode_varint, WireType};

fn nested(tag: u32, body: &[u8], buf: &mut Vec<u8>) {
    encode_key(tag, WireType::LengthDelimited, buf);
    encode_varint(body.len() as u64, buf);
    buf.extend_from_slice(body);
}

#[test]
fn open_path_bytes_match_protobuf() {
    let msg = RpcRequestMessage {
        session_id: Some("sess".to_string()),
        request: Request::OpenPath { path: "/a/b".to_string(), flags: 0o102 },
    };
    let mut inner = Vec::new();
    prost::encoding::string::encode(1, &"/a/b".to_string(), &mut inner);
    prost::encoding::uint32::encode(2, &0o102u32, &mut inner);
    let mut expected = Vec::new();
    prost::encoding::string::encode(1, &"sess".to_string(), &mut expected);
    nested(3, &inner, &mut expected);
    assert_eq!(to_proto_request_bytes(&msg), expected);
}

#[test]
fn seek_with_negative_offset_matches_protobuf() {
    let msg = RpcRequestMessage {
        session_id: None,
        request: Request::Seek { fd: 4, offset: -1024, whence: -2 },
    };
    let mut inner = Vec::new();
    prost::encoding::uint32::encode(1, &4u32, &mut inner);
    prost::encoding::int64::encode(2, &-1024i64, &mut inner);
    prost::encoding::int32::encode(3, &-2i32, &mut inner);
    let mut expected = Vec::new();
    nested(8, &inner, &mut expected);
    assert_eq!(to_proto_request_bytes(&msg), expected);
}

#[test]
fn fields_left_out_read_as_zero() {
    // A protobuf writer leaves out fields holding their default value.
    let mut expected = Vec::new();
    nested(5, &[], &mut expected);
    let proto = vfs::RpcRequest::decode(&expected).expect("decode");
    assert_eq!(proto.session_id, None);
    match from_proto_request(proto).expect("request").request {
        Request::Read { fd, length } => {
            assert_eq!(fd, 0);
            assert_eq!(length, 0);
        }
        other => panic!("unexpected variant: {:?}", other),
    }
}

#[test]
fn unknown_fields_are_skipped_and_last_value_wins() {
    let mut inner = Vec::new();
    prost::encoding::uint32::encode(1, &3u32, &mut inner);
    prost::encoding::uint32::encode(9, &77u32, &mut inner);
    prost::encoding::string::encode(5, &"ignored".to_string(), &mut inner);
    prost::encoding::uint32::encode(1, &8u32, &mut inner);
    let mut buf = Vec::new();
    prost::encoding::uint64::encode(30, &5u64, &mut buf);
    nested(7, &inner, &mut buf);
    match from_proto_request(vfs::RpcRequest::decode(&buf).expect("decode"))
        .expect("request")
        .request
    {
        Request::Close { fd } => assert_eq!(fd, 8),
        other => panic!("unexpected variant: {:?}", other),
    }
}

#[test]
fn the_last_alternative_wins_and_repeats_merge() {
    let mut first = Vec::new();
    prost::encoding::uint32::encode(1, &1u32, &mut first);
    let mut second = Vec::new();
    prost::encoding::uint32::encode(1, &2u32, &mut second);
    let mut size = Vec::new();
    prost::encoding::uint64::encode(2, &99u64, &mut size);
    let mut buf = Vec::new();
    nested(7, &first, &mut buf); // Close { fd: 1 }
    nested(9, &second, &mut buf); // Ftruncate { fd: 2 }
    nested(9, &size, &mut buf); // Ftruncate { size: 99 }, merged
    match from_proto_request(vfs::RpcRequest::decode(&buf).expect("decode"))
        .expect("request")
        .request
    {
        Request::Ftruncate { fd, size } => {
            assert_eq!(fd, 2);
            assert_eq!(size, 99);
        }
        other => panic!("unexpected variant: {:?}", other),
    }
}

#[test]
fn invalid_utf8_path_is_refused() {
    let mut inner = Vec::new();
    prost::encoding::bytes::encode(1, &vec![0xc3u8, 0x28], &mut inner);
    let mut buf = Vec::new();
    nested(10, &inner, &mut buf);
    assert!(vfs::RpcRequest::decode(&buf).is_err());
}

#[test]
fn truncated_field_is_refused() {
    let mut buf = Vec::new();
    encode_key(10, WireType::LengthDelimited, &mut buf);
    encode_varint(5, &mut buf);
    buf.extend_from_slice(b"ab");
    assert!(vfs::RpcRequest::decode(&buf).is_err());
    assert_eq!(
        from_proto_response_bytes(&buf).err(),
        Some(ErrorCode::SerializationError)
    );
}

#[test]
fn wrong_wire_type_is_refused() {
    let mut inner = Vec::new();
    prost::encoding::string::encode(1, &"x".to_string(), &mut inner);
    let mut buf = Vec::new();
    nested(7, &inner, &mut buf); // Close.fd must be a varint
    assert!(vfs::RpcRequest::decode(&buf).is_err());
}

#[test]
fn empty_message_has_no_request() {
    let proto = vfs::RpcRequest::decode(&[]).expect("decode");
    assert!(proto.session_id.is_none());
    assert!(proto.request.is_none());
    assert_eq!(
        from_proto_request(proto).err(),
        Some("Missing request")
    );
}

#[test]
fn metadata_reply_matches_protobuf() {
    let mut inner = Vec::new();
    prost::encoding::uint64::encode(1, &1024u64, &mut inner);
    prost::encoding::uint64::encode(2, &7u64, &mut inner);
    prost::encoding::uint64::encode(3, &9u64, &mut inner);
    prost::encoding::bool::encode(4, &true, &mut inner);
    let mut buf = Vec::new();
    nested(7, &inner, &mut buf);
    match from_proto_response_bytes(&buf).expect("decode") {
        Response::Metadata { metadata } => {
            assert_eq!(metadata.size, 1024);
            assert_eq!(metadata.created, 7);
            assert_eq!(metadata.modified, 9);
            assert!(metadata.is_dir);
        }
        other => panic!("unexpected variant: {:?}", other),
    }
}

#[test]
fn ok_reply_is_an_empty_nested_message() {
    let bytes = monaka_vfs::protocol::to_proto_response(Response::Success).encode_to_vec();
    assert_eq!(bytes, vec![0x12, 0x00]);
}

#[test]
fn varint_of_largest_value_reads_back() {
    let msg = RpcRequestMessage {
        session_id: None,
        request: Request::Ftruncate { fd: u32::MAX, size: u64::MAX },
    };
    let bytes = to_proto_request_bytes(&msg);
    match from_proto_request(vfs::RpcRequest::decode(&bytes).expect("decode"))
        .expect("request")
        .request
    {
        Request::Ftruncate { fd, size } => {
            assert_eq!(fd, u32::MAX);
            assert_eq!(size, u64::MAX);
        }
        other => panic!("unexpected variant: {:?}", other),
    }
}

#[test]
fn overlong_varint_is_refused() {
    // Eleven bytes with the continuation bit: no varint is that long.
    let mut buf = vec![0x08u8];
    buf.extend_from_slice(&[0xffu8; 10]);
    buf.push(0x01);
    assert!(vfs::RpcRequest::decode(&buf).is_err());
}

#[test]
fn fsync_round_trips() {
    let msg = RpcRequestMessage { session_id: Some("s".into()), request: Request::Fsync { fd: 5 } };
    let bytes = to_proto_request_bytes(&msg);
    match from_proto_request(vfs::RpcRequest::decode(&bytes).expect("decode"))
        .expect("request")
        .request
    {
        Request::Fsync { fd } => assert_eq!(fd, 5),
        other => panic!("unexpected variant: {:?}", other),
    }
}

#[test]
fn busy_and_conflict_codes_round_trip() {
    for code in [ErrorCode::Busy, ErrorCode::Conflict] {
        let bytes = monaka_vfs::protocol::to_proto_response(Response::Error {
            code,
            message: "m".into(),
        })
        .encode_to_vec();
        match from_proto_response_bytes(&bytes).expect("decode") {
            Response::Error { code: c, .. } => assert_eq!(c, code),
            other => panic!("unexpected variant: {:?}", other),
        }
    }
    assert_eq!(ErrorCode::Busy.code(), 13);
    assert_eq!(ErrorCode::Conflict.code(), 14);
    assert_eq!(ErrorCode::NotFound.as_str(), "Not found");
}

#[test]
fn frames_carry_a_big_endian_length() {
    let f = frame_message(&[7, 8, 9]);
    assert_eq!(f, vec![0, 0, 0, 3, 7, 8, 9]);
    assert_eq!(frame_length([0, 0, 1, 2]), 258);
    assert_eq!(frame_length([1, 0, 0, 0]), 16777216);
    let big = vec![0u8; 70000];
    let f = frame_message(&big);
    assert_eq!(&f[..4], &70000u32.to_be_bytes());
    assert_eq!(frame_length([f[0], f[1], f[2], f[3]]), 70000);
    assert_eq!(frame_message(&[]), vec![0, 0, 0, 0]);
}
