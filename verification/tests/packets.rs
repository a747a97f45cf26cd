use blocky::decoder::Decoder;
use blocky::encoder::Encoder;
use blocky::handshake::Handshake;
use blocky::login::{
    CookieRequest, CookieResponse, Disconnect, EncryptionRequest, EncryptionResponse,
    LoginAcknowledged, LoginPluginRequest, LoginPluginResponse, LoginStart, LoginSuccess,
    LoginSuccessProperty, SetCompression,
};
use blocky::packet::PacketFlow;
use blocky::status::{PingRequest, PongResponse, StatusRequest, StatusResponse};
use blocky::types::{
    LengthInferredVecU8, LengthPrefixedVec, LengthPrefixedVecU8, Uuid, VarInt,
};

#[test]
fn test_handshake_end_to_end() {
    let packet = Handshake {
        protocol_version: VarInt(765),
        server_address: String::from("localhost"),
        server_port: 25565,
        next_state: VarInt(2),
    };
    let bytes = packet.to_bytes().unwrap();
    assert_eq!(bytes.len(), packet.byte_len());
    let back = Handshake::from_bytes(&bytes).unwrap();
    assert_eq!(back.protocol_version, VarInt(765));
    assert_eq!(back.server_address, "localhost");
    assert_eq!(back.server_port, 25565);
    assert_eq!(back.next_state, VarInt(2));
}

#[test]
fn test_handshake_field_order() {
    let packet = Handshake {
        protocol_version: VarInt(1),
        server_address: String::from("a"),
        server_port: 0x0102,
        next_state: VarInt(1),
    };
    let bytes = packet.to_bytes().unwrap();
    assert_eq!(bytes, vec![1, 1, b'a', 0x01, 0x02, 1]);
}

#[test]
fn test_status_response_round_trip() {
    let packet = StatusResponse { status: String::from("{\"online\":true}") };
    let bytes = packet.to_bytes().unwrap();
    let back = StatusResponse::from_bytes(&bytes).unwrap();
    assert_eq!(back.status, "{\"online\":true}");
}

#[test]
fn test_status_request_is_empty() {
    let bytes = StatusRequest.to_bytes().unwrap();
    assert!(bytes.is_empty());
    assert!(StatusRequest::from_bytes(&[]).is_ok());
}

#[test]
fn test_ping_pong_round_trip() {
    let ping = PingRequest { time: 0x1122334455667788 };
    let bytes = ping.to_bytes().unwrap();
    assert_eq!(bytes, vec![0x11, 0x22, 0x33, 0x44, 0x55, 0x66, 0x77, 0x88]);
    let back = PingRequest::from_bytes(&bytes).unwrap();
    assert_eq!(back.time, 0x1122334455667788);
    let pong = PongResponse { time: back.time };
    let echoed = PongResponse::from_bytes(&pong.to_bytes().unwrap()).unwrap();
    assert_eq!(echoed.time, ping.time);
}

#[test]
fn test_disconnect_round_trip() {
    let packet = Disconnect { reason: String::from("outdated client") };
    let back = Disconnect::from_bytes(&packet.to_bytes().unwrap()).unwrap();
    assert_eq!(back.reason, "outdated client");
}

#[test]
fn test_encryption_request_round_trip() {
    let packet = EncryptionRequest {
        server_id: String::from(""),
        public_key: LengthPrefixedVecU8::new(vec![1, 2, 3]),
        verify_token: LengthPrefixedVecU8::new(vec![4, 5, 6, 7]),
        should_authenticate: true,
    };
    let bytes = packet.to_bytes().unwrap();
    assert_eq!(bytes, vec![0, 3, 1, 2, 3, 4, 4, 5, 6, 7, 1]);
    let back = EncryptionRequest::from_bytes(&bytes).unwrap();
    assert_eq!(back.server_id, "");
    assert_eq!(back.public_key.0, vec![1, 2, 3]);
    assert_eq!(back.verify_token.0, vec![4, 5, 6, 7]);
    assert!(back.should_authenticate);
}

#[test]
fn test_encryption_response_round_trip() {
    let packet = EncryptionResponse {
        shared_secret: LengthPrefixedVec::new(vec![0xAA, 0xBB]),
        verify_token: LengthPrefixedVec::new(vec![0xCC]),
    };
    let bytes = packet.to_bytes().unwrap();
    assert_eq!(bytes, vec![2, 0xAA, 0xBB, 1, 0xCC]);
    let back = EncryptionResponse::from_bytes(&bytes).unwrap();
    assert_eq!(back.shared_secret.0, vec![0xAA, 0xBB]);
    assert_eq!(back.verify_token.0, vec![0xCC]);
}

#[test]
fn test_login_success_round_trip() {
    let packet = LoginSuccess {
        uuid: Uuid::from_u128(42),
        username: String::from("steve"),
        properties: LengthPrefixedVec::new(vec![
            LoginSuccessProperty {
                name: String::from("textures"),
                value: String::from("abc"),
                signature: Some(String::from("sig")),
            },
            LoginSuccessProperty {
                name: String::from("cape"),
                value: String::from("xyz"),
                signature: None,
            },
        ]),
        strict_error_handling: false,
    };
    let bytes = packet.to_bytes().unwrap();
    assert_eq!(bytes.len(), packet.byte_len());
    let back = LoginSuccess::from_bytes(&bytes).unwrap();
    assert_eq!(back.uuid.as_u128(), 42);
    assert_eq!(back.username, "steve");
    assert_eq!(back.properties.0.len(), 2);
    assert_eq!(back.properties.0[0].name, "textures");
    assert_eq!(back.properties.0[0].value, "abc");
    assert_eq!(back.properties.0[0].signature, Some(String::from("sig")));
    assert_eq!(back.properties.0[1].name, "cape");
    assert_eq!(back.properties.0[1].signature, None);
    assert!(!back.strict_error_handling);
}

#[test]
fn test_set_compression_round_trip() {
    let packet = SetCompression { threshold: VarInt(256) };
    let back = SetCompression::from_bytes(&packet.to_bytes().unwrap()).unwrap();
    assert_eq!(back.threshold, VarInt(256));
}

#[test]
fn test_login_plugin_request_round_trip() {
    let packet = LoginPluginRequest {
        message_id: VarInt(9),
        channel: String::from("blocky:brand"),
        data: LengthInferredVecU8(vec![1, 2, 3, 4, 5]),
    };
    let bytes = packet.to_bytes().unwrap();
    let back = LoginPluginRequest::from_bytes(&bytes).unwrap();
    assert_eq!(back.message_id, VarInt(9));
    assert_eq!(back.channel, "blocky:brand");
    assert_eq!(back.data.0, vec![1, 2, 3, 4, 5]);
}

#[test]
fn test_login_plugin_response_round_trip() {
    let packet = LoginPluginResponse {
        message_id: VarInt(9),
        success: true,
        data: LengthInferredVecU8(vec![]),
    };
    let bytes = packet.to_bytes().unwrap();
    let back = LoginPluginResponse::from_bytes(&bytes).unwrap();
    assert_eq!(back.message_id, VarInt(9));
    assert!(back.success);
    assert!(back.data.0.is_empty());
}

#[test]
fn test_login_start_round_trip() {
    let packet = LoginStart {
        name: String::from("alex"),
        uuid: Uuid::from_u128(0xFEEDFACE),
    };
    let back = LoginStart::from_bytes(&packet.to_bytes().unwrap()).unwrap();
    assert_eq!(back.name, "alex");
    assert_eq!(back.uuid.as_u128(), 0xFEEDFACE);
}

#[test]
fn test_login_acknowledged_is_empty() {
    let bytes = LoginAcknowledged.to_bytes().unwrap();
    assert!(bytes.is_empty());
    assert!(LoginAcknowledged::from_bytes(&[]).is_ok());
}

#[test]
fn test_cookie_round_trip() {
    let request = CookieRequest { key: String::from("blocky:session") };
    let back = CookieRequest::from_bytes(&request.to_bytes().unwrap()).unwrap();
    assert_eq!(back.key, "blocky:session");

    let with_payload = CookieResponse {
        key: String::from("blocky:session"),
        payload: Some(LengthPrefixedVecU8::new(vec![1, 2])),
    };
    let back = CookieResponse::from_bytes(&with_payload.to_bytes().unwrap()).unwrap();
    assert_eq!(back.key, "blocky:session");
    assert_eq!(back.payload.map(|p| p.0), Some(vec![1, 2]));

    let without_payload = CookieResponse { key: String::from("k"), payload: None };
    let back = CookieResponse::from_bytes(&without_payload.to_bytes().unwrap()).unwrap();
    assert!(back.payload.is_none());
}

#[test]
fn test_packet_flow_values() {
    assert_ne!(PacketFlow::Clientbound, PacketFlow::Serverbound);
    assert_eq!(PacketFlow::Clientbound, PacketFlow::Clientbound.clone());
}
