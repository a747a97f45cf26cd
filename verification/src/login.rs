//! The login phase: the packets that carry authentication, encryption
//! setup, compression settings, plugin channels and cookies between
//! client and server.
use vstd::prelude::*;

use crate::decoder::Decoder;
use crate::encoder::{lemma_prefix_reflexive, lemma_prefix_transitive, string_wire, Encoder};
use crate::error::CodecError;
use crate::packet::Packet;
use crate::types::{LengthInferredVecU8, LengthPrefixedVec, LengthPrefixedVecU8, Uuid, VarInt};

verus! {

/// The clientbound disconnect: the reason shown to the player.
pub struct Disconnect {
    pub reason: String,
}

impl DeepView for Disconnect {
    type V = Seq<char>;

    open spec fn deep_view(&self) -> Seq<char> {
        self.reason@
    }
}

impl Encoder for Disconnect {
    open spec fn wire(&self) -> Seq<u8> {
        string_wire(self.reason@)
    }

    open spec fn encodable(&self) -> bool {
        self.reason.encodable()
    }

    fn byte_len(&self) -> (r: usize) {
        self.reason.byte_len()
    }

    fn encode(&self, buf: &mut Vec<u8>) -> (r: Result<(), CodecError>) {
        self.reason.encode(buf)
    }
}

impl Decoder for Disconnect {
    open spec fn spec_decode(s: Seq<u8>, i: int) -> Result<(Seq<char>, int), CodecError> {
        String::spec_decode(s, i)
    }

    fn decode(buf: &[u8], pos: &mut usize) -> (r: Result<Self, CodecError>) {
        match String::decode(buf, pos) {
            Ok(reason) => Ok(Disconnect { reason }),
            Err(e) => Err(e),
        }
    }
}

impl Packet for Disconnect {

}

/// The clientbound encryption request: server id, public key, verify
/// token, and whether the client must authenticate.
pub struct EncryptionRequest {
    pub server_id: String,
    pub public_key: LengthPrefixedVecU8<VarInt>,
    pub verify_token: LengthPrefixedVecU8<VarInt>,
    pub should_authenticate: bool,
}

impl DeepView for EncryptionRequest {
    type V = (Seq<char>, Seq<u8>, Seq<u8>, bool);

    open spec fn deep_view(&self) -> (Seq<char>, Seq<u8>, Seq<u8>, bool) {
        (self.server_id@, self.public_key.0@, self.verify_token.0@, self.should_authenticate)
    }
}

impl Encoder for EncryptionRequest {
    open spec fn wire(&self) -> Seq<u8> {
        string_wire(self.server_id@) + self.public_key.wire() + self.verify_token.wire()
            + self.should_authenticate.wire()
    }

    open spec fn encodable(&self) -> bool {
        self.server_id.encodable() && self.public_key.encodable() && self.verify_token.encodable()
    }

    fn byte_len(&self) -> (r: usize) {
        self.server_id.byte_len() + self.public_key.byte_len() + self.verify_token.byte_len()
            + self.should_authenticate.byte_len()
    }

    fn encode(&self, buf: &mut Vec<u8>) -> (r: Result<(), CodecError>) {
        let ghost pre = buf@;
        proof {
            lemma_prefix_reflexive(pre);
        }
        let ghost b0 = buf@;
        let r0 = self.server_id.encode(buf);
        proof {
            lemma_prefix_transitive(pre, b0, buf@);
        }
        match r0 {
            Ok(()) => {},
            Err(e) => {
                return Err(e);
            },
        }
        let ghost b1 = buf@;
        let r1 = self.public_key.encode(buf);
        proof {
            lemma_prefix_transitive(pre, b1, buf@);
        }
        match r1 {
            Ok(()) => {},
            Err(e) => {
                return Err(e);
            },
        }
        let ghost b2 = buf@;
        let r2 = self.verify_token.encode(buf);
        proof {
            lemma_prefix_transitive(pre, b2, buf@);
        }
        match r2 {
            Ok(()) => {},
            Err(e) => {
                return Err(e);
            },
        }
        let ghost b3 = buf@;
        let r3 = self.should_authenticate.encode(buf);
        proof {
            lemma_prefix_transitive(pre, b3, buf@);
        }
        match r3 {
            Ok(()) => {},
            Err(e) => {
                return Err(e);
            },
        }
        proof {
            assert(buf@ =~= pre + self.wire());
        }
        Ok(())
    }
}

impl Decoder for EncryptionRequest {
    open spec fn spec_decode(s: Seq<u8>, i: int) -> Result<
        ((Seq<char>, Seq<u8>, Seq<u8>, bool), int),
        CodecError,
    > {
        match String::spec_decode(s, i) {
            Ok((server_id, j)) => match LengthPrefixedVecU8::<VarInt>::spec_decode(s, j) {
                Ok((public_key, j)) => match LengthPrefixedVecU8::<VarInt>::spec_decode(s, j) {
                    Ok((verify_token, j)) => match bool::spec_decode(s, j) {
                        Ok((should_authenticate, j)) => Ok(
                            ((server_id, public_key, verify_token, should_authenticate), j),
                        ),
                        Err(e) => Err(e),
                    },
                    Err(e) => Err(e),
                },
                Err(e) => Err(e),
            },
            Err(e) => Err(e),
        }
    }

    fn decode(buf: &[u8], pos: &mut usize) -> (r: Result<Self, CodecError>) {
        let server_id = match String::decode(buf, pos) {
            Ok(v) => v,
            Err(e) => {
                return Err(e);
            },
        };
        let public_key = match LengthPrefixedVecU8::<VarInt>::decode(buf, pos) {
            Ok(v) => v,
            Err(e) => {
                return Err(e);
            },
        };
        let verify_token = match LengthPrefixedVecU8::<VarInt>::decode(buf, pos) {
            Ok(v) => v,
            Err(e) => {
                return Err(e);
            },
        };
        let should_authenticate = match bool::decode(buf, pos) {
            Ok(v) => v,
            Err(e) => {
                return Err(e);
            },
        };
        Ok(EncryptionRequest { server_id, public_key, verify_token, should_authenticate })
    }
}

impl Packet for EncryptionRequest {

}

/// One property record of a login success: name, value, and an optional
/// signature.
pub struct LoginSuccessProperty {
    pub name: String,
    pub value: String,
    pub signature: Option<String>,
}

impl DeepView for LoginSuccessProperty {
    type V = (Seq<char>, Seq<char>, Option<Seq<char>>);

    open spec fn deep_view(&self) -> (Seq<char>, Seq<char>, Option<Seq<char>>) {
        (self.name@, self.value@, self.signature.deep_view())
    }
}

impl Encoder for LoginSuccessProperty {
    open spec fn wire(&self) -> Seq<u8> {
        string_wire(self.name@) + string_wire(self.value@) + self.signature.wire()
    }

    open spec fn encodable(&self) -> bool {
        self.name.encodable() && self.value.encodable() && self.signature.encodable()
    }

    fn byte_len(&self) -> (r: usize) {
        self.name.byte_len() + self.value.byte_len() + self.signature.byte_len()
    }

    fn encode(&self, buf: &mut Vec<u8>) -> (r: Result<(), CodecError>) {
        let ghost pre = buf@;
        proof {
            lemma_prefix_reflexive(pre);
        }
        let ghost b0 = buf@;
        let r0 = self.name.encode(buf);
        proof {
            lemma_prefix_transitive(pre, b0, buf@);
        }
        match r0 {
            Ok(()) => {},
            Err(e) => {
                return Err(e);
            },
        }
        let ghost b1 = buf@;
        let r1 = self.value.encode(buf);
        proof {
            lemma_prefix_transitive(pre, b1, buf@);
        }
        match r1 {
            Ok(()) => {},
            Err(e) => {
                return Err(e);
            },
        }
        let ghost b2 = buf@;
        let r2 = self.signature.encode(buf);
        proof {
            lemma_prefix_transitive(pre, b2, buf@);
        }
        match r2 {
            Ok(()) => {},
            Err(e) => {
                return Err(e);
            },
        }
        proof {
            assert(buf@ =~= pre + self.wire());
        }
        Ok(())
    }
}

impl Decoder for LoginSuccessProperty {
    open spec fn spec_decode(s: Seq<u8>, i: int) -> Result<
        ((Seq<char>, Seq<char>, Option<Seq<char>>), int),
        CodecError,
    > {
        match String::spec_decode(s, i) {
            Ok((name, j)) => match String::spec_decode(s, j) {
                Ok((value, j)) => match Option::<String>::spec_decode(s, j) {
                    Ok((signature, j)) => Ok(((name, value, signature), j)),
                    Err(e) => Err(e),
                },
                Err(e) => Err(e),
            },
            Err(e) => Err(e),
        }
    }

    fn decode(buf: &[u8], pos: &mut usize) -> (r: Result<Self, CodecError>) {
        let name = match String::decode(buf, pos) {
            Ok(v) => v,
            Err(e) => {
                return Err(e);
            },
        };
        let value = match String::decode(buf, pos) {
            Ok(v) => v,
            Err(e) => {
                return Err(e);
            },
        };
        let signature = match Option::<String>::decode(buf, pos) {
            Ok(v) => v,
            Err(e) => {
                return Err(e);
            },
        };
        Ok(LoginSuccessProperty { name, value, signature })
    }
}

/// The clientbound login success: the player's identifier and name, the
/// property records, and the strict-error-handling flag.
pub struct LoginSuccess {
    pub uuid: Uuid,
    pub username: String,
    pub properties: LengthPrefixedVec<VarInt, LoginSuccessProperty>,
    pub strict_error_handling: bool,
}

impl DeepView for LoginSuccess {
    type V = (Uuid, Seq<char>, Seq<(Seq<char>, Seq<char>, Option<Seq<char>>)>, bool);

    open spec fn deep_view(&self) -> (
        Uuid,
        Seq<char>,
        Seq<(Seq<char>, Seq<char>, Option<Seq<char>>)>,
        bool,
    ) {
        (self.uuid, self.username@, self.properties.deep_view(), self.strict_error_handling)
    }
}

impl Encoder for LoginSuccess {
    open spec fn wire(&self) -> Seq<u8> {
        self.uuid.wire() + string_wire(self.username@) + self.properties.wire()
            + self.strict_error_handling.wire()
    }

    open spec fn encodable(&self) -> bool {
        self.username.encodable() && self.properties.encodable()
    }

    fn byte_len(&self) -> (r: usize) {
        self.uuid.byte_len() + self.username.byte_len() + self.properties.byte_len()
            + self.strict_error_handling.byte_len()
    }

    fn encode(&self, buf: &mut Vec<u8>) -> (r: Result<(), CodecError>) {
        let ghost pre = buf@;
        proof {
            lemma_prefix_reflexive(pre);
        }
        let ghost b0 = buf@;
        let r0 = self.uuid.encode(buf);
        proof {
            lemma_prefix_transitive(pre, b0, buf@);
        }
        match r0 {
            Ok(()) => {},
            Err(e) => {
                return Err(e);
            },
        }
        let ghost b1 = buf@;
        let r1 = self.username.encode(buf);
        proof {
            lemma_prefix_transitive(pre, b1, buf@);
        }
        match r1 {
            Ok(()) => {},
            Err(e) => {
                return Err(e);
            },
        }
        let ghost b2 = buf@;
        let r2 = self.properties.encode(buf);
        proof {
            lemma_prefix_transitive(pre, b2, buf@);
        }
        match r2 {
            Ok(()) => {},
            Err(e) => {
                return Err(e);
            },
        }
        let ghost b3 = buf@;
        let r3 = self.strict_error_handling.encode(buf);
        proof {
            lemma_prefix_transitive(pre, b3, buf@);
        }
        match r3 {
            Ok(()) => {},
            Err(e) => {
                return Err(e);
            },
        }
        proof {
            assert(buf@ =~= pre + self.wire());
        }
        Ok(())
    }
}

impl Decoder for LoginSuccess {
    open spec fn spec_decode(s: Seq<u8>, i: int) -> Result<
        ((Uuid, Seq<char>, Seq<(Seq<char>, Seq<char>, Option<Seq<char>>)>, bool), int),
        CodecError,
    > {
        match Uuid::spec_decode(s, i) {
            Ok((uuid, j)) => match String::spec_decode(s, j) {
                Ok((username, j)) => match LengthPrefixedVec::<
                    VarInt,
                    LoginSuccessProperty,
                >::spec_decode(s, j) {
                    Ok((properties, j)) => match bool::spec_decode(s, j) {
                        Ok((strict_error_handling, j)) => Ok(
                            ((uuid, username, properties, strict_error_handling), j),
                        ),
                        Err(e) => Err(e),
                    },
                    Err(e) => Err(e),
                },
                Err(e) => Err(e),
            },
            Err(e) => Err(e),
        }
    }

    fn decode(buf: &[u8], pos: &mut usize) -> (r: Result<Self, CodecError>) {
        let uuid = match Uuid::decode(buf, pos) {
            Ok(v) => v,
            Err(e) => {
                return Err(e);
            },
        };
        let username = match String::decode(buf, pos) {
            Ok(v) => v,
            Err(e) => {
                return Err(e);
            },
        };
        let properties = match LengthPrefixedVec::<VarInt, LoginSuccessProperty>::decode(
            buf,
            pos,
        ) {
            Ok(v) => v,
            Err(e) => {
                return Err(e);
            },
        };
        let strict_error_handling = match bool::decode(buf, pos) {
            Ok(v) => v,
            Err(e) => {
                return Err(e);
            },
        };
        Ok(LoginSuccess { uuid, username, properties, strict_error_handling })
    }
}

impl Packet for LoginSuccess {

}

/// The clientbound compression setting: the threshold above which
/// packets are compressed.
pub struct SetCompression {
    pub threshold: VarInt,
}

impl DeepView for SetCompression {
    type V = VarInt;

    open spec fn deep_view(&self) -> VarInt {
        self.threshold
    }
}

impl Encoder for SetCompression {
    open spec fn wire(&self) -> Seq<u8> {
        self.threshold.wire()
    }

    open spec fn encodable(&self) -> bool {
        true
    }

    fn byte_len(&self) -> (r: usize) {
        self.threshold.byte_len()
    }

    fn encode(&self, buf: &mut Vec<u8>) -> (r: Result<(), CodecError>) {
        self.threshold.encode(buf)
    }
}

impl Decoder for SetCompression {
    open spec fn spec_decode(s: Seq<u8>, i: int) -> Result<(VarInt, int), CodecError> {
        VarInt::spec_decode(s, i)
    }

    fn decode(buf: &[u8], pos: &mut usize) -> (r: Result<Self, CodecError>) {
        match VarInt::decode(buf, pos) {
            Ok(threshold) => Ok(SetCompression { threshold }),
            Err(e) => Err(e),
        }
    }
}

impl Packet for SetCompression {

}

/// The clientbound plugin request: a message id, the channel name, and
/// an opaque payload that runs to the end of the packet.
pub struct LoginPluginRequest {
    pub message_id: VarInt,
    pub channel: String,
    pub data: LengthInferredVecU8,
}

impl DeepView for LoginPluginRequest {
    type V = (VarInt, Seq<char>, Seq<u8>);

    open spec fn deep_view(&self) -> (VarInt, Seq<char>, Seq<u8>) {
        (self.message_id, self.channel@, self.data.0@)
    }
}

impl Encoder for LoginPluginRequest {
    open spec fn wire(&self) -> Seq<u8> {
        self.message_id.wire() + string_wire(self.channel@) + self.data.wire()
    }

    open spec fn encodable(&self) -> bool {
        self.channel.encodable()
    }

    fn byte_len(&self) -> (r: usize) {
        self.message_id.byte_len() + self.channel.byte_len() + self.data.byte_len()
    }

    fn encode(&self, buf: &mut Vec<u8>) -> (r: Result<(), CodecError>) {
        let ghost pre = buf@;
        proof {
            lemma_prefix_reflexive(pre);
        }
        let ghost b0 = buf@;
        let r0 = self.message_id.encode(buf);
        proof {
            lemma_prefix_transitive(pre, b0, buf@);
        }
        match r0 {
            Ok(()) => {},
            Err(e) => {
                return Err(e);
            },
        }
        let ghost b1 = buf@;
        let r1 = self.channel.encode(buf);
        proof {
            lemma_prefix_transitive(pre, b1, buf@);
        }
        match r1 {
            Ok(()) => {},
            Err(e) => {
                return Err(e);
            },
        }
        let ghost b2 = buf@;
        let r2 = self.data.encode(buf);
        proof {
            lemma_prefix_transitive(pre, b2, buf@);
        }
        match r2 {
            Ok(()) => {},
            Err(e) => {
                return Err(e);
            },
        }
        proof {
            assert(buf@ =~= pre + self.wire());
        }
        Ok(())
    }
}

impl Decoder for LoginPluginRequest {
    open spec fn spec_decode(s: Seq<u8>, i: int) -> Result<
        ((VarInt, Seq<char>, Seq<u8>), int),
        CodecError,
    > {
        match VarInt::spec_decode(s, i) {
            Ok((message_id, j)) => match String::spec_decode(s, j) {
                Ok((channel, j)) => match LengthInferredVecU8::spec_decode(s, j) {
                    Ok((data, j)) => Ok(((message_id, channel, data), j)),
                    Err(e) => Err(e),
                },
                Err(e) => Err(e),
            },
            Err(e) => Err(e),
        }
    }

    fn decode(buf: &[u8], pos: &mut usize) -> (r: Result<Self, CodecError>) {
        let message_id = match VarInt::decode(buf, pos) {
            Ok(v) => v,
            Err(e) => {
                return Err(e);
            },
        };
        let channel = match String::decode(buf, pos) {
            Ok(v) => v,
            Err(e) => {
                return Err(e);
            },
        };
        let data = match LengthInferredVecU8::decode(buf, pos) {
            Ok(v) => v,
            Err(e) => {
                return Err(e);
            },
        };
        Ok(LoginPluginRequest { message_id, channel, data })
    }
}

impl Packet for LoginPluginRequest {

}

/// The clientbound cookie request: the key of the cookie to return.
pub struct CookieRequest {
    pub key: String,
}

impl DeepView for CookieRequest {
    type V = Seq<char>;

    open spec fn deep_view(&self) -> Seq<char> {
        self.key@
    }
}

impl Encoder for CookieRequest {
    open spec fn wire(&self) -> Seq<u8> {
        string_wire(self.key@)
    }

    open spec fn encodable(&self) -> bool {
        self.key.encodable()
    }

    fn byte_len(&self) -> (r: usize) {
        self.key.byte_len()
    }

    fn encode(&self, buf: &mut Vec<u8>) -> (r: Result<(), CodecError>) {
        self.key.encode(buf)
    }
}

impl Decoder for CookieRequest {
    open spec fn spec_decode(s: Seq<u8>, i: int) -> Result<(Seq<char>, int), CodecError> {
        String::spec_decode(s, i)
    }

    fn decode(buf: &[u8], pos: &mut usize) -> (r: Result<Self, CodecError>) {
        match String::decode(buf, pos) {
            Ok(key) => Ok(CookieRequest { key }),
            Err(e) => Err(e),
        }
    }
}

impl Packet for CookieRequest {

}

/// The serverbound login start: the player's name and identifier.
pub struct LoginStart {
    pub name: String,
    pub uuid: Uuid,
}

impl DeepView for LoginStart {
    type V = (Seq<char>, Uuid);

    open spec fn deep_view(&self) -> (Seq<char>, Uuid) {
        (self.name@, self.uuid)
    }
}

impl Encoder for LoginStart {
    open spec fn wire(&self) -> Seq<u8> {
        string_wire(self.name@) + self.uuid.wire()
    }

    open spec fn encodable(&self) -> bool {
        self.name.encodable()
    }

    fn byte_len(&self) -> (r: usize) {
        self.name.byte_len() + self.uuid.byte_len()
    }

    fn encode(&self, buf: &mut Vec<u8>) -> (r: Result<(), CodecError>) {
        let ghost pre = buf@;
        proof {
            lemma_prefix_reflexive(pre);
        }
        let ghost b0 = buf@;
        let r0 = self.name.encode(buf);
        proof {
            lemma_prefix_transitive(pre, b0, buf@);
        }
        match r0 {
            Ok(()) => {},
            Err(e) => {
                return Err(e);
            },
        }
        let ghost b1 = buf@;
        let r1 = self.uuid.encode(buf);
        proof {
            lemma_prefix_transitive(pre, b1, buf@);
        }
        match r1 {
            Ok(()) => {},
            Err(e) => {
                return Err(e);
            },
        }
        proof {
            assert(buf@ =~= pre + self.wire());
        }
        Ok(())
    }
}

impl Decoder for LoginStart {
    open spec fn spec_decode(s: Seq<u8>, i: int) -> Result<((Seq<char>, Uuid), int), CodecError> {
        match String::spec_decode(s, i) {
            Ok((name, j)) => match Uuid::spec_decode(s, j) {
                Ok((uuid, j)) => Ok(((name, uuid), j)),
                Err(e) => Err(e),
            },
            Err(e) => Err(e),
        }
    }

    fn decode(buf: &[u8], pos: &mut usize) -> (r: Result<Self, CodecError>) {
        let name = match String::decode(buf, pos) {
            Ok(v) => v,
            Err(e) => {
                return Err(e);
            },
        };
        let uuid = match Uuid::decode(buf, pos) {
            Ok(v) => v,
            Err(e) => {
                return Err(e);
            },
        };
        Ok(LoginStart { name, uuid })
    }
}

impl Packet for LoginStart {

}

/// The serverbound encryption response: the encrypted shared secret and
/// the encrypted verify token.
pub struct EncryptionResponse {
    pub shared_secret: LengthPrefixedVec<VarInt, u8>,
    pub verify_token: LengthPrefixedVec<VarInt, u8>,
}

impl DeepView for EncryptionResponse {
    type V = (Seq<u8>, Seq<u8>);

    open spec fn deep_view(&self) -> (Seq<u8>, Seq<u8>) {
        (self.shared_secret.deep_view(), self.verify_token.deep_view())
    }
}

impl Encoder for EncryptionResponse {
    open spec fn wire(&self) -> Seq<u8> {
        self.shared_secret.wire() + self.verify_token.wire()
    }

    open spec fn encodable(&self) -> bool {
        self.shared_secret.encodable() && self.verify_token.encodable()
    }

    fn byte_len(&self) -> (r: usize) {
        self.shared_secret.byte_len() + self.verify_token.byte_len()
    }

    fn encode(&self, buf: &mut Vec<u8>) -> (r: Result<(), CodecError>) {
        let ghost pre = buf@;
        proof {
            lemma_prefix_reflexive(pre);
        }
        let ghost b0 = buf@;
        let r0 = self.shared_secret.encode(buf);
        proof {
            lemma_prefix_transitive(pre, b0, buf@);
        }
        match r0 {
            Ok(()) => {},
            Err(e) => {
                return Err(e);
            },
        }
        let ghost b1 = buf@;
        let r1 = self.verify_token.encode(buf);
        proof {
            lemma_prefix_transitive(pre, b1, buf@);
        }
        match r1 {
            Ok(()) => {},
            Err(e) => {
                return Err(e);
            },
        }
        proof {
            assert(buf@ =~= pre + self.wire());
        }
        Ok(())
    }
}

impl Decoder for EncryptionResponse {
    open spec fn spec_decode(s: Seq<u8>, i: int) -> Result<((Seq<u8>, Seq<u8>), int), CodecError> {
        match LengthPrefixedVec::<VarInt, u8>::spec_decode(s, i) {
            Ok((shared_secret, j)) => match LengthPrefixedVec::<VarInt, u8>::spec_decode(s, j) {
                Ok((verify_token, j)) => Ok(((shared_secret, verify_token), j)),
                Err(e) => Err(e),
            },
            Err(e) => Err(e),
        }
    }

    fn decode(buf: &[u8], pos: &mut usize) -> (r: Result<Self, CodecError>) {
        let shared_secret = match LengthPrefixedVec::<VarInt, u8>::decode(buf, pos) {
            Ok(v) => v,
            Err(e) => {
                return Err(e);
            },
        };
        let verify_token = match LengthPrefixedVec::<VarInt, u8>::decode(buf, pos) {
            Ok(v) => v,
            Err(e) => {
                return Err(e);
            },
        };
        Ok(EncryptionResponse { shared_secret, verify_token })
    }
}

impl Packet for EncryptionResponse {

}

/// The serverbound plugin response: the message id it answers, whether
/// the channel was understood, and an opaque payload running to the end
/// of the packet.
pub struct LoginPluginResponse {
    pub message_id: VarInt,
    pub success: bool,
    pub data: LengthInferredVecU8,
}

impl DeepView for LoginPluginResponse {
    type V = (VarInt, bool, Seq<u8>);

    open spec fn deep_view(&self) -> (VarInt, bool, Seq<u8>) {
        (self.message_id, self.success, self.data.0@)
    }
}

impl Encoder for LoginPluginResponse {
    open spec fn wire(&self) -> Seq<u8> {
        self.message_id.wire() + self.success.wire() + self.data.wire()
    }

    open spec fn encodable(&self) -> bool {
        true
    }

    fn byte_len(&self) -> (r: usize) {
        self.message_id.byte_len() + self.success.byte_len() + self.data.byte_len()
    }

    fn encode(&self, buf: &mut Vec<u8>) -> (r: Result<(), CodecError>) {
        let ghost pre = buf@;
        proof {
            lemma_prefix_reflexive(pre);
        }
        let ghost b0 = buf@;
        let r0 = self.message_id.encode(buf);
        proof {
            lemma_prefix_transitive(pre, b0, buf@);
        }
        match r0 {
            Ok(()) => {},
            Err(e) => {
                return Err(e);
            },
        }
        let ghost b1 = buf@;
        let r1 = self.success.encode(buf);
        proof {
            lemma_prefix_transitive(pre, b1, buf@);
        }
        match r1 {
            Ok(()) => {},
            Err(e) => {
                return Err(e);
            },
        }
        let ghost b2 = buf@;
        let r2 = self.data.encode(buf);
        proof {
            lemma_prefix_transitive(pre, b2, buf@);
        }
        match r2 {
            Ok(()) => {},
            Err(e) => {
                return Err(e);
            },
        }
        proof {
            assert(buf@ =~= pre + self.wire());
        }
        Ok(())
    }
}

impl Decoder for LoginPluginResponse {
    open spec fn spec_decode(s: Seq<u8>, i: int) -> Result<
        ((VarInt, bool, Seq<u8>), int),
        CodecError,
    > {
        match VarInt::spec_decode(s, i) {
            Ok((message_id, j)) => match bool::spec_decode(s, j) {
                Ok((success, j)) => match LengthInferredVecU8::spec_decode(s, j) {
                    Ok((data, j)) => Ok(((message_id, success, data), j)),
                    Err(e) => Err(e),
                },
                Err(e) => Err(e),
            },
            Err(e) => Err(e),
        }
    }

    fn decode(buf: &[u8], pos: &mut usize) -> (r: Result<Self, CodecError>) {
        let message_id = match VarInt::decode(buf, pos) {
            Ok(v) => v,
            Err(e) => {
                return Err(e);
            },
        };
        let success = match bool::decode(buf, pos) {
            Ok(v) => v,
            Err(e) => {
                return Err(e);
            },
        };
        let data = match LengthInferredVecU8::decode(buf, pos) {
            Ok(v) => v,
            Err(e) => {
                return Err(e);
            },
        };
        Ok(LoginPluginResponse { message_id, success, data })
    }
}

impl Packet for LoginPluginResponse {

}

/// The serverbound login acknowledgement: it carries no fields.
pub struct LoginAcknowledged;

impl DeepView for LoginAcknowledged {
    type V = ();

    open spec fn deep_view(&self) -> () {
        ()
    }
}

impl Encoder for LoginAcknowledged {
    open spec fn wire(&self) -> Seq<u8> {
        Seq::empty()
    }

    open spec fn encodable(&self) -> bool {
        true
    }

    fn byte_len(&self) -> (r: usize) {
        0
    }

    fn encode(&self, buf: &mut Vec<u8>) -> (r: Result<(), CodecError>) {
        proof {
            assert(buf@ =~= buf@ + self.wire());
            lemma_prefix_reflexive(buf@);
        }
        Ok(())
    }
}

impl Decoder for LoginAcknowledged {
    open spec fn spec_decode(s: Seq<u8>, i: int) -> Result<((), int), CodecError> {
        if 0 <= i <= s.len() {
            Ok(((), i))
        } else {
            Err(CodecError::UnexpectedEof)
        }
    }

    fn decode(buf: &[u8], pos: &mut usize) -> (r: Result<Self, CodecError>) {
        Ok(LoginAcknowledged)
    }
}

impl Packet for LoginAcknowledged {

}

/// The serverbound cookie response: the cookie's key and its payload,
/// when the client holds one.
pub struct CookieResponse {
    pub key: String,
    pub payload: Option<LengthPrefixedVecU8<VarInt>>,
}

impl DeepView for CookieResponse {
    type V = (Seq<char>, Option<Seq<u8>>);

    open spec fn deep_view(&self) -> (Seq<char>, Option<Seq<u8>>) {
        (self.key@, self.payload.deep_view())
    }
}

impl Encoder for CookieResponse {
    open spec fn wire(&self) -> Seq<u8> {
        string_wire(self.key@) + self.payload.wire()
    }

    open spec fn encodable(&self) -> bool {
        self.key.encodable() && self.payload.encodable()
    }

    fn byte_len(&self) -> (r: usize) {
        self.key.byte_len() + self.payload.byte_len()
    }

    fn encode(&self, buf: &mut Vec<u8>) -> (r: Result<(), CodecError>) {
        let ghost pre = buf@;
        proof {
            lemma_prefix_reflexive(pre);
        }
        let ghost b0 = buf@;
        let r0 = self.key.encode(buf);
        proof {
            lemma_prefix_transitive(pre, b0, buf@);
        }
        match r0 {
            Ok(()) => {},
            Err(e) => {
                return Err(e);
            },
        }
        let ghost b1 = buf@;
        let r1 = self.payload.encode(buf);
        proof {
            lemma_prefix_transitive(pre, b1, buf@);
        }
        match r1 {
            Ok(()) => {},
            Err(e) => {
                return Err(e);
            },
        }
        proof {
            assert(buf@ =~= pre + self.wire());
        }
        Ok(())
    }
}

impl Decoder for CookieResponse {
    open spec fn spec_decode(s: Seq<u8>, i: int) -> Result<
        ((Seq<char>, Option<Seq<u8>>), int),
        CodecError,
    > {
        match String::spec_decode(s, i) {
            Ok((key, j)) => match Option::<LengthPrefixedVecU8<VarInt>>::spec_decode(s, j) {
                Ok((payload, j)) => Ok(((key, payload), j)),
                Err(e) => Err(e),
            },
            Err(e) => Err(e),
        }
    }

    fn decode(buf: &[u8], pos: &mut usize) -> (r: Result<Self, CodecError>) {
        let key = match String::decode(buf, pos) {
            Ok(v) => v,
            Err(e) => {
                return Err(e);
            },
        };
        let payload = match Option::<LengthPrefixedVecU8<VarInt>>::decode(buf, pos) {
            Ok(v) => v,
            Err(e) => {
                return Err(e);
            },
        };
        Ok(CookieResponse { key, payload })
    }
}

impl Packet for CookieResponse {

}

} // verus!
