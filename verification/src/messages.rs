use vstd::prelude::*;

use crate::message_header::{MessageHeader, MessageHeaderV};
use crate::name_type::NameType;
use crate::types::{
    Endpoint, NameAndTypeId, NameAndTypeIdV, PublicPmid, PublicPmidV, PublicSignKey, SecretSignKey,
    SourceAddress, SourceAddressV,
};
use crate::error::ResponseError;
use crate::crypto;

verus! {

/// Discriminates the body a `RoutingMessage` carries.
#[derive(Clone, Copy, PartialEq, Eq, Structural, Debug)]
pub enum MessageTypeTag {
    BootstrapIdRequest,
    BootstrapIdResponse,
    ConnectRequest,
    ConnectResponse,
    FindGroup,
    FindGroupResponse,
    GetData,
    GetDataResponse,
    GetGroupKey,
    GetGroupKeyResponse,
    GetKey,
    GetKeyResponse,
    Post,
    PostResponse,
    PutData,
    PutDataResponse,
    PutPublicPmid,
    UnauthorisedPut,
}

/// One frame on the wire: a type tag, the routing envelope, the serialised
/// body, and the sender's detached signature over that body.
pub struct RoutingMessage {
    pub message_type: MessageTypeTag,
    pub message_header: MessageHeader,
    pub serialised_body: Vec<u8>,
    pub signature: Vec<u8>,
}

/// Mathematical model of a `RoutingMessage`.
#[verifier::ext_equal]
pub ghost struct RoutingMessageV {
    pub message_type: MessageTypeTag,
    pub message_header: MessageHeaderV,
    pub serialised_body: Seq<u8>,
    pub signature: Seq<u8>,
}

impl View for RoutingMessage {
    type V = RoutingMessageV;

    open spec fn view(&self) -> RoutingMessageV {
        RoutingMessageV {
            message_type: self.message_type,
            message_header: self.message_header@,
            serialised_body: self.serialised_body@,
            signature: self.signature@,
        }
    }
}

impl RoutingMessage {
    /// Frame an already serialised body, signing it with the sender's secret
    /// key.
    pub fn new(
        message_type: MessageTypeTag,
        message_header: MessageHeader,
        serialised_body: Vec<u8>,
        secret_key: &SecretSignKey,
    ) -> (r: RoutingMessage)
        requires
            secret_key.key@.len() == 64,
        ensures
            r.message_type == message_type,
            r.message_header@ == message_header@,
            r.serialised_body@ == serialised_body@,
            r.signature@ == crypto::sig_of(secret_key.key@, serialised_body@),
    {
        let signature = crypto::sign_detached(&serialised_body, secret_key);
        RoutingMessage { message_type, message_header, serialised_body, signature }
    }
}

/// First frame of the bootstrap handshake: the dialling node announces its
/// name.
pub struct BootstrapIdRequest {
    pub sender_id: NameType,
}

/// Second frame of the bootstrap handshake: the listening node answers with
/// its own name.
pub struct BootstrapIdResponse {
    pub sender_id: NameType,
}

/// Ask the close group of `name_and_type_id.name` for a piece of content.
pub struct GetData {
    pub requester: SourceAddress,
    pub name_and_type_id: NameAndTypeId,
}

/// Mathematical model of a `GetData`.
#[verifier::ext_equal]
pub ghost struct GetDataV {
    pub requester: SourceAddressV,
    pub name_and_type_id: NameAndTypeIdV,
}

impl View for GetData {
    type V = GetDataV;

    open spec fn view(&self) -> GetDataV {
        GetDataV { requester: self.requester@, name_and_type_id: self.name_and_type_id@ }
    }
}

/// Answer to a `GetData`: the content, or the error the storing group hit.
pub struct GetDataResponse {
    pub name_and_type_id: NameAndTypeId,
    pub data: Result<Vec<u8>, ResponseError>,
}

/// Mathematical model of a `GetDataResponse`.
#[verifier::ext_equal]
pub ghost struct GetDataResponseV {
    pub name_and_type_id: NameAndTypeIdV,
    pub data: Result<Seq<u8>, Seq<u8>>,
}

pub open spec fn response_view(r: Result<Vec<u8>, ResponseError>) -> Result<Seq<u8>, Seq<u8>> {
    match r {
        Result::Ok(d) => Result::Ok(d@),
        Result::Err(e) => Result::Err(e.reason@),
    }
}

impl View for GetDataResponse {
    type V = GetDataResponseV;

    open spec fn view(&self) -> GetDataResponseV {
        GetDataResponseV {
            name_and_type_id: self.name_and_type_id@,
            data: response_view(self.data),
        }
    }
}

/// Store a piece of content under `name`.
pub struct PutData {
    pub name: NameType,
    pub data: Vec<u8>,
}

/// Mathematical model of a `PutData`.
#[verifier::ext_equal]
pub ghost struct PutDataV {
    pub name: Seq<u8>,
    pub data: Seq<u8>,
}

impl View for PutData {
    type V = PutDataV;

    open spec fn view(&self) -> PutDataV {
        PutDataV { name: self.name@, data: self.data@ }
    }
}

/// Answer to a `PutData`: the stored bytes, or the error hit.
pub struct PutDataResponse {
    pub name: NameType,
    pub data: Result<Vec<u8>, ResponseError>,
}

/// Mathematical model of a `PutDataResponse`.
#[verifier::ext_equal]
pub ghost struct PutDataResponseV {
    pub name: Seq<u8>,
    pub data: Result<Seq<u8>, Seq<u8>>,
}

impl View for PutDataResponse {
    type V = PutDataResponseV;

    open spec fn view(&self) -> PutDataResponseV {
        PutDataResponseV { name: self.name@, data: response_view(self.data) }
    }
}

/// Mutate a named piece of content.
pub struct Post {
    pub name: NameType,
    pub data: Vec<u8>,
}

/// Mathematical model of a `Post`.
#[verifier::ext_equal]
pub ghost struct PostV {
    pub name: Seq<u8>,
    pub data: Seq<u8>,
}

impl View for Post {
    type V = PostV;

    open spec fn view(&self) -> PostV {
        PostV { name: self.name@, data: self.data@ }
    }
}

/// Ask a peer to connect: both endpoint sets and the requester's identity.
pub struct ConnectRequest {
    pub local_endpoints: Vec<Endpoint>,
    pub external_endpoints: Vec<Endpoint>,
    pub requester_id: NameType,
    pub receiver_id: NameType,
    pub requester_fob: PublicPmid,
}

/// Mathematical model of a `ConnectRequest`.
#[verifier::ext_equal]
pub ghost struct ConnectRequestV {
    pub local_endpoints: Seq<Endpoint>,
    pub external_endpoints: Seq<Endpoint>,
    pub requester_id: Seq<u8>,
    pub receiver_id: Seq<u8>,
    pub requester_fob: PublicPmidV,
}

impl View for ConnectRequest {
    type V = ConnectRequestV;

    open spec fn view(&self) -> ConnectRequestV {
        ConnectRequestV {
            local_endpoints: self.local_endpoints@,
            external_endpoints: self.external_endpoints@,
            requester_id: self.requester_id@,
            receiver_id: self.receiver_id@,
            requester_fob: self.requester_fob@,
        }
    }
}

/// Accept a `ConnectRequest`: echo the requester's endpoints and add ours.
pub struct ConnectResponse {
    pub requester_local_endpoints: Vec<Endpoint>,
    pub requester_external_endpoints: Vec<Endpoint>,
    pub receiver_local_endpoints: Vec<Endpoint>,
    pub receiver_external_endpoints: Vec<Endpoint>,
    pub requester_id: NameType,
    pub receiver_id: NameType,
    pub receiver_fob: PublicPmid,
}

/// Mathematical model of a `ConnectResponse`.
#[verifier::ext_equal]
pub ghost struct ConnectResponseV {
    pub requester_local_endpoints: Seq<Endpoint>,
    pub requester_external_endpoints: Seq<Endpoint>,
    pub receiver_local_endpoints: Seq<Endpoint>,
    pub receiver_external_endpoints: Seq<Endpoint>,
    pub requester_id: Seq<u8>,
    pub receiver_id: Seq<u8>,
    pub receiver_fob: PublicPmidV,
}

impl View for ConnectResponse {
    type V = ConnectResponseV;

    open spec fn view(&self) -> ConnectResponseV {
        ConnectResponseV {
            requester_local_endpoints: self.requester_local_endpoints@,
            requester_external_endpoints: self.requester_external_endpoints@,
            receiver_local_endpoints: self.receiver_local_endpoints@,
            receiver_external_endpoints: self.receiver_external_endpoints@,
            requester_id: self.requester_id@,
            receiver_id: self.receiver_id@,
            receiver_fob: self.receiver_fob@,
        }
    }
}

/// A direct-connection greeting carrying the peer's identity.
pub struct ConnectSuccess {
    pub peer_id: NameType,
    pub peer_fob: PublicPmid,
}

/// Ask the close group of `target_id` to enumerate itself.
pub struct FindGroup {
    pub requester_id: NameType,
    pub target_id: NameType,
}

/// Mathematical model of a `FindGroup`.
#[verifier::ext_equal]
pub ghost struct FindGroupV {
    pub requester_id: Seq<u8>,
    pub target_id: Seq<u8>,
}

impl View for FindGroup {
    type V = FindGroupV;

    open spec fn view(&self) -> FindGroupV {
        FindGroupV { requester_id: self.requester_id@, target_id: self.target_id@ }
    }
}

/// The published identities of the answering group, ours included.
pub struct FindGroupResponse {
    pub group: Vec<PublicPmid>,
}

/// Mathematical model of a `FindGroupResponse`.
#[verifier::ext_equal]
pub ghost struct FindGroupResponseV {
    pub group: Seq<PublicPmidV>,
}

/// The models of a sequence of published identities.
pub open spec fn pmids_view(v: Seq<PublicPmid>) -> Seq<PublicPmidV> {
    Seq::new(v.len(), |i: int| v[i]@)
}

impl View for FindGroupResponse {
    type V = FindGroupResponseV;

    open spec fn view(&self) -> FindGroupResponseV {
        FindGroupResponseV { group: pmids_view(self.group@) }
    }
}

/// Ask the close group of `target_id` for its members' public signing keys.
pub struct GetGroupKey {
    pub target_id: NameType,
}

/// One member of a group-key answer: a name and its public signing key.
pub struct NameAndKey {
    pub name: NameType,
    pub public_sign_key: PublicSignKey,
}

/// Mathematical model of a `NameAndKey`.
#[verifier::ext_equal]
pub ghost struct NameAndKeyV {
    pub name: Seq<u8>,
    pub public_sign_key: Seq<u8>,
}

impl View for NameAndKey {
    type V = NameAndKeyV;

    open spec fn view(&self) -> NameAndKeyV {
        NameAndKeyV { name: self.name@, public_sign_key: self.public_sign_key@ }
    }
}

/// The public signing keys of the answering group, ours included.
pub struct GetGroupKeyResponse {
    pub public_sign_keys: Vec<NameAndKey>,
}

/// Mathematical model of a `GetGroupKeyResponse`.
#[verifier::ext_equal]
pub ghost struct GetGroupKeyResponseV {
    pub public_sign_keys: Seq<NameAndKeyV>,
}

/// The models of a sequence of name/key pairs.
pub open spec fn name_keys_view(v: Seq<NameAndKey>) -> Seq<NameAndKeyV> {
    Seq::new(v.len(), |i: int| v[i]@)
}

impl View for GetGroupKeyResponse {
    type V = GetGroupKeyResponseV;

    open spec fn view(&self) -> GetGroupKeyResponseV {
        GetGroupKeyResponseV { public_sign_keys: name_keys_view(self.public_sign_keys@) }
    }
}

/// Ask for the public signing key of a single node.
pub struct GetKey {
    pub requester: SourceAddress,
    pub target_id: NameType,
}

/// Mathematical model of a `GetKey`.
#[verifier::ext_equal]
pub ghost struct GetKeyV {
    pub requester: SourceAddressV,
    pub target_id: Seq<u8>,
}

impl View for GetKey {
    type V = GetKeyV;

    open spec fn view(&self) -> GetKeyV {
        GetKeyV { requester: self.requester@, target_id: self.target_id@ }
    }
}

/// Answer to a `GetKey`.
pub struct GetKeyResponse {
    pub address: NameType,
    pub public_sign_key: PublicSignKey,
}

/// Mathematical model of a `GetKeyResponse`.
#[verifier::ext_equal]
pub ghost struct GetKeyResponseV {
    pub address: Seq<u8>,
    pub public_sign_key: Seq<u8>,
}

impl View for GetKeyResponse {
    type V = GetKeyResponseV;

    open spec fn view(&self) -> GetKeyResponseV {
        GetKeyResponseV { address: self.address@, public_sign_key: self.public_sign_key@ }
    }
}

/// Publish a node's public identity toward the close group of its name.
pub struct PutPublicPmid {
    pub public_pmid: PublicPmid,
}

/// Mathematical model of a `PutPublicPmid`.
#[verifier::ext_equal]
pub ghost struct PutPublicPmidV {
    pub public_pmid: PublicPmidV,
}

impl View for PutPublicPmid {
    type V = PutPublicPmidV;

    open spec fn view(&self) -> PutPublicPmidV {
        PutPublicPmidV { public_pmid: self.public_pmid@ }
    }
}

} // verus!
