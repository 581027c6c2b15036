use vstd::prelude::*;

use crate::name_type::NameType;
use crate::crypto;

verus! {

/// 32-bit message counter, seeded randomly at startup and incremented
/// monotonically (wrapping) per outbound message.
pub type MessageId = u32;

/// The role this node plays for a particular message, relative to its own
/// routing table.
#[derive(Clone, Copy, PartialEq, Eq, Structural, Debug)]
pub enum Authority {
    ClientManager,
    NaeManager,
    NodeManager,
    ManagedNode,
    Client,
    Unknown,
}

/// An opaque transport address; in scope, a TCP socket address.
#[derive(Clone, Copy, PartialEq, Eq, Structural, Debug, Hash)]
pub struct Endpoint {
    pub ip: u32,
    pub port: u16,
}

/// Where a message came from.  `from_group` is set when a close group, not a
/// single node, stands behind the message; `reply_to` names a relayed client.
#[derive(Clone, Copy)]
pub struct SourceAddress {
    pub from_node: NameType,
    pub from_group: Option<NameType>,
    pub reply_to: Option<NameType>,
}

/// Mathematical model of a `SourceAddress`: every address is a byte string.
#[verifier::ext_equal]
pub ghost struct SourceAddressV {
    pub from_node: Seq<u8>,
    pub from_group: Option<Seq<u8>>,
    pub reply_to: Option<Seq<u8>>,
}

pub open spec fn opt_name_view(o: Option<NameType>) -> Option<Seq<u8>> {
    match o {
        Option::Some(n) => Option::Some(n@),
        Option::None => Option::None,
    }
}

impl View for SourceAddress {
    type V = SourceAddressV;

    open spec fn view(&self) -> SourceAddressV {
        SourceAddressV {
            from_node: self.from_node@,
            from_group: opt_name_view(self.from_group),
            reply_to: opt_name_view(self.reply_to),
        }
    }
}

/// Where a message is going.  `reply_to` asks the destination node to relay
/// the message to a client connected to it.
#[derive(Clone, Copy)]
pub struct DestinationAddress {
    pub dest: NameType,
    pub reply_to: Option<NameType>,
}

/// Mathematical model of a `DestinationAddress`.
#[verifier::ext_equal]
pub ghost struct DestinationAddressV {
    pub dest: Seq<u8>,
    pub reply_to: Option<Seq<u8>>,
}

impl View for DestinationAddress {
    type V = DestinationAddressV;

    open spec fn view(&self) -> DestinationAddressV {
        DestinationAddressV { dest: self.dest@, reply_to: opt_name_view(self.reply_to) }
    }
}

/// A content name paired with its application-level type identifier.
#[derive(Clone, Copy)]
pub struct NameAndTypeId {
    pub name: NameType,
    pub type_id: u64,
}

/// Mathematical model of a `NameAndTypeId`.
#[verifier::ext_equal]
pub ghost struct NameAndTypeIdV {
    pub name: Seq<u8>,
    pub type_id: u64,
}

impl View for NameAndTypeId {
    type V = NameAndTypeIdV;

    open spec fn view(&self) -> NameAndTypeIdV {
        NameAndTypeIdV { name: self.name@, type_id: self.type_id }
    }
}

/// The public half of a signing keypair.
#[derive(Clone)]
pub struct PublicSignKey {
    pub key: Vec<u8>,
}

impl View for PublicSignKey {
    type V = Seq<u8>;

    open spec fn view(&self) -> Seq<u8> {
        self.key@
    }
}

/// The secret half of a signing keypair.
pub struct SecretSignKey {
    pub key: Vec<u8>,
}

/// A node's full identity: a signing keypair plus the name derived from the
/// public key.  Immutable once created.
pub struct Pmid {
    public_sign_key: PublicSignKey,
    secret_sign_key: SecretSignKey,
    name: NameType,
}

impl Pmid {
    /// The identity invariant: the name is the digest of the public key, and
    /// the secret key has the 64 bytes signing expects.
    pub closed spec fn wf(&self) -> bool {
        &&& self.name@ == crypto::sha512_of(self.public_sign_key.key@)
        &&& self.secret_sign_key.key@.len() == 64
    }

    /// Generate a fresh identity: a random signing keypair, named by the
    /// digest of its public key.
    pub fn new() -> (r: Pmid)
        ensures
            r.wf(),
    {
        let (pk, sk) = crypto::generate_sign_keypair();
        let digest = crypto::sha512(&pk);
        Pmid {
            public_sign_key: PublicSignKey { key: pk },
            secret_sign_key: SecretSignKey { key: sk },
            name: NameType::new(digest),
        }
    }

    /// Rebuild an identity from a keypair; the name is recomputed as the
    /// digest of the public key.
    pub fn from_parts(public_key: Vec<u8>, secret_key: Vec<u8>) -> (r: Pmid)
        requires
            secret_key@.len() == 64,
        ensures
            r.wf(),
            r.get_public_sign_key_spec().key@ == public_key@,
    {
        let digest = crypto::sha512(&public_key);
        Pmid {
            public_sign_key: PublicSignKey { key: public_key },
            secret_sign_key: SecretSignKey { key: secret_key },
            name: NameType::new(digest),
        }
    }

    pub closed spec fn get_name_spec(&self) -> NameType {
        self.name
    }

    pub fn get_name(&self) -> (r: NameType)
        ensures
            r == self.get_name_spec(),
    {
        self.name
    }

    pub closed spec fn get_public_sign_key_spec(&self) -> PublicSignKey {
        self.public_sign_key
    }

    pub fn get_public_sign_key(&self) -> (r: PublicSignKey)
        ensures
            r.key@ == self.get_public_sign_key_spec().key@,
    {
        PublicSignKey { key: crate::codec::copy_bytes(&self.public_sign_key.key) }
    }

    pub closed spec fn get_crypto_secret_sign_key_spec(&self) -> Seq<u8> {
        self.secret_sign_key.key@
    }

    pub fn get_crypto_secret_sign_key(&self) -> (r: SecretSignKey)
        ensures
            r.key@ == self.get_crypto_secret_sign_key_spec(),
            self.wf() ==> r.key@.len() == 64,
    {
        SecretSignKey { key: crate::codec::copy_bytes(&self.secret_sign_key.key) }
    }
}

/// The publishable half of a `Pmid`: public signing key plus name.
#[derive(Clone)]
pub struct PublicPmid {
    pub public_sign_key: PublicSignKey,
    pub name: NameType,
}

/// Mathematical model of a `PublicPmid`.
#[verifier::ext_equal]
pub ghost struct PublicPmidV {
    pub public_sign_key: Seq<u8>,
    pub name: Seq<u8>,
}

impl View for PublicPmid {
    type V = PublicPmidV;

    open spec fn view(&self) -> PublicPmidV {
        PublicPmidV { public_sign_key: self.public_sign_key@, name: self.name@ }
    }
}

impl PublicPmid {
    pub fn new(pmid: &Pmid) -> (r: PublicPmid)
        ensures
            r.public_sign_key.key@ == pmid.get_public_sign_key_spec().key@,
            r.name == pmid.get_name_spec(),
    {
        PublicPmid { public_sign_key: pmid.get_public_sign_key(), name: pmid.get_name() }
    }
}

/// A self-contained piece of content the application asks the node to store:
/// its network name plus its serialised bytes.
pub struct Sendable {
    pub name: NameType,
    pub serialised_contents: Vec<u8>,
}

impl Sendable {
    pub fn name(&self) -> (r: NameType)
        ensures
            r == self.name,
    {
        self.name
    }
}

} // verus!
