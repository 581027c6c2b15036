use vstd::prelude::*;

use crate::name_type::NameType;
use crate::types::{
    Authority, DestinationAddress, DestinationAddressV, MessageId, SourceAddress, SourceAddressV,
};

verus! {

/// Per-message routing envelope: a counter, where the message is going,
/// where it came from, and the authority its sender claimed.
#[derive(Clone, Copy)]
pub struct MessageHeader {
    pub message_id: MessageId,
    pub destination: DestinationAddress,
    pub source: SourceAddress,
    pub authority: Authority,
}

/// Mathematical model of a `MessageHeader`.
#[verifier::ext_equal]
pub ghost struct MessageHeaderV {
    pub message_id: MessageId,
    pub destination: DestinationAddressV,
    pub source: SourceAddressV,
    pub authority: Authority,
}

impl View for MessageHeader {
    type V = MessageHeaderV;

    open spec fn view(&self) -> MessageHeaderV {
        MessageHeaderV {
            message_id: self.message_id,
            destination: self.destination@,
            source: self.source@,
            authority: self.authority,
        }
    }
}

impl MessageHeaderV {
    /// The node, or relayed client, an answer concerns: the relayed client
    /// when one is named, else the sending node.
    pub open spec fn from(self) -> Seq<u8> {
        match self.source.reply_to {
            Option::Some(r) => r,
            Option::None => self.source.from_node,
        }
    }

    pub open spec fn is_from_group(self) -> bool {
        self.source.from_group is Some
    }

    /// The address a reply to this message should be routed toward: the
    /// sending node, relay-aware.
    pub open spec fn send_to(self) -> DestinationAddressV {
        DestinationAddressV { dest: self.source.from_node, reply_to: self.source.reply_to }
    }

    /// The header of a reply: destination and source swapped, the local
    /// authority adopted, the message id kept for accumulation.
    pub open spec fn create_reply(self, our_name: Seq<u8>, our_authority: Authority) -> MessageHeaderV {
        MessageHeaderV {
            message_id: self.message_id,
            destination: self.send_to(),
            source: SourceAddressV {
                from_node: our_name,
                from_group: Option::Some(self.destination.dest),
                reply_to: Option::None,
            },
            authority: our_authority,
        }
    }

    /// The header of a forwarded copy: addressed to `destination`, the source
    /// rewritten to this node (keeping the original relay client), speaking
    /// for the group the message was addressed to.
    pub open spec fn create_send_on(
        self,
        our_name: Seq<u8>,
        our_authority: Authority,
        destination: Seq<u8>,
    ) -> MessageHeaderV {
        MessageHeaderV {
            message_id: self.message_id,
            destination: DestinationAddressV { dest: destination, reply_to: Option::None },
            source: SourceAddressV {
                from_node: our_name,
                from_group: Option::Some(self.destination.dest),
                reply_to: self.source.reply_to,
            },
            authority: our_authority,
        }
    }
}

impl MessageHeader {
    pub fn new(
        message_id: MessageId,
        destination: DestinationAddress,
        source: SourceAddress,
        authority: Authority,
    ) -> (r: MessageHeader)
        ensures
            r@ == (MessageHeaderV { message_id, destination: destination@, source: source@, authority }),
    {
        MessageHeader { message_id, destination, source, authority }
    }

    pub fn from_node(&self) -> (r: NameType)
        ensures
            r@ == self@.source.from_node,
    {
        self.source.from_node
    }

    pub fn from_group(&self) -> (r: Option<NameType>)
        ensures
            crate::types::opt_name_view(r) == self@.source.from_group,
    {
        self.source.from_group
    }

    pub fn is_from_group(&self) -> (r: bool)
        ensures
            r == self@.is_from_group(),
    {
        self.source.from_group.is_some()
    }

    pub fn reply_to(&self) -> (r: Option<NameType>)
        ensures
            crate::types::opt_name_view(r) == self@.source.reply_to,
    {
        self.source.reply_to
    }

    pub fn from(&self) -> (r: NameType)
        ensures
            r@ == self@.from(),
    {
        match self.source.reply_to {
            Some(r) => r,
            None => self.source.from_node,
        }
    }

    pub fn from_authority(&self) -> (r: Authority)
        ensures
            r == self@.authority,
    {
        self.authority
    }

    pub fn send_to(&self) -> (r: DestinationAddress)
        ensures
            r@ == self@.send_to(),
    {
        DestinationAddress { dest: self.source.from_node, reply_to: self.source.reply_to }
    }

    pub fn create_reply(&self, our_name: &NameType, our_authority: Authority) -> (r: MessageHeader)
        ensures
            r@ == self@.create_reply(our_name@, our_authority),
    {
        MessageHeader {
            message_id: self.message_id,
            destination: self.send_to(),
            source: SourceAddress {
                from_node: *our_name,
                from_group: Some(self.destination.dest),
                reply_to: None,
            },
            authority: our_authority,
        }
    }

    pub fn create_send_on(
        &self,
        our_name: &NameType,
        our_authority: Authority,
        destination: &NameType,
    ) -> (r: MessageHeader)
        ensures
            r@ == self@.create_send_on(our_name@, our_authority, destination@),
    {
        MessageHeader {
            message_id: self.message_id,
            destination: DestinationAddress { dest: *destination, reply_to: None },
            source: SourceAddress {
                from_node: *our_name,
                from_group: Some(self.destination.dest),
                reply_to: self.source.reply_to,
            },
            authority: our_authority,
        }
    }
}

} // verus!
