use vstd::prelude::*;

use crate::codec;
use crate::crypto;
use crate::error::{InterfaceError, RoutingError};
use crate::filter;
use crate::identity_cache;
use crate::message_header::{MessageHeader, MessageHeaderV};
use crate::messages::{
    BootstrapIdRequest, BootstrapIdResponse, ConnectRequest, ConnectResponse, ConnectSuccess,
    FindGroup, FindGroupResponse, GetData, GetDataResponse, GetGroupKey, GetGroupKeyResponse,
    GetKey, GetKeyResponse, MessageTypeTag, NameAndKey, Post, PutData, PutDataResponse,
    PutPublicPmid, RoutingMessage,
};
use crate::name_type::NameType;
use crate::node_interface::{Action, Interface, RoutingNodeAction};
use crate::registry::ConnectionRegistry;
use crate::routing_table::{table_entry, NodeInfo, RoutingTable, GROUP_SIZE, PARALLELISM};
use crate::types::{
    Authority, DestinationAddress, Endpoint, NameAndTypeId, Pmid, PublicPmid, PublicSignKey,
    SourceAddress, SourceAddressV,
};

use lru_time_cache::LruCache;
use message_filter::MessageFilter;

verus! {

/// Seconds a fingerprint stays in the duplicate filter.
pub const FILTER_TTL_SECS: u64 = 1200;

/// Seconds a published identity stays in the identity cache.
pub const IDENTITY_CACHE_TTL_SECS: u64 = 600;

/// What the connection manager reports to the node.
pub enum Event {
    NewMessage(Endpoint, Vec<u8>),
    NewConnection(Endpoint),
    LostConnection(Endpoint),
}

/// What the node asks its host to do on the network.  The node never
/// performs transport work itself: it queues these and the host drains them.
pub enum OutboundAction {
    /// Send one serialised frame to a live endpoint.
    SendTo { endpoint: Endpoint, bytes: Vec<u8> },
    /// Ask the connection manager to dial these endpoints.
    Connect { endpoints: Vec<Endpoint> },
}

/// The routing node: the message-processing engine of one overlay member.
pub struct RoutingNode<F: Interface> {
    pub interface: F,
    pub pmid: Pmid,
    pub own_id: NameType,
    pub all_connections: ConnectionRegistry,
    pub routing_table: RoutingTable,
    pub accepting_on: Vec<Endpoint>,
    pub next_message_id: u32,
    pub bootstrap_endpoint: Option<Endpoint>,
    pub bootstrap_node_id: Option<NameType>,
    pub filter: MessageFilter<Vec<u8>>,
    pub public_pmid_cache: LruCache<Vec<u8>, Vec<u8>>,
    pub outbox: Vec<OutboundAction>,
}

impl<F: Interface> RoutingNode<F> {
    /// The node invariant: a well-formed identity that names the node, a
    /// well-formed routing table pivoting on that name, a bijective
    /// connection registry, and listener lists short enough for the wire.
    pub open spec fn wf(&self) -> bool {
        &&& self.pmid.wf()
        &&& self.own_id == self.pmid.get_name_spec()
        &&& self.routing_table.wf()
        &&& self.routing_table.our_id_spec() == self.own_id@
        &&& self.all_connections.wf()
        &&& self.accepting_on@.len() <= codec::MAX_LIST_LEN
    }

    /// Build a node around a fresh identity.  The host passes the endpoints
    /// it is accepting connections on.
    pub fn new(my_interface: F, accepting_on: Vec<Endpoint>) -> (r: RoutingNode<F>)
        requires
            accepting_on@.len() <= codec::MAX_LIST_LEN,
        ensures
            r.wf(),
            r.routing_table.spec_len() == 0,
            r.bootstrap_endpoint is None,
            r.bootstrap_node_id is None,
            r.all_connections.entries@.len() == 0,
            r.outbox@.len() == 0,
            identity_cache::cache_keys(&r.public_pmid_cache) == Set::<Seq<u8>>::empty(),
            filter::filter_seen(&r.filter) == Set::<Seq<u8>>::empty(),
    {
        let _ = crypto::init_crypto();
        let pmid = Pmid::new();
        let own_id = pmid.get_name();
        RoutingNode {
            interface: my_interface,
            pmid,
            own_id,
            all_connections: ConnectionRegistry::new(),
            routing_table: RoutingTable::new(own_id),
            accepting_on,
            next_message_id: crypto::random_u32(),
            bootstrap_endpoint: None,
            bootstrap_node_id: None,
            filter: filter::filter_with_ttl_secs(FILTER_TTL_SECS),
            public_pmid_cache: identity_cache::cache_with_ttl_secs(IDENTITY_CACHE_TTL_SECS),
            outbox: Vec::new(),
        }
    }

    pub fn id(&self) -> (r: NameType)
        ensures
            r == self.own_id,
    {
        self.own_id
    }

    /// Hand the queued outbound work to the host, leaving the queue empty.
    pub fn take_outbox(&mut self) -> (r: Vec<OutboundAction>)
        ensures
            r@ == old(self).outbox@,
            final(self).outbox@.len() == 0,
            final(self).interface == old(self).interface,
            final(self).pmid == old(self).pmid,
            final(self).own_id == old(self).own_id,
            final(self).all_connections == old(self).all_connections,
            final(self).routing_table == old(self).routing_table,
            final(self).accepting_on == old(self).accepting_on,
            final(self).next_message_id == old(self).next_message_id,
            final(self).bootstrap_endpoint == old(self).bootstrap_endpoint,
            final(self).bootstrap_node_id == old(self).bootstrap_node_id,
            final(self).filter == old(self).filter,
            final(self).public_pmid_cache == old(self).public_pmid_cache,
    {
        let mut out: Vec<OutboundAction> = Vec::new();
        core::mem::swap(&mut out, &mut self.outbox);
        out
    }

    /// The next message counter value; each call advances the counter by
    /// one, wrapping at 2^32.
    pub fn get_next_message_id(&mut self) -> (r: u32)
        ensures
            r == old(self).next_message_id,
            final(self).next_message_id as int == (old(self).next_message_id as int + 1)
                % 0x1_0000_0000,
            final(self).interface == old(self).interface,
            final(self).pmid == old(self).pmid,
            final(self).own_id == old(self).own_id,
            final(self).all_connections == old(self).all_connections,
            final(self).routing_table == old(self).routing_table,
            final(self).accepting_on == old(self).accepting_on,
            final(self).bootstrap_endpoint == old(self).bootstrap_endpoint,
            final(self).bootstrap_node_id == old(self).bootstrap_node_id,
            final(self).filter == old(self).filter,
            final(self).public_pmid_cache == old(self).public_pmid_cache,
            final(self).outbox == old(self).outbox,
    {
        let temp = self.next_message_id;
        self.next_message_id = self.next_message_id.wrapping_add(1);
        temp
    }

    /// What this node claims as the role it plays for `element` under the
    /// given header, read off the local routing table.
    pub open spec fn our_authority_spec(&self, element: Seq<u8>, h: MessageHeaderV) -> Authority {
        if !h.is_from_group() && self.routing_table.in_close_group_range(h.source.from_node)
            && h.destination.dest != element {
            Authority::ClientManager
        } else if self.routing_table.in_close_group_range(element) && h.destination.dest
            == element {
            Authority::NaeManager
        } else if h.is_from_group() && self.routing_table.in_close_group_range(h.destination.dest)
            && h.destination.dest != self.own_id@ {
            Authority::NodeManager
        } else if (match h.source.from_group {
            Option::Some(g) => self.routing_table.in_close_group_range(g),
            Option::None => false,
        }) && h.destination.dest == self.own_id@ {
            Authority::ManagedNode
        } else {
            Authority::Unknown
        }
    }

    /// Resolve this node's authority for `element` under `header`: the
    /// first matching rule of the authority table wins.
    pub fn our_authority(&self, element: &NameType, header: &MessageHeader) -> (r: Authority)
        ensures
            r == self.our_authority_spec(element@, header@),
    {
        if !header.is_from_group() && self.routing_table.address_in_our_close_group_range(
            &header.from_node(),
        ) && !header.destination.dest.equals(element) {
            return Authority::ClientManager;
        }
        if self.routing_table.address_in_our_close_group_range(element)
            && header.destination.dest.equals(element) {
            return Authority::NaeManager;
        }
        if header.is_from_group() && self.routing_table.address_in_our_close_group_range(
            &header.destination.dest,
        ) && !header.destination.dest.equals(&self.own_id) {
            return Authority::NodeManager;
        }
        let from_group_in_range = match &header.source.from_group {
            Some(g) => self.routing_table.address_in_our_close_group_range(g),
            None => false,
        };
        if from_group_in_range && header.destination.dest.equals(&self.own_id) {
            return Authority::ManagedNode;
        }
        Authority::Unknown
    }

    /// The resolver is total and its rules exclude one another in
    /// evaluation order: every (element, header) pair maps to exactly one
    /// role, characterised rule by rule, and the resolver never claims to
    /// be a client.
    pub proof fn lemma_authority_exclusive(&self, element: Seq<u8>, h: MessageHeaderV)
        ensures
            ({
                let r = self.our_authority_spec(element, h);
                let c1 = !h.is_from_group() && self.routing_table.in_close_group_range(
                    h.source.from_node,
                ) && h.destination.dest != element;
                let c2 = self.routing_table.in_close_group_range(element) && h.destination.dest
                    == element;
                let c3 = h.is_from_group() && self.routing_table.in_close_group_range(
                    h.destination.dest,
                ) && h.destination.dest != self.own_id@;
                let c4 = (match h.source.from_group {
                    Option::Some(g) => self.routing_table.in_close_group_range(g),
                    Option::None => false,
                }) && h.destination.dest == self.own_id@;
                &&& (r == Authority::ClientManager <==> c1)
                &&& (r == Authority::NaeManager <==> !c1 && c2)
                &&& (r == Authority::NodeManager <==> !c1 && !c2 && c3)
                &&& (r == Authority::ManagedNode <==> !c1 && !c2 && !c3 && c4)
                &&& (r == Authority::Unknown <==> !c1 && !c2 && !c3 && !c4)
                &&& r != Authority::Client
            }),
    {
    }

    /// Whether `address` falls in our close-group range.
    pub fn address_in_close_group_range(&self, address: &NameType) -> (r: bool)
        ensures
            r == self.routing_table.in_close_group_range(address@),
    {
        self.routing_table.address_in_our_close_group_range(address)
    }

    /// The source address this node stamps on fresh requests: while riding
    /// on a bootstrap peer, the peer fronts for us and we are the relay
    /// client; afterwards we speak as ourselves.
    pub open spec fn our_source_spec(&self) -> SourceAddressV {
        match self.bootstrap_endpoint {
            Option::Some(bep) => {
                if self.all_connections.has_endpoint(bep) {
                    SourceAddressV {
                        from_node: choose|nm: Seq<u8>| self.all_connections.has_pair(bep, nm),
                        from_group: Option::None,
                        reply_to: Option::Some(self.own_id@),
                    }
                } else {
                    SourceAddressV {
                        from_node: self.own_id@,
                        from_group: Option::None,
                        reply_to: Option::None,
                    }
                }
            },
            Option::None => SourceAddressV {
                from_node: self.own_id@,
                from_group: Option::None,
                reply_to: Option::None,
            },
        }
    }

    pub fn our_source_address(&self) -> (r: SourceAddress)
        requires
            self.wf(),
        ensures
            r@ == self.our_source_spec(),
    {
        if let Some(bep) = &self.bootstrap_endpoint {
            if let Some(peer) = self.all_connections.name_for_endpoint(bep) {
                proof {
                    let chosen = choose|nm: Seq<u8>| self.all_connections.has_pair(*bep, nm);
                    assert(self.all_connections.has_pair(*bep, peer@));
                    crate::registry::lemma_unique_name(&self.all_connections, *bep, peer@, chosen);
                }
                return SourceAddress {
                    from_node: peer,
                    from_group: None,
                    reply_to: Some(self.own_id),
                };
            }
            return SourceAddress { from_node: self.own_id, from_group: None, reply_to: None };
        }
        SourceAddress { from_node: self.own_id, from_group: None, reply_to: None }
    }

    /// A source address speaking for a whole group this node sits in.
    pub fn our_group_address(&self, group_id: NameType) -> (r: SourceAddress)
        ensures
            r@ == (SourceAddressV {
                from_node: self.own_id@,
                from_group: Option::Some(group_id@),
                reply_to: Option::None,
            }),
    {
        SourceAddress { from_node: self.own_id, from_group: Some(group_id), reply_to: None }
    }

    /// A source address for a group named by the caller.
    pub fn group_address_for_group(&self, group_address: &NameType) -> (r: SourceAddress)
        ensures
            r@ == (SourceAddressV {
                from_node: self.own_id@,
                from_group: Option::Some(group_address@),
                reply_to: Option::None,
            }),
    {
        SourceAddress {
            from_node: self.own_id,
            from_group: Some(*group_address),
            reply_to: None,
        }
    }

    /// Queue one frame for a single endpoint.
    pub fn send_to(&mut self, endpoint: &Endpoint, serialised_message: Vec<u8>)
        ensures
            final(self).outbox@ == old(self).outbox@.push(OutboundAction::SendTo {
                endpoint: *endpoint,
                bytes: serialised_message,
            }),
            unchanged_but_outbox(old(self), final(self)),
    {
        self.outbox.push(OutboundAction::SendTo { endpoint: *endpoint, bytes: serialised_message });
    }

    /// The fan-out peers toward `target` that are actually connected.
    pub fn get_connected_target(&self, target: &NameType) -> (r: Vec<NodeInfo>)
        requires
            self.wf(),
        ensures
            forall|k: int|
                0 <= k < r@.len() ==> table_entry(&self.routing_table, #[trigger] r@[k]@)
                    && r@[k]@.connected_endpoint is Some,
            (forall|i: int|
                0 <= i < self.routing_table.spec_len()
                    ==> (#[trigger] self.routing_table.nodes_view()[i]).connected_endpoint
                    is Some) ==> r@.len() == (if self.routing_table.spec_len() < PARALLELISM {
                self.routing_table.spec_len()
            } else {
                PARALLELISM as int
            }),
    {
        let nodes = self.routing_table.target_nodes(target);
        let ghost all_connected = forall|i: int|
            0 <= i < self.routing_table.spec_len()
                ==> (#[trigger] self.routing_table.nodes_view()[i]).connected_endpoint is Some;
        let mut kept: Vec<NodeInfo> = Vec::new();
        let mut i: usize = 0;
        while i < nodes.len()
            invariant
                self.wf(),
                0 <= i <= nodes@.len(),
                forall|t: int|
                    0 <= t < nodes@.len() ==> table_entry(
                        &self.routing_table,
                        #[trigger] nodes@[t]@,
                    ),
                forall|k: int|
                    0 <= k < kept@.len() ==> table_entry(
                        &self.routing_table,
                        #[trigger] kept@[k]@,
                    ) && kept@[k]@.connected_endpoint is Some,
                (exists|t: int| 0 <= t < i && (#[trigger] nodes@[t]@).connected_endpoint is Some)
                    ==> kept@.len() > 0,
                all_connected == (forall|t: int|
                    0 <= t < self.routing_table.spec_len() ==> (
                    #[trigger] self.routing_table.nodes_view()[t]).connected_endpoint is Some),
                all_connected ==> kept@.len() == i,
            decreases nodes@.len() - i,
        {
            proof {
                if all_connected {
                    assert(table_entry(&self.routing_table, nodes@[i as int]@));
                    let j = choose|j: int|
                        0 <= j < self.routing_table.spec_len()
                            && #[trigger] self.routing_table.nodes_view()[j] == nodes@[i as int]@;
                    assert(nodes@[i as int]@.connected_endpoint is Some);
                }
            }
            if nodes[i].connected_endpoint.is_some() {
                kept.push(nodes[i].duplicate());
            }
            i = i + 1;
        }
        kept
    }

    /// Queue the frame for every connected, registered peer the routing
    /// table fans out to toward `target`: recursive multicast along the XOR
    /// gradient.
    pub fn send_swarm_or_parallel(&mut self, target: &NameType, serialised_message: &Vec<u8>)
        requires
            old(self).wf(),
        ensures
            final(self).wf(),
            unchanged_but_outbox(old(self), final(self)),
            old(self).outbox@.is_prefix_of(final(self).outbox@),
            forall|k: int|
                old(self).outbox@.len() <= k < final(self).outbox@.len()
                    ==> sent_to_connected_peer(
                    old(self),
                    serialised_message@,
                    #[trigger] final(self).outbox@[k],
                ),
            fully_reachable(&old(self).routing_table, &old(self).all_connections)
                ==> final(self).outbox@.len() == old(self).outbox@.len() + (if old(
                self,
            ).routing_table.spec_len() < PARALLELISM {
                old(self).routing_table.spec_len()
            } else {
                PARALLELISM as int
            }),
    {
        let targets = self.get_connected_target(target);
        let mut i: usize = 0;
        while i < targets.len()
            invariant
                0 <= i <= targets@.len(),
                self.wf(),
                unchanged_but_outbox(old(self), self),
                old(self).outbox@.is_prefix_of(self.outbox@),
                forall|t: int|
                    0 <= t < targets@.len() ==> table_entry(
                        &old(self).routing_table,
                        #[trigger] targets@[t]@,
                    ) && targets@[t]@.connected_endpoint is Some,
                forall|k: int|
                    old(self).outbox@.len() <= k < self.outbox@.len() ==> sent_to_connected_peer(
                        old(self),
                        serialised_message@,
                        #[trigger] self.outbox@[k],
                    ),
                (exists|t: int|
                    0 <= t < i && (#[trigger] targets@[t]@).connected_endpoint is Some
                        && old(self).all_connections.has_name(targets@[t]@.fob.name))
                    ==> self.outbox@.len() > old(self).outbox@.len(),
                fully_reachable(&old(self).routing_table, &old(self).all_connections)
                    ==> self.outbox@.len() == old(self).outbox@.len() + i,
            decreases targets@.len() - i,
        {
            proof {
                if fully_reachable(&old(self).routing_table, &old(self).all_connections) {
                    assert(table_entry(&old(self).routing_table, targets@[i as int]@));
                    let j = choose|j: int|
                        0 <= j < old(self).routing_table.spec_len() && #[trigger] old(
                            self,
                        ).routing_table.nodes_view()[j] == targets@[i as int]@;
                    assert(old(self).all_connections.has_name(targets@[i as int]@.fob.name));
                }
            }
            let peer_name = targets[i].id();
            if let Some(peer_ep) = self.all_connections.endpoint_for_name(&peer_name) {
                let bytes = codec::copy_bytes(serialised_message);
                self.outbox.push(OutboundAction::SendTo { endpoint: peer_ep, bytes });
                proof {
                    let k = self.outbox@.len() - 1;
                    assert(sent_to_connected_peer(
                        old(self),
                        serialised_message@,
                        self.outbox@[k],
                    )) by {
                        assert(table_entry(&old(self).routing_table, targets@[i as int]@));
                    }
                    assert(old(self).outbox@.is_prefix_of(self.outbox@));
                }
            }
            i = i + 1;
        }
        proof {
            if fully_reachable(&old(self).routing_table, &old(self).all_connections) {
                assert(targets@.len() == (if old(self).routing_table.spec_len() < PARALLELISM {
                    old(self).routing_table.spec_len()
                } else {
                    PARALLELISM as int
                }));
            }
        }
    }

    /// Queue a frame for the bootstrap peer.
    pub fn send_to_bootstrap_node(&mut self, routing_message: &RoutingMessage)
        requires
            old(self).bootstrap_endpoint is Some,
        ensures
            final(self).outbox@.len() == old(self).outbox@.len() + 1,
            old(self).outbox@.is_prefix_of(final(self).outbox@),
            final(self).outbox@.last() matches OutboundAction::SendTo { endpoint, bytes }
                && endpoint == old(self).bootstrap_endpoint.unwrap() && bytes@
                == codec::enc_message(routing_message@),
            unchanged_but_outbox(old(self), final(self)),
    {
        let bytes = codec::encode_routing_message(routing_message);
        let ep = match &self.bootstrap_endpoint {
            Some(e) => *e,
            None => vstd::pervasive::unreached(),
        };
        self.outbox.push(OutboundAction::SendTo { endpoint: ep, bytes });
    }
}

/// Every table peer is connected and registered: the premise under which a
/// swarm send is owed at least one recipient.
pub open spec fn fully_reachable(t: &RoutingTable, reg: &ConnectionRegistry) -> bool {
    &&& t.spec_len() > 0
    &&& forall|i: int|
        0 <= i < t.spec_len() ==> (#[trigger] t.nodes_view()[i]).connected_endpoint is Some
            && reg.has_name(t.nodes_view()[i].fob.name)
}

/// Everything except the outbox is the same in both states.
pub open spec fn unchanged_but_outbox<F: Interface>(
    a: &RoutingNode<F>,
    b: &RoutingNode<F>,
) -> bool {
    &&& b.interface == a.interface
    &&& b.pmid == a.pmid
    &&& b.own_id == a.own_id
    &&& b.all_connections == a.all_connections
    &&& b.routing_table == a.routing_table
    &&& b.accepting_on == a.accepting_on
    &&& b.next_message_id == a.next_message_id
    &&& b.bootstrap_endpoint == a.bootstrap_endpoint
    &&& b.bootstrap_node_id == a.bootstrap_node_id
    &&& b.filter == a.filter
    &&& b.public_pmid_cache == a.public_pmid_cache
}

/// The outbound action sends exactly `bytes` to the registered endpoint of
/// some connected routing-table peer of `n`.
pub open spec fn sent_to_connected_peer<F: Interface>(
    n: &RoutingNode<F>,
    bytes: Seq<u8>,
    a: OutboundAction,
) -> bool {
    match a {
        OutboundAction::SendTo { endpoint, bytes: sent } => {
            &&& sent@ == bytes
            &&& exists|v: crate::routing_table::NodeInfoV|
                #![all_triggers]
                table_entry(&n.routing_table, v) && v.connected_endpoint is Some
                    && n.all_connections.has_pair(endpoint, v.fob.name)
        },
        OutboundAction::Connect { .. } => false,
    }
}


impl<F: Interface> RoutingNode<F> {
    /// Ask the close group of `name` for typed content.  Queues a GetData
    /// toward `name` through the overlay.
    pub fn get(&mut self, type_id: u64, name: NameType)
        requires
            old(self).wf(),
        ensures
            final(self).wf(),
            core_unchanged(old(self), final(self)),
            final(self).next_message_id as int == (old(self).next_message_id as int + 1)
                % 0x1_0000_0000,
            old(self).outbox@.is_prefix_of(final(self).outbox@),
            forall|k: int|
                old(self).outbox@.len() <= k < final(self).outbox@.len()
                    ==> sent_to_connected_peer(
                    old(self),
                    codec::enc_message(get_request_view(old(self), type_id, name@)),
                    #[trigger] final(self).outbox@[k],
                ),
            fully_reachable(&old(self).routing_table, &old(self).all_connections)
                ==> final(self).outbox@.len() > old(self).outbox@.len(),
    {
        let requester = self.our_source_address();
        let source = self.our_source_address();
        let message_id = self.get_next_message_id();
        let destination = DestinationAddress { dest: name, reply_to: None };
        let header = MessageHeader::new(message_id, destination, source, Authority::Client);
        let request = GetData {
            requester,
            name_and_type_id: NameAndTypeId { name, type_id },
        };
        let body = codec::encode_get_data(&request);
        let key = self.pmid.get_crypto_secret_sign_key();
        let message = RoutingMessage::new(MessageTypeTag::GetData, header, body, &key);
        let bytes = codec::encode_routing_message(&message);
        proof {
            assert(message@ =~= get_request_view(old(self), type_id, name@));
        }
        self.send_swarm_or_parallel(&name, &bytes);
    }

    /// Store content: route a PutData toward our own client-manager group.
    /// `client_authority` decides whether we speak as a client or as a
    /// managed node.
    pub fn put(&mut self, destination: NameType, content: crate::types::Sendable, client_authority: bool)
        requires
            old(self).wf(),
        ensures
            final(self).wf(),
            core_unchanged(old(self), final(self)),
            final(self).next_message_id as int == (old(self).next_message_id as int + 1)
                % 0x1_0000_0000,
            old(self).outbox@.is_prefix_of(final(self).outbox@),
            forall|k: int|
                old(self).outbox@.len() <= k < final(self).outbox@.len()
                    ==> sent_to_connected_peer(
                    old(self),
                    codec::enc_message(put_request_view(
                        old(self),
                        destination@,
                        content.name@,
                        content.serialised_contents@,
                        if client_authority {
                            Authority::Client
                        } else {
                            Authority::ManagedNode
                        },
                        MessageTypeTag::PutData,
                    )),
                    #[trigger] final(self).outbox@[k],
                ),
            fully_reachable(&old(self).routing_table, &old(self).all_connections)
                ==> final(self).outbox@.len() > old(self).outbox@.len(),
    {
        let authority = if client_authority {
            Authority::Client
        } else {
            Authority::ManagedNode
        };
        self.send_put_message(destination, content, authority, MessageTypeTag::PutData);
    }

    /// Store content without claiming any authority: the receiving group
    /// sees `Unknown` and applies its unauthorised-put path.
    pub fn unauthorised_put(&mut self, destination: NameType, content: crate::types::Sendable)
        requires
            old(self).wf(),
        ensures
            final(self).wf(),
            core_unchanged(old(self), final(self)),
            final(self).next_message_id as int == (old(self).next_message_id as int + 1)
                % 0x1_0000_0000,
            old(self).outbox@.is_prefix_of(final(self).outbox@),
            forall|k: int|
                old(self).outbox@.len() <= k < final(self).outbox@.len()
                    ==> sent_to_connected_peer(
                    old(self),
                    codec::enc_message(put_request_view(
                        old(self),
                        destination@,
                        content.name@,
                        content.serialised_contents@,
                        Authority::Unknown,
                        MessageTypeTag::UnauthorisedPut,
                    )),
                    #[trigger] final(self).outbox@[k],
                ),
            fully_reachable(&old(self).routing_table, &old(self).all_connections)
                ==> final(self).outbox@.len() > old(self).outbox@.len(),
    {
        self.send_put_message(destination, content, Authority::Unknown, MessageTypeTag::UnauthorisedPut);
    }

    /// Shared body of the store calls: frame, sign and swarm a put toward
    /// our own name.
    fn send_put_message(
        &mut self,
        destination: NameType,
        content: crate::types::Sendable,
        authority: Authority,
        tag: MessageTypeTag,
    )
        requires
            old(self).wf(),
            tag == MessageTypeTag::PutData || tag == MessageTypeTag::UnauthorisedPut,
        ensures
            final(self).wf(),
            core_unchanged(old(self), final(self)),
            final(self).next_message_id as int == (old(self).next_message_id as int + 1)
                % 0x1_0000_0000,
            old(self).outbox@.is_prefix_of(final(self).outbox@),
            forall|k: int|
                old(self).outbox@.len() <= k < final(self).outbox@.len()
                    ==> sent_to_connected_peer(
                    old(self),
                    codec::enc_message(put_request_view(
                        old(self),
                        destination@,
                        content.name@,
                        content.serialised_contents@,
                        authority,
                        tag,
                    )),
                    #[trigger] final(self).outbox@[k],
                ),
            fully_reachable(&old(self).routing_table, &old(self).all_connections)
                ==> final(self).outbox@.len() > old(self).outbox@.len(),
    {
        let source = self.our_source_address();
        let message_id = self.get_next_message_id();
        let dest_addr = DestinationAddress { dest: destination, reply_to: None };
        let header = MessageHeader::new(message_id, dest_addr, source, authority);
        let request = PutData { name: content.name, data: content.serialised_contents };
        let body = codec::encode_put_data(&request);
        let key = self.pmid.get_crypto_secret_sign_key();
        let message = RoutingMessage::new(tag, header, body, &key);
        let bytes = codec::encode_routing_message(&message);
        proof {
            assert(message@ =~= put_request_view(
                old(self),
                destination@,
                content.name@,
                content.serialised_contents@,
                authority,
                tag,
            ));
        }
        let own = self.id();
        self.send_swarm_or_parallel(&own, &bytes);
    }

    /// Re-assert ownership of content after churn: a managed-node put of
    /// the content under its own name.
    pub fn refresh(&mut self, content: crate::types::Sendable)
        requires
            old(self).wf(),
        ensures
            final(self).wf(),
            core_unchanged(old(self), final(self)),
            final(self).next_message_id as int == (old(self).next_message_id as int + 1)
                % 0x1_0000_0000,
            old(self).outbox@.is_prefix_of(final(self).outbox@),
            forall|k: int|
                old(self).outbox@.len() <= k < final(self).outbox@.len()
                    ==> sent_to_connected_peer(
                    old(self),
                    codec::enc_message(put_request_view(
                        old(self),
                        content.name@,
                        content.name@,
                        content.serialised_contents@,
                        Authority::ManagedNode,
                        MessageTypeTag::PutData,
                    )),
                    #[trigger] final(self).outbox@[k],
                ),
            fully_reachable(&old(self).routing_table, &old(self).all_connections)
                ==> final(self).outbox@.len() > old(self).outbox@.len(),
    {
        let name = content.name();
        self.put(name, content, false);
    }

    /// Reserved: mutation by proof of ownership is not part of this engine
    /// yet; the call has no effect.
    pub fn post(&self, _destination: NameType, _content: Vec<u8>) {
    }

    /// Publish our own identity toward the group of our name, via the
    /// bootstrap peer.
    pub fn put_own_public_pmid(&mut self)
        requires
            old(self).wf(),
            old(self).bootstrap_endpoint is Some,
        ensures
            final(self).wf(),
            core_unchanged(old(self), final(self)),
            final(self).next_message_id as int == (old(self).next_message_id as int + 1)
                % 0x1_0000_0000,
            old(self).outbox@.is_prefix_of(final(self).outbox@),
            final(self).outbox@.len() == old(self).outbox@.len() + 1,
            final(self).outbox@.last() matches OutboundAction::SendTo { endpoint, bytes }
                && endpoint == old(self).bootstrap_endpoint.unwrap() && bytes@
                == codec::enc_message(own_identity_view(old(self))),
    {
        let our_public_pmid = PublicPmid::new(&self.pmid);
        let message_id = self.get_next_message_id();
        let destination = DestinationAddress { dest: our_public_pmid.name, reply_to: None };
        let source = SourceAddress {
            from_node: self.own_id,
            from_group: None,
            reply_to: self.bootstrap_node_id,
        };
        let header = MessageHeader::new(message_id, destination, source, Authority::ManagedNode);
        let request = PutPublicPmid { public_pmid: our_public_pmid };
        let body = codec::encode_put_public_pmid(&request);
        let key = self.pmid.get_crypto_secret_sign_key();
        let message = RoutingMessage::new(MessageTypeTag::PutPublicPmid, header, body, &key);
        proof {
            assert(message@ =~= own_identity_view(old(self)));
        }
        self.send_to_bootstrap_node(&message);
    }

    /// Enter the overlay through the endpoint the connection manager
    /// reached, or fail when it reached none.  On success the handshake
    /// frame is queued for the peer.
    pub fn bootstrap(&mut self, bootstrapped_to: Option<Endpoint>) -> (r: Result<
        (),
        RoutingError,
    >)
        requires
            old(self).wf(),
        ensures
            final(self).wf(),
            match bootstrapped_to {
                None => r == Result::<(), RoutingError>::Err(RoutingError::FailedToBootstrap)
                    && *final(self) == *old(self),
                Some(ep) => {
                    &&& r == Result::<(), RoutingError>::Ok(())
                    &&& final(self).bootstrap_endpoint == Some(ep)
                    &&& core_unchanged_but_bootstrap(old(self), final(self))
                    &&& final(self).bootstrap_node_id == old(self).bootstrap_node_id
                    &&& final(self).next_message_id as int == (old(self).next_message_id as int
                        + 1) % 0x1_0000_0000
                    &&& old(self).outbox@.is_prefix_of(final(self).outbox@)
                    &&& final(self).outbox@.len() == old(self).outbox@.len() + 1
                    &&& final(self).outbox@.last() matches OutboundAction::SendTo {
                        endpoint,
                        bytes,
                    } && endpoint == ep && bytes@ == codec::enc_message(bootstrap_id_view(
                        old(self),
                        MessageTypeTag::BootstrapIdRequest,
                    ))
                },
            },
    {
        let bootstrapped_to = match bootstrapped_to {
            Some(ep) => ep,
            None => {
                return Err(RoutingError::FailedToBootstrap);
            },
        };
        self.bootstrap_endpoint = Some(bootstrapped_to);
        self.send_bootstrap_id_request();
        Ok(())
    }

    /// Announce our name to the bootstrap peer: the first half of the
    /// identity exchange.
    pub fn send_bootstrap_id_request(&mut self)
        requires
            old(self).wf(),
            old(self).bootstrap_endpoint is Some,
        ensures
            final(self).wf(),
            core_unchanged(old(self), final(self)),
            final(self).next_message_id as int == (old(self).next_message_id as int + 1)
                % 0x1_0000_0000,
            old(self).outbox@.is_prefix_of(final(self).outbox@),
            final(self).outbox@.len() == old(self).outbox@.len() + 1,
            final(self).outbox@.last() matches OutboundAction::SendTo { endpoint, bytes }
                && endpoint == old(self).bootstrap_endpoint.unwrap() && bytes@
                == codec::enc_message(bootstrap_id_view(
                old(self),
                MessageTypeTag::BootstrapIdRequest,
            )),
    {
        let message = self.construct_bootstrap_id_msg(MessageTypeTag::BootstrapIdRequest);
        proof {
            assert(message@ =~= bootstrap_id_view(old(self), MessageTypeTag::BootstrapIdRequest));
        }
        self.send_to_bootstrap_node(&message);
    }

    /// Answer an identity request directly on the asking endpoint: the
    /// second half of the identity exchange.
    pub fn send_bootstrap_id_response(&mut self, peer_endpoint: Endpoint)
        requires
            old(self).wf(),
        ensures
            final(self).wf(),
            core_unchanged(old(self), final(self)),
            final(self).next_message_id as int == (old(self).next_message_id as int + 1)
                % 0x1_0000_0000,
            old(self).outbox@.is_prefix_of(final(self).outbox@),
            final(self).outbox@.len() == old(self).outbox@.len() + 1,
            final(self).outbox@.last() matches OutboundAction::SendTo { endpoint, bytes }
                && endpoint == peer_endpoint && bytes@ == codec::enc_message(bootstrap_id_view(
                old(self),
                MessageTypeTag::BootstrapIdResponse,
            )),
    {
        let message = self.construct_bootstrap_id_msg(MessageTypeTag::BootstrapIdResponse);
        proof {
            assert(message@ =~= bootstrap_id_view(old(self), MessageTypeTag::BootstrapIdResponse));
        }
        let bytes = codec::encode_routing_message(&message);
        self.send_to(&peer_endpoint, bytes);
    }

    /// Frame an identity-exchange message of either direction.
    fn construct_bootstrap_id_msg(&mut self, tag: MessageTypeTag) -> (r: RoutingMessage)
        requires
            old(self).wf(),
        ensures
            final(self).wf(),
            core_unchanged(old(self), final(self)),
            final(self).outbox == old(self).outbox,
            final(self).next_message_id as int == (old(self).next_message_id as int + 1)
                % 0x1_0000_0000,
            r@ == bootstrap_id_view(old(self), tag),
    {
        let message_id = self.get_next_message_id();
        let header = MessageHeader::new(
            message_id,
            DestinationAddress { dest: NameType::new([0u8; 64]), reply_to: None },
            SourceAddress { from_node: self.own_id, from_group: None, reply_to: None },
            Authority::ManagedNode,
        );
        // both identity frames carry one name as their body
        let announcement = BootstrapIdRequest { sender_id: self.own_id };
        let body = codec::encode_single_name(&announcement.sender_id);
        let key = self.pmid.get_crypto_secret_sign_key();
        let r = RoutingMessage::new(tag, header, body, &key);
        proof {
            assert(r@.message_header.destination.dest =~= zero_name());
            assert(r@ =~= bootstrap_id_view(old(self), tag));
        }
        r
    }
}

/// All state but the message counter and the outbox is unchanged.
pub open spec fn core_unchanged<F: Interface>(a: &RoutingNode<F>, b: &RoutingNode<F>) -> bool {
    &&& b.interface == a.interface
    &&& b.pmid == a.pmid
    &&& b.own_id == a.own_id
    &&& b.all_connections == a.all_connections
    &&& b.routing_table == a.routing_table
    &&& b.accepting_on == a.accepting_on
    &&& b.bootstrap_endpoint == a.bootstrap_endpoint
    &&& b.bootstrap_node_id == a.bootstrap_node_id
    &&& b.filter == a.filter
    &&& b.public_pmid_cache == a.public_pmid_cache
}

/// Like `core_unchanged`, except the bootstrap endpoint may move.
pub open spec fn core_unchanged_but_bootstrap<F: Interface>(
    a: &RoutingNode<F>,
    b: &RoutingNode<F>,
) -> bool {
    &&& b.interface == a.interface
    &&& b.pmid == a.pmid
    &&& b.own_id == a.own_id
    &&& b.all_connections == a.all_connections
    &&& b.routing_table == a.routing_table
    &&& b.accepting_on == a.accepting_on
    &&& b.filter == a.filter
    &&& b.public_pmid_cache == a.public_pmid_cache
}

/// The all-zero overlay address.
pub open spec fn zero_name() -> Seq<u8> {
    Seq::new(64, |i: int| 0u8)
}

/// The frame `get` sends for a content request.
pub open spec fn get_request_view<F: Interface>(
    n: &RoutingNode<F>,
    type_id: u64,
    name: Seq<u8>,
) -> crate::messages::RoutingMessageV {
    let src = n.our_source_spec();
    let body = codec::enc_get_data(crate::messages::GetDataV {
        requester: src,
        name_and_type_id: crate::types::NameAndTypeIdV { name, type_id },
    });
    crate::messages::RoutingMessageV {
        message_type: MessageTypeTag::GetData,
        message_header: MessageHeaderV {
            message_id: n.next_message_id,
            destination: crate::types::DestinationAddressV { dest: name, reply_to: Option::None },
            source: src,
            authority: Authority::Client,
        },
        serialised_body: body,
        signature: crypto::sig_of(n.pmid.get_crypto_secret_sign_key_spec(), body),
    }
}

/// The frame the store calls send.
pub open spec fn put_request_view<F: Interface>(
    n: &RoutingNode<F>,
    destination: Seq<u8>,
    content_name: Seq<u8>,
    content: Seq<u8>,
    authority: Authority,
    tag: MessageTypeTag,
) -> crate::messages::RoutingMessageV {
    let src = n.our_source_spec();
    let body = codec::enc_put_data(crate::messages::PutDataV { name: content_name, data: content });
    crate::messages::RoutingMessageV {
        message_type: tag,
        message_header: MessageHeaderV {
            message_id: n.next_message_id,
            destination: crate::types::DestinationAddressV {
                dest: destination,
                reply_to: Option::None,
            },
            source: src,
            authority,
        },
        serialised_body: body,
        signature: crypto::sig_of(n.pmid.get_crypto_secret_sign_key_spec(), body),
    }
}

/// The identity-exchange frame carrying our name.
pub open spec fn bootstrap_id_view<F: Interface>(
    n: &RoutingNode<F>,
    tag: MessageTypeTag,
) -> crate::messages::RoutingMessageV {
    let body = codec::enc_single_name(n.own_id@);
    crate::messages::RoutingMessageV {
        message_type: tag,
        message_header: MessageHeaderV {
            message_id: n.next_message_id,
            destination: crate::types::DestinationAddressV {
                dest: zero_name(),
                reply_to: Option::None,
            },
            source: SourceAddressV {
                from_node: n.own_id@,
                from_group: Option::None,
                reply_to: Option::None,
            },
            authority: Authority::ManagedNode,
        },
        serialised_body: body,
        signature: crypto::sig_of(n.pmid.get_crypto_secret_sign_key_spec(), body),
    }
}

/// The FindGroup frame queued right after the identity exchange completes:
/// it asks for our own close group, through the bootstrap peer, with the
/// peer fronting for us as source and ourselves as the relay client.
pub open spec fn splice_find_group_view<F: Interface>(
    n: &RoutingNode<F>,
    sender: Seq<u8>,
) -> crate::messages::RoutingMessageV {
    let body = codec::enc_find_group(crate::messages::FindGroupV {
        requester_id: n.own_id@,
        target_id: n.own_id@,
    });
    crate::messages::RoutingMessageV {
        message_type: MessageTypeTag::FindGroup,
        message_header: MessageHeaderV {
            message_id: n.next_message_id,
            destination: crate::types::DestinationAddressV {
                dest: n.own_id@,
                reply_to: Option::Some(n.own_id@),
            },
            source: SourceAddressV {
                from_node: sender,
                from_group: Option::None,
                reply_to: Option::Some(n.own_id@),
            },
            authority: Authority::ManagedNode,
        },
        serialised_body: body,
        signature: crypto::sig_of(n.pmid.get_crypto_secret_sign_key_spec(), body),
    }
}

/// The frame publishing our own identity.
pub open spec fn own_identity_view<F: Interface>(n: &RoutingNode<F>) -> crate::messages::RoutingMessageV {
    let fob = crate::types::PublicPmidV {
        public_sign_key: n.pmid.get_public_sign_key_spec().key@,
        name: n.own_id@,
    };
    let body = codec::enc_put_public_pmid(crate::messages::PutPublicPmidV { public_pmid: fob });
    crate::messages::RoutingMessageV {
        message_type: MessageTypeTag::PutPublicPmid,
        message_header: MessageHeaderV {
            message_id: n.next_message_id,
            destination: crate::types::DestinationAddressV {
                dest: n.own_id@,
                reply_to: Option::None,
            },
            source: SourceAddressV {
                from_node: n.own_id@,
                from_group: Option::None,
                reply_to: crate::types::opt_name_view(n.bootstrap_node_id),
            },
            authority: Authority::ManagedNode,
        },
        serialised_body: body,
        signature: crypto::sig_of(n.pmid.get_crypto_secret_sign_key_spec(), body),
    }
}


impl<F: Interface> RoutingNode<F> {
    /// Frame a FindGroup asking for our own close group, sent while we ride
    /// on the bootstrap peer.
    pub fn construct_find_group_msg(&mut self, reply_to: Option<NameType>) -> (r: RoutingMessage)
        requires
            old(self).wf(),
        ensures
            final(self).wf(),
            core_unchanged(old(self), final(self)),
            final(self).outbox == old(self).outbox,
            final(self).next_message_id as int == (old(self).next_message_id as int + 1)
                % 0x1_0000_0000,
            r.message_type == MessageTypeTag::FindGroup,
            r.message_header@ == (MessageHeaderV {
                message_id: old(self).next_message_id,
                destination: crate::types::DestinationAddressV {
                    dest: old(self).own_id@,
                    reply_to: crate::types::opt_name_view(reply_to),
                },
                source: old(self).our_source_spec(),
                authority: Authority::ManagedNode,
            }),
            r.serialised_body@ == codec::enc_find_group(crate::messages::FindGroupV {
                requester_id: old(self).own_id@,
                target_id: old(self).own_id@,
            }),
            r.signature@ == crypto::sig_of(
                old(self).pmid.get_crypto_secret_sign_key_spec(),
                r.serialised_body@,
            ),
    {
        let source = self.our_source_address();
        let message_id = self.get_next_message_id();
        let header = MessageHeader::new(
            message_id,
            DestinationAddress { dest: self.own_id, reply_to },
            source,
            Authority::ManagedNode,
        );
        let request = FindGroup { requester_id: self.own_id, target_id: self.own_id };
        let body = codec::encode_find_group(&request);
        let key = self.pmid.get_crypto_secret_sign_key();
        RoutingMessage::new(MessageTypeTag::FindGroup, header, body, &key)
    }

    /// Frame the answer to a FindGroup: the published identities handed in,
    /// spoken for the target's group.
    pub fn construct_find_group_response_msg(
        &mut self,
        original_header: &MessageHeader,
        find_group: &FindGroup,
        group: Vec<PublicPmid>,
    ) -> (r: RoutingMessage)
        requires
            old(self).wf(),
            group@.len() <= codec::MAX_LIST_LEN,
        ensures
            final(self).wf(),
            core_unchanged(old(self), final(self)),
            final(self).outbox == old(self).outbox,
            final(self).next_message_id as int == (old(self).next_message_id as int + 1)
                % 0x1_0000_0000,
            r.message_type == MessageTypeTag::FindGroupResponse,
            r.message_header@ == (MessageHeaderV {
                message_id: old(self).next_message_id,
                destination: original_header@.send_to(),
                source: SourceAddressV {
                    from_node: old(self).own_id@,
                    from_group: Option::Some(find_group.target_id@),
                    reply_to: Option::None,
                },
                authority: Authority::NaeManager,
            }),
            r.serialised_body@ == codec::enc_find_group_response(
                crate::messages::FindGroupResponseV {
                    group: crate::messages::pmids_view(group@),
                },
            ),
            r.signature@ == crypto::sig_of(
                old(self).pmid.get_crypto_secret_sign_key_spec(),
                r.serialised_body@,
            ),
    {
        let message_id = self.get_next_message_id();
        let header = MessageHeader::new(
            message_id,
            original_header.send_to(),
            self.our_group_address(find_group.target_id),
            Authority::NaeManager,
        );
        let response = FindGroupResponse { group };
        let body = codec::encode_find_group_response(&response);
        let key = self.pmid.get_crypto_secret_sign_key();
        RoutingMessage::new(MessageTypeTag::FindGroupResponse, header, body, &key)
    }

    /// Frame the answer to a GetGroupKey: the group's signing keys, under
    /// the same message id so answers accumulate.
    pub fn construct_get_group_key_response_msg(
        &mut self,
        original_header: &MessageHeader,
        get_group_key: &GetGroupKey,
        group_keys: Vec<NameAndKey>,
    ) -> (r: RoutingMessage)
        requires
            old(self).wf(),
            group_keys@.len() <= codec::MAX_LIST_LEN,
        ensures
            final(self).wf(),
            *final(self) == *old(self),
            r.message_type == MessageTypeTag::GetGroupKeyResponse,
            r.message_header@ == (MessageHeaderV {
                message_id: original_header@.message_id,
                destination: original_header@.send_to(),
                source: SourceAddressV {
                    from_node: old(self).own_id@,
                    from_group: Option::Some(get_group_key.target_id@),
                    reply_to: Option::None,
                },
                authority: Authority::NaeManager,
            }),
            r.serialised_body@ == codec::enc_get_group_key_response(
                crate::messages::GetGroupKeyResponseV {
                    public_sign_keys: crate::messages::name_keys_view(group_keys@),
                },
            ),
            r.signature@ == crypto::sig_of(
                old(self).pmid.get_crypto_secret_sign_key_spec(),
                r.serialised_body@,
            ),
    {
        let header = MessageHeader::new(
            original_header.message_id,
            original_header.send_to(),
            self.our_group_address(get_group_key.target_id),
            Authority::NaeManager,
        );
        let response = GetGroupKeyResponse { public_sign_keys: group_keys };
        let body = codec::encode_get_group_key_response(&response);
        let key = self.pmid.get_crypto_secret_sign_key();
        RoutingMessage::new(MessageTypeTag::GetGroupKeyResponse, header, body, &key)
    }

    /// The direct-connection greeting carrying our identity.
    pub fn construct_success_msg(&mut self) -> (r: ConnectSuccess)
        requires
            old(self).wf(),
        ensures
            *final(self) == *old(self),
            r.peer_id == old(self).own_id,
            r.peer_fob@ == (crate::types::PublicPmidV {
                public_sign_key: old(self).pmid.get_public_sign_key_spec().key@,
                name: old(self).own_id@,
            }),
    {
        let connect_success = ConnectSuccess {
            peer_id: self.own_id,
            peer_fob: PublicPmid::new(&self.pmid),
        };
        connect_success
    }

    /// Frame a ConnectRequest toward a peer we want in the table, listing
    /// the endpoints we accept connections on.
    pub fn construct_connect_request_msg(&mut self, peer_id: &NameType) -> (r: RoutingMessage)
        requires
            old(self).wf(),
        ensures
            final(self).wf(),
            core_unchanged(old(self), final(self)),
            final(self).outbox == old(self).outbox,
            final(self).next_message_id as int == (old(self).next_message_id as int + 1)
                % 0x1_0000_0000,
            r.message_type == MessageTypeTag::ConnectRequest,
            r.message_header@ == (MessageHeaderV {
                message_id: old(self).next_message_id,
                destination: crate::types::DestinationAddressV {
                    dest: peer_id@,
                    reply_to: Option::None,
                },
                source: old(self).our_source_spec(),
                authority: Authority::ManagedNode,
            }),
            r.serialised_body@ == codec::enc_connect_request(crate::messages::ConnectRequestV {
                local_endpoints: old(self).accepting_on@,
                external_endpoints: Seq::empty(),
                requester_id: old(self).own_id@,
                receiver_id: peer_id@,
                requester_fob: crate::types::PublicPmidV {
                    public_sign_key: old(self).pmid.get_public_sign_key_spec().key@,
                    name: old(self).own_id@,
                },
            }),
            r.signature@ == crypto::sig_of(
                old(self).pmid.get_crypto_secret_sign_key_spec(),
                r.serialised_body@,
            ),
    {
        let source = self.our_source_address();
        let message_id = self.get_next_message_id();
        let header = MessageHeader::new(
            message_id,
            DestinationAddress { dest: *peer_id, reply_to: None },
            source,
            Authority::ManagedNode,
        );
        // all accepting endpoints travel as local: the node does not yet
        // tell local and external apart
        let local_endpoints = copy_endpoints(&self.accepting_on);
        let connect_request = ConnectRequest {
            local_endpoints,
            external_endpoints: Vec::new(),
            requester_id: self.own_id,
            receiver_id: *peer_id,
            requester_fob: PublicPmid::new(&self.pmid),
        };
        let body = codec::encode_connect_request(&connect_request);
        let key = self.pmid.get_crypto_secret_sign_key();
        let r = RoutingMessage::new(MessageTypeTag::ConnectRequest, header, body, &key);
        proof {
            assert(connect_request@ =~= (crate::messages::ConnectRequestV {
                local_endpoints: old(self).accepting_on@,
                external_endpoints: Seq::empty(),
                requester_id: old(self).own_id@,
                receiver_id: peer_id@,
                requester_fob: crate::types::PublicPmidV {
                    public_sign_key: old(self).pmid.get_public_sign_key_spec().key@,
                    name: old(self).own_id@,
                },
            }));
        }
        r
    }

    /// Frame the acceptance of a ConnectRequest: echo the requester's
    /// endpoints and add ours.
    pub fn construct_connect_response_msg(
        &mut self,
        original_header: &MessageHeader,
        connect_request: &ConnectRequest,
    ) -> (r: RoutingMessage)
        requires
            old(self).wf(),
            connect_request.local_endpoints@.len() <= codec::MAX_LIST_LEN,
            connect_request.external_endpoints@.len() <= codec::MAX_LIST_LEN,
        ensures
            final(self).wf(),
            core_unchanged(old(self), final(self)),
            final(self).outbox == old(self).outbox,
            final(self).next_message_id as int == (old(self).next_message_id as int + 1)
                % 0x1_0000_0000,
            r.message_type == MessageTypeTag::ConnectResponse,
            r.message_header@ == (MessageHeaderV {
                message_id: old(self).next_message_id,
                destination: original_header@.send_to(),
                source: old(self).our_source_spec(),
                authority: Authority::ManagedNode,
            }),
            r.serialised_body@ == codec::enc_connect_response(crate::messages::ConnectResponseV {
                requester_local_endpoints: connect_request.local_endpoints@,
                requester_external_endpoints: connect_request.external_endpoints@,
                receiver_local_endpoints: old(self).accepting_on@,
                receiver_external_endpoints: Seq::empty(),
                requester_id: connect_request.requester_id@,
                receiver_id: old(self).own_id@,
                receiver_fob: crate::types::PublicPmidV {
                    public_sign_key: old(self).pmid.get_public_sign_key_spec().key@,
                    name: old(self).own_id@,
                },
            }),
            r.signature@ == crypto::sig_of(
                old(self).pmid.get_crypto_secret_sign_key_spec(),
                r.serialised_body@,
            ),
    {
        let source = self.our_source_address();
        let message_id = self.get_next_message_id();
        let header = MessageHeader::new(
            message_id,
            original_header.send_to(),
            source,
            Authority::ManagedNode,
        );
        let connect_response = ConnectResponse {
            requester_local_endpoints: copy_endpoints(&connect_request.local_endpoints),
            requester_external_endpoints: copy_endpoints(&connect_request.external_endpoints),
            receiver_local_endpoints: copy_endpoints(&self.accepting_on),
            receiver_external_endpoints: Vec::new(),
            requester_id: connect_request.requester_id,
            receiver_id: self.own_id,
            receiver_fob: PublicPmid::new(&self.pmid),
        };
        let body = codec::encode_connect_response(&connect_response);
        let key = self.pmid.get_crypto_secret_sign_key();
        let r = RoutingMessage::new(MessageTypeTag::ConnectResponse, header, body, &key);
        proof {
            assert(connect_response@ =~= (crate::messages::ConnectResponseV {
                requester_local_endpoints: connect_request.local_endpoints@,
                requester_external_endpoints: connect_request.external_endpoints@,
                receiver_local_endpoints: old(self).accepting_on@,
                receiver_external_endpoints: Seq::empty(),
                requester_id: connect_request.requester_id@,
                receiver_id: old(self).own_id@,
                receiver_fob: crate::types::PublicPmidV {
                    public_sign_key: old(self).pmid.get_public_sign_key_spec().key@,
                    name: old(self).own_id@,
                },
            }));
        }
        r
    }

    /// Frame the answer to a GetData served from the local cache or store.
    pub fn construct_get_data_response_msg(
        &mut self,
        original_header: &MessageHeader,
        get_data: &GetData,
        data: Vec<u8>,
    ) -> (r: RoutingMessage)
        requires
            old(self).wf(),
        ensures
            final(self).wf(),
            core_unchanged(old(self), final(self)),
            final(self).outbox == old(self).outbox,
            final(self).next_message_id as int == (old(self).next_message_id as int + 1)
                % 0x1_0000_0000,
            r.message_type == MessageTypeTag::GetDataResponse,
            r.message_header@ == (MessageHeaderV {
                message_id: old(self).next_message_id,
                destination: original_header@.send_to(),
                source: old(self).our_source_spec(),
                authority: Authority::ManagedNode,
            }),
            r.serialised_body@ == codec::enc_get_data_response(
                crate::messages::GetDataResponseV {
                    name_and_type_id: get_data.name_and_type_id@,
                    data: Result::Ok(data@),
                },
            ),
            r.signature@ == crypto::sig_of(
                old(self).pmid.get_crypto_secret_sign_key_spec(),
                r.serialised_body@,
            ),
    {
        let source = self.our_source_address();
        let message_id = self.get_next_message_id();
        let header = MessageHeader::new(
            message_id,
            original_header.send_to(),
            source,
            Authority::ManagedNode,
        );
        let get_data_response = GetDataResponse {
            name_and_type_id: get_data.name_and_type_id,
            data: Ok(data),
        };
        let body = codec::encode_get_data_response(&get_data_response);
        let key = self.pmid.get_crypto_secret_sign_key();
        RoutingMessage::new(MessageTypeTag::GetDataResponse, header, body, &key)
    }
}

/// Element-for-element copy of an endpoint list.
pub fn copy_endpoints(v: &Vec<Endpoint>) -> (r: Vec<Endpoint>)
    ensures
        r@ == v@,
{
    let mut out: Vec<Endpoint> = Vec::new();
    let mut i: usize = 0;
    while i < v.len()
        invariant
            0 <= i <= v@.len(),
            out@ == v@.subrange(0, i as int),
        decreases v@.len() - i,
    {
        out.push(v[i]);
        proof {
            assert(out@ =~= v@.subrange(0, i + 1));
        }
        i = i + 1;
    }
    proof {
        assert(out@ =~= v@);
    }
    out
}



/// Every frame the GetData handler emits is either the reply for this
/// request under this node's resolved authority, or a forwarded copy
/// toward some delegated destination, sent to a connected registered peer.
pub open spec fn get_data_handler_emission<F: Interface>(
    n: &RoutingNode<F>,
    h: MessageHeaderV,
    gd: crate::messages::GetDataV,
    a: OutboundAction,
) -> bool {
    let auth = n.our_authority_spec(gd.name_and_type_id.name, h);
    ||| exists|data: Result<Seq<u8>, Seq<u8>>|
        sent_to_connected_peer(
            n,
            codec::enc_message(
                #[trigger] get_data_reply_view(n, h, auth, gd.name_and_type_id, data),
            ),
            a,
        )
    ||| exists|dest: Seq<u8>|
        sent_to_connected_peer(
            n,
            codec::enc_message(#[trigger] get_data_send_on_view(n, h, auth, gd, dest)),
            a,
        )
}

/// Every frame the PutData handler emits is either the reply for this
/// request, or a forwarded copy toward some delegated destination.
pub open spec fn put_data_handler_emission<F: Interface>(
    n: &RoutingNode<F>,
    h: MessageHeaderV,
    pd: crate::messages::PutDataV,
    a: OutboundAction,
) -> bool {
    let auth = n.our_authority_spec(pd.name, h);
    ||| exists|data: Result<Seq<u8>, Seq<u8>>|
        sent_to_connected_peer(
            n,
            codec::enc_message(#[trigger] put_data_reply_view(n, h, auth, pd.name, data)),
            a,
        )
    ||| exists|dest: Seq<u8>|
        sent_to_connected_peer(
            n,
            codec::enc_message(#[trigger] put_data_send_on_view(n, h, auth, pd, dest)),
            a,
        )
}


/// The published identities a group answer carries: our close group's, ours
/// appended.
pub open spec fn close_group_identities<F: Interface>(
    n: &RoutingNode<F>,
) -> Seq<crate::types::PublicPmidV> {
    let cg = if n.routing_table.spec_len() < GROUP_SIZE {
        n.routing_table.spec_len()
    } else {
        GROUP_SIZE as int
    };
    Seq::new(cg as nat, |i: int| n.routing_table.nodes_view()[i].fob).push(
        crate::types::PublicPmidV {
            public_sign_key: n.pmid.get_public_sign_key_spec().key@,
            name: n.own_id@,
        },
    )
}

/// The signing keys a group-key answer carries: our close group's, ours
/// appended.
pub open spec fn close_group_keys<F: Interface>(
    n: &RoutingNode<F>,
) -> Seq<crate::messages::NameAndKeyV> {
    let cg = if n.routing_table.spec_len() < GROUP_SIZE {
        n.routing_table.spec_len()
    } else {
        GROUP_SIZE as int
    };
    Seq::new(
        cg as nat,
        |i: int| crate::messages::NameAndKeyV {
            name: n.routing_table.nodes_view()[i].fob.name,
            public_sign_key: n.routing_table.nodes_view()[i].fob.public_sign_key,
        },
    ).push(
        crate::messages::NameAndKeyV {
            name: n.own_id@,
            public_sign_key: n.pmid.get_public_sign_key_spec().key@,
        },
    )
}

/// The frame answering a FindGroup.
pub open spec fn find_group_reply_view<F: Interface>(
    n: &RoutingNode<F>,
    h: MessageHeaderV,
    target_id: Seq<u8>,
) -> crate::messages::RoutingMessageV {
    let body = codec::enc_find_group_response(crate::messages::FindGroupResponseV {
        group: close_group_identities(n),
    });
    crate::messages::RoutingMessageV {
        message_type: MessageTypeTag::FindGroupResponse,
        message_header: MessageHeaderV {
            message_id: n.next_message_id,
            destination: h.send_to(),
            source: SourceAddressV {
                from_node: n.own_id@,
                from_group: Option::Some(target_id),
                reply_to: Option::None,
            },
            authority: Authority::NaeManager,
        },
        serialised_body: body,
        signature: crypto::sig_of(n.pmid.get_crypto_secret_sign_key_spec(), body),
    }
}

/// The action carries the FindGroup answer, either through the overlay to a
/// connected registered peer or directly to the asking relay client.
pub open spec fn find_group_emission<F: Interface>(
    n: &RoutingNode<F>,
    h: MessageHeaderV,
    target_id: Seq<u8>,
    a: OutboundAction,
) -> bool {
    let frame = codec::enc_message(find_group_reply_view(n, h, target_id));
    ||| sent_to_connected_peer(n, frame, a)
    ||| (match h.source.reply_to {
        Option::Some(rt) => a matches OutboundAction::SendTo { endpoint, bytes } && bytes@
            == frame && n.all_connections.has_pair(endpoint, rt),
        Option::None => false,
    })
}

/// The frame answering a GetGroupKey; it keeps the asking message's counter
/// so group answers can be accumulated.
pub open spec fn group_key_reply_view<F: Interface>(
    n: &RoutingNode<F>,
    h: MessageHeaderV,
    target_id: Seq<u8>,
) -> crate::messages::RoutingMessageV {
    let body = codec::enc_get_group_key_response(crate::messages::GetGroupKeyResponseV {
        public_sign_keys: close_group_keys(n),
    });
    crate::messages::RoutingMessageV {
        message_type: MessageTypeTag::GetGroupKeyResponse,
        message_header: MessageHeaderV {
            message_id: h.message_id,
            destination: h.send_to(),
            source: SourceAddressV {
                from_node: n.own_id@,
                from_group: Option::Some(target_id),
                reply_to: Option::None,
            },
            authority: Authority::NaeManager,
        },
        serialised_body: body,
        signature: crypto::sig_of(n.pmid.get_crypto_secret_sign_key_spec(), body),
    }
}

/// The frame accepting a ConnectRequest: the requester's endpoints echoed,
/// ours added, under our source address.
pub open spec fn connect_reply_view<F: Interface>(
    n: &RoutingNode<F>,
    h: MessageHeaderV,
    cr: crate::messages::ConnectRequestV,
) -> crate::messages::RoutingMessageV {
    let body = codec::enc_connect_response(crate::messages::ConnectResponseV {
        requester_local_endpoints: cr.local_endpoints,
        requester_external_endpoints: cr.external_endpoints,
        receiver_local_endpoints: n.accepting_on@,
        receiver_external_endpoints: Seq::empty(),
        requester_id: cr.requester_id,
        receiver_id: n.own_id@,
        receiver_fob: crate::types::PublicPmidV {
            public_sign_key: n.pmid.get_public_sign_key_spec().key@,
            name: n.own_id@,
        },
    });
    crate::messages::RoutingMessageV {
        message_type: MessageTypeTag::ConnectResponse,
        message_header: MessageHeaderV {
            message_id: n.next_message_id,
            destination: h.send_to(),
            source: n.our_source_spec(),
            authority: Authority::ManagedNode,
        },
        serialised_body: body,
        signature: crypto::sig_of(n.pmid.get_crypto_secret_sign_key_spec(), body),
    }
}

/// The ConnectRequest frame queued toward a wanted peer, under the given
/// message counter value.
pub open spec fn connect_request_frame_view<F: Interface>(
    n: &RoutingNode<F>,
    id: u32,
    peer: Seq<u8>,
) -> crate::messages::RoutingMessageV {
    let body = codec::enc_connect_request(crate::messages::ConnectRequestV {
        local_endpoints: n.accepting_on@,
        external_endpoints: Seq::empty(),
        requester_id: n.own_id@,
        receiver_id: peer,
        requester_fob: crate::types::PublicPmidV {
            public_sign_key: n.pmid.get_public_sign_key_spec().key@,
            name: n.own_id@,
        },
    });
    crate::messages::RoutingMessageV {
        message_type: MessageTypeTag::ConnectRequest,
        message_header: MessageHeaderV {
            message_id: id,
            destination: crate::types::DestinationAddressV {
                dest: peer,
                reply_to: Option::None,
            },
            source: n.our_source_spec(),
            authority: Authority::ManagedNode,
        },
        serialised_body: body,
        signature: crypto::sig_of(n.pmid.get_crypto_secret_sign_key_spec(), body),
    }
}

/// The action carries a ConnectRequest for one of the advertised peers the
/// table wants, either through the overlay or as the copy sent to the
/// bootstrap peer.
pub open spec fn connect_request_emission<F: Interface>(
    n: &RoutingNode<F>,
    group: Seq<crate::types::PublicPmidV>,
    a: OutboundAction,
) -> bool {
    exists|j: int, id: u32|
        #![trigger group[j], connect_request_frame_view(n, id, group[j].name)]
        {
            &&& 0 <= j < group.len()
            &&& group[j].name != n.routing_table.our_id_spec()
            &&& !n.routing_table.contains_name(group[j].name)
            &&& {
                let frame = codec::enc_message(connect_request_frame_view(n, id, group[j].name));
                ||| sent_to_connected_peer(n, frame, a)
                ||| ((n.bootstrap_endpoint matches Some(bep)) && (a
                    matches OutboundAction::SendTo { endpoint, bytes } && endpoint
                    == n.bootstrap_endpoint.unwrap() && bytes@ == frame))
            }
        }
}

/// Every frame the GetKey handler emits is either a key answer for this
/// request under this node's resolved authority, or a forwarded copy
/// toward some delegated destination.
pub open spec fn get_key_handler_emission<F: Interface>(
    n: &RoutingNode<F>,
    h: MessageHeaderV,
    gk: crate::messages::GetKeyV,
    a: OutboundAction,
) -> bool {
    let auth = n.our_authority_spec(gk.target_id, h);
    ||| exists|key: Seq<u8>|
        sent_to_connected_peer(
            n,
            codec::enc_message(#[trigger] get_key_reply_view(n, h, auth, gk.target_id, key)),
            a,
        )
    ||| exists|dest: Seq<u8>|
        sent_to_connected_peer(
            n,
            codec::enc_message(#[trigger] get_key_send_on_view(n, h, auth, gk, dest)),
            a,
        )
}

/// Every frame the Post handler emits is a forwarded copy toward some
/// delegated destination; answers to posts are not routed yet.
pub open spec fn post_handler_emission<F: Interface>(
    n: &RoutingNode<F>,
    h: MessageHeaderV,
    p: crate::messages::PostV,
    a: OutboundAction,
) -> bool {
    let auth = n.our_authority_spec(p.name, h);
    exists|dest: Seq<u8>|
        sent_to_connected_peer(
            n,
            codec::enc_message(#[trigger] post_send_on_view(n, h, auth, p, dest)),
            a,
        )
}

/// The frame a cached answer travels in: a GetDataResponse under a fresh
/// counter, our own source address, and managed-node authority.
pub open spec fn cache_hit_reply_view<F: Interface>(
    n: &RoutingNode<F>,
    h: MessageHeaderV,
    nti: crate::types::NameAndTypeIdV,
    data: Seq<u8>,
) -> crate::messages::RoutingMessageV {
    let body = codec::enc_get_data_response(crate::messages::GetDataResponseV {
        name_and_type_id: nti,
        data: Result::Ok(data),
    });
    crate::messages::RoutingMessageV {
        message_type: MessageTypeTag::GetDataResponse,
        message_header: MessageHeaderV {
            message_id: n.next_message_id,
            destination: h.send_to(),
            source: n.our_source_spec(),
            authority: Authority::ManagedNode,
        },
        serialised_body: body,
        signature: crypto::sig_of(n.pmid.get_crypto_secret_sign_key_spec(), body),
    }
}

/// The action carries a cached answer for the GetData frame `m`, sent to a
/// connected registered peer.
pub open spec fn cache_served_emission<F: Interface>(
    n: &RoutingNode<F>,
    m: crate::messages::RoutingMessageV,
    a: OutboundAction,
) -> bool {
    &&& m.message_type == MessageTypeTag::GetData
    &&& match codec::parse_get_data(m.serialised_body, 0) {
        Option::Some(q) => q.1 == m.serialised_body.len() && exists|data: Seq<u8>|
            sent_to_connected_peer(
                n,
                codec::enc_message(
                    #[trigger] cache_hit_reply_view(n, m.message_header, q.0.name_and_type_id, data),
                ),
                a,
            ),
        Option::None => false,
    }
}

/// The fields a per-type handler never touches: identity, listeners, the
/// duplicate filter and the connection registry.
pub open spec fn handler_frame<F: Interface>(a: &RoutingNode<F>, b: &RoutingNode<F>) -> bool {
    &&& b.pmid == a.pmid
    &&& b.own_id == a.own_id
    &&& b.accepting_on == a.accepting_on
    &&& b.filter == a.filter
    &&& b.bootstrap_endpoint == a.bootstrap_endpoint
    &&& b.bootstrap_node_id == a.bootstrap_node_id
    &&& a.outbox@.is_prefix_of(b.outbox@)
}

impl<F: Interface> RoutingNode<F> {
    /// Serve a GetData at this group: ask the application, then answer,
    /// forward, or drop as it says; its refusal with a payload becomes a
    /// GetDataResponse carrying the error.
    pub fn handle_get_data(&mut self, header: MessageHeader, body: Vec<u8>) -> (r: Result<
        (),
        RoutingError,
    >)
        requires
            old(self).wf(),
        ensures
            final(self).wf(),
            handler_frame(old(self), final(self)),
            final(self).routing_table == old(self).routing_table,
            final(self).all_connections == old(self).all_connections,
            final(self).public_pmid_cache == old(self).public_pmid_cache,
            !body_decodes_get_data(body@) ==> r == Result::<(), RoutingError>::Err(
                RoutingError::ParseFailure,
            ) && *final(self) == *old(self),
            body_decodes_get_data(body@) ==> r is Ok,
            match codec::parse_get_data(body@, 0) {
                Option::Some(p) => p.1 == body@.len() ==> forall|k: int|
                    old(self).outbox@.len() <= k < final(self).outbox@.len()
                        ==> get_data_handler_emission(
                        old(self),
                        header@,
                        p.0,
                        #[trigger] final(self).outbox@[k],
                    ),
                Option::None => true,
            },
    {
        let get_data = match codec::decode_get_data(&body) {
            Ok(v) => v,
            Err(e) => {
                return Err(e);
            },
        };
        let type_id = get_data.name_and_type_id.type_id;
        let our_authority = self.our_authority(&get_data.name_and_type_id.name, &header);
        let from_authority = header.from_authority();
        let from = header.from();
        let name = get_data.name_and_type_id.name;

        match self.interface.handle_get(type_id, name, our_authority, from_authority, from) {
            Ok(Action::Reply(data)) => {
                let ghost mid = *self;
                let ghost d = Result::<Seq<u8>, Seq<u8>>::Ok(data@);
                self.reply_to_get_data(&header, our_authority, get_data.name_and_type_id, Ok(data));
                proof {
                    assert forall|k: int|
                        old(self).outbox@.len() <= k < self.outbox@.len()
                        implies get_data_handler_emission(
                        old(self),
                        header@,
                        get_data@,
                        #[trigger] self.outbox@[k],
                    ) by {
                        assert(mid.outbox@ == old(self).outbox@);
                        let view_mid = get_data_reply_view(
                            &mid,
                            header@,
                            our_authority,
                            get_data.name_and_type_id@,
                            d,
                        );
                        let view_old = get_data_reply_view(
                            old(self),
                            header@,
                            our_authority,
                            get_data.name_and_type_id@,
                            d,
                        );
                        assert(sent_to_connected_peer(
                            &mid,
                            codec::enc_message(view_mid),
                            self.outbox@[k],
                        ));
                        assert(view_mid =~~= view_old);
                        lemma_sent_same_state(
                            &mid,
                            old(self),
                            codec::enc_message(view_old),
                            self.outbox@[k],
                        );
                    }
                }
            },
            Ok(Action::SendOn(dest_nodes)) => {
                let ghost mid = *self;
                let ghost dests = dest_nodes@;
                self.send_on_get_data(&header, our_authority, &get_data, dest_nodes);
                proof {
                    assert forall|k: int|
                        old(self).outbox@.len() <= k < self.outbox@.len()
                        implies get_data_handler_emission(
                        old(self),
                        header@,
                        get_data@,
                        #[trigger] self.outbox@[k],
                    ) by {
                        assert(get_data_send_on_emission(
                            old(self),
                            header@,
                            our_authority,
                            get_data@,
                            dests,
                            self.outbox@[k],
                        ));
                        let j = choose|j: int|
                            0 <= j < dests.len() && sent_to_connected_peer(
                                old(self),
                                codec::enc_message(get_data_send_on_view(
                                    old(self),
                                    header@,
                                    our_authority,
                                    get_data@,
                                    #[trigger] dests[j]@,
                                )),
                                self.outbox@[k],
                            );
                        assert(sent_to_connected_peer(
                            old(self),
                            codec::enc_message(get_data_send_on_view(
                                old(self),
                                header@,
                                our_authority,
                                get_data@,
                                dests[j]@,
                            )),
                            self.outbox@[k],
                        ));
                    }
                }
            },
            Err(InterfaceError::Abort) => {},
            Err(InterfaceError::Response(error)) => {
                let ghost mid = *self;
                let ghost d = Result::<Seq<u8>, Seq<u8>>::Err(error.reason@);
                self.reply_to_get_data(
                    &header,
                    our_authority,
                    get_data.name_and_type_id,
                    Err(error),
                );
                proof {
                    assert forall|k: int|
                        old(self).outbox@.len() <= k < self.outbox@.len()
                        implies get_data_handler_emission(
                        old(self),
                        header@,
                        get_data@,
                        #[trigger] self.outbox@[k],
                    ) by {
                        assert(mid.outbox@ == old(self).outbox@);
                        let view_mid = get_data_reply_view(
                            &mid,
                            header@,
                            our_authority,
                            get_data.name_and_type_id@,
                            d,
                        );
                        let view_old = get_data_reply_view(
                            old(self),
                            header@,
                            our_authority,
                            get_data.name_and_type_id@,
                            d,
                        );
                        assert(sent_to_connected_peer(
                            &mid,
                            codec::enc_message(view_mid),
                            self.outbox@[k],
                        ));
                        assert(view_mid =~~= view_old);
                        lemma_sent_same_state(
                            &mid,
                            old(self),
                            codec::enc_message(view_old),
                            self.outbox@[k],
                        );
                    }
                }
            },
        }
        Ok(())
    }

    /// Serve a GetKey: like GetData under the fixed key type, except the
    /// application's refusal is surfaced instead of answered.
    pub fn handle_get_key(&mut self, header: MessageHeader, body: Vec<u8>) -> (r: Result<
        (),
        RoutingError,
    >)
        requires
            old(self).wf(),
        ensures
            final(self).wf(),
            handler_frame(old(self), final(self)),
            final(self).routing_table == old(self).routing_table,
            final(self).all_connections == old(self).all_connections,
            final(self).public_pmid_cache == old(self).public_pmid_cache,
            !body_decodes_get_key(body@) ==> r == Result::<(), RoutingError>::Err(
                RoutingError::ParseFailure,
            ) && *final(self) == *old(self),
            body_decodes_get_key(body@) ==> (r is Ok || r matches Result::Err(
                RoutingError::Interface(_),
            ) || r == Result::<(), RoutingError>::Err(RoutingError::ParseFailure)),
            match codec::parse_get_key(body@, 0) {
                Option::Some(p) => p.1 == body@.len() ==> forall|k: int|
                    old(self).outbox@.len() <= k < final(self).outbox@.len()
                        ==> get_key_handler_emission(
                        old(self),
                        header@,
                        p.0,
                        #[trigger] final(self).outbox@[k],
                    ),
                Option::None => true,
            },
    {
        let get_key = match codec::decode_get_key(&body) {
            Ok(v) => v,
            Err(e) => {
                return Err(e);
            },
        };
        let type_id: u64 = 106;
        let our_authority = self.our_authority(&get_key.target_id, &header);
        let from_authority = header.from_authority();
        let from = header.from();
        let name = get_key.target_id;

        let action = match self.interface.handle_get_key(
            type_id,
            name,
            our_authority,
            from_authority,
            from,
        ) {
            Ok(a) => a,
            Err(e) => {
                return Err(RoutingError::Interface(e));
            },
        };
        match action {
            Action::Reply(data) => {
                // the application answers with a serialised signing key
                let public_key = match codec::decode_public_sign_key(&data) {
                    Ok(k) => k,
                    Err(e) => {
                        return Err(e);
                    },
                };
                let ghost mid = *self;
                let ghost kv = public_key@;
                self.reply_to_get_key(&header, our_authority, get_key.target_id, public_key);
                proof {
                    assert forall|k: int|
                        old(self).outbox@.len() <= k < self.outbox@.len()
                        implies get_key_handler_emission(
                        old(self),
                        header@,
                        get_key@,
                        #[trigger] self.outbox@[k],
                    ) by {
                        assert(mid.outbox@ == old(self).outbox@);
                        let view_mid = get_key_reply_view(
                            &mid,
                            header@,
                            our_authority,
                            get_key.target_id@,
                            kv,
                        );
                        let view_old = get_key_reply_view(
                            old(self),
                            header@,
                            our_authority,
                            get_key.target_id@,
                            kv,
                        );
                        assert(sent_to_connected_peer(
                            &mid,
                            codec::enc_message(view_mid),
                            self.outbox@[k],
                        ));
                        assert(view_mid =~~= view_old);
                        lemma_sent_same_state(
                            &mid,
                            old(self),
                            codec::enc_message(view_old),
                            self.outbox@[k],
                        );
                    }
                }
            },
            Action::SendOn(dest_nodes) => {
                let ghost mid = *self;
                let ghost dests = dest_nodes@;
                self.send_on_get_key(&header, our_authority, &get_key, dest_nodes);
                proof {
                    assert forall|k: int|
                        old(self).outbox@.len() <= k < self.outbox@.len()
                        implies get_key_handler_emission(
                        old(self),
                        header@,
                        get_key@,
                        #[trigger] self.outbox@[k],
                    ) by {
                        assert(get_key_send_on_emission(
                            old(self),
                            header@,
                            our_authority,
                            get_key@,
                            dests,
                            self.outbox@[k],
                        ));
                        let j = choose|j: int|
                            0 <= j < dests.len() && sent_to_connected_peer(
                                old(self),
                                codec::enc_message(get_key_send_on_view(
                                    old(self),
                                    header@,
                                    our_authority,
                                    get_key@,
                                    #[trigger] dests[j]@,
                                )),
                                self.outbox@[k],
                            );
                        assert(sent_to_connected_peer(
                            old(self),
                            codec::enc_message(get_key_send_on_view(
                                old(self),
                                header@,
                                our_authority,
                                get_key@,
                                dests[j]@,
                            )),
                            self.outbox@[k],
                        ));
                    }
                }
            },
        }
        Ok(())
    }

    /// Store data at this group: ask the application; on acceptance answer
    /// the right party - the relayed client when we manage it, else the
    /// sender - and on SendOn forward the put.
    pub fn handle_put_data(&mut self, header: MessageHeader, body: Vec<u8>) -> (r: Result<
        (),
        RoutingError,
    >)
        requires
            old(self).wf(),
        ensures
            final(self).wf(),
            handler_frame(old(self), final(self)),
            final(self).routing_table == old(self).routing_table,
            final(self).all_connections == old(self).all_connections,
            final(self).public_pmid_cache == old(self).public_pmid_cache,
            !body_decodes_put_data(body@) ==> r == Result::<(), RoutingError>::Err(
                RoutingError::ParseFailure,
            ) && *final(self) == *old(self),
            body_decodes_put_data(body@) ==> (r is Ok || r matches Result::Err(
                RoutingError::Interface(_),
            )),
            match codec::parse_put_data(body@, 0) {
                Option::Some(p) => p.1 == body@.len() ==> forall|k: int|
                    old(self).outbox@.len() <= k < final(self).outbox@.len()
                        ==> put_data_handler_emission(
                        old(self),
                        header@,
                        p.0,
                        #[trigger] final(self).outbox@[k],
                    ),
                Option::None => true,
            },
    {
        let put_data = match codec::decode_put_data(&body) {
            Ok(v) => v,
            Err(e) => {
                return Err(e);
            },
        };
        let our_authority = self.our_authority(&put_data.name, &header);
        let from_authority = header.from_authority();
        let from = header.from();
        let to = header.send_to();
        let data_copy = codec::copy_bytes(&put_data.data);

        let action = match self.interface.handle_put(
            our_authority,
            from_authority,
            from,
            to,
            data_copy,
        ) {
            Ok(a) => a,
            Err(e) => {
                return Err(RoutingError::Interface(e));
            },
        };
        match action {
            Action::Reply(reply_data) => {
                // a client manager answers the relayed client when one is
                // named; everyone else answers the sender
                let ghost mid = *self;
                let ghost d = Result::<Seq<u8>, Seq<u8>>::Ok(reply_data@);
                let _ = self.reply_to_put_data(&header, our_authority, put_data.name, Ok(reply_data));
                proof {
                    assert forall|k: int|
                        old(self).outbox@.len() <= k < self.outbox@.len()
                        implies put_data_handler_emission(
                        old(self),
                        header@,
                        put_data@,
                        #[trigger] self.outbox@[k],
                    ) by {
                        assert(mid.outbox@ == old(self).outbox@);
                        let view_mid = put_data_reply_view(
                            &mid,
                            header@,
                            our_authority,
                            put_data.name@,
                            d,
                        );
                        let view_old = put_data_reply_view(
                            old(self),
                            header@,
                            our_authority,
                            put_data.name@,
                            d,
                        );
                        assert(sent_to_connected_peer(
                            &mid,
                            codec::enc_message(view_mid),
                            self.outbox@[k],
                        ));
                        assert(view_mid =~~= view_old);
                        lemma_sent_same_state(
                            &mid,
                            old(self),
                            codec::enc_message(view_old),
                            self.outbox@[k],
                        );
                    }
                }
            },
            Action::SendOn(destinations) => {
                let ghost mid = *self;
                let ghost dests = destinations@;
                self.send_on_put_data(&header, our_authority, &put_data, destinations);
                proof {
                    assert forall|k: int|
                        old(self).outbox@.len() <= k < self.outbox@.len()
                        implies put_data_handler_emission(
                        old(self),
                        header@,
                        put_data@,
                        #[trigger] self.outbox@[k],
                    ) by {
                        assert(put_data_send_on_emission(
                            old(self),
                            header@,
                            our_authority,
                            put_data@,
                            dests,
                            self.outbox@[k],
                        ));
                        let j = choose|j: int|
                            0 <= j < dests.len() && sent_to_connected_peer(
                                old(self),
                                codec::enc_message(put_data_send_on_view(
                                    old(self),
                                    header@,
                                    our_authority,
                                    put_data@,
                                    #[trigger] dests[j]@,
                                )),
                                self.outbox@[k],
                            );
                        assert(sent_to_connected_peer(
                            old(self),
                            codec::enc_message(put_data_send_on_view(
                                old(self),
                                header@,
                                our_authority,
                                put_data@,
                                dests[j]@,
                            )),
                            self.outbox@[k],
                        ));
                    }
                }
            },
        }
        Ok(())
    }

    /// Mutate data at this group: ask the application; answers are not yet
    /// routed back, forwarding works as for a put.
    pub fn handle_post(&mut self, header: MessageHeader, body: Vec<u8>) -> (r: Result<
        (),
        RoutingError,
    >)
        requires
            old(self).wf(),
        ensures
            final(self).wf(),
            handler_frame(old(self), final(self)),
            final(self).routing_table == old(self).routing_table,
            final(self).all_connections == old(self).all_connections,
            final(self).public_pmid_cache == old(self).public_pmid_cache,
            !body_decodes_post(body@) ==> r == Result::<(), RoutingError>::Err(
                RoutingError::ParseFailure,
            ) && *final(self) == *old(self),
            body_decodes_post(body@) ==> (r is Ok || r matches Result::Err(
                RoutingError::Interface(_),
            )),
            match codec::parse_post(body@, 0) {
                Option::Some(p) => p.1 == body@.len() ==> forall|k: int|
                    old(self).outbox@.len() <= k < final(self).outbox@.len()
                        ==> post_handler_emission(
                        old(self),
                        header@,
                        p.0,
                        #[trigger] final(self).outbox@[k],
                    ),
                Option::None => true,
            },
    {
        let post = match codec::decode_post(&body) {
            Ok(v) => v,
            Err(e) => {
                return Err(e);
            },
        };
        let our_authority = self.our_authority(&post.name, &header);
        let data_copy = codec::copy_bytes(&post.data);
        let action = match self.interface.handle_post(
            our_authority,
            header.from_authority(),
            header.from(),
            post.name,
            data_copy,
        ) {
            Ok(a) => a,
            Err(e) => {
                return Err(RoutingError::Interface(e));
            },
        };
        match action {
            Action::Reply(_data) => {
                // answers to posts are not routed yet
            },
            Action::SendOn(destinations) => {
                let ghost dests = destinations@;
                self.send_on_post(&header, our_authority, &post, destinations);
                proof {
                    assert forall|k: int|
                        old(self).outbox@.len() <= k < self.outbox@.len()
                        implies post_handler_emission(
                        old(self),
                        header@,
                        post@,
                        #[trigger] self.outbox@[k],
                    ) by {
                        assert(post_send_on_emission(
                            old(self),
                            header@,
                            our_authority,
                            post@,
                            dests,
                            self.outbox@[k],
                        ));
                        let j = choose|j: int|
                            0 <= j < dests.len() && sent_to_connected_peer(
                                old(self),
                                codec::enc_message(post_send_on_view(
                                    old(self),
                                    header@,
                                    our_authority,
                                    post@,
                                    #[trigger] dests[j]@,
                                )),
                                self.outbox@[k],
                            );
                        assert(sent_to_connected_peer(
                            old(self),
                            codec::enc_message(post_send_on_view(
                                old(self),
                                header@,
                                our_authority,
                                post@,
                                dests[j]@,
                            )),
                            self.outbox@[k],
                        ));
                    }
                }
            },
        }
        Ok(())
    }

    /// Answers to posts are not part of this engine yet.
    pub fn handle_post_response(&self, _header: MessageHeader, _body: Vec<u8>) -> (r: Result<
        (),
        RoutingError,
    >)
        ensures
            r is Ok,
    {
        Ok(())
    }

    /// Deliver a content answer to the application; nothing is routed
    /// further.
    pub fn handle_get_data_response(&mut self, header: MessageHeader, body: Vec<u8>) -> (r: Result<
        (),
        RoutingError,
    >)
        requires
            old(self).wf(),
        ensures
            final(self).wf(),
            handler_frame(old(self), final(self)),
            final(self).outbox == old(self).outbox,
            final(self).routing_table == old(self).routing_table,
            final(self).all_connections == old(self).all_connections,
            final(self).public_pmid_cache == old(self).public_pmid_cache,
            final(self).next_message_id == old(self).next_message_id,
            !body_decodes_get_data_response(body@) ==> r == Result::<(), RoutingError>::Err(
                RoutingError::ParseFailure,
            ) && *final(self) == *old(self),
            body_decodes_get_data_response(body@) ==> r is Ok,
    {
        let get_data_response = match codec::decode_get_data_response(&body) {
            Ok(v) => v,
            Err(e) => {
                return Err(e);
            },
        };
        let from = header.from();
        let _ = self.interface.handle_get_response(from, get_data_response.data);
        Ok(())
    }

    /// Deliver a store answer to the application; nothing is routed
    /// further.
    pub fn handle_put_data_response(&mut self, header: MessageHeader, body: Vec<u8>) -> (r: Result<
        (),
        RoutingError,
    >)
        requires
            old(self).wf(),
        ensures
            final(self).wf(),
            handler_frame(old(self), final(self)),
            final(self).outbox == old(self).outbox,
            final(self).routing_table == old(self).routing_table,
            final(self).all_connections == old(self).all_connections,
            final(self).public_pmid_cache == old(self).public_pmid_cache,
            final(self).next_message_id == old(self).next_message_id,
            !body_decodes_put_data_response(body@) ==> r == Result::<(), RoutingError>::Err(
                RoutingError::ParseFailure,
            ) && *final(self) == *old(self),
            body_decodes_put_data_response(body@) ==> r is Ok,
    {
        let put_data_response = match codec::decode_put_data_response(&body) {
            Ok(v) => v,
            Err(e) => {
                return Err(e);
            },
        };
        let from_authority = header.from_authority();
        let from = header.from();
        self.interface.handle_put_response(from_authority, from, put_data_response.data);
        Ok(())
    }

    /// Accept a published identity only as the manager group of its name:
    /// then it enters the identity cache; from anywhere else it is a
    /// `BadAuthority`.
    pub fn handle_put_public_pmid(&mut self, header: MessageHeader, body: Vec<u8>) -> (r: Result<
        (),
        RoutingError,
    >)
        requires
            old(self).wf(),
        ensures
            final(self).wf(),
            handler_frame(old(self), final(self)),
            final(self).interface == old(self).interface,
            final(self).routing_table == old(self).routing_table,
            final(self).all_connections == old(self).all_connections,
            final(self).next_message_id == old(self).next_message_id,
            final(self).outbox == old(self).outbox,
            match codec::parse_put_public_pmid(body@, 0) {
                Option::Some(p) => {
                    if p.1 == body@.len() {
                        if old(self).our_authority_spec(p.0.public_pmid.name, header@)
                            == Authority::NaeManager {
                            &&& r is Ok
                            &&& identity_cache::cache_keys(&final(self).public_pmid_cache).contains(
                                p.0.public_pmid.name,
                            )
                            &&& identity_cache::cache_keys(
                                &final(self).public_pmid_cache,
                            ).subset_of(
                                identity_cache::cache_keys(&old(self).public_pmid_cache).insert(
                                    p.0.public_pmid.name,
                                ),
                            )
                        } else {
                            r == Result::<(), RoutingError>::Err(RoutingError::BadAuthority)
                                && *final(self) == *old(self)
                        }
                    } else {
                        r == Result::<(), RoutingError>::Err(RoutingError::ParseFailure) && *final(self) == *old(self)
                    }
                },
                Option::None => r == Result::<(), RoutingError>::Err(RoutingError::ParseFailure)
                    && *final(self) == *old(self),
            },
    {
        let put_public_pmid = match codec::decode_put_public_pmid(&body) {
            Ok(v) => v,
            Err(e) => {
                return Err(e);
            },
        };
        let authority = self.our_authority(&put_public_pmid.public_pmid.name, &header);
        match authority {
            Authority::NaeManager => {
                let name_bytes = name_to_bytes(&put_public_pmid.public_pmid.name);
                let value = codec::encode_public_sign_key(
                    &put_public_pmid.public_pmid.public_sign_key,
                );
                identity_cache::cache_insert(&mut self.public_pmid_cache, &name_bytes, value);
                Ok(())
            },
            _ => Err(RoutingError::BadAuthority),
        }
    }

    /// Whether the identity cache holds an entry for this name.
    pub fn public_pmid_cached(&self, name: &NameType) -> (r: bool)
        ensures
            r ==> identity_cache::cache_keys(&self.public_pmid_cache).contains(name@),
    {
        let name_bytes = name_to_bytes(name);
        identity_cache::cache_contains(&self.public_pmid_cache, &name_bytes)
    }

    /// How many identities the cache currently serves.
    pub fn public_pmid_cache_len(&self) -> (r: usize)
        ensures
            identity_cache::cache_keys(&self.public_pmid_cache).finite() ==> r
                <= identity_cache::cache_keys(&self.public_pmid_cache).len(),
    {
        identity_cache::cache_len(&self.public_pmid_cache)
    }
}

/// The raw bytes of a name.
pub fn name_to_bytes(n: &NameType) -> (r: Vec<u8>)
    ensures
        r@ == n@,
{
    let id = n.get_id();
    let mut out: Vec<u8> = Vec::new();
    let mut i: usize = 0;
    while i < 64
        invariant
            0 <= i <= 64,
            id@ == n@,
            out@ == n@.subrange(0, i as int),
        decreases 64 - i,
    {
        out.push(id[i]);
        proof {
            assert(out@ =~= n@.subrange(0, i + 1));
        }
        i = i + 1;
    }
    proof {
        assert(out@ =~= n@);
    }
    out
}

/// The body parses as a complete GetData.
pub open spec fn body_decodes_get_data(b: Seq<u8>) -> bool {
    match codec::parse_get_data(b, 0) {
        Option::Some(p) => p.1 == b.len(),
        Option::None => false,
    }
}

/// The body parses as a complete GetKey.
pub open spec fn body_decodes_get_key(b: Seq<u8>) -> bool {
    match codec::parse_get_key(b, 0) {
        Option::Some(p) => p.1 == b.len(),
        Option::None => false,
    }
}

/// The body parses as a complete PutData.
pub open spec fn body_decodes_put_data(b: Seq<u8>) -> bool {
    match codec::parse_put_data(b, 0) {
        Option::Some(p) => p.1 == b.len(),
        Option::None => false,
    }
}

/// The body parses as a complete Post.
pub open spec fn body_decodes_post(b: Seq<u8>) -> bool {
    match codec::parse_post(b, 0) {
        Option::Some(p) => p.1 == b.len(),
        Option::None => false,
    }
}

/// The body parses as a complete GetDataResponse.
pub open spec fn body_decodes_get_data_response(b: Seq<u8>) -> bool {
    match codec::parse_get_data_response(b, 0) {
        Option::Some(p) => p.1 == b.len(),
        Option::None => false,
    }
}

/// The body parses as a complete PutDataResponse.
pub open spec fn body_decodes_put_data_response(b: Seq<u8>) -> bool {
    match codec::parse_put_data_response(b, 0) {
        Option::Some(p) => p.1 == b.len(),
        Option::None => false,
    }
}


/// A send judged against one state is the same judgement in any state
/// with the same table and registry.
proof fn lemma_sent_same_state<F: Interface>(
    a: &RoutingNode<F>,
    b: &RoutingNode<F>,
    bytes: Seq<u8>,
    act: OutboundAction,
)
    requires
        a.routing_table == b.routing_table,
        a.all_connections == b.all_connections,
        sent_to_connected_peer(a, bytes, act),
    ensures
        sent_to_connected_peer(b, bytes, act),
{
    match act {
        OutboundAction::SendTo { endpoint, bytes: sent } => {
            let v = choose|v: crate::routing_table::NodeInfoV|
                #![all_triggers]
                table_entry(&a.routing_table, v) && v.connected_endpoint is Some
                    && a.all_connections.has_pair(endpoint, v.fob.name);
            assert(table_entry(&b.routing_table, v) && v.connected_endpoint is Some
                && b.all_connections.has_pair(endpoint, v.fob.name));
        },
        OutboundAction::Connect { .. } => {},
    }
}

/// Some entry of the list asks for a frame to be sent.
pub open spec fn has_emitting_action(actions: Seq<RoutingNodeAction>) -> bool {
    exists|j: int|
        0 <= j < actions.len() && ((#[trigger] actions[j]) is Put || actions[j] is Get
            || actions[j] is Refresh)
}

/// Prefix of sequences is transitive.
proof fn lemma_prefix_trans<T>(a: Seq<T>, b: Seq<T>, c: Seq<T>)
    requires
        a.is_prefix_of(b),
        b.is_prefix_of(c),
    ensures
        a.is_prefix_of(c),
{
    assert(a =~= c.subrange(0, a.len() as int));
}

impl<F: Interface> RoutingNode<F> {
    /// Answer a GetGroupKey with the signing keys of our close group and
    /// our own, addressed back to the asking group.
    pub fn handle_get_group_key(&mut self, original_header: MessageHeader, body: Vec<u8>) -> (r:
        Result<(), RoutingError>)
        requires
            old(self).wf(),
        ensures
            final(self).wf(),
            handler_frame(old(self), final(self)),
            final(self).interface == old(self).interface,
            final(self).routing_table == old(self).routing_table,
            final(self).all_connections == old(self).all_connections,
            final(self).public_pmid_cache == old(self).public_pmid_cache,
            final(self).next_message_id == old(self).next_message_id,
            !body_decodes_single_name(body@) ==> r == Result::<(), RoutingError>::Err(
                RoutingError::ParseFailure,
            ) && *final(self) == *old(self),
            body_decodes_single_name(body@) ==> r is Ok,
            body_decodes_single_name(body@) && original_header@.source.from_group is None
                ==> *final(self) == *old(self),
            match codec::parse_single_name(body@, 0) {
                Option::Some(q) => q.1 == body@.len() ==> {
                    &&& forall|k: int|
                        old(self).outbox@.len() <= k < final(self).outbox@.len()
                            ==> sent_to_connected_peer(
                            old(self),
                            codec::enc_message(group_key_reply_view(
                                old(self),
                                original_header@,
                                q.0,
                            )),
                            #[trigger] final(self).outbox@[k],
                        )
                    &&& (original_header@.source.from_group is Some && fully_reachable(
                        &old(self).routing_table,
                        &old(self).all_connections,
                    )) ==> final(self).outbox@.len() > old(self).outbox@.len()
                },
                Option::None => true,
            },
    {
        let target_id = match codec::decode_single_name(&body) {
            Ok(v) => v,
            Err(e) => {
                return Err(e);
            },
        };
        let get_group_key = GetGroupKey { target_id };

        let close_group = self.routing_table.our_close_group();
        let mut group_keys: Vec<NameAndKey> = Vec::new();
        let mut i: usize = 0;
        while i < close_group.len()
            invariant
                old(self) == self,
                0 <= i <= close_group@.len(),
                close_group@.len() <= 32,
                forall|j: int|
                    0 <= j < close_group@.len() ==> #[trigger] close_group@[j]@
                        == self.routing_table.nodes_view()[j],
                group_keys@.len() == i,
                forall|j: int|
                    0 <= j < i ==> #[trigger] group_keys@[j]@ == (crate::messages::NameAndKeyV {
                        name: self.routing_table.nodes_view()[j].fob.name,
                        public_sign_key: self.routing_table.nodes_view()[j].fob.public_sign_key,
                    }),
            decreases close_group@.len() - i,
        {
            group_keys.push(NameAndKey {
                name: close_group[i].fob.name,
                public_sign_key: PublicSignKey {
                    key: codec::copy_bytes(&close_group[i].fob.public_sign_key.key),
                },
            });
            proof {
                assert(close_group@[i as int]@ == self.routing_table.nodes_view()[i as int]);
                assert(group_keys@[i as int]@ =~~= (crate::messages::NameAndKeyV {
                    name: self.routing_table.nodes_view()[i as int].fob.name,
                    public_sign_key: self.routing_table.nodes_view()[
                        i as int
                    ].fob.public_sign_key,
                }));
            }
            i = i + 1;
        }
        // our own signing key joins the group's
        group_keys.push(NameAndKey {
            name: self.pmid.get_name(),
            public_sign_key: self.pmid.get_public_sign_key(),
        });
        proof {
            assert(crate::messages::name_keys_view(group_keys@) =~~= close_group_keys(old(self)));
        }

        let routing_msg = self.construct_get_group_key_response_msg(
            &original_header,
            &get_group_key,
            group_keys,
        );
        proof {
            assert(routing_msg@ =~~= group_key_reply_view(old(self), original_header@, target_id@));
        }
        let encoded = codec::encode_routing_message(&routing_msg);
        if let Some(group) = original_header.from_group() {
            self.send_swarm_or_parallel(&group, &encoded);
        }
        Ok(())
    }

    /// Accept a ConnectRequest: remember the peer, dial both endpoint
    /// sets, and answer through the overlay, the bootstrap peer, and the
    /// asking relay client where one is named.
    pub fn handle_connect_request(&mut self, original_header: MessageHeader, body: Vec<u8>) -> (r:
        Result<(), RoutingError>)
        requires
            old(self).wf(),
        ensures
            final(self).wf(),
            final(self).pmid == old(self).pmid,
            final(self).own_id == old(self).own_id,
            final(self).accepting_on == old(self).accepting_on,
            final(self).filter == old(self).filter,
            final(self).all_connections == old(self).all_connections,
            final(self).bootstrap_endpoint == old(self).bootstrap_endpoint,
            final(self).bootstrap_node_id == old(self).bootstrap_node_id,
            old(self).outbox@.is_prefix_of(final(self).outbox@),
            !body_decodes_connect_request(body@) ==> r == Result::<(), RoutingError>::Err(
                RoutingError::ParseFailure,
            ) && *final(self) == *old(self),
            match codec::parse_connect_request(body@, 0) {
                Option::Some(p) => {
                    if p.1 == body@.len() {
                        if p.0.requester_fob.name != old(self).own_id@ && !old(self).routing_table.contains_name(p.0.requester_fob.name) {
                            &&& final(self).routing_table.contains_name(p.0.requester_fob.name)
                            &&& match original_header@.source.reply_to {
                                Option::Some(rt) => {
                                    &&& old(self).all_connections.has_name(rt) ==> r is Ok
                                    &&& !old(self).all_connections.has_name(rt) ==> r
                                        == Result::<(), RoutingError>::Err(RoutingError::Other)
                                },
                                Option::None => r is Ok,
                            }
                        } else {
                            r == Result::<(), RoutingError>::Err(RoutingError::AlreadyConnected)
                                && *final(self) == *old(self)
                        }
                    } else {
                        true
                    }
                },
                Option::None => true,
            },
    {
        let connect_request = match codec::decode_connect_request(&body) {
            Ok(v) => v,
            Err(e) => {
                return Err(e);
            },
        };
        proof {
            codec::lemma_connect_request_lens(body@);
        }
        // both endpoint sets make up the peer's reachable addresses
        let mut peer_endpoints = copy_endpoints(&connect_request.local_endpoints);
        let mut k: usize = 0;
        while k < connect_request.external_endpoints.len()
            invariant
                0 <= k <= connect_request.external_endpoints@.len(),
            decreases connect_request.external_endpoints@.len() - k,
        {
            peer_endpoints.push(connect_request.external_endpoints[k]);
            k = k + 1;
        }
        let peer_fob = PublicPmid {
            public_sign_key: PublicSignKey {
                key: codec::copy_bytes(&connect_request.requester_fob.public_sign_key.key),
            },
            name: connect_request.requester_fob.name,
        };
        let peer_node_info = NodeInfo::new(peer_fob, peer_endpoints, None);

        let (added, _) = self.routing_table.add_node(peer_node_info);
        if !added {
            return Err(RoutingError::AlreadyConnected);
        }

        // dial the peer both ways round
        let dial_local = copy_endpoints(&connect_request.local_endpoints);
        let ghost ob1 = self.outbox@;
        self.outbox.push(OutboundAction::Connect { endpoints: dial_local });
        let dial_external = copy_endpoints(&connect_request.external_endpoints);
        self.outbox.push(OutboundAction::Connect { endpoints: dial_external });
        proof {
            assert(ob1.is_prefix_of(self.outbox@)) by {
                assert(ob1 =~= self.outbox@.subrange(0, ob1.len() as int));
            }
        }

        let routing_msg = self.construct_connect_response_msg(&original_header, &connect_request);
        proof {
            assert(routing_msg@ =~~= connect_reply_view(
                old(self),
                original_header@,
                connect_request@,
            ));
        }
        let serialised_message = codec::encode_routing_message(&routing_msg);
        let ghost ob3 = self.outbox@;
        self.send_swarm_or_parallel(&connect_request.requester_id, &serialised_message);
        proof {
            lemma_prefix_trans(ob1, ob3, self.outbox@);
        }

        if self.bootstrap_endpoint.is_some() {
            let ghost ob4 = self.outbox@;
            self.send_to_bootstrap_node(&routing_msg);
            proof {
                lemma_prefix_trans(ob1, ob4, self.outbox@);
                let k = self.outbox@.len() - 1;
                assert(self.outbox@[k] == self.outbox@.last());
            }
        }

        // the close group may have changed
        let ghost ob2 = self.outbox@;
        self.notify_churn();
        proof {
            lemma_prefix_trans(ob1, ob2, self.outbox@);
        }

        if let Some(reply_to_address) = original_header.reply_to() {
            let found = self.all_connections.endpoint_for_name(&reply_to_address);
            return match found {
                Some(reply_to) => {
                    proof {
                        assert(self.all_connections.has_name(reply_to_address@)) by {
                            assert(self.all_connections.has_pair(found.unwrap(), reply_to_address@));
                            let i = choose|i: int|
                                0 <= i < self.all_connections.entries@.len() && (
                                #[trigger] self.all_connections.entries@[i]).0 == found.unwrap()
                                    && self.all_connections.entries@[i].1@ == reply_to_address@;
                            assert((self.all_connections.entries@[i]).1@ == reply_to_address@);
                        }
                    }
                    let msg = codec::encode_routing_message(&routing_msg);
                    let ghost ob5 = self.outbox@;
                    self.send_to(&reply_to, msg);
                    proof {
                        assert(ob5.is_prefix_of(self.outbox@)) by {
                            assert(ob5 =~= self.outbox@.subrange(0, ob5.len() as int));
                        }
                        lemma_prefix_trans(ob1, ob5, self.outbox@);
                    }
                    Ok(())
                },
                None => Err(RoutingError::Other),
            };
        }
        Ok(())
    }

    /// Mirror of accepting a ConnectRequest: remember the peer and dial it;
    /// no further messaging.
    pub fn handle_connect_response(&mut self, body: Vec<u8>) -> (r: Result<(), RoutingError>)
        requires
            old(self).wf(),
        ensures
            final(self).wf(),
            final(self).pmid == old(self).pmid,
            final(self).own_id == old(self).own_id,
            final(self).accepting_on == old(self).accepting_on,
            final(self).filter == old(self).filter,
            final(self).all_connections == old(self).all_connections,
            final(self).bootstrap_endpoint == old(self).bootstrap_endpoint,
            final(self).bootstrap_node_id == old(self).bootstrap_node_id,
            old(self).outbox@.is_prefix_of(final(self).outbox@),
            !body_decodes_connect_response(body@) ==> r == Result::<(), RoutingError>::Err(
                RoutingError::ParseFailure,
            ) && *final(self) == *old(self),
            body_decodes_connect_response(body@) ==> r is Ok,
            match codec::parse_connect_response(body@, 0) {
                Option::Some(p) => {
                    if p.1 == body@.len() && p.0.receiver_fob.name != old(self).own_id@ && !old(self).routing_table.contains_name(p.0.receiver_fob.name) {
                        final(self).routing_table.contains_name(p.0.receiver_fob.name)
                    } else {
                        true
                    }
                },
                Option::None => true,
            },
    {
        let connect_response = match codec::decode_connect_response(&body) {
            Ok(v) => v,
            Err(e) => {
                return Err(e);
            },
        };
        let mut peer_endpoints = copy_endpoints(&connect_response.receiver_local_endpoints);
        let mut k: usize = 0;
        while k < connect_response.receiver_external_endpoints.len()
            invariant
                0 <= k <= connect_response.receiver_external_endpoints@.len(),
            decreases connect_response.receiver_external_endpoints@.len() - k,
        {
            peer_endpoints.push(connect_response.receiver_external_endpoints[k]);
            k = k + 1;
        }
        let peer_fob = PublicPmid {
            public_sign_key: PublicSignKey {
                key: codec::copy_bytes(&connect_response.receiver_fob.public_sign_key.key),
            },
            name: connect_response.receiver_fob.name,
        };
        let peer_node_info = NodeInfo::new(peer_fob, peer_endpoints, None);

        let (added, _) = self.routing_table.add_node(peer_node_info);
        if !added {
            return Ok(());
        }

        let dial_local = copy_endpoints(&connect_response.receiver_local_endpoints);
        self.outbox.push(OutboundAction::Connect { endpoints: dial_local });
        let dial_external = copy_endpoints(&connect_response.receiver_external_endpoints);
        self.outbox.push(OutboundAction::Connect { endpoints: dial_external });

        // the close group may have changed
        self.notify_churn();
        Ok(())
    }

    /// Answer a FindGroup with the published identities of our close group
    /// and our own, also directly to the asking relay client if we know it.
    pub fn handle_find_group(&mut self, original_header: MessageHeader, body: Vec<u8>) -> (r:
        Result<(), RoutingError>)
        requires
            old(self).wf(),
        ensures
            final(self).wf(),
            handler_frame(old(self), final(self)),
            final(self).interface == old(self).interface,
            final(self).routing_table == old(self).routing_table,
            final(self).all_connections == old(self).all_connections,
            final(self).public_pmid_cache == old(self).public_pmid_cache,
            !body_decodes_find_group(body@) ==> r == Result::<(), RoutingError>::Err(
                RoutingError::ParseFailure,
            ) && *final(self) == *old(self),
            body_decodes_find_group(body@) ==> match original_header@.source.reply_to {
                Option::Some(rt) => {
                    &&& old(self).all_connections.has_name(rt) ==> r is Ok
                    &&& !old(self).all_connections.has_name(rt) ==> r == Result::<
                        (),
                        RoutingError,
                    >::Err(RoutingError::Other)
                },
                Option::None => r is Ok,
            },
            match codec::parse_find_group(body@, 0) {
                Option::Some(q) => q.1 == body@.len() ==> {
                    &&& forall|k: int|
                        old(self).outbox@.len() <= k < final(self).outbox@.len()
                            ==> find_group_emission(
                            old(self),
                            original_header@,
                            q.0.target_id,
                            #[trigger] final(self).outbox@[k],
                        )
                    &&& fully_reachable(&old(self).routing_table, &old(self).all_connections)
                        ==> final(self).outbox@.len() > old(self).outbox@.len()
                    &&& (original_header@.source.reply_to matches Some(rt) && old(self).all_connections.has_name(rt)) ==> {
                        &&& final(self).outbox@.len() > old(self).outbox@.len()
                        &&& final(self).outbox@.last() matches OutboundAction::SendTo {
                            endpoint,
                            bytes,
                        } && bytes@ == codec::enc_message(find_group_reply_view(
                            old(self),
                            original_header@,
                            q.0.target_id,
                        )) && old(self).all_connections.has_pair(
                            endpoint,
                            original_header@.source.reply_to.unwrap(),
                        )
                    }
                },
                Option::None => true,
            },
    {
        let find_group = match codec::decode_find_group(&body) {
            Ok(v) => v,
            Err(e) => {
                return Err(e);
            },
        };
        let close_group = self.routing_table.our_close_group();
        let mut group: Vec<PublicPmid> = Vec::new();
        let mut i: usize = 0;
        while i < close_group.len()
            invariant
                old(self) == self,
                0 <= i <= close_group@.len(),
                close_group@.len() <= 32,
                forall|j: int|
                    0 <= j < close_group@.len() ==> #[trigger] close_group@[j]@
                        == self.routing_table.nodes_view()[j],
                group@.len() == i,
                forall|j: int|
                    0 <= j < i ==> #[trigger] group@[j]@ == self.routing_table.nodes_view()[
                        j
                    ].fob,
            decreases close_group@.len() - i,
        {
            group.push(PublicPmid {
                public_sign_key: PublicSignKey {
                    key: codec::copy_bytes(&close_group[i].fob.public_sign_key.key),
                },
                name: close_group[i].fob.name,
            });
            proof {
                assert(close_group@[i as int]@ == self.routing_table.nodes_view()[i as int]);
                assert(group@[i as int]@ =~~= self.routing_table.nodes_view()[i as int].fob);
            }
            i = i + 1;
        }
        // add ourselves
        group.push(PublicPmid::new(&self.pmid));
        proof {
            assert(crate::messages::pmids_view(group@) =~~= close_group_identities(old(self)));
        }

        let routing_msg = self.construct_find_group_response_msg(
            &original_header,
            &find_group,
            group,
        );
        proof {
            assert(routing_msg@ =~~= find_group_reply_view(
                old(self),
                original_header@,
                find_group.target_id@,
            ));
        }
        let encoded = codec::encode_routing_message(&routing_msg);
        let ghost mid = *self;
        let target = original_header.send_to();
        self.send_swarm_or_parallel(&target.dest, &encoded);
        proof {
            assert forall|k: int|
                old(self).outbox@.len() <= k < self.outbox@.len() implies find_group_emission(
                old(self),
                original_header@,
                find_group.target_id@,
                #[trigger] self.outbox@[k],
            ) by {
                assert(sent_to_connected_peer(&mid, encoded@, self.outbox@[k]));
                lemma_sent_same_state(&mid, old(self), encoded@, self.outbox@[k]);
            }
        }

        if let Some(reply_to_address) = original_header.reply_to() {
            let found = self.all_connections.endpoint_for_name(&reply_to_address);
            return match found {
                Some(reply_to) => {
                    proof {
                        assert(self.all_connections.has_name(reply_to_address@)) by {
                            assert(self.all_connections.has_pair(
                                found.unwrap(),
                                reply_to_address@,
                            ));
                            let a = choose|a: int|
                                0 <= a < self.all_connections.entries@.len() && (
                                #[trigger] self.all_connections.entries@[a]).0 == found.unwrap()
                                    && self.all_connections.entries@[a].1@ == reply_to_address@;
                            assert((self.all_connections.entries@[a]).1@ == reply_to_address@);
                        }
                    }
                    let msg = codec::encode_routing_message(&routing_msg);
                    let ghost before_relay = self.outbox@;
                    self.send_to(&reply_to, msg);
                    proof {
                        assert(before_relay.is_prefix_of(self.outbox@)) by {
                            assert(before_relay =~= self.outbox@.subrange(
                                0,
                                before_relay.len() as int,
                            ));
                        }
                        lemma_prefix_trans(old(self).outbox@, before_relay, self.outbox@);
                    }
                    Ok(())
                },
                None => Err(RoutingError::Other),
            };
        }
        Ok(())
    }

    /// For every advertised peer the table still wants, queue a connect
    /// request.
    pub fn handle_find_group_response(&mut self, _original_header: MessageHeader, body: Vec<u8>)
        -> (r: Result<(), RoutingError>)
        requires
            old(self).wf(),
        ensures
            final(self).wf(),
            handler_frame(old(self), final(self)),
            final(self).interface == old(self).interface,
            final(self).routing_table == old(self).routing_table,
            final(self).all_connections == old(self).all_connections,
            final(self).public_pmid_cache == old(self).public_pmid_cache,
            !body_decodes_find_group_response(body@) ==> r == Result::<(), RoutingError>::Err(
                RoutingError::ParseFailure,
            ) && *final(self) == *old(self),
            body_decodes_find_group_response(body@) ==> r is Ok,
            match codec::parse_find_group_response(body@, 0) {
                Option::Some(p) => p.1 == body@.len() ==> forall|k: int|
                    old(self).outbox@.len() <= k < final(self).outbox@.len()
                        ==> connect_request_emission(
                        old(self),
                        p.0.group,
                        #[trigger] final(self).outbox@[k],
                    ),
                Option::None => true,
            },
    {
        let find_group_response = match codec::decode_find_group_response(&body) {
            Ok(v) => v,
            Err(e) => {
                return Err(e);
            },
        };
        let ghost advertised = crate::messages::pmids_view(find_group_response.group@);
        let mut i: usize = 0;
        while i < find_group_response.group.len()
            invariant
                self.wf(),
                handler_frame(old(self), self),
                self.interface == old(self).interface,
                self.routing_table == old(self).routing_table,
                self.all_connections == old(self).all_connections,
                self.public_pmid_cache == old(self).public_pmid_cache,
                advertised == crate::messages::pmids_view(find_group_response.group@),
                0 <= i <= find_group_response.group@.len(),
                forall|k: int|
                    old(self).outbox@.len() <= k < self.outbox@.len()
                        ==> connect_request_emission(
                        old(self),
                        advertised,
                        #[trigger] self.outbox@[k],
                    ),
            decreases find_group_response.group@.len() - i,
        {
            let peer_name = find_group_response.group[i].name;
            let ghost mid = *self;
            self.check_and_send_connect_request_msg(&peer_name);
            proof {
                lemma_prefix_trans(old(self).outbox@, mid.outbox@, self.outbox@);
                assert forall|k: int|
                    old(self).outbox@.len() <= k < self.outbox@.len()
                    implies connect_request_emission(
                    old(self),
                    advertised,
                    #[trigger] self.outbox@[k],
                ) by {
                    if k < mid.outbox@.len() {
                        assert(self.outbox@[k] == mid.outbox@[k]);
                        assert(connect_request_emission(old(self), advertised, mid.outbox@[k]));
                    } else {
                        // the peer was wanted, else nothing was queued
                        let jdx = i as int;
                        let idw = mid.next_message_id;
                        assert(peer_name@ == advertised[jdx].name);
                        if peer_name@ != mid.routing_table.our_id_spec()
                            && !mid.routing_table.contains_name(peer_name@) {
                            assert(advertised[jdx].name
                                != old(self).routing_table.our_id_spec());
                            assert(!old(self).routing_table.contains_name(advertised[jdx].name));
                            let frame_mid = codec::enc_message(connect_request_frame_view(
                                &mid,
                                idw,
                                peer_name@,
                            ));
                            let frame_old = codec::enc_message(connect_request_frame_view(
                                old(self),
                                idw,
                                advertised[jdx].name,
                            ));
                            assert(connect_request_frame_view(&mid, idw, peer_name@)
                                =~~= connect_request_frame_view(
                                old(self),
                                idw,
                                advertised[jdx].name,
                            ));
                            assert(frame_mid == frame_old);
                            assert(sent_to_connected_peer(&mid, frame_mid, self.outbox@[k]) || (
                            (mid.bootstrap_endpoint matches Some(b2)) && (self.outbox@[k]
                                matches OutboundAction::SendTo { endpoint, bytes } && endpoint
                                == mid.bootstrap_endpoint.unwrap() && bytes@ == frame_mid)));
                            if sent_to_connected_peer(&mid, frame_mid, self.outbox@[k]) {
                                lemma_sent_same_state(
                                    &mid,
                                    old(self),
                                    frame_old,
                                    self.outbox@[k],
                                );
                            } else {
                                assert(old(self).bootstrap_endpoint == mid.bootstrap_endpoint);
                            }
                            assert(connect_request_emission(
                                old(self),
                                advertised,
                                self.outbox@[k],
                            ));
                        } else {
                            assert(mid == *self);
                            assert(false);
                        }
                    }
                }
            }
            i = i + 1;
        }
        Ok(())
    }

    /// Queue a ConnectRequest toward a peer, when the table wants it.
    pub fn check_and_send_connect_request_msg(&mut self, peer_id: &NameType)
        requires
            old(self).wf(),
        ensures
            final(self).wf(),
            handler_frame(old(self), final(self)),
            final(self).interface == old(self).interface,
            final(self).routing_table == old(self).routing_table,
            final(self).all_connections == old(self).all_connections,
            final(self).public_pmid_cache == old(self).public_pmid_cache,
            !(peer_id@ != old(self).routing_table.our_id_spec() && !old(self).routing_table.contains_name(peer_id@)) ==> *final(self) == *old(self),
            (peer_id@ != old(self).routing_table.our_id_spec() && !old(self).routing_table.contains_name(peer_id@)) ==> {
                let frame = codec::enc_message(connect_request_frame_view(
                    old(self),
                    old(self).next_message_id,
                    peer_id@,
                ));
                &&& final(self).next_message_id as int == (old(self).next_message_id as int + 1)
                    % 0x1_0000_0000
                &&& forall|k: int|
                    old(self).outbox@.len() <= k < final(self).outbox@.len() ==> (
                    sent_to_connected_peer(old(self), frame, #[trigger] final(self).outbox@[k])
                        || ((old(self).bootstrap_endpoint matches Some(bep)) && (final(self).outbox@[k] matches OutboundAction::SendTo { endpoint, bytes } && endpoint
                        == old(self).bootstrap_endpoint.unwrap() && bytes@ == frame)))
                &&& (old(self).bootstrap_endpoint matches Some(bep)) ==> final(self).outbox@.len() > old(self).outbox@.len() && (final(self).outbox@.last()
                    matches OutboundAction::SendTo { endpoint, bytes } && endpoint == old(self).bootstrap_endpoint.unwrap() && bytes@ == frame)
                &&& fully_reachable(&old(self).routing_table, &old(self).all_connections)
                    ==> final(self).outbox@.len() > old(self).outbox@.len()
            },
    {
        if !self.routing_table.check_node(peer_id) {
            return ;
        }
        let routing_msg = self.construct_connect_request_msg(peer_id);
        proof {
            assert(routing_msg@ =~~= connect_request_frame_view(
                old(self),
                old(self).next_message_id,
                peer_id@,
            ));
        }
        let serialised_message = codec::encode_routing_message(&routing_msg);

        let ghost mid = *self;
        self.send_swarm_or_parallel(peer_id, &serialised_message);
        proof {
            assert forall|k: int|
                old(self).outbox@.len() <= k < self.outbox@.len() implies sent_to_connected_peer(
                old(self),
                serialised_message@,
                #[trigger] self.outbox@[k],
            ) by {
                assert(sent_to_connected_peer(&mid, serialised_message@, self.outbox@[k]));
                lemma_sent_same_state(&mid, old(self), serialised_message@, self.outbox@[k]);
            }
        }

        if self.bootstrap_endpoint.is_some() {
            let ghost ob = self.outbox@;
            self.send_to_bootstrap_node(&routing_msg);
            proof {
                lemma_prefix_trans(old(self).outbox@, ob, self.outbox@);
                assert(self.outbox@.len() == ob.len() + 1);
                assert(forall|k: int| 0 <= k < ob.len() ==> #[trigger] self.outbox@[k] == ob[k]);
                let last = self.outbox@.len() - 1;
                assert(self.outbox@[last] == self.outbox@.last());
                assert(self.outbox@.last() matches OutboundAction::SendTo { endpoint, bytes }
                    && endpoint == old(self).bootstrap_endpoint.unwrap() && bytes@
                    == codec::enc_message(connect_request_frame_view(
                    old(self),
                    old(self).next_message_id,
                    peer_id@,
                )));
            }
        }
    }

    /// Tell the application the close group changed and run what it asks
    /// for.
    pub fn on_churn(&mut self, close_group: Vec<NameType>)
        requires
            old(self).wf(),
        ensures
            final(self).wf(),
            final(self).pmid == old(self).pmid,
            final(self).own_id == old(self).own_id,
            final(self).accepting_on == old(self).accepting_on,
            final(self).filter == old(self).filter,
            final(self).all_connections == old(self).all_connections,
            final(self).routing_table == old(self).routing_table,
            final(self).public_pmid_cache == old(self).public_pmid_cache,
            final(self).bootstrap_endpoint == old(self).bootstrap_endpoint,
            final(self).bootstrap_node_id == old(self).bootstrap_node_id,
            old(self).outbox@.is_prefix_of(final(self).outbox@),
    {
        let actions = self.interface.handle_churn(close_group);
        self.invoke_routing_actions(actions);
    }

    /// Run follow-ups the application handed back, as if it had called the
    /// node itself, in the order they were handed over.  When any of them
    /// asks for a frame and every peer is reachable, something is queued.
    pub fn invoke_routing_actions(&mut self, routing_actions: Vec<RoutingNodeAction>)
        requires
            old(self).wf(),
        ensures
            final(self).wf(),
            final(self).pmid == old(self).pmid,
            final(self).own_id == old(self).own_id,
            final(self).accepting_on == old(self).accepting_on,
            final(self).filter == old(self).filter,
            final(self).all_connections == old(self).all_connections,
            final(self).routing_table == old(self).routing_table,
            final(self).public_pmid_cache == old(self).public_pmid_cache,
            final(self).bootstrap_endpoint == old(self).bootstrap_endpoint,
            final(self).bootstrap_node_id == old(self).bootstrap_node_id,
            final(self).interface == old(self).interface,
            old(self).outbox@.is_prefix_of(final(self).outbox@),
            (has_emitting_action(routing_actions@) && fully_reachable(
                &old(self).routing_table,
                &old(self).all_connections,
            )) ==> final(self).outbox@.len() > old(self).outbox@.len(),
    {
        // follow-ups run in the order the application handed them over
        let ghost handed = routing_actions@;
        let mut remaining = routing_actions;
        while remaining.len() != 0
            invariant
                self.wf(),
                self.pmid == old(self).pmid,
                self.own_id == old(self).own_id,
                self.accepting_on == old(self).accepting_on,
                self.filter == old(self).filter,
                self.all_connections == old(self).all_connections,
                self.routing_table == old(self).routing_table,
                self.public_pmid_cache == old(self).public_pmid_cache,
                self.bootstrap_endpoint == old(self).bootstrap_endpoint,
                self.bootstrap_node_id == old(self).bootstrap_node_id,
                self.interface == old(self).interface,
                old(self).outbox@.is_prefix_of(self.outbox@),
                (has_emitting_action(handed) && fully_reachable(
                    &old(self).routing_table,
                    &old(self).all_connections,
                )) ==> (self.outbox@.len() > old(self).outbox@.len() || has_emitting_action(
                    remaining@,
                )),
            decreases remaining@.len(),
        {
            let ghost mid = self.outbox@;
            let ghost before = remaining@;
            let routing_action = remaining.remove(0);
            let ghost head_emits = routing_action is Put || routing_action is Get
                || routing_action is Refresh;
            match routing_action {
                RoutingNodeAction::Put { destination, content, is_client } => {
                    self.put(destination, content, is_client);
                },
                RoutingNodeAction::Get { type_id, name } => {
                    self.get(type_id, name);
                },
                RoutingNodeAction::Refresh { content } => {
                    self.refresh(content);
                },
                RoutingNodeAction::Post => {},
                RoutingNodeAction::Idle => {},
            }
            proof {
                lemma_prefix_trans(old(self).outbox@, mid, self.outbox@);
                if !head_emits && has_emitting_action(before) {
                    // an emitting entry further down survives the removal
                    let j = choose|j: int|
                        0 <= j < before.len() && ((#[trigger] before[j]) is Put || before[j]
                            is Get || before[j] is Refresh);
                    assert(j > 0);
                    assert(remaining@[j - 1] == before[j]);
                    assert(has_emitting_action(remaining@));
                }
            }
        }
    }

    /// Tell the application about a possibly changed close group.
    fn notify_churn(&mut self)
        requires
            old(self).wf(),
        ensures
            final(self).wf(),
            final(self).pmid == old(self).pmid,
            final(self).own_id == old(self).own_id,
            final(self).accepting_on == old(self).accepting_on,
            final(self).filter == old(self).filter,
            final(self).all_connections == old(self).all_connections,
            final(self).routing_table == old(self).routing_table,
            final(self).public_pmid_cache == old(self).public_pmid_cache,
            final(self).bootstrap_endpoint == old(self).bootstrap_endpoint,
            final(self).bootstrap_node_id == old(self).bootstrap_node_id,
            old(self).outbox@.is_prefix_of(final(self).outbox@),
    {
        let close_group = self.routing_table.our_close_group();
        let mut names: Vec<NameType> = Vec::new();
        let mut i: usize = 0;
        while i < close_group.len()
            invariant
                0 <= i <= close_group@.len(),
            decreases close_group@.len() - i,
        {
            names.push(close_group[i].fob.name);
            i = i + 1;
        }
        self.on_churn(names);
    }
}

/// The body parses as a complete single name.
pub open spec fn body_decodes_single_name(b: Seq<u8>) -> bool {
    match codec::parse_single_name(b, 0) {
        Option::Some(p) => p.1 == b.len(),
        Option::None => false,
    }
}

/// The body parses as a complete ConnectRequest.
pub open spec fn body_decodes_connect_request(b: Seq<u8>) -> bool {
    match codec::parse_connect_request(b, 0) {
        Option::Some(p) => p.1 == b.len(),
        Option::None => false,
    }
}

/// The body parses as a complete ConnectResponse.
pub open spec fn body_decodes_connect_response(b: Seq<u8>) -> bool {
    match codec::parse_connect_response(b, 0) {
        Option::Some(p) => p.1 == b.len(),
        Option::None => false,
    }
}

/// The body parses as a complete FindGroup.
pub open spec fn body_decodes_find_group(b: Seq<u8>) -> bool {
    match codec::parse_find_group(b, 0) {
        Option::Some(p) => p.1 == b.len(),
        Option::None => false,
    }
}

/// The body parses as a complete FindGroupResponse.
pub open spec fn body_decodes_find_group_response(b: Seq<u8>) -> bool {
    match codec::parse_find_group_response(b, 0) {
        Option::Some(p) => p.1 == b.len(),
        Option::None => false,
    }
}


impl<F: Interface> RoutingNode<F> {
    /// A dialled endpoint came up: tell the table the peer is live.
    pub fn handle_connect(&mut self, peer_endpoint: Endpoint)
        requires
            old(self).wf(),
        ensures
            final(self).wf(),
            final(self).interface == old(self).interface,
            final(self).pmid == old(self).pmid,
            final(self).own_id == old(self).own_id,
            final(self).all_connections == old(self).all_connections,
            final(self).accepting_on == old(self).accepting_on,
            final(self).next_message_id == old(self).next_message_id,
            final(self).bootstrap_endpoint == old(self).bootstrap_endpoint,
            final(self).bootstrap_node_id == old(self).bootstrap_node_id,
            final(self).filter == old(self).filter,
            final(self).public_pmid_cache == old(self).public_pmid_cache,
            final(self).outbox == old(self).outbox,
            forall|x: Seq<u8>|
                #[trigger] final(self).routing_table.contains_name(x) == old(self).routing_table.contains_name(x),
    {
        let _ = self.routing_table.mark_as_connected(&peer_endpoint);
    }

    /// A connection dropped: forget both registry directions at once, drop
    /// the peer from the table, and let the application react to the
    /// changed close group.
    pub fn handle_lost_connection(&mut self, peer_endpoint: Endpoint)
        requires
            old(self).wf(),
        ensures
            final(self).wf(),
            final(self).pmid == old(self).pmid,
            final(self).own_id == old(self).own_id,
            final(self).accepting_on == old(self).accepting_on,
            final(self).filter == old(self).filter,
            final(self).public_pmid_cache == old(self).public_pmid_cache,
            final(self).bootstrap_endpoint == old(self).bootstrap_endpoint,
            final(self).bootstrap_node_id == old(self).bootstrap_node_id,
            old(self).outbox@.is_prefix_of(final(self).outbox@),
            !final(self).all_connections.has_endpoint(peer_endpoint),
            forall|e2: Endpoint, n2: Seq<u8>|
                e2 != peer_endpoint ==> #[trigger] final(self).all_connections.has_pair(e2, n2)
                    == old(self).all_connections.has_pair(e2, n2),
            !old(self).all_connections.has_endpoint(peer_endpoint) ==> *final(self) == *old(self),
            old(self).all_connections.has_endpoint(peer_endpoint) ==> exists|n: Seq<u8>|
                #![all_triggers]
                old(self).all_connections.has_pair(peer_endpoint, n) && !final(self).routing_table.contains_name(n),
    {
        let removed_entry = self.all_connections.remove_by_endpoint(&peer_endpoint);
        if let Some(peer_id) = removed_entry {
            self.routing_table.drop_node(&peer_id);
            self.notify_churn();
            proof {
                assert(old(self).all_connections.has_pair(peer_endpoint, peer_id@));
                assert(!final(self).routing_table.contains_name(peer_id@));
            }
        }
    }

    /// Serve a GetData from the cache: frame the cached payload as a
    /// GetDataResponse and swarm it back toward the asker, relay-aware.
    pub fn reply_from_cache(
        &mut self,
        header: &MessageHeader,
        get_data: &GetData,
        data: Vec<u8>,
    )
        requires
            old(self).wf(),
        ensures
            final(self).wf(),
            core_unchanged(old(self), final(self)),
            final(self).next_message_id as int == (old(self).next_message_id as int + 1)
                % 0x1_0000_0000,
            old(self).outbox@.is_prefix_of(final(self).outbox@),
            forall|k: int|
                old(self).outbox@.len() <= k < final(self).outbox@.len()
                    ==> sent_to_connected_peer(
                    old(self),
                    codec::enc_message(cache_hit_reply_view(
                        old(self),
                        header@,
                        get_data.name_and_type_id@,
                        data@,
                    )),
                    #[trigger] final(self).outbox@[k],
                ),
            fully_reachable(&old(self).routing_table, &old(self).all_connections)
                ==> final(self).outbox@.len() > old(self).outbox@.len(),
    {
        let reply = self.construct_get_data_response_msg(header, get_data, data);
        proof {
            assert(reply@ =~~= cache_hit_reply_view(
                old(self),
                header@,
                get_data.name_and_type_id@,
                data@,
            ));
        }
        let encoded = codec::encode_routing_message(&reply);
        let ghost mid = *self;
        let target = header.send_to();
        self.send_swarm_or_parallel(&target.dest, &encoded);
        proof {
            assert forall|k: int|
                old(self).outbox@.len() <= k < self.outbox@.len() implies sent_to_connected_peer(
                old(self),
                codec::enc_message(cache_hit_reply_view(
                    old(self),
                    header@,
                    get_data.name_and_type_id@,
                    data@,
                )),
                #[trigger] self.outbox@[k],
            ) by {
                assert(sent_to_connected_peer(&mid, encoded@, self.outbox@[k]));
                lemma_sent_same_state(&mid, old(self), encoded@, self.outbox@[k]);
            }
        }
    }

    /// Process one frame from a known routing peer: duplicate suppression,
    /// opportunistic caching and forwarding, relaying toward clients, and -
    /// inside the destination's close group - the per-type handler.
    ///
    /// A frame whose fingerprint the filter already holds is dropped before
    /// any other effect: the node state is untouched but for the filter's
    /// own lazy expiry.  Every frame that passes the filter leaves its
    /// fingerprint recorded.
    #[verifier::rlimit(100)]
    pub fn message_received(&mut self, peer_id: &NameType, serialised_message: Vec<u8>) -> (r:
        Result<(), RoutingError>)
        requires
            old(self).wf(),
        ensures
            final(self).wf(),
            final(self).pmid == old(self).pmid,
            final(self).own_id == old(self).own_id,
            final(self).accepting_on == old(self).accepting_on,
            final(self).bootstrap_endpoint == old(self).bootstrap_endpoint,
            final(self).bootstrap_node_id == old(self).bootstrap_node_id,
            old(self).outbox@.is_prefix_of(final(self).outbox@),
            match codec::parse_message(serialised_message@, 0) {
                Option::None => r == Result::<(), RoutingError>::Err(RoutingError::ParseFailure)
                    && *final(self) == *old(self),
                Option::Some(p) => {
                    if p.1 != serialised_message@.len() {
                        r == Result::<(), RoutingError>::Err(RoutingError::ParseFailure) && *final(self) == *old(self)
                    } else {
                        let fp = codec::fingerprint_spec(p.0.message_header, p.0.message_type);
                        &&& (r == Result::<(), RoutingError>::Err(RoutingError::FilterCheckFailed)
                            ==> {
                            &&& final(self).interface == old(self).interface
                            &&& final(self).all_connections == old(self).all_connections
                            &&& final(self).routing_table == old(self).routing_table
                            &&& final(self).next_message_id == old(self).next_message_id
                            &&& final(self).public_pmid_cache == old(self).public_pmid_cache
                            &&& final(self).outbox == old(self).outbox
                            &&& filter::filter_seen(&final(self).filter).subset_of(
                                filter::filter_seen(&old(self).filter),
                            )
                            &&& filter::filter_seen(&final(self).filter).contains(fp)
                        })
                        &&& (r != Result::<(), RoutingError>::Err(RoutingError::FilterCheckFailed)
                            ==> filter::filter_seen(&final(self).filter).contains(fp))
                        // a frame that passes the filter and decodes is
                        // forwarded: with every peer reachable something is
                        // queued, whatever the handlers decide
                        &&& (r != Result::<(), RoutingError>::Err(RoutingError::FilterCheckFailed)
                            && r != Result::<(), RoutingError>::Err(RoutingError::ParseFailure)
                            && fully_reachable(&old(self).routing_table, &old(self).all_connections))
                            ==> final(self).outbox@.len() > old(self).outbox@.len()
                        // and - unless a cached answer may cut the content
                        // request short - a copy of the identical bytes is
                        // among what was queued
                        &&& (r != Result::<(), RoutingError>::Err(RoutingError::FilterCheckFailed)
                            && r != Result::<(), RoutingError>::Err(RoutingError::ParseFailure)
                            && p.0.message_type != MessageTypeTag::GetData && fully_reachable(
                            &old(self).routing_table,
                            &old(self).all_connections,
                        )) ==> exists|k: int|
                            old(self).outbox@.len() <= k < final(self).outbox@.len() && ((
                            #[trigger] final(self).outbox@[k])
                                matches OutboundAction::SendTo { endpoint, bytes } && bytes@
                                == serialised_message@)
                        // outside the destination's close group no handler
                        // runs: the node only forwards the identical bytes,
                        // relays them, or serves a cached answer
                        &&& (!old(self).routing_table.in_close_group_range(
                            p.0.message_header.destination.dest,
                        ) && r != Result::<(), RoutingError>::Err(RoutingError::FilterCheckFailed))
                            ==> {
                            &&& final(self).routing_table == old(self).routing_table
                            &&& final(self).all_connections == old(self).all_connections
                            &&& final(self).public_pmid_cache == old(self).public_pmid_cache
                            &&& (r is Ok || r == Result::<(), RoutingError>::Err(
                                RoutingError::ParseFailure,
                            ))
                            &&& forall|k: int|
                                old(self).outbox@.len() <= k < final(self).outbox@.len() ==> ((
                                #[trigger] final(self).outbox@[k])
                                    matches OutboundAction::SendTo { endpoint, bytes } && bytes@
                                    == serialised_message@) || cache_served_emission(
                                    old(self),
                                    p.0,
                                    final(self).outbox@[k],
                                )
                        }
                        // a tag without a handler inside the close group is
                        // answered with the unknown-type error
                        &&& ((p.0.message_type == MessageTypeTag::BootstrapIdRequest
                            || p.0.message_type == MessageTypeTag::BootstrapIdResponse
                            || p.0.message_type == MessageTypeTag::GetKeyResponse
                            || p.0.message_type == MessageTypeTag::GetGroupKeyResponse)
                            && old(self).routing_table.in_close_group_range(
                            p.0.message_header.destination.dest,
                        ) && !(p.0.message_header.destination.dest == old(self).own_id@
                            && p.0.message_header.destination.reply_to is Some && !old(
                            self,
                        ).all_connections.has_name(
                            p.0.message_header.destination.reply_to.unwrap(),
                        ))) ==> (r == Result::<(), RoutingError>::Err(
                            RoutingError::FilterCheckFailed,
                        ) || r == Result::<(), RoutingError>::Err(RoutingError::UnknownMessageType))
                        // a frame addressed to us for a relay client goes to
                        // that client's endpoint when we know it, else to
                        // some registered endpoint, best effort
                        &&& (r != Result::<(), RoutingError>::Err(RoutingError::FilterCheckFailed)
                            && r != Result::<(), RoutingError>::Err(RoutingError::ParseFailure)
                            && p.0.message_header.destination.dest == old(self).own_id@
                            && p.0.message_type != MessageTypeTag::GetData) ==> (
                        p.0.message_header.destination.reply_to matches Some(rt) ==> {
                            &&& old(self).all_connections.has_name(rt) ==> exists|k: int|
                                old(self).outbox@.len() <= k < final(self).outbox@.len() && ((
                                #[trigger] final(self).outbox@[k])
                                    matches OutboundAction::SendTo { endpoint, bytes } && bytes@
                                    == serialised_message@ && old(self).all_connections.has_pair(
                                    endpoint,
                                    rt,
                                ))
                            &&& !old(self).all_connections.has_name(rt) ==> {
                                &&& r is Ok
                                &&& old(self).all_connections.entries@.len() > 0 ==> exists|
                                    k: int,
                                |
                                    old(self).outbox@.len() <= k < final(self).outbox@.len() && ((
                                    #[trigger] final(self).outbox@[k])
                                        matches OutboundAction::SendTo { endpoint, bytes }
                                        && bytes@ == serialised_message@ && old(
                                        self,
                                    ).all_connections.has_endpoint(endpoint))
                            }
                        })
                    }
                },
            },
    {
        let message = match codec::decode_routing_message(&serialised_message) {
            Ok(m) => m,
            Err(e) => {
                return Err(e);
            },
        };
        let header = message.message_header;
        let body = message.serialised_body;
        let tag = message.message_type;

        // duplicate suppression: one logical message is handled once
        let fp = codec::fingerprint(&header, tag);
        if filter::filter_contains(&mut self.filter, &fp) {
            return Err(RoutingError::FilterCheckFailed);
        }
        filter::filter_insert(&mut self.filter, &fp);

        // opportunistic caching of passing content
        if matches!(tag, MessageTypeTag::GetDataResponse) {
            let get_data_response = match codec::decode_get_data_response(&body) {
                Ok(v) => v,
                Err(e) => {
                    return Err(e);
                },
            };
            if let Ok(data) = get_data_response.data {
                if data.len() != 0 {
                    let _ = self.interface.handle_cache_put(
                        header.from_authority(),
                        header.from(),
                        data,
                    );
                }
            }
        }

        // content requests may be served straight from the cache
        if matches!(tag, MessageTypeTag::GetData) {
            let get_data = match codec::decode_get_data(&body) {
                Ok(v) => v,
                Err(e) => {
                    return Err(e);
                },
            };
            let retrieved = self.interface.handle_cache_get(
                get_data.name_and_type_id.type_id,
                get_data.name_and_type_id.name,
                header.from_authority(),
                header.from(),
            );
            if let Ok(Action::Reply(data)) = retrieved {
                let ghost pre_reply = *self;
                let ghost dv = data@;
                self.reply_from_cache(&header, &get_data, data);
                proof {
                    assert forall|k: int|
                        old(self).outbox@.len() <= k < self.outbox@.len()
                        implies cache_served_emission(
                        old(self),
                        message@,
                        #[trigger] self.outbox@[k],
                    ) by {
                        assert(pre_reply.outbox@ == old(self).outbox@);
                        let view_pre = cache_hit_reply_view(
                            &pre_reply,
                            header@,
                            get_data.name_and_type_id@,
                            dv,
                        );
                        let view_old = cache_hit_reply_view(
                            old(self),
                            header@,
                            get_data.name_and_type_id@,
                            dv,
                        );
                        assert(sent_to_connected_peer(
                            &pre_reply,
                            codec::enc_message(view_pre),
                            self.outbox@[k],
                        ));
                        assert(view_pre =~~= view_old);
                        lemma_sent_same_state(
                            &pre_reply,
                            old(self),
                            codec::enc_message(view_old),
                            self.outbox@[k],
                        );
                    }
                }
                return Ok(());
            }
        }

        // opportunistic forwarding: the node is always also a router
        let ghost pre_fwd = *self;
        self.send_swarm_or_parallel(&header.destination.dest, &serialised_message);
        let ghost ob_fwd = self.outbox@;
        proof {
            assert(pre_fwd.outbox@ == old(self).outbox@);
            assert forall|k: int|
                old(self).outbox@.len() <= k < ob_fwd.len() implies (#[trigger] ob_fwd[k])
                matches OutboundAction::SendTo { endpoint, bytes } && bytes@
                == serialised_message@ by {
                assert(sent_to_connected_peer(&pre_fwd, serialised_message@, ob_fwd[k]));
            }
            if fully_reachable(&old(self).routing_table, &old(self).all_connections) {
                assert(ob_fwd.len() > old(self).outbox@.len());
                assert(ob_fwd[old(self).outbox@.len() as int]
                    matches OutboundAction::SendTo { endpoint, bytes } && bytes@
                    == serialised_message@);
            }
        }

        // relay toward a client connected to us
        let ghost mut took_relay: bool = false;
        let ghost mut relay_idx: int = 0;
        let relay_response = header.destination.reply_to.is_some()
            && header.destination.dest.equals(&self.own_id);
        if relay_response {
            let reply_to = match header.destination.reply_to {
                Some(rt) => rt,
                None => vstd::pervasive::unreached(),
            };
            if let Some(relay_to) = self.all_connections.endpoint_for_name(&reply_to) {
                let bytes = codec::copy_bytes(&serialised_message);
                self.send_to(&relay_to, bytes);
                proof {
                    took_relay = true;
                    relay_idx = self.outbox@.len() - 1;
                    assert(self.outbox@[relay_idx] matches OutboundAction::SendTo {
                        endpoint,
                        bytes,
                    } && bytes@ == serialised_message@ && old(self).all_connections.has_pair(
                        endpoint,
                        reply_to@,
                    ));
                }
            } else {
                // the addressed client is unknown: best effort, hand the
                // frame to any registered endpoint
                if let Some(ep) = self.all_connections.any_endpoint() {
                    let bytes = codec::copy_bytes(&serialised_message);
                    self.send_to(&ep, bytes);
                    proof {
                        let last = self.outbox@.len() - 1;
                        assert(forall|k: int|
                            0 <= k < ob_fwd.len() ==> #[trigger] self.outbox@[k] == ob_fwd[k]);
                        assert(self.outbox@[last] matches OutboundAction::SendTo {
                            endpoint,
                            bytes,
                        } && bytes@ == serialised_message@ && old(
                            self,
                        ).all_connections.has_endpoint(endpoint));
                    }
                }
                return Ok(());
            }
        }
        let ghost ob_relay = self.outbox@;
        proof {
            assert(forall|k: int|
                0 <= k < ob_fwd.len() ==> #[trigger] ob_relay[k] == ob_fwd[k]);
        }

        // only the destination's close group handles the message further
        if !self.address_in_close_group_range(&header.destination.dest) {
            return Ok(());
        }

        // pre-Sentinel types first, then the verified-message handlers
        let result = match tag {
            MessageTypeTag::UnauthorisedPut => self.handle_put_data(header, body),
            MessageTypeTag::GetKey => self.handle_get_key(header, body),
            MessageTypeTag::GetGroupKey => self.handle_get_group_key(header, body),
            MessageTypeTag::ConnectRequest => self.handle_connect_request(header, body),
            MessageTypeTag::ConnectResponse => self.handle_connect_response(body),
            MessageTypeTag::FindGroup => self.handle_find_group(header, body),
            MessageTypeTag::FindGroupResponse => self.handle_find_group_response(header, body),
            MessageTypeTag::GetData => self.handle_get_data(header, body),
            MessageTypeTag::GetDataResponse => self.handle_get_data_response(header, body),
            MessageTypeTag::Post => self.handle_post(header, body),
            MessageTypeTag::PostResponse => self.handle_post_response(header, body),
            MessageTypeTag::PutData => self.handle_put_data(header, body),
            MessageTypeTag::PutDataResponse => self.handle_put_data_response(header, body),
            MessageTypeTag::PutPublicPmid => self.handle_put_public_pmid(header, body),
            _ => Err(RoutingError::UnknownMessageType),
        };
        proof {
            assert(ob_relay.is_prefix_of(self.outbox@));
            assert(forall|k: int|
                0 <= k < ob_relay.len() ==> #[trigger] self.outbox@[k] == ob_relay[k]);
            if took_relay {
                assert(self.outbox@[relay_idx] == ob_relay[relay_idx]);
            }
        }
        result
    }

    /// Process a frame from an endpoint outside the registry: only the
    /// identity-exchange frames mean anything here.
    pub fn bootstrap_message_received(&mut self, peer_endpoint: Endpoint, serialised_message: Vec<u8>)
        -> (r: Result<(), RoutingError>)
        requires
            old(self).wf(),
        ensures
            final(self).wf(),
            final(self).pmid == old(self).pmid,
            final(self).own_id == old(self).own_id,
            final(self).accepting_on == old(self).accepting_on,
            final(self).routing_table == old(self).routing_table,
            final(self).filter == old(self).filter,
            final(self).public_pmid_cache == old(self).public_pmid_cache,
            final(self).interface == old(self).interface,
            old(self).outbox@.is_prefix_of(final(self).outbox@),
            match codec::parse_message(serialised_message@, 0) {
                Option::None => r == Result::<(), RoutingError>::Err(
                    RoutingError::UnknownMessageType,
                ) && *final(self) == *old(self),
                Option::Some(p) => {
                    if p.1 != serialised_message@.len() {
                        r == Result::<(), RoutingError>::Err(RoutingError::UnknownMessageType)
                            && *final(self) == *old(self)
                    } else {
                        if p.0.message_type == MessageTypeTag::BootstrapIdRequest {
                            match codec::parse_single_name(p.0.serialised_body, 0) {
                                Option::Some(q) => {
                                    if q.1 == p.0.serialised_body.len() {
                                        // the peer is registered, adopted as
                                        // bootstrap peer if none was yet, and
                                        // answered with our own identity frame
                                        &&& r is Ok
                                        &&& final(self).all_connections.has_pair(
                                            peer_endpoint,
                                            q.0,
                                        )
                                        &&& old(self).bootstrap_node_id is None ==> {
                                            &&& final(self).bootstrap_node_id matches Some(b)
                                                && b@ == q.0
                                            &&& final(self).bootstrap_endpoint == Some(
                                                peer_endpoint,
                                            )
                                        }
                                        &&& old(self).bootstrap_node_id is Some ==> {
                                            &&& final(self).bootstrap_node_id == old(self).bootstrap_node_id
                                            &&& final(self).bootstrap_endpoint == old(self).bootstrap_endpoint
                                        }
                                        &&& final(self).next_message_id as int == (old(self).next_message_id as int + 1) % 0x1_0000_0000
                                        &&& final(self).outbox@.len() == old(self).outbox@.len() + 1
                                        &&& final(self).outbox@.last()
                                            matches OutboundAction::SendTo { endpoint, bytes }
                                            && endpoint == peer_endpoint && bytes@
                                            == codec::enc_message(bootstrap_id_view(
                                            old(self),
                                            MessageTypeTag::BootstrapIdResponse,
                                        ))
                                    } else {
                                        r == Result::<(), RoutingError>::Err(
                                            RoutingError::ParseFailure,
                                        )
                                    }
                                },
                                Option::None => r == Result::<(), RoutingError>::Err(
                                    RoutingError::ParseFailure,
                                ),
                            }
                        } else {
                            r is Ok
                        }
                    }
                },
            },
    {
        let message = match codec::decode_routing_message(&serialised_message) {
            Ok(m) => m,
            Err(_) => {
                return Err(RoutingError::UnknownMessageType);
            },
        };
        if matches!(message.message_type, MessageTypeTag::BootstrapIdRequest) {
            let request = match codec::decode_single_name(&message.serialised_body) {
                Ok(v) => BootstrapIdRequest { sender_id: v },
                Err(e) => {
                    return Err(e);
                },
            };
            if self.bootstrap_node_id.is_none() {
                // adopt the first node that talks to us as bootstrap peer
                self.bootstrap_node_id = Some(request.sender_id);
                self.bootstrap_endpoint = Some(peer_endpoint);
            }
            self.all_connections.insert_pair(peer_endpoint, request.sender_id);
            let ghost pre_send = *self;
            self.send_bootstrap_id_response(peer_endpoint);
            proof {
                assert(final(self).all_connections.has_pair(peer_endpoint, request.sender_id@));
                // the answered frame reads the same from the entry state:
                // adoption and registration touch neither the counter, the
                // name nor the keys
                assert(bootstrap_id_view(&pre_send, MessageTypeTag::BootstrapIdResponse)
                    =~~= bootstrap_id_view(old(self), MessageTypeTag::BootstrapIdResponse));
            }
            Ok(())
        } else if matches!(message.message_type, MessageTypeTag::BootstrapIdResponse) {
            self.handle_bootstrap_id_response(peer_endpoint, message.serialised_body)
        } else {
            Ok(())
        }
    }

    /// Complete the identity exchange we started: adopt the peer's name,
    /// register the connection, and ask it for our own close group.  A
    /// repeated answer from a registered endpoint is ignored.
    pub fn handle_bootstrap_id_response(&mut self, peer_endpoint: Endpoint, body: Vec<u8>) -> (r:
        Result<(), RoutingError>)
        requires
            old(self).wf(),
        ensures
            final(self).wf(),
            final(self).pmid == old(self).pmid,
            final(self).own_id == old(self).own_id,
            final(self).accepting_on == old(self).accepting_on,
            final(self).routing_table == old(self).routing_table,
            final(self).filter == old(self).filter,
            final(self).public_pmid_cache == old(self).public_pmid_cache,
            final(self).interface == old(self).interface,
            old(self).outbox@.is_prefix_of(final(self).outbox@),
            r is Ok,
            old(self).all_connections.has_endpoint(peer_endpoint) ==> *final(self) == *old(self),
            !old(self).all_connections.has_endpoint(peer_endpoint) ==> match
                codec::parse_single_name(body@, 0) {
                Option::Some(q) => {
                    if q.1 == body@.len() {
                        if old(self).bootstrap_node_id is Some || old(self).bootstrap_endpoint
                            != Some(peer_endpoint) {
                            *final(self) == *old(self)
                        } else {
                            // the splice-in: adopt the peer, register the
                            // pair, and ask it for our own close group
                            &&& final(self).bootstrap_node_id matches Some(b) && b@ == q.0
                            &&& final(self).bootstrap_endpoint == old(self).bootstrap_endpoint
                            &&& final(self).all_connections.has_pair(peer_endpoint, q.0)
                            &&& final(self).next_message_id as int == (old(self).next_message_id as int + 1) % 0x1_0000_0000
                            &&& final(self).outbox@.len() == old(self).outbox@.len() + 1
                            &&& final(self).outbox@.last() matches OutboundAction::SendTo {
                                endpoint,
                                bytes,
                            } && endpoint == peer_endpoint && bytes@ == codec::enc_message(
                                splice_find_group_view(old(self), q.0),
                            )
                        }
                    } else {
                        *final(self) == *old(self)
                    }
                },
                Option::None => *final(self) == *old(self),
            },
    {
        if self.all_connections.name_for_endpoint(&peer_endpoint).is_some() {
            // already registered: a repeated answer changes nothing
            return Ok(());
        }
        let response = match codec::decode_single_name(&body) {
            Ok(v) => BootstrapIdResponse { sender_id: v },
            Err(_) => {
                return Ok(());
            },
        };
        // only the answer of the endpoint we dialled, and only the first
        // one, splices us in
        if self.bootstrap_node_id.is_some() {
            return Ok(());
        }
        let expected = match &self.bootstrap_endpoint {
            Some(bep) => *bep == peer_endpoint,
            None => false,
        };
        if !expected {
            return Ok(());
        }
        self.bootstrap_node_id = Some(response.sender_id);
        self.all_connections.insert_pair(peer_endpoint, response.sender_id);
        proof {
            let chosen = choose|nm: Seq<u8>| self.all_connections.has_pair(peer_endpoint, nm);
            assert(self.all_connections.has_pair(peer_endpoint, response.sender_id@));
            crate::registry::lemma_unique_name(
                &self.all_connections,
                peer_endpoint,
                response.sender_id@,
                chosen,
            );
            assert(self.our_source_spec() == (SourceAddressV {
                from_node: response.sender_id@,
                from_group: Option::None,
                reply_to: Option::Some(self.own_id@),
            }));
        }

        // ask the bootstrap peer for our close group
        let own_id = Some(self.id());
        let message = self.construct_find_group_msg(own_id);
        proof {
            assert(message@ =~~= splice_find_group_view(old(self), response.sender_id@));
        }
        self.send_to_bootstrap_node(&message);
        Ok(())
    }

    /// Drive the node with one connection-manager event, or with none:
    /// frames from registered peers go through the dispatcher, frames from
    /// strangers through the identity exchange, connections mark the table,
    /// losses clear registry and table.  Handler errors are swallowed.
    pub fn run(&mut self, event: Option<Event>)
        requires
            old(self).wf(),
        ensures
            final(self).wf(),
            final(self).pmid == old(self).pmid,
            final(self).own_id == old(self).own_id,
            final(self).accepting_on == old(self).accepting_on,
            old(self).outbox@.is_prefix_of(final(self).outbox@),
            match event {
                Option::None => *final(self) == *old(self),
                Option::Some(Event::NewConnection(e)) => {
                    &&& final(self).interface == old(self).interface
                    &&& final(self).all_connections == old(self).all_connections
                    &&& final(self).filter == old(self).filter
                    &&& final(self).public_pmid_cache == old(self).public_pmid_cache
                    &&& final(self).next_message_id == old(self).next_message_id
                    &&& final(self).bootstrap_endpoint == old(self).bootstrap_endpoint
                    &&& final(self).bootstrap_node_id == old(self).bootstrap_node_id
                    &&& final(self).outbox == old(self).outbox
                    &&& forall|x: Seq<u8>|
                        #[trigger] final(self).routing_table.contains_name(x) == old(
                            self,
                        ).routing_table.contains_name(x)
                },
                Option::Some(Event::LostConnection(e)) => {
                    &&& final(self).filter == old(self).filter
                    &&& final(self).public_pmid_cache == old(self).public_pmid_cache
                    &&& final(self).bootstrap_endpoint == old(self).bootstrap_endpoint
                    &&& final(self).bootstrap_node_id == old(self).bootstrap_node_id
                    &&& !final(self).all_connections.has_endpoint(e)
                    &&& forall|e2: Endpoint, n2: Seq<u8>|
                        e2 != e ==> #[trigger] final(self).all_connections.has_pair(e2, n2)
                            == old(self).all_connections.has_pair(e2, n2)
                    &&& !old(self).all_connections.has_endpoint(e) ==> *final(self) == *old(self)
                },
                Option::Some(Event::NewMessage(e, _)) => {
                    &&& old(self).all_connections.has_endpoint(e) ==> {
                        &&& final(self).bootstrap_endpoint == old(self).bootstrap_endpoint
                        &&& final(self).bootstrap_node_id == old(self).bootstrap_node_id
                    }
                    &&& !old(self).all_connections.has_endpoint(e) ==> {
                        &&& final(self).routing_table == old(self).routing_table
                        &&& final(self).filter == old(self).filter
                        &&& final(self).public_pmid_cache == old(self).public_pmid_cache
                        &&& final(self).interface == old(self).interface
                    }
                },
            },
    {
        let event = match event {
            Some(e) => e,
            None => {
                return ;
            },
        };
        match event {
            Event::NewMessage(endpoint, bytes) => {
                let known = self.all_connections.name_for_endpoint(&endpoint);
                match known {
                    Some(peer_id) => {
                        proof {
                            assert(old(self).all_connections.has_endpoint(endpoint)) by {
                                assert(old(self).all_connections.has_pair(endpoint, peer_id@));
                                let i = choose|i: int|
                                    0 <= i < old(self).all_connections.entries@.len() && (
                                    #[trigger] old(self).all_connections.entries@[i]).0
                                        == endpoint && old(self).all_connections.entries@[i].1@
                                        == peer_id@;
                                assert((old(self).all_connections.entries@[i]).0 == endpoint);
                            }
                        }
                        // a decode failure on a known peer is logged and
                        // dropped; the peer stays connected
                        let _ = self.message_received(&peer_id, bytes);
                    },
                    None => {
                        let _ = self.bootstrap_message_received(endpoint, bytes);
                    },
                }
            },
            Event::NewConnection(endpoint) => {
                self.handle_connect(endpoint);
            },
            Event::LostConnection(endpoint) => {
                self.handle_lost_connection(endpoint);
            },
        }
    }
}


/// The frame answering a GetData: the original header turned around, the
/// payload or error under the same name and type.
pub open spec fn get_data_reply_view<F: Interface>(
    n: &RoutingNode<F>,
    h: MessageHeaderV,
    authority: Authority,
    nti: crate::types::NameAndTypeIdV,
    data: Result<Seq<u8>, Seq<u8>>,
) -> crate::messages::RoutingMessageV {
    let body = codec::enc_get_data_response(crate::messages::GetDataResponseV {
        name_and_type_id: nti,
        data,
    });
    crate::messages::RoutingMessageV {
        message_type: MessageTypeTag::GetDataResponse,
        message_header: h.create_reply(n.own_id@, authority),
        serialised_body: body,
        signature: crypto::sig_of(n.pmid.get_crypto_secret_sign_key_spec(), body),
    }
}

/// The frame forwarding a GetData toward one delegated destination.
pub open spec fn get_data_send_on_view<F: Interface>(
    n: &RoutingNode<F>,
    h: MessageHeaderV,
    authority: Authority,
    gd: crate::messages::GetDataV,
    dest: Seq<u8>,
) -> crate::messages::RoutingMessageV {
    let body = codec::enc_get_data(gd);
    crate::messages::RoutingMessageV {
        message_type: MessageTypeTag::GetData,
        message_header: h.create_send_on(n.own_id@, authority, dest),
        serialised_body: body,
        signature: crypto::sig_of(n.pmid.get_crypto_secret_sign_key_spec(), body),
    }
}

/// Whom a PutDataResponse goes back to: a client manager answers the
/// relayed client when one is named, everyone else answers the sender.
pub open spec fn put_reply_target(h: MessageHeaderV, authority: Authority) -> Seq<u8> {
    if authority == Authority::ClientManager {
        match h.source.reply_to {
            Option::Some(client) => client,
            Option::None => h.from(),
        }
    } else {
        h.from()
    }
}

/// The frame answering a PutData.
pub open spec fn put_data_reply_view<F: Interface>(
    n: &RoutingNode<F>,
    h: MessageHeaderV,
    authority: Authority,
    name: Seq<u8>,
    data: Result<Seq<u8>, Seq<u8>>,
) -> crate::messages::RoutingMessageV {
    let body = codec::enc_put_data_response(crate::messages::PutDataResponseV { name, data });
    crate::messages::RoutingMessageV {
        message_type: MessageTypeTag::PutDataResponse,
        message_header: h.create_reply(n.own_id@, authority),
        serialised_body: body,
        signature: crypto::sig_of(n.pmid.get_crypto_secret_sign_key_spec(), body),
    }
}

/// The frame forwarding a PutData toward one delegated destination.
pub open spec fn put_data_send_on_view<F: Interface>(
    n: &RoutingNode<F>,
    h: MessageHeaderV,
    authority: Authority,
    pd: crate::messages::PutDataV,
    dest: Seq<u8>,
) -> crate::messages::RoutingMessageV {
    let body = codec::enc_put_data(pd);
    crate::messages::RoutingMessageV {
        message_type: MessageTypeTag::PutData,
        message_header: h.create_send_on(n.own_id@, authority, dest),
        serialised_body: body,
        signature: crypto::sig_of(n.pmid.get_crypto_secret_sign_key_spec(), body),
    }
}

/// The action carries a forwarded copy of the GetData for one of the
/// delegated destinations, to a connected registered peer.
pub open spec fn get_data_send_on_emission<F: Interface>(
    n: &RoutingNode<F>,
    h: MessageHeaderV,
    authority: Authority,
    gd: crate::messages::GetDataV,
    dests: Seq<NameType>,
    a: OutboundAction,
) -> bool {
    exists|j: int|
        0 <= j < dests.len() && sent_to_connected_peer(
            n,
            codec::enc_message(get_data_send_on_view(n, h, authority, gd, #[trigger] dests[j]@)),
            a,
        )
}

/// The action carries a forwarded copy of the PutData for one of the
/// delegated destinations, to a connected registered peer.
pub open spec fn put_data_send_on_emission<F: Interface>(
    n: &RoutingNode<F>,
    h: MessageHeaderV,
    authority: Authority,
    pd: crate::messages::PutDataV,
    dests: Seq<NameType>,
    a: OutboundAction,
) -> bool {
    exists|j: int|
        0 <= j < dests.len() && sent_to_connected_peer(
            n,
            codec::enc_message(put_data_send_on_view(n, h, authority, pd, #[trigger] dests[j]@)),
            a,
        )
}

impl<F: Interface> RoutingNode<F> {
    /// Turn a GetData around with the given payload or error: exactly the
    /// reply frame travels, toward the sender relay-aware.
    pub fn reply_to_get_data(
        &mut self,
        header: &MessageHeader,
        authority: Authority,
        name_and_type_id: NameAndTypeId,
        result: Result<Vec<u8>, crate::error::ResponseError>,
    )
        requires
            old(self).wf(),
        ensures
            final(self).wf(),
            core_unchanged(old(self), final(self)),
            final(self).next_message_id == old(self).next_message_id,
            old(self).outbox@.is_prefix_of(final(self).outbox@),
            forall|k: int|
                old(self).outbox@.len() <= k < final(self).outbox@.len()
                    ==> sent_to_connected_peer(
                    old(self),
                    codec::enc_message(get_data_reply_view(
                        old(self),
                        header@,
                        authority,
                        name_and_type_id@,
                        crate::messages::response_view(result),
                    )),
                    #[trigger] final(self).outbox@[k],
                ),
            fully_reachable(&old(self).routing_table, &old(self).all_connections)
                ==> final(self).outbox@.len() > old(self).outbox@.len(),
    {
        let response = GetDataResponse { name_and_type_id, data: result };
        let response_body = codec::encode_get_data_response(&response);
        let reply_header = header.create_reply(&self.own_id, authority);
        let key = self.pmid.get_crypto_secret_sign_key();
        let routing_msg = RoutingMessage::new(
            MessageTypeTag::GetDataResponse,
            reply_header,
            response_body,
            &key,
        );
        proof {
            assert(routing_msg@ =~= get_data_reply_view(
                old(self),
                header@,
                authority,
                name_and_type_id@,
                crate::messages::response_view(result),
            ));
        }
        let encoded = codec::encode_routing_message(&routing_msg);
        let target = header.send_to();
        self.send_swarm_or_parallel(&target.dest, &encoded);
    }

    /// Forward a GetData to each delegated destination: exactly one
    /// rewritten copy per destination travels.
    pub fn send_on_get_data(
        &mut self,
        header: &MessageHeader,
        authority: Authority,
        get_data: &GetData,
        dest_nodes: Vec<NameType>,
    )
        requires
            old(self).wf(),
        ensures
            final(self).wf(),
            core_unchanged(old(self), final(self)),
            final(self).next_message_id == old(self).next_message_id,
            old(self).outbox@.is_prefix_of(final(self).outbox@),
            forall|k: int|
                old(self).outbox@.len() <= k < final(self).outbox@.len()
                    ==> get_data_send_on_emission(
                    old(self),
                    header@,
                    authority,
                    get_data@,
                    dest_nodes@,
                    #[trigger] final(self).outbox@[k],
                ),
            (dest_nodes@.len() > 0 && fully_reachable(
                &old(self).routing_table,
                &old(self).all_connections,
            )) ==> final(self).outbox@.len() > old(self).outbox@.len(),
    {
        let mut i: usize = 0;
        while i < dest_nodes.len()
            invariant
                self.wf(),
                core_unchanged(old(self), self),
                self.next_message_id == old(self).next_message_id,
                old(self).outbox@.is_prefix_of(self.outbox@),
                0 <= i <= dest_nodes@.len(),
                forall|k: int|
                    old(self).outbox@.len() <= k < self.outbox@.len()
                        ==> get_data_send_on_emission(
                        old(self),
                        header@,
                        authority,
                        get_data@,
                        dest_nodes@,
                        #[trigger] self.outbox@[k],
                    ),
                (i > 0 && fully_reachable(
                    &old(self).routing_table,
                    &old(self).all_connections,
                )) ==> self.outbox@.len() > old(self).outbox@.len(),
            decreases dest_nodes@.len() - i,
        {
            let dest_node = dest_nodes[i];
            let send_on_header = header.create_send_on(&self.own_id, authority, &dest_node);
            let fwd = GetData {
                requester: get_data.requester,
                name_and_type_id: get_data.name_and_type_id,
            };
            let fwd_body = codec::encode_get_data(&fwd);
            let key = self.pmid.get_crypto_secret_sign_key();
            let routing_msg = RoutingMessage::new(
                MessageTypeTag::GetData,
                send_on_header,
                fwd_body,
                &key,
            );
            proof {
                assert(routing_msg@ =~= get_data_send_on_view(
                    old(self),
                    header@,
                    authority,
                    get_data@,
                    dest_nodes@[i as int]@,
                ));
            }
            let encoded = codec::encode_routing_message(&routing_msg);
            let ghost mid = *self;
            self.send_swarm_or_parallel(&dest_node, &encoded);
            proof {
                lemma_prefix_trans(old(self).outbox@, mid.outbox@, self.outbox@);
                assert forall|k: int|
                    old(self).outbox@.len() <= k < self.outbox@.len()
                    implies get_data_send_on_emission(
                    old(self),
                    header@,
                    authority,
                    get_data@,
                    dest_nodes@,
                    #[trigger] self.outbox@[k],
                ) by {
                    if k < mid.outbox@.len() {
                        assert(self.outbox@[k] == mid.outbox@[k]);
                        assert(get_data_send_on_emission(
                            old(self),
                            header@,
                            authority,
                            get_data@,
                            dest_nodes@,
                            mid.outbox@[k],
                        ));
                    } else {
                        assert(sent_to_connected_peer(&mid, encoded@, self.outbox@[k]));
                        assert(sent_to_connected_peer(old(self), encoded@, self.outbox@[k]));
                        assert(sent_to_connected_peer(
                            old(self),
                            codec::enc_message(get_data_send_on_view(
                                old(self),
                                header@,
                                authority,
                                get_data@,
                                dest_nodes@[i as int]@,
                            )),
                            self.outbox@[k],
                        ));
                    }
                }
            }
            i = i + 1;
        }
    }

    /// Answer a PutData with the stored payload or the error: exactly the
    /// reply frame travels, toward whoever `put_reply_target` owes it.
    pub fn reply_to_put_data(
        &mut self,
        header: &MessageHeader,
        authority: Authority,
        name: NameType,
        result: Result<Vec<u8>, crate::error::ResponseError>,
    ) -> (target: NameType)
        requires
            old(self).wf(),
        ensures
            target@ == put_reply_target(header@, authority),
            final(self).wf(),
            core_unchanged(old(self), final(self)),
            final(self).next_message_id == old(self).next_message_id,
            old(self).outbox@.is_prefix_of(final(self).outbox@),
            forall|k: int|
                old(self).outbox@.len() <= k < final(self).outbox@.len()
                    ==> sent_to_connected_peer(
                    old(self),
                    codec::enc_message(put_data_reply_view(
                        old(self),
                        header@,
                        authority,
                        name@,
                        crate::messages::response_view(result),
                    )),
                    #[trigger] final(self).outbox@[k],
                ),
            fully_reachable(&old(self).routing_table, &old(self).all_connections)
                ==> final(self).outbox@.len() > old(self).outbox@.len(),
    {
        let reply_header = header.create_reply(&self.own_id, authority);
        let reply_to = match authority {
            Authority::ClientManager => match header.reply_to() {
                Some(client) => client,
                None => header.from(),
            },
            _ => header.from(),
        };
        let put_data_response = PutDataResponse { name, data: result };
        let response_body = codec::encode_put_data_response(&put_data_response);
        let key = self.pmid.get_crypto_secret_sign_key();
        let routing_msg = RoutingMessage::new(
            MessageTypeTag::PutDataResponse,
            reply_header,
            response_body,
            &key,
        );
        proof {
            assert(routing_msg@ =~= put_data_reply_view(
                old(self),
                header@,
                authority,
                name@,
                crate::messages::response_view(result),
            ));
        }
        let encoded = codec::encode_routing_message(&routing_msg);
        self.send_swarm_or_parallel(&reply_to, &encoded);
        reply_to
    }

    /// Forward a PutData to each delegated destination.
    pub fn send_on_put_data(
        &mut self,
        header: &MessageHeader,
        authority: Authority,
        put_data: &PutData,
        dest_nodes: Vec<NameType>,
    )
        requires
            old(self).wf(),
        ensures
            final(self).wf(),
            core_unchanged(old(self), final(self)),
            final(self).next_message_id == old(self).next_message_id,
            old(self).outbox@.is_prefix_of(final(self).outbox@),
            forall|k: int|
                old(self).outbox@.len() <= k < final(self).outbox@.len()
                    ==> put_data_send_on_emission(
                    old(self),
                    header@,
                    authority,
                    put_data@,
                    dest_nodes@,
                    #[trigger] final(self).outbox@[k],
                ),
            (dest_nodes@.len() > 0 && fully_reachable(
                &old(self).routing_table,
                &old(self).all_connections,
            )) ==> final(self).outbox@.len() > old(self).outbox@.len(),
    {
        let mut i: usize = 0;
        while i < dest_nodes.len()
            invariant
                self.wf(),
                core_unchanged(old(self), self),
                self.next_message_id == old(self).next_message_id,
                old(self).outbox@.is_prefix_of(self.outbox@),
                0 <= i <= dest_nodes@.len(),
                forall|k: int|
                    old(self).outbox@.len() <= k < self.outbox@.len()
                        ==> put_data_send_on_emission(
                        old(self),
                        header@,
                        authority,
                        put_data@,
                        dest_nodes@,
                        #[trigger] self.outbox@[k],
                    ),
                (i > 0 && fully_reachable(
                    &old(self).routing_table,
                    &old(self).all_connections,
                )) ==> self.outbox@.len() > old(self).outbox@.len(),
            decreases dest_nodes@.len() - i,
        {
            let dest_node = dest_nodes[i];
            let send_on_header = header.create_send_on(&self.own_id, authority, &dest_node);
            let fwd = PutData { name: put_data.name, data: codec::copy_bytes(&put_data.data) };
            let fwd_body = codec::encode_put_data(&fwd);
            let key = self.pmid.get_crypto_secret_sign_key();
            let routing_msg = RoutingMessage::new(
                MessageTypeTag::PutData,
                send_on_header,
                fwd_body,
                &key,
            );
            proof {
                assert(routing_msg@ =~= put_data_send_on_view(
                    old(self),
                    header@,
                    authority,
                    put_data@,
                    dest_nodes@[i as int]@,
                ));
            }
            let encoded = codec::encode_routing_message(&routing_msg);
            let ghost mid = *self;
            self.send_swarm_or_parallel(&dest_node, &encoded);
            proof {
                lemma_prefix_trans(old(self).outbox@, mid.outbox@, self.outbox@);
                assert forall|k: int|
                    old(self).outbox@.len() <= k < self.outbox@.len()
                    implies put_data_send_on_emission(
                    old(self),
                    header@,
                    authority,
                    put_data@,
                    dest_nodes@,
                    #[trigger] self.outbox@[k],
                ) by {
                    if k < mid.outbox@.len() {
                        assert(self.outbox@[k] == mid.outbox@[k]);
                        assert(put_data_send_on_emission(
                            old(self),
                            header@,
                            authority,
                            put_data@,
                            dest_nodes@,
                            mid.outbox@[k],
                        ));
                    } else {
                        assert(sent_to_connected_peer(&mid, encoded@, self.outbox@[k]));
                        assert(sent_to_connected_peer(old(self), encoded@, self.outbox@[k]));
                        assert(sent_to_connected_peer(
                            old(self),
                            codec::enc_message(put_data_send_on_view(
                                old(self),
                                header@,
                                authority,
                                put_data@,
                                dest_nodes@[i as int]@,
                            )),
                            self.outbox@[k],
                        ));
                    }
                }
            }
            i = i + 1;
        }
    }
}


/// The frame answering a GetKey.
pub open spec fn get_key_reply_view<F: Interface>(
    n: &RoutingNode<F>,
    h: MessageHeaderV,
    authority: Authority,
    address: Seq<u8>,
    public_sign_key: Seq<u8>,
) -> crate::messages::RoutingMessageV {
    let body = codec::enc_get_key_response(crate::messages::GetKeyResponseV {
        address,
        public_sign_key,
    });
    crate::messages::RoutingMessageV {
        message_type: MessageTypeTag::GetKeyResponse,
        message_header: h.create_reply(n.own_id@, authority),
        serialised_body: body,
        signature: crypto::sig_of(n.pmid.get_crypto_secret_sign_key_spec(), body),
    }
}

/// The frame forwarding a GetKey toward one delegated destination.
pub open spec fn get_key_send_on_view<F: Interface>(
    n: &RoutingNode<F>,
    h: MessageHeaderV,
    authority: Authority,
    gk: crate::messages::GetKeyV,
    dest: Seq<u8>,
) -> crate::messages::RoutingMessageV {
    let body = codec::enc_get_key(gk);
    crate::messages::RoutingMessageV {
        message_type: MessageTypeTag::GetKey,
        message_header: h.create_send_on(n.own_id@, authority, dest),
        serialised_body: body,
        signature: crypto::sig_of(n.pmid.get_crypto_secret_sign_key_spec(), body),
    }
}

/// The action carries a forwarded copy of the GetKey for one of the
/// delegated destinations, to a connected registered peer.
pub open spec fn get_key_send_on_emission<F: Interface>(
    n: &RoutingNode<F>,
    h: MessageHeaderV,
    authority: Authority,
    gk: crate::messages::GetKeyV,
    dests: Seq<NameType>,
    a: OutboundAction,
) -> bool {
    exists|j: int|
        0 <= j < dests.len() && sent_to_connected_peer(
            n,
            codec::enc_message(get_key_send_on_view(n, h, authority, gk, #[trigger] dests[j]@)),
            a,
        )
}

/// The frame forwarding a Post toward one delegated destination.
pub open spec fn post_send_on_view<F: Interface>(
    n: &RoutingNode<F>,
    h: MessageHeaderV,
    authority: Authority,
    p: crate::messages::PostV,
    dest: Seq<u8>,
) -> crate::messages::RoutingMessageV {
    let body = codec::enc_post(p);
    crate::messages::RoutingMessageV {
        message_type: MessageTypeTag::Post,
        message_header: h.create_send_on(n.own_id@, authority, dest),
        serialised_body: body,
        signature: crypto::sig_of(n.pmid.get_crypto_secret_sign_key_spec(), body),
    }
}

/// The action carries a forwarded copy of the Post for one of the
/// delegated destinations, to a connected registered peer.
pub open spec fn post_send_on_emission<F: Interface>(
    n: &RoutingNode<F>,
    h: MessageHeaderV,
    authority: Authority,
    p: crate::messages::PostV,
    dests: Seq<NameType>,
    a: OutboundAction,
) -> bool {
    exists|j: int|
        0 <= j < dests.len() && sent_to_connected_peer(
            n,
            codec::enc_message(post_send_on_view(n, h, authority, p, #[trigger] dests[j]@)),
            a,
        )
}

impl<F: Interface> RoutingNode<F> {
    /// Turn a GetKey around with the found signing key: exactly the reply
    /// frame travels, toward the sender relay-aware.
    pub fn reply_to_get_key(
        &mut self,
        header: &MessageHeader,
        authority: Authority,
        address: NameType,
        public_sign_key: PublicSignKey,
    )
        requires
            old(self).wf(),
        ensures
            final(self).wf(),
            core_unchanged(old(self), final(self)),
            final(self).next_message_id == old(self).next_message_id,
            old(self).outbox@.is_prefix_of(final(self).outbox@),
            forall|k: int|
                old(self).outbox@.len() <= k < final(self).outbox@.len()
                    ==> sent_to_connected_peer(
                    old(self),
                    codec::enc_message(get_key_reply_view(
                        old(self),
                        header@,
                        authority,
                        address@,
                        public_sign_key@,
                    )),
                    #[trigger] final(self).outbox@[k],
                ),
            fully_reachable(&old(self).routing_table, &old(self).all_connections)
                ==> final(self).outbox@.len() > old(self).outbox@.len(),
    {
        let reply_header = header.create_reply(&self.own_id, authority);
        let response = GetKeyResponse { address, public_sign_key };
        let response_body = codec::encode_get_key_response(&response);
        let key = self.pmid.get_crypto_secret_sign_key();
        let routing_msg = RoutingMessage::new(
            MessageTypeTag::GetKeyResponse,
            reply_header,
            response_body,
            &key,
        );
        proof {
            assert(routing_msg@ =~= get_key_reply_view(
                old(self),
                header@,
                authority,
                address@,
                public_sign_key@,
            ));
        }
        let encoded = codec::encode_routing_message(&routing_msg);
        let target = header.send_to();
        self.send_swarm_or_parallel(&target.dest, &encoded);
    }

    /// Forward a GetKey to each delegated destination.
    pub fn send_on_get_key(
        &mut self,
        header: &MessageHeader,
        authority: Authority,
        get_key: &GetKey,
        dest_nodes: Vec<NameType>,
    )
        requires
            old(self).wf(),
        ensures
            final(self).wf(),
            core_unchanged(old(self), final(self)),
            final(self).next_message_id == old(self).next_message_id,
            old(self).outbox@.is_prefix_of(final(self).outbox@),
            forall|k: int|
                old(self).outbox@.len() <= k < final(self).outbox@.len()
                    ==> get_key_send_on_emission(
                    old(self),
                    header@,
                    authority,
                    get_key@,
                    dest_nodes@,
                    #[trigger] final(self).outbox@[k],
                ),
            (dest_nodes@.len() > 0 && fully_reachable(
                &old(self).routing_table,
                &old(self).all_connections,
            )) ==> final(self).outbox@.len() > old(self).outbox@.len(),
    {
        let mut i: usize = 0;
        while i < dest_nodes.len()
            invariant
                self.wf(),
                core_unchanged(old(self), self),
                self.next_message_id == old(self).next_message_id,
                old(self).outbox@.is_prefix_of(self.outbox@),
                0 <= i <= dest_nodes@.len(),
                forall|k: int|
                    old(self).outbox@.len() <= k < self.outbox@.len()
                        ==> get_key_send_on_emission(
                        old(self),
                        header@,
                        authority,
                        get_key@,
                        dest_nodes@,
                        #[trigger] self.outbox@[k],
                    ),
                (i > 0 && fully_reachable(
                    &old(self).routing_table,
                    &old(self).all_connections,
                )) ==> self.outbox@.len() > old(self).outbox@.len(),
            decreases dest_nodes@.len() - i,
        {
            let dest_node = dest_nodes[i];
            let send_on_header = header.create_send_on(&self.own_id, authority, &dest_node);
            let fwd = GetKey { requester: get_key.requester, target_id: get_key.target_id };
            let fwd_body = codec::encode_get_key(&fwd);
            let key = self.pmid.get_crypto_secret_sign_key();
            let routing_msg = RoutingMessage::new(
                MessageTypeTag::GetKey,
                send_on_header,
                fwd_body,
                &key,
            );
            proof {
                assert(routing_msg@ =~= get_key_send_on_view(
                    old(self),
                    header@,
                    authority,
                    get_key@,
                    dest_nodes@[i as int]@,
                ));
            }
            let encoded = codec::encode_routing_message(&routing_msg);
            let ghost mid = *self;
            self.send_swarm_or_parallel(&dest_node, &encoded);
            proof {
                lemma_prefix_trans(old(self).outbox@, mid.outbox@, self.outbox@);
                assert forall|k: int|
                    old(self).outbox@.len() <= k < self.outbox@.len()
                    implies get_key_send_on_emission(
                    old(self),
                    header@,
                    authority,
                    get_key@,
                    dest_nodes@,
                    #[trigger] self.outbox@[k],
                ) by {
                    if k < mid.outbox@.len() {
                        assert(self.outbox@[k] == mid.outbox@[k]);
                        assert(get_key_send_on_emission(
                            old(self),
                            header@,
                            authority,
                            get_key@,
                            dest_nodes@,
                            mid.outbox@[k],
                        ));
                    } else {
                        assert(sent_to_connected_peer(&mid, encoded@, self.outbox@[k]));
                        assert(sent_to_connected_peer(
                            old(self),
                            codec::enc_message(get_key_send_on_view(
                                old(self),
                                header@,
                                authority,
                                get_key@,
                                dest_nodes@[i as int]@,
                            )),
                            self.outbox@[k],
                        ));
                    }
                }
            }
            i = i + 1;
        }
    }

    /// Forward a Post to each delegated destination.
    pub fn send_on_post(
        &mut self,
        header: &MessageHeader,
        authority: Authority,
        post: &Post,
        dest_nodes: Vec<NameType>,
    )
        requires
            old(self).wf(),
        ensures
            final(self).wf(),
            core_unchanged(old(self), final(self)),
            final(self).next_message_id == old(self).next_message_id,
            old(self).outbox@.is_prefix_of(final(self).outbox@),
            forall|k: int|
                old(self).outbox@.len() <= k < final(self).outbox@.len()
                    ==> post_send_on_emission(
                    old(self),
                    header@,
                    authority,
                    post@,
                    dest_nodes@,
                    #[trigger] final(self).outbox@[k],
                ),
            (dest_nodes@.len() > 0 && fully_reachable(
                &old(self).routing_table,
                &old(self).all_connections,
            )) ==> final(self).outbox@.len() > old(self).outbox@.len(),
    {
        let mut i: usize = 0;
        while i < dest_nodes.len()
            invariant
                self.wf(),
                core_unchanged(old(self), self),
                self.next_message_id == old(self).next_message_id,
                old(self).outbox@.is_prefix_of(self.outbox@),
                0 <= i <= dest_nodes@.len(),
                forall|k: int|
                    old(self).outbox@.len() <= k < self.outbox@.len()
                        ==> post_send_on_emission(
                        old(self),
                        header@,
                        authority,
                        post@,
                        dest_nodes@,
                        #[trigger] self.outbox@[k],
                    ),
                (i > 0 && fully_reachable(
                    &old(self).routing_table,
                    &old(self).all_connections,
                )) ==> self.outbox@.len() > old(self).outbox@.len(),
            decreases dest_nodes@.len() - i,
        {
            let dest_node = dest_nodes[i];
            let send_on_header = header.create_send_on(&self.own_id, authority, &dest_node);
            let fwd = Post { name: post.name, data: codec::copy_bytes(&post.data) };
            let fwd_body = codec::encode_post(&fwd);
            let key = self.pmid.get_crypto_secret_sign_key();
            let routing_msg = RoutingMessage::new(
                MessageTypeTag::Post,
                send_on_header,
                fwd_body,
                &key,
            );
            proof {
                assert(routing_msg@ =~= post_send_on_view(
                    old(self),
                    header@,
                    authority,
                    post@,
                    dest_nodes@[i as int]@,
                ));
            }
            let encoded = codec::encode_routing_message(&routing_msg);
            let ghost mid = *self;
            self.send_swarm_or_parallel(&dest_node, &encoded);
            proof {
                lemma_prefix_trans(old(self).outbox@, mid.outbox@, self.outbox@);
                assert forall|k: int|
                    old(self).outbox@.len() <= k < self.outbox@.len()
                    implies post_send_on_emission(
                    old(self),
                    header@,
                    authority,
                    post@,
                    dest_nodes@,
                    #[trigger] self.outbox@[k],
                ) by {
                    if k < mid.outbox@.len() {
                        assert(self.outbox@[k] == mid.outbox@[k]);
                        assert(post_send_on_emission(
                            old(self),
                            header@,
                            authority,
                            post@,
                            dest_nodes@,
                            mid.outbox@[k],
                        ));
                    } else {
                        assert(sent_to_connected_peer(&mid, encoded@, self.outbox@[k]));
                        assert(sent_to_connected_peer(
                            old(self),
                            codec::enc_message(post_send_on_view(
                                old(self),
                                header@,
                                authority,
                                post@,
                                dest_nodes@[i as int]@,
                            )),
                            self.outbox@[k],
                        ));
                    }
                }
            }
            i = i + 1;
        }
    }
}

} // verus!
