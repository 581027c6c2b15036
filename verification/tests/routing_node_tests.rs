use std::sync::{Arc, Mutex};

use routing::codec;
use routing::message_header::MessageHeader;
use routing::messages::{GetData, GetDataResponse, MessageTypeTag, Post, PutData, PutDataResponse, PutPublicPmid, RoutingMessage};
use routing::name_type::{closer_to_target, NameType};
use routing::node_interface::{Action, Interface, RoutingNodeAction};
use routing::error::{InterfaceError, ResponseError};
use routing::routing_node::RoutingNode;
use routing::routing_table::{NodeInfo, RoutingTable};
use routing::types::{Authority, DestinationAddress, Endpoint, NameAndTypeId, Pmid, PublicPmid, PublicSignKey, Sendable, SourceAddress};

#[derive(Clone)]
struct Stats {
    call_count: u32,
    data: Vec<u8>,
}

struct TestInterface {
    stats: Arc<Mutex<Stats>>,
}

fn random_name() -> NameType {
    let mut id = [0u8; 64];
    for b in id.iter_mut() {
        *b = rand::random::<u8>();
    }
    NameType::new(id)
}

fn random_endpoint() -> Endpoint {
    Endpoint { ip: rand::random::<u32>(), port: rand::random::<u16>() }
}

fn random_endpoints() -> Vec<Endpoint> {
    let n = 1 + (rand::random::<u8>() % 4) as usize;
    (0..n).map(|_| random_endpoint()).collect()
}

fn random_bytes() -> Vec<u8> {
    let n = 1 + (rand::random::<u8>() % 32) as usize;
    (0..n).map(|_| rand::random::<u8>()).collect()
}

fn xor(a: &NameType, b: &NameType) -> NameType {
    let ab = a.get_id();
    let bb = b.get_id();
    let mut out = [0u8; 64];
    for i in 0..64 {
        out[i] = ab[i] ^ bb[i];
    }
    NameType::new(out)
}

impl Interface for TestInterface {
    fn handle_get_key(
        &mut self,
        _type_id: u64,
        _name: NameType,
        _our_authority: Authority,
        _from_authority: Authority,
        _from_address: NameType,
    ) -> Result<Action, InterfaceError> {
        let mut stats_value = self.stats.lock().unwrap();
        stats_value.call_count += 1;
        let data = stats_value.data.clone();
        Ok(Action::Reply(data))
    }

    fn handle_get(
        &mut self,
        _type_id: u64,
        _name: NameType,
        _our_authority: Authority,
        _from_authority: Authority,
        _from_address: NameType,
    ) -> Result<Action, InterfaceError> {
        let mut stats_value = self.stats.lock().unwrap();
        stats_value.call_count += 1;
        Ok(Action::Reply("handle_get called".to_string().into_bytes()))
    }

    fn handle_put(
        &mut self,
        _our_authority: Authority,
        from_authority: Authority,
        _from_address: NameType,
        _dest_address: DestinationAddress,
        data: Vec<u8>,
    ) -> Result<Action, InterfaceError> {
        let mut stats_value = self.stats.lock().unwrap();
        stats_value.call_count += 1;
        stats_value.data = match from_authority {
            Authority::Unknown => "UnauthorisedPut".to_string().into_bytes(),
            _ => "AuthorisedPut".to_string().into_bytes(),
        };
        Ok(Action::Reply(data))
    }

    fn handle_post(
        &mut self,
        _our_authority: Authority,
        _from_authority: Authority,
        _from_address: NameType,
        _name: NameType,
        data: Vec<u8>,
    ) -> Result<Action, InterfaceError> {
        let mut stats_value = self.stats.lock().unwrap();
        stats_value.call_count += 1;
        stats_value.data = data.clone();
        Ok(Action::Reply(data))
    }

    fn handle_get_response(
        &mut self,
        _from_address: NameType,
        _response: Result<Vec<u8>, ResponseError>,
    ) -> RoutingNodeAction {
        let mut stats_value = self.stats.lock().unwrap();
        stats_value.call_count += 1;
        stats_value.data = "handle_get_response called".to_string().into_bytes();
        RoutingNodeAction::Idle
    }

    fn handle_put_response(
        &mut self,
        _from_authority: Authority,
        _from_address: NameType,
        response: Result<Vec<u8>, ResponseError>,
    ) {
        let mut stats_value = self.stats.lock().unwrap();
        stats_value.call_count += 1;
        stats_value.data = match response {
            Ok(data) => data,
            Err(_) => vec![],
        };
    }

    fn handle_post_response(
        &mut self,
        _from_authority: Authority,
        _from_address: NameType,
        _response: Result<Vec<u8>, ResponseError>,
    ) {
        panic!("no post answers are expected here");
    }

    fn handle_churn(&mut self, _close_group: Vec<NameType>) -> Vec<RoutingNodeAction> {
        Vec::new()
    }

    fn handle_cache_get(
        &mut self,
        _type_id: u64,
        _name: NameType,
        _from_authority: Authority,
        _from_address: NameType,
    ) -> Result<Action, InterfaceError> {
        Err(InterfaceError::Abort)
    }

    fn handle_cache_put(
        &mut self,
        _from_authority: Authority,
        _from_address: NameType,
        _data: Vec<u8>,
    ) -> Result<Action, InterfaceError> {
        Err(InterfaceError::Abort)
    }
}

fn new_node() -> RoutingNode<TestInterface> {
    RoutingNode::new(
        TestInterface { stats: Arc::new(Mutex::new(Stats { call_count: 0, data: vec![] })) },
        Vec::new(),
    )
}

fn call_operation(
    body: Vec<u8>,
    message_type: MessageTypeTag,
    stats: Arc<Mutex<Stats>>,
) -> Stats {
    let stats_copy = stats.clone();
    let mut n1 = RoutingNode::new(TestInterface { stats: stats_copy }, Vec::new());
    let header = MessageHeader {
        message_id: n1.get_next_message_id(),
        destination: DestinationAddress { dest: n1.own_id, reply_to: None },
        source: SourceAddress { from_node: random_name(), from_group: None, reply_to: None },
        authority: match message_type {
            MessageTypeTag::UnauthorisedPut => Authority::Unknown,
            _ => Authority::NaeManager,
        },
    };
    let message = RoutingMessage::new(
        message_type,
        header,
        body,
        &n1.pmid.get_crypto_secret_sign_key(),
    );
    let serialised_msssage = codec::encode_routing_message(&message);
    let _ = n1.message_received(&header.source.from_node, serialised_msssage);
    let stats = stats.clone();
    let stats_value = stats.lock().unwrap();
    stats_value.clone()
}

#[test]
fn check_next_id() {
    let mut routing_node = new_node();
    assert_eq!(
        routing_node.get_next_message_id().wrapping_add(1),
        routing_node.get_next_message_id()
    );
}

#[test]
fn our_authority_full_routing_table() {
    let mut routing_node = new_node();

    let mut count: usize = 0;
    loop {
        let _ = routing_node.routing_table.add_node(NodeInfo::new(
            PublicPmid::new(&Pmid::new()),
            random_endpoints(),
            Some(random_endpoint()),
        ));
        count += 1;
        if count > 100 {
            break;
        }
    }
    let a_message_id: u32 = rand::random::<u32>();
    let our_name = routing_node.own_id;
    let our_close_group: Vec<NodeInfo> = routing_node.routing_table.our_close_group();
    let furthest_node_close_group: &NodeInfo = our_close_group.last().unwrap();
    let closest_node_in_our_close_group: &NodeInfo = our_close_group.first().unwrap();
    let second_closest_node_in_our_close_group: &NodeInfo = &our_close_group[1];

    let nae_or_client_in_our_close_group: NameType = xor(
        &xor(&closest_node_in_our_close_group.fob.name, &our_name),
        &second_closest_node_in_our_close_group.fob.name,
    );
    // the derived address must indeed sit within the close group
    assert!(closer_to_target(
        &nae_or_client_in_our_close_group,
        &furthest_node_close_group.fob.name,
        &our_name
    ));
    for close_node in &our_close_group {
        assert!(!close_node.fob.name.equals(&nae_or_client_in_our_close_group));
    }
    // invert to land far outside the close group
    let name_outside_close_group: NameType =
        xor(&furthest_node_close_group.fob.name, &NameType::new([255u8; 64]));
    assert!(closer_to_target(
        &furthest_node_close_group.fob.name,
        &name_outside_close_group,
        &our_name
    ));

    // a client-manager authority
    let client_manager_header: MessageHeader = MessageHeader {
        message_id: a_message_id,
        destination: DestinationAddress { dest: random_name(), reply_to: None },
        source: SourceAddress {
            from_node: nae_or_client_in_our_close_group,
            from_group: None,
            reply_to: None,
        },
        authority: Authority::Client,
    };
    assert_eq!(
        routing_node.our_authority(&name_outside_close_group, &client_manager_header),
        Authority::ClientManager
    );

    // an NAE-manager authority
    let nae_manager_header: MessageHeader = MessageHeader {
        message_id: a_message_id,
        destination: DestinationAddress {
            dest: nae_or_client_in_our_close_group,
            reply_to: None,
        },
        source: SourceAddress {
            from_node: random_name(),
            from_group: Some(name_outside_close_group),
            reply_to: None,
        },
        authority: Authority::ClientManager,
    };
    assert_eq!(
        routing_node.our_authority(&nae_or_client_in_our_close_group, &nae_manager_header),
        Authority::NaeManager
    );

    // a node-manager authority
    let node_manager_header: MessageHeader = MessageHeader {
        message_id: a_message_id,
        destination: DestinationAddress {
            dest: second_closest_node_in_our_close_group.fob.name,
            reply_to: None,
        },
        source: SourceAddress {
            from_node: random_name(),
            from_group: Some(name_outside_close_group),
            reply_to: None,
        },
        authority: Authority::NaeManager,
    };
    assert_eq!(
        routing_node.our_authority(&name_outside_close_group, &node_manager_header),
        Authority::NodeManager
    );

    // a managed-node authority
    let managed_node_header: MessageHeader = MessageHeader {
        message_id: a_message_id,
        destination: DestinationAddress { dest: our_name, reply_to: None },
        source: SourceAddress {
            from_node: random_name(),
            from_group: Some(second_closest_node_in_our_close_group.fob.name),
            reply_to: None,
        },
        authority: Authority::NodeManager,
    };
    assert_eq!(
        routing_node.our_authority(&name_outside_close_group, &managed_node_header),
        Authority::ManagedNode
    );
}

#[test]
fn call_put() {
    let data = "this is a known string".to_string().into_bytes();
    let chunk = Sendable { name: random_name(), serialised_contents: data };
    let mut n1 = new_node();
    let name: NameType = random_name();
    n1.put(name, chunk, true);
}

#[test]
fn call_unauthorised_put() {
    let data = "this is a known string".to_string().into_bytes();
    let chunk = Sendable { name: random_name(), serialised_contents: data };
    let mut n1 = new_node();
    let name: NameType = random_name();
    n1.unauthorised_put(name, chunk);
}

#[test]
fn call_handle_put() {
    let stats = Arc::new(Mutex::new(Stats { call_count: 0, data: vec![] }));
    let put_data = PutData { name: random_name(), data: random_bytes() };
    let body = codec::encode_put_data(&put_data);
    assert_eq!(call_operation(body, MessageTypeTag::PutData, stats).call_count, 1u32);
}

#[test]
fn call_handle_authorised_put() {
    let stats = Arc::new(Mutex::new(Stats { call_count: 0, data: vec![] }));
    let unauthorised_put = PutData { name: random_name(), data: random_bytes() };
    let body = codec::encode_put_data(&unauthorised_put);
    let result_stats = call_operation(body, MessageTypeTag::UnauthorisedPut, stats);
    assert_eq!(result_stats.call_count, 1u32);
    assert_eq!(result_stats.data, "UnauthorisedPut".to_string().into_bytes());
}

#[test]
fn call_handle_put_response() {
    let stats = Arc::new(Mutex::new(Stats { call_count: 0, data: vec![] }));
    let put_data_response = PutDataResponse { name: random_name(), data: Ok(random_bytes()) };
    let body = codec::encode_put_data_response(&put_data_response);
    assert_eq!(call_operation(body, MessageTypeTag::PutDataResponse, stats).call_count, 1u32);
}

#[test]
fn call_get() {
    let mut n1 = new_node();
    let name: NameType = random_name();
    n1.get(100u64, name);
}

#[test]
fn call_handle_get_data() {
    let stats = Arc::new(Mutex::new(Stats { call_count: 0, data: vec![] }));
    let get_data = GetData {
        requester: SourceAddress { from_node: random_name(), from_group: None, reply_to: None },
        name_and_type_id: NameAndTypeId { name: random_name(), type_id: rand::random::<u64>() },
    };
    let body = codec::encode_get_data(&get_data);
    assert_eq!(call_operation(body, MessageTypeTag::GetData, stats).call_count, 1u32);
}

#[test]
fn call_handle_get_data_response() {
    let stats = Arc::new(Mutex::new(Stats { call_count: 0, data: vec![] }));
    let get_data = GetDataResponse {
        name_and_type_id: NameAndTypeId { name: random_name(), type_id: rand::random::<u64>() },
        data: Ok(random_bytes()),
    };
    let body = codec::encode_get_data_response(&get_data);
    assert_eq!(
        call_operation(body, MessageTypeTag::GetDataResponse, stats).call_count,
        1u32
    );
}

#[test]
fn call_handle_get_key() {
    let stats = Arc::new(Mutex::new(Stats { call_count: 0, data: vec![] }));
    let get_key = routing::messages::GetKey {
        requester: SourceAddress { from_node: random_name(), from_group: None, reply_to: None },
        target_id: random_name(),
    };
    let public_key = PublicSignKey { key: random_bytes() };
    stats.lock().unwrap().data = codec::encode_public_sign_key(&public_key);
    let body = codec::encode_get_key(&get_key);
    assert_eq!(call_operation(body, MessageTypeTag::GetKey, stats).call_count, 1u32);
}

#[test]
fn call_handle_post() {
    let stats = Arc::new(Mutex::new(Stats { call_count: 0, data: vec![] }));
    let post = Post { name: random_name(), data: random_bytes() };
    let body = codec::encode_post(&post);
    assert_eq!(call_operation(body, MessageTypeTag::Post, stats).call_count, 1u32);
}

#[test]
fn cache_public_pmid() {
    let mut routing_node = new_node();

    let mut count: usize = 0;
    loop {
        let _ = routing_node.routing_table.add_node(NodeInfo::new(
            PublicPmid::new(&Pmid::new()),
            random_endpoints(),
            Some(random_endpoint()),
        ));
        count += 1;
        if routing_node.routing_table.size() >= RoutingTable::get_optimal_size() {
            break;
        }
        if count >= 2 * RoutingTable::get_optimal_size() {
            panic!("Routing table does not fill up.");
        }
    }
    let a_message_id: u32 = rand::random::<u32>();
    let our_name = routing_node.own_id;
    let our_close_group: Vec<NodeInfo> = routing_node.routing_table.our_close_group();
    let furthest_node_close_group = our_close_group.last().unwrap().fob.name;

    let total_inside: u32 = 50;
    let limit_attempts: u32 = 200;
    let mut stored_public_pmids: Vec<PublicPmid> = Vec::with_capacity(total_inside as usize);

    let mut count_inside: u32 = 0;
    let mut count_total: u32 = 0;
    loop {
        let put_public_pmid = PutPublicPmid { public_pmid: PublicPmid::new(&Pmid::new()) };
        let put_public_pmid_header: MessageHeader = MessageHeader {
            message_id: a_message_id,
            destination: DestinationAddress {
                dest: put_public_pmid.public_pmid.name,
                reply_to: None,
            },
            source: SourceAddress {
                from_node: random_name(),
                from_group: None,
                reply_to: None,
            },
            authority: Authority::ManagedNode,
        };
        let serialised_msg = codec::encode_put_public_pmid(&put_public_pmid);
        let result = routing_node.handle_put_public_pmid(put_public_pmid_header, serialised_msg);
        if closer_to_target(
            &put_public_pmid.public_pmid.name,
            &furthest_node_close_group,
            &our_name,
        ) {
            assert!(result.is_ok());
            stored_public_pmids.push(put_public_pmid.public_pmid);
            count_inside += 1;
        } else {
            assert!(result.is_err());
        }
        count_total += 1;
        if count_inside >= total_inside {
            break;
        }
        if count_total >= limit_attempts {
            if count_inside > 0 {
                println!(
                    "Could only verify {} successful public_pmids inside our group before limit reached.",
                    count_inside
                );
                break;
            } else {
                panic!("No PublicPmids were found inside our close group!");
            }
        }
    }
    for public_pmid in &stored_public_pmids {
        assert!(routing_node.public_pmid_cached(&public_pmid.name));
    }
    // no outside keys were cached
    assert_eq!(routing_node.public_pmid_cache_len(), total_inside as usize);
}
