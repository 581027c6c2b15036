use vstd::prelude::*;

use crate::error::{InterfaceError, ResponseError};
use crate::name_type::NameType;
use crate::types::{Authority, DestinationAddress, Sendable};

verus! {

/// What an application callback asks the node to do with a request it
/// accepted.
#[derive(Clone)]
pub enum Action {
    /// Answer the requester with these bytes.
    Reply(Vec<u8>),
    /// Forward the request to each of these names instead.
    SendOn(Vec<NameType>),
}

/// A follow-up the application hands back, to be run as if it had called
/// the node itself.
pub enum RoutingNodeAction {
    Put { destination: NameType, content: Sendable, is_client: bool },
    Get { type_id: u64, name: NameType },
    Refresh { content: Sendable },
    Post,
    Idle,
}

/// The application-side callbacks the node drives.  Implementations decide
/// what content to serve, store, or forward; the node interprets the
/// returned actions and never promises anything of them.
pub trait Interface {
    /// A content request reached a group this node belongs to.
    fn handle_get(
        &mut self,
        type_id: u64,
        name: NameType,
        our_authority: Authority,
        from_authority: Authority,
        from_address: NameType,
    ) -> Result<Action, InterfaceError>;

    /// A key request reached this node.
    fn handle_get_key(
        &mut self,
        type_id: u64,
        name: NameType,
        our_authority: Authority,
        from_authority: Authority,
        from_address: NameType,
    ) -> Result<Action, InterfaceError>;

    /// A store request reached a group this node belongs to.
    fn handle_put(
        &mut self,
        our_authority: Authority,
        from_authority: Authority,
        from_address: NameType,
        dest_address: DestinationAddress,
        data: Vec<u8>,
    ) -> Result<Action, InterfaceError>;

    /// A mutation request reached a group this node belongs to.
    fn handle_post(
        &mut self,
        our_authority: Authority,
        from_authority: Authority,
        from_address: NameType,
        name: NameType,
        data: Vec<u8>,
    ) -> Result<Action, InterfaceError>;

    /// A content answer came back.
    fn handle_get_response(
        &mut self,
        from_address: NameType,
        response: Result<Vec<u8>, ResponseError>,
    ) -> RoutingNodeAction;

    /// A store answer came back.
    fn handle_put_response(
        &mut self,
        from_authority: Authority,
        from_address: NameType,
        response: Result<Vec<u8>, ResponseError>,
    );

    /// A mutation answer came back.
    fn handle_post_response(
        &mut self,
        from_authority: Authority,
        from_address: NameType,
        response: Result<Vec<u8>, ResponseError>,
    );

    /// The close group changed; the application may re-assert content.
    fn handle_churn(&mut self, close_group: Vec<NameType>) -> Vec<RoutingNodeAction>;

    /// May a content request be served from the local cache?
    fn handle_cache_get(
        &mut self,
        type_id: u64,
        name: NameType,
        from_authority: Authority,
        from_address: NameType,
    ) -> Result<Action, InterfaceError>;

    /// A content answer passed through; the application may cache it.
    fn handle_cache_put(
        &mut self,
        from_authority: Authority,
        from_address: NameType,
        data: Vec<u8>,
    ) -> Result<Action, InterfaceError>;
}

} // verus!
