//! The server pallet: servers that accounts register and own, their fees,
//! and the groups each server hosts.
use std::collections::HashMap;
use vstd::prelude::*;
use crate::account::derived_account;
use crate::dispatch::{ensure_signed, follows, follows_refused, signer, DispatchError, Origin};
use crate::maps::{lemma_map_values_insert, lemma_map_values_remove};
use crate::seqs::{first_index, position_of};
use crate::server_id::{server_type_id, ServerId as ServerKind};
use crate::traits::{GetServerInfo, ServerManager};
use crate::types::{AccountId, Balance, Perbill};

verus! {

broadcast use vstd::std_specs::hash::group_hash_axioms;

/// Identifiers of servers.
pub type ServerId = u64;

/// Identifiers of groups.
pub type GroupId = u64;

/// How many groups a server may host when nothing else was set for it.
#[allow(non_snake_case)]
pub fn MaxGroupOfServerOnEmpty() -> (n: GroupId)
    ensures
        n == max_group_on_empty(),
{
    1000u64
}

/// How many groups a server may host when nothing else was set for it.
pub open spec fn max_group_on_empty() -> GroupId {
    1000
}

/// A fee that a server's owner sets.
#[derive(Clone, Copy, Debug, PartialEq, Eq)]
pub enum Fees {
    /// The commission the server takes of mining.
    MiningCommission(Perbill),
    /// What one byte costs.
    OneByte(Balance),
}

/// What the chain knows of a server.
#[derive(Clone, Debug)]
pub struct ServerDetails {
    pub creator: AccountId,
    pub owner: Option<AccountId>,
    pub server_account_id: AccountId,
    pub metadata: Vec<u8>,
}

/// A server's details as plain values.
pub struct ServerDetailsView {
    pub creator: AccountId,
    pub owner: Option<AccountId>,
    pub server_account_id: AccountId,
    pub metadata: Seq<u8>,
}

impl View for ServerDetails {
    type V = ServerDetailsView;

    open spec fn view(&self) -> ServerDetailsView {
        ServerDetailsView {
            creator: self.creator,
            owner: self.owner,
            server_account_id: self.server_account_id,
            metadata: self.metadata@,
        }
    }
}

/// What the server pallet announces.
#[derive(Clone, Copy, Debug, PartialEq, Eq)]
pub enum Event {
    SomethingStored(u32, AccountId),
    Register { server_id: ServerId, creator: AccountId },
    SetServerOwner { server_id: ServerId, new_owner: Option<AccountId> },
    SetServerFees { server_id: ServerId, fee: Fees },
}

/// Why the server pallet refuses a call.
#[derive(Clone, Copy, Debug, PartialEq, Eq)]
pub enum Error {
    NoneValue,
    StorageOverflow,
    ServerNotExists,
    NotServerOwner,
    UndefinedFee,
    ServerAtCapacity,
    GroupAlreadyExists,
    GroupNotInServer,
}

/// The server pallet's storage and the events it has deposited.
///
/// A server that has no entry in `groups_of_server` hosts no group, and a
/// group can only be added to a server that has an entry there.
pub struct Pallet {
    pub servers: HashMap<ServerId, ServerDetails>,
    pub something: Option<u32>,
    pub next_server_id: ServerId,
    pub groups_of_server: HashMap<ServerId, Vec<GroupId>>,
    pub max_group_of_server: HashMap<ServerId, GroupId>,
    pub one_byte_pay_of_server: HashMap<ServerId, Balance>,
    pub mining_commission_of_server: HashMap<ServerId, Perbill>,
    pub events: Vec<Event>,
}

/// The server pallet's storage as plain values.
pub struct ServerState {
    pub servers: Map<ServerId, ServerDetailsView>,
    pub something: Option<u32>,
    pub next_server_id: ServerId,
    pub groups_of_server: Map<ServerId, Seq<GroupId>>,
    pub max_group_of_server: Map<ServerId, GroupId>,
    pub one_byte_pay_of_server: Map<ServerId, Balance>,
    pub mining_commission_of_server: Map<ServerId, Perbill>,
    pub events: Seq<Event>,
}

impl View for Pallet {
    type V = ServerState;

    open spec fn view(&self) -> ServerState {
        ServerState {
            servers: self.servers@.map_values(|d: ServerDetails| d@),
            something: self.something,
            next_server_id: self.next_server_id,
            groups_of_server: self.groups_of_server@.map_values(|v: Vec<GroupId>| v@),
            max_group_of_server: self.max_group_of_server@,
            one_byte_pay_of_server: self.one_byte_pay_of_server@,
            mining_commission_of_server: self.mining_commission_of_server@,
            events: self.events@,
        }
    }
}

impl ServerState {
    /// The state of a new chain.
    pub open spec fn genesis() -> ServerState {
        ServerState {
            servers: Map::empty(),
            something: None,
            next_server_id: 0,
            groups_of_server: Map::empty(),
            max_group_of_server: Map::empty(),
            one_byte_pay_of_server: Map::empty(),
            mining_commission_of_server: Map::empty(),
            events: Seq::empty(),
        }
    }

    /// The groups server `id` hosts.
    pub open spec fn groups_of(self, id: ServerId) -> Seq<GroupId> {
        if self.groups_of_server.contains_key(id) {
            self.groups_of_server[id]
        } else {
            Seq::empty()
        }
    }

    /// How many groups server `id` may host.
    pub open spec fn max_group(self, id: ServerId) -> GroupId {
        if self.max_group_of_server.contains_key(id) {
            self.max_group_of_server[id]
        } else {
            max_group_on_empty()
        }
    }

    /// Whether server `id` hosts as many groups as it may.
    pub open spec fn is_at_capacity(self, id: ServerId) -> bool {
        self.groups_of(id).len() >= self.max_group(id)
    }

    /// The owner of server `id`, if the server exists.
    pub open spec fn owner_of(self, id: ServerId) -> Result<Option<AccountId>, DispatchError> {
        if self.servers.contains_key(id) {
            Ok(self.servers[id].owner)
        } else {
            Err(DispatchError::Server(Error::ServerNotExists))
        }
    }

    /// Whether `who` owns server `id`.
    pub open spec fn is_owner(self, id: ServerId, who: AccountId) -> bool {
        self.servers.contains_key(id) && self.servers[id].owner == Some(who)
    }

    /// A signed origin registers a new server, which it creates and owns,
    /// under the next free index.
    pub open spec fn register(self, origin: Origin, metadata: Seq<u8>) -> Result<ServerState, DispatchError> {
        match signer(origin) {
            None => Err(DispatchError::BadOrigin),
            Some(creator) => {
                let id = self.next_server_id;
                if id == u64::MAX {
                    Err(DispatchError::Server(Error::StorageOverflow))
                } else {
                    Ok(ServerState {
                        servers: self.servers.insert(id, ServerDetailsView {
                            creator,
                            owner: Some(creator),
                            server_account_id: derived_account(server_type_id(), id),
                            metadata,
                        }),
                        next_server_id: (id + 1) as u64,
                        events: self.events.push(Event::Register { server_id: id, creator }),
                        ..self
                    })
                }
            },
        }
    }

    /// The owner of a server hands it to `new_owner`, or to nobody.
    pub open spec fn set_server_owner(self, origin: Origin, id: ServerId, new_owner: Option<AccountId>) -> Result<ServerState, DispatchError> {
        match signer(origin) {
            None => Err(DispatchError::BadOrigin),
            Some(who) => if !self.servers.contains_key(id) {
                Err(DispatchError::Server(Error::ServerNotExists))
            } else if self.servers[id].owner != Some(who) {
                Err(DispatchError::Server(Error::NotServerOwner))
            } else {
                Ok(ServerState {
                    servers: self.servers.insert(id, ServerDetailsView { owner: new_owner, ..self.servers[id] }),
                    events: self.events.push(Event::SetServerOwner { server_id: id, new_owner }),
                    ..self
                })
            },
        }
    }

    /// The owner of a server sets one of its fees.
    pub open spec fn set_server_fees(self, origin: Origin, id: ServerId, fee: Fees) -> Result<ServerState, DispatchError> {
        match signer(origin) {
            None => Err(DispatchError::BadOrigin),
            Some(who) => if !self.servers.contains_key(id) {
                Err(DispatchError::Server(Error::ServerNotExists))
            } else if self.servers[id].owner != Some(who) {
                Err(DispatchError::Server(Error::NotServerOwner))
            } else {
                let s = match fee {
                    Fees::MiningCommission(p) => ServerState {
                        mining_commission_of_server: self.mining_commission_of_server.insert(id, p),
                        ..self
                    },
                    Fees::OneByte(b) => ServerState {
                        one_byte_pay_of_server: self.one_byte_pay_of_server.insert(id, b),
                        ..self
                    },
                };
                Ok(ServerState { events: s.events.push(Event::SetServerFees { server_id: id, fee }), ..s })
            },
        }
    }

    /// Server `server_id` takes group `group_id` on, if it has room, has an
    /// entry for its groups and does not host that group yet.
    pub open spec fn add_new_group(self, server_id: ServerId, group_id: GroupId) -> Result<ServerState, DispatchError> {
        if self.is_at_capacity(server_id) {
            Err(DispatchError::Server(Error::ServerAtCapacity))
        } else if !self.groups_of_server.contains_key(server_id) {
            Err(DispatchError::Server(Error::GroupAlreadyExists))
        } else if self.groups_of_server[server_id].contains(group_id) {
            Err(DispatchError::Server(Error::GroupAlreadyExists))
        } else {
            Ok(ServerState {
                groups_of_server: self.groups_of_server.insert(server_id, self.groups_of_server[server_id].push(group_id)),
                ..self
            })
        }
    }

    /// The storage after server `server_id` refused to take a group on: a
    /// server at capacity refuses before touching anything; any other
    /// refusal has taken the server's list of groups out and not put it
    /// back, so the list is gone.
    pub open spec fn add_new_group_refused(self, server_id: ServerId) -> ServerState {
        if self.is_at_capacity(server_id) {
            self
        } else {
            ServerState { groups_of_server: self.groups_of_server.remove(server_id), ..self }
        }
    }

    /// The storage after server `server_id` refused to let a group go: the
    /// list of groups was taken out and not put back, so it is gone.
    pub open spec fn remove_old_group_refused(self, server_id: ServerId) -> ServerState {
        ServerState { groups_of_server: self.groups_of_server.remove(server_id), ..self }
    }

    /// Server `server_id` lets group `group_id` go: its first occurrence
    /// leaves the server's list.
    pub open spec fn remove_old_group(self, server_id: ServerId, group_id: GroupId) -> Result<ServerState, DispatchError> {
        if !self.groups_of_server.contains_key(server_id) {
            Err(DispatchError::Server(Error::GroupAlreadyExists))
        } else if !self.groups_of_server[server_id].contains(group_id) {
            Err(DispatchError::Server(Error::GroupNotInServer))
        } else {
            let gs = self.groups_of_server[server_id];
            Ok(ServerState {
                groups_of_server: self.groups_of_server.insert(server_id, gs.remove(first_index(gs, group_id))),
                ..self
            })
        }
    }
}

impl Pallet {
    /// The server pallet of a new chain.
    pub fn new() -> (p: Self)
        ensures
            p@ == ServerState::genesis(),
            p@.wf(),
    {
        let p = Pallet {
            servers: HashMap::new(),
            something: None,
            next_server_id: 0,
            groups_of_server: HashMap::new(),
            max_group_of_server: HashMap::new(),
            one_byte_pay_of_server: HashMap::new(),
            mining_commission_of_server: HashMap::new(),
            events: Vec::new(),
        };
        assert(p@.servers =~= Map::empty());
        assert(p@.groups_of_server =~= Map::empty());
        p
    }

    /// Registers a server for the signer of `origin`.
    pub fn register(&mut self, origin: Origin, metadata: Vec<u8>) -> (r: Result<(), DispatchError>)
        ensures
            follows(r, old(self)@, final(self)@, old(self)@.register(origin, metadata@)),
            old(self)@.wf() ==> final(self)@.wf(),
    {
        let creator = match ensure_signed(origin) {
            Ok(who) => who,
            Err(e) => return Err(e),
        };
        let id = self.next_server_id;
        if id == u64::MAX {
            return Err(DispatchError::Server(Error::StorageOverflow));
        }
        let server_account_id = ServerKind(id).into_account_truncating();
        let details = ServerDetails { creator, owner: Some(creator), server_account_id, metadata };
        proof {
            lemma_map_values_insert(self.servers@, id, details, |d: ServerDetails| d@);
        }
        self.servers.insert(id, details);
        self.next_server_id = id + 1;
        self.events.push(Event::Register { server_id: id, creator });
        Ok(())
    }

    /// Hands a server to `new_owner`; only its owner may.
    pub fn set_server_owner(&mut self, origin: Origin, server_id: ServerId, new_owner: Option<AccountId>) -> (r: Result<(), DispatchError>)
        ensures
            follows(r, old(self)@, final(self)@, old(self)@.set_server_owner(origin, server_id, new_owner)),
            old(self)@.wf() ==> final(self)@.wf(),
    {
        let who = match ensure_signed(origin) {
            Ok(who) => who,
            Err(e) => return Err(e),
        };
        let owner = match self.servers.get(&server_id) {
            Some(d) => d.owner,
            None => return Err(DispatchError::Server(Error::ServerNotExists)),
        };
        if owner != Some(who) {
            return Err(DispatchError::Server(Error::NotServerOwner));
        }
        let ghost pre = self.servers@;
        let mut details = match self.servers.remove(&server_id) {
            Some(d) => d,
            None => return Err(DispatchError::Server(Error::ServerNotExists)),
        };
        details.owner = new_owner;
        proof {
            lemma_map_values_insert(pre, server_id, details, |d: ServerDetails| d@);
            assert(pre.remove(server_id).insert(server_id, details) =~= pre.insert(server_id, details));
        }
        self.servers.insert(server_id, details);
        self.events.push(Event::SetServerOwner { server_id, new_owner });
        Ok(())
    }

    /// Sets one fee of a server; only its owner may.
    pub fn set_server_fees(&mut self, origin: Origin, server_id: ServerId, fee: Fees) -> (r: Result<(), DispatchError>)
        ensures
            follows(r, old(self)@, final(self)@, old(self)@.set_server_fees(origin, server_id, fee)),
            old(self)@.wf() ==> final(self)@.wf(),
    {
        let who = match ensure_signed(origin) {
            Ok(who) => who,
            Err(e) => return Err(e),
        };
        let owner = match self.servers.get(&server_id) {
            Some(d) => d.owner,
            None => return Err(DispatchError::Server(Error::ServerNotExists)),
        };
        if owner != Some(who) {
            return Err(DispatchError::Server(Error::NotServerOwner));
        }
        match fee {
            Fees::MiningCommission(p) => {
                self.mining_commission_of_server.insert(server_id, p);
            },
            Fees::OneByte(b) => {
                self.one_byte_pay_of_server.insert(server_id, b);
            },
        }
        self.events.push(Event::SetServerFees { server_id, fee });
        Ok(())
    }

    /// How many groups server `server_id` may host.
    pub fn max_group(&self, server_id: ServerId) -> (n: GroupId)
        ensures
            n == self@.max_group(server_id),
    {
        match self.max_group_of_server.get(&server_id) {
            Some(n) => *n,
            None => MaxGroupOfServerOnEmpty(),
        }
    }
}

impl GetServerInfo for Pallet {
    /// The owner of a server, or `ServerNotExists`.
    fn try_get_server_owner(&self, server_id: ServerId) -> (r: Result<Option<AccountId>, DispatchError>)
        ensures
            r == self@.owner_of(server_id),
    {
        match self.servers.get(&server_id) {
            Some(d) => Ok(d.owner),
            None => Err(DispatchError::Server(Error::ServerNotExists)),
        }
    }

    /// The creator of a server, or `ServerNotExists`.
    fn try_get_server_creator(&self, server_id: ServerId) -> (r: Result<AccountId, DispatchError>)
        ensures
            self@.servers.contains_key(server_id) ==> r == Ok::<AccountId, DispatchError>(self@.servers[server_id].creator),
            !self@.servers.contains_key(server_id) ==> r == Err::<AccountId, DispatchError>(DispatchError::Server(Error::ServerNotExists)),
    {
        match self.servers.get(&server_id) {
            Some(d) => Ok(d.creator),
            None => Err(DispatchError::Server(Error::ServerNotExists)),
        }
    }

    /// The account of a server, or `ServerNotExists`.
    fn try_get_server_account_id(&self, server_id: ServerId) -> (r: Result<AccountId, DispatchError>)
        ensures
            self@.servers.contains_key(server_id) ==> r == Ok::<AccountId, DispatchError>(self@.servers[server_id].server_account_id),
            !self@.servers.contains_key(server_id) ==> r == Err::<AccountId, DispatchError>(DispatchError::Server(Error::ServerNotExists)),
    {
        match self.servers.get(&server_id) {
            Some(d) => Ok(d.server_account_id),
            None => Err(DispatchError::Server(Error::ServerNotExists)),
        }
    }

    /// Whether a server hosts as many groups as it may.
    fn is_at_capacity(&self, server_id: ServerId) -> (b: bool)
        ensures
            b == self@.is_at_capacity(server_id),
    {
        let max = self.max_group(server_id);
        let len: GroupId = match self.groups_of_server.get(&server_id) {
            Some(gs) => gs.len() as GroupId,
            None => 0,
        };
        len >= max
    }

    /// Whether a server is registered.
    fn is_server_exists(&self, server_id: ServerId) -> (b: bool)
        ensures
            b == self@.servers.contains_key(server_id),
    {
        self.servers.contains_key(&server_id)
    }
}

impl ServerManager for Pallet {
    /// Adds a group to a server.
    fn try_add_new_group(&mut self, server_id: ServerId, group_id: GroupId) -> (r: Result<(), DispatchError>)
        ensures
            follows_refused(
                r,
                final(self)@,
                old(self)@.add_new_group(server_id, group_id),
                old(self)@.add_new_group_refused(server_id),
            ),
            old(self)@.wf() ==> final(self)@.wf(),
    {
        if self.is_at_capacity(server_id) {
            return Err(DispatchError::Server(Error::ServerAtCapacity));
        }
        let ghost pre = self.groups_of_server@;
        proof {
            lemma_map_values_remove(pre, server_id, |v: Vec<GroupId>| v@);
        }
        let mut gs = match self.groups_of_server.remove(&server_id) {
            Some(gs) => gs,
            None => return Err(DispatchError::Server(Error::GroupAlreadyExists)),
        };
        if position_of(&gs, group_id).is_some() {
            return Err(DispatchError::Server(Error::GroupAlreadyExists));
        }
        gs.push(group_id);
        proof {
            lemma_map_values_insert(pre, server_id, gs, |v: Vec<GroupId>| v@);
            assert(pre.remove(server_id).insert(server_id, gs) =~= pre.insert(server_id, gs));
        }
        self.groups_of_server.insert(server_id, gs);
        Ok(())
    }

    /// Removes a group from a server.
    fn try_remove_old_group(&mut self, server_id: ServerId, group_id: GroupId) -> (r: Result<(), DispatchError>)
        ensures
            follows_refused(
                r,
                final(self)@,
                old(self)@.remove_old_group(server_id, group_id),
                old(self)@.remove_old_group_refused(server_id),
            ),
            old(self)@.wf() ==> final(self)@.wf(),
    {
        let ghost pre = self.groups_of_server@;
        proof {
            lemma_map_values_remove(pre, server_id, |v: Vec<GroupId>| v@);
        }
        let mut gs = match self.groups_of_server.remove(&server_id) {
            Some(gs) => gs,
            None => return Err(DispatchError::Server(Error::GroupAlreadyExists)),
        };
        match position_of(&gs, group_id) {
            Some(i) => {
                gs.remove(i);
                proof {
                    lemma_map_values_insert(pre, server_id, gs, |v: Vec<GroupId>| v@);
                    assert(pre.remove(server_id).insert(server_id, gs) =~= pre.insert(server_id, gs));
                }
                self.groups_of_server.insert(server_id, gs);
                Ok(())
            },
            None => Err(DispatchError::Server(Error::GroupNotInServer)),
        }
    }
}

} // verus!
