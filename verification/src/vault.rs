//! The nodes of the credential hierarchy: each holds one client of the
//! secret store, lends it out, and gives it up for revocation exactly once.

use vstd::prelude::*;

verus! {

/// For how many hours a minted sub-token stays valid.
pub const SUB_TOKEN_HOURS: u64 = 24;

/// `hashicorp_vault::client::VaultDuration::hours`, read back in seconds: the
/// duration it builds lasts sixty times sixty seconds for each hour. It
/// multiplies without a check, so the product has to fit.
#[verifier::external_body]
fn hours_in_seconds(hours: u64) -> (seconds: u64)
    requires
        hours * 3600 <= u64::MAX,
    ensures
        seconds == hours * 3600,
{
    hashicorp_vault::client::VaultDuration::hours(hours).0.as_secs()
}

/// What is asked of a parent's client when a scope is opened: a new
/// sub-token that stays valid for `ttl_seconds`.
#[derive(Clone, Copy, Debug, PartialEq, Eq, Structural)]
pub struct TokenRequest {
    pub ttl_seconds: u64,
}

/// One node of the credential hierarchy: a client of the secret store at
/// `server`, bound to a sub-token of its own. `H` is the client handle. The
/// node holds its handle from its creation until it is revoked, and never a
/// token.
pub struct AutoRevokedClient<H> {
    server: String,
    client: Option<H>,
}

impl<H> AutoRevokedClient<H> {
    /// The address of the secret store.
    pub closed spec fn address(&self) -> Seq<char> {
        self.server@
    }

    /// The handle that the node holds; `None` once it is revoked.
    pub closed spec fn handle(&self) -> Option<H> {
        self.client
    }

    /// Whether the node has not been revoked yet.
    pub open spec fn is_active(&self) -> bool {
        self.handle() is Some
    }

    /// What to ask of the parent's client before a node is created: a
    /// sub-token that lasts twenty-four hours.
    pub fn sub_token_request() -> (request: TokenRequest)
        ensures
            request.ttl_seconds == 86400,
    {
        TokenRequest { ttl_seconds: hours_in_seconds(SUB_TOKEN_HOURS) }
    }

    /// The top-level node: `sub_client` is a client bound to the sub-token
    /// that the bootstrap client minted.
    pub fn create_app_client(server: String, sub_client: H) -> (node: AutoRevokedClient<H>)
        ensures
            node.address() == server@,
            node.handle() == Some(sub_client),
    {
        AutoRevokedClient::create(server, sub_client)
    }

    /// A node for the secret store at `server`, around a client bound to a
    /// freshly minted sub-token.
    pub fn create(server: String, sub_client: H) -> (node: AutoRevokedClient<H>)
        ensures
            node.address() == server@,
            node.handle() == Some(sub_client),
    {
        AutoRevokedClient { server, client: Some(sub_client) }
    }

    /// The address of the secret store.
    pub fn server(&self) -> (server: &String)
        ensures
            server@ == self.address(),
    {
        &self.server
    }

    /// Whether the node still holds its handle.
    pub fn active(&self) -> (active: bool)
        ensures
            active == self.is_active(),
    {
        self.client.is_some()
    }

    /// The node's handle, on loan.
    pub fn client(&self) -> (handle: &H)
        requires
            self.is_active(),
        ensures
            Some(*handle) == self.handle(),
    {
        self.client.as_ref().unwrap()
    }

    /// A node below this one, at the same secret store: `sub_client` is a
    /// client bound to a sub-token that this node's client minted. This node
    /// stays as it is and can have more children.
    pub fn child_client(&self, sub_client: H) -> (child: AutoRevokedClient<H>)
        ensures
            child.address() == self.address(),
            child.handle() == Some(sub_client),
    {
        AutoRevokedClient::create(self.server.clone(), sub_client)
    }

    /// Ends the node's life. The first call hands out the handle, whose token
    /// is then to be revoked; every later call hands out nothing. Either way
    /// the node is revoked afterwards.
    pub fn revoke(&mut self) -> (handle: Option<H>)
        ensures
            handle == old(self).handle(),
            final(self).handle() == None::<H>,
            final(self).address() == old(self).address(),
    {
        self.client.take()
    }
}

/// The handles that a node hands out for revocation over `teardowns`
/// successive calls of [`AutoRevokedClient::revoke`], where `handle` is what
/// the node holds before the first of them.
pub open spec fn handed_out<H>(handle: Option<H>, teardowns: nat) -> Seq<H>
    decreases teardowns,
{
    if teardowns == 0 {
        Seq::empty()
    } else {
        (match handle {
            Some(h) => seq![h],
            None => Seq::empty(),
        }) + handed_out(None::<H>, (teardowns - 1) as nat)
    }
}

/// A node that was created is revoked exactly once: however often its
/// teardown runs, its handle is handed out for revocation by the first run and
/// by no other. Nothing that is done through the handle before changes this,
/// since the handle is only ever lent.
pub proof fn lemma_revoked_exactly_once<H>(h: H, teardowns: nat)
    requires
        teardowns >= 1,
    ensures
        handed_out(Some(h), teardowns) == seq![h],
        handed_out(None::<H>, teardowns) == Seq::<H>::empty(),
    decreases teardowns,
{
    if teardowns > 1 {
        lemma_revoked_exactly_once(h, (teardowns - 1) as nat);
    }
    assert(handed_out(None::<H>, 0) =~= Seq::empty());
    assert(handed_out(None::<H>, teardowns) =~= Seq::empty());
    assert(handed_out(Some(h), teardowns) =~= seq![h]);
}

} // verus!
