//! The devices of the fleet, the change from one snapshot of the fleet to the
//! next, and the monitor that keeps the latest snapshot and the lease under
//! which the inventory is fetched.

use crate::fleet::{
    absent_from, first_occurrences, lemma_filter_keeps_distinct, lemma_first_occurrences, views,
    DeviceSet,
};
use vstd::prelude::*;
use vstd::string::*;

verus! {

/// The mathematical value of a [`Device`]: its three identity fields as
/// character sequences. Two devices are the same device exactly when their
/// views are equal.
pub struct DeviceView {
    pub id: Seq<char>,
    pub hostname: Seq<char>,
    pub facility: Seq<char>,
}

/// One server of the fleet, as the inventory provider reports it.
#[derive(Debug, Hash)]
pub struct Device {
    pub id: String,
    pub hostname: String,
    pub facility: Facility,
}

/// The provider's site code for a device.
#[derive(Debug, Hash)]
pub struct Facility {
    pub code: String,
}

impl View for Device {
    type V = DeviceView;

    open spec fn view(&self) -> DeviceView {
        DeviceView { id: self.id@, hostname: self.hostname@, facility: self.facility.code@ }
    }
}

impl Clone for Device {
    fn clone(&self) -> (copy: Device)
        ensures
            copy@ == self@,
    {
        Device {
            id: self.id.clone(),
            hostname: self.hostname.clone(),
            facility: Facility { code: self.facility.code.clone() },
        }
    }
}

impl PartialEq for Device {
    fn eq(&self, other: &Device) -> (same: bool) {
        self.id == other.id && self.hostname == other.hostname && self.facility.code
            == other.facility.code
    }
}

impl Eq for Device {

}

impl vstd::std_specs::cmp::PartialEqSpecImpl for Device {
    open spec fn obeys_eq_spec() -> bool {
        true
    }

    open spec fn eq_spec(&self, other: &Device) -> bool {
        self@ == other@
    }
}

/// The console address of a device: `{id}@sos.{facility}.packet.net`.
pub open spec fn sos_address(d: DeviceView) -> Seq<char> {
    d.id + "@sos."@ + d.facility + ".packet.net"@
}

/// The name of a device's transcript file: `{hostname}-{id}`.
pub open spec fn log_file_name(d: DeviceView) -> Seq<char> {
    d.hostname + "-"@ + d.id
}

impl Device {
    /// Builds a device from its three identity fields.
    pub fn new(id: String, hostname: String, facility_code: String) -> (d: Device)
        ensures
            d@ == (DeviceView { id: id@, hostname: hostname@, facility: facility_code@ }),
    {
        Device { id, hostname, facility: Facility { code: facility_code } }
    }

    /// The address of the out-of-band console that serves this device.
    pub fn sos(&self) -> (address: String)
        ensures
            address@ == sos_address(self@),
    {
        let mut address = self.id.clone();
        address.append("@sos.");
        address.append(self.facility.code.as_str());
        address.append(".packet.net");
        address
    }

    /// The name of the append-only transcript file kept for this device.
    pub fn log_name(&self) -> (name: String)
        ensures
            name@ == log_file_name(self@),
    {
        let mut name = self.hostname.clone();
        name.append("-");
        name.append(self.id.as_str());
        name
    }
}

/// The devices that `current` holds and `previous` lacks.
pub open spec fn added_between(previous: Seq<DeviceView>, current: Seq<DeviceView>) -> Seq<
    DeviceView,
> {
    current.filter(absent_from(previous))
}

/// The devices that `previous` holds and `current` lacks.
pub open spec fn removed_between(previous: Seq<DeviceView>, current: Seq<DeviceView>) -> Seq<
    DeviceView,
> {
    previous.filter(absent_from(current))
}

/// The change from one snapshot of the fleet to the next.
pub struct Diff {
    pub added: DeviceSet,
    pub removed: DeviceSet,
}

impl Diff {
    /// The change that leads from `previous` to `current`: what was added is
    /// `current` without `previous`, what was removed is `previous` without
    /// `current`, and no device is both.
    pub fn between(previous: &DeviceSet, current: &DeviceSet) -> (diff: Diff)
        ensures
            diff.added@ == added_between(previous@, current@),
            diff.removed@ == removed_between(previous@, current@),
            diff.added.set() == current.set().difference(previous.set()),
            diff.removed.set() == previous.set().difference(current.set()),
            diff.added.set().disjoint(diff.removed.set()),
    {
        let added = current.difference(previous);
        let removed = previous.difference(current);
        proof {
            use_type_invariant(previous);
            use_type_invariant(current);
            lemma_diff_sets(previous@, current@);
        }
        Diff { added, removed }
    }

    /// Whether nothing changed.
    pub fn is_empty(&self) -> (empty: bool)
        ensures
            empty == (self.added@.len() == 0 && self.removed@.len() == 0),
    {
        self.added.is_empty() && self.removed.is_empty()
    }
}

/// As sets, what was added is the new snapshot minus the old, what was
/// removed is the old minus the new, and the two share no device.
pub proof fn lemma_diff_sets(previous: Seq<DeviceView>, current: Seq<DeviceView>)
    requires
        previous.no_duplicates(),
        current.no_duplicates(),
    ensures
        added_between(previous, current).to_set() == current.to_set().difference(
            previous.to_set(),
        ),
        removed_between(previous, current).to_set() == previous.to_set().difference(
            current.to_set(),
        ),
        added_between(previous, current).to_set().disjoint(
            removed_between(previous, current).to_set(),
        ),
        added_between(previous, current).no_duplicates(),
        removed_between(previous, current).no_duplicates(),
{
    lemma_filter_keeps_distinct(current, absent_from(previous));
    lemma_filter_keeps_distinct(previous, absent_from(current));
    assert(added_between(previous, current).to_set() =~= current.to_set().difference(
        previous.to_set(),
    ));
    assert(removed_between(previous, current).to_set() =~= previous.to_set().difference(
        current.to_set(),
    ));
}

/// Between a snapshot and itself nothing is added and nothing removed.
pub proof fn lemma_diff_of_same_is_empty(snapshot: Seq<DeviceView>)
    ensures
        added_between(snapshot, snapshot) == Seq::<DeviceView>::empty(),
        removed_between(snapshot, snapshot) == Seq::<DeviceView>::empty(),
{
    snapshot.lemma_all_neg_filter_empty(absent_from(snapshot));
    assert(snapshot.filter(absent_from(snapshot)) =~= Seq::empty());
}

/// Between two snapshots with the same members nothing is added and nothing
/// removed, in whatever order each holds them.
pub proof fn lemma_same_members_no_change(previous: Seq<DeviceView>, current: Seq<DeviceView>)
    requires
        forall|d: DeviceView| previous.contains(d) <==> current.contains(d),
    ensures
        added_between(previous, current) == Seq::<DeviceView>::empty(),
        removed_between(previous, current) == Seq::<DeviceView>::empty(),
{
    assert forall|i: int| 0 <= i < current.len() implies !absent_from(previous)(
        #[trigger] current[i],
    ) by {
        assert(current.contains(current[i]));
    }
    assert forall|i: int| 0 <= i < previous.len() implies !absent_from(current)(
        #[trigger] previous[i],
    ) by {
        assert(previous.contains(previous[i]));
    }
    current.lemma_all_neg_filter_empty(absent_from(previous));
    previous.lemma_all_neg_filter_empty(absent_from(current));
    assert(current.filter(absent_from(previous)) =~= Seq::empty());
    assert(previous.filter(absent_from(current)) =~= Seq::empty());
}

/// The snapshot that a monitor holds after it has taken in `listing`.
pub open spec fn snapshot_of(listing: Seq<DeviceView>) -> Seq<DeviceView> {
    first_occurrences(listing)
}

/// Taking in the same listing twice in a row changes nothing the second
/// time: whatever the snapshot was before, after the first round it is the
/// snapshot of the listing, and between that and the snapshot of the same
/// listing nothing is added or removed.
pub proof fn lemma_second_sync_is_empty(listing: Seq<DeviceView>)
    ensures
        added_between(snapshot_of(listing), snapshot_of(listing)) == Seq::<DeviceView>::empty(),
        removed_between(snapshot_of(listing), snapshot_of(listing)) == Seq::<
            DeviceView,
        >::empty(),
{
    lemma_diff_of_same_is_empty(snapshot_of(listing));
}

/// A listing with the same devices as the one before changes nothing, in
/// whatever order and however often it names them.
pub proof fn lemma_same_fleet_no_change(before: Seq<DeviceView>, listing: Seq<DeviceView>)
    requires
        forall|d: DeviceView| before.contains(d) <==> listing.contains(d),
    ensures
        added_between(snapshot_of(before), snapshot_of(listing)) == Seq::<DeviceView>::empty(),
        removed_between(snapshot_of(before), snapshot_of(listing)) == Seq::<
            DeviceView,
        >::empty(),
{
    lemma_first_occurrences(before);
    lemma_first_occurrences(listing);
    assert forall|d: DeviceView|
        snapshot_of(before).contains(d) <==> snapshot_of(listing).contains(d) by {
        assert(first_occurrences(before).contains(d) <==> before.contains(d));
        assert(first_occurrences(listing).contains(d) <==> listing.contains(d));
    }
    lemma_same_members_no_change(snapshot_of(before), snapshot_of(listing));
}

/// The secret that the inventory provider accepts as a bearer credential.
#[derive(Debug)]
pub struct PacketKey {
    pub api_key_token: String,
}

/// A secret together with the lease under which the secret store issued it.
#[derive(Debug)]
pub struct LeasedKey {
    pub key: PacketKey,
    pub lease_id: String,
    pub renewable: bool,
}

/// The mathematical value of a [`LeasedKey`].
pub struct LeaseView {
    pub key: Seq<char>,
    pub lease_id: Seq<char>,
    pub renewable: bool,
}

impl View for LeasedKey {
    type V = LeaseView;

    open spec fn view(&self) -> LeaseView {
        LeaseView {
            key: self.key.api_key_token@,
            lease_id: self.lease_id@,
            renewable: self.renewable,
        }
    }
}

/// What the lease policy reads of a reply of the secret store. A reply to a
/// renewal carries no secret.
#[derive(Debug)]
pub struct LeaseReply {
    pub data: Option<PacketKey>,
    pub lease_id: Option<String>,
    pub renewable: Option<bool>,
}

/// The mathematical value of a [`LeaseReply`].
pub struct LeaseReplyView {
    pub data: Option<Seq<char>>,
    pub lease_id: Option<Seq<char>>,
    pub renewable: Option<bool>,
}

impl View for LeaseReply {
    type V = LeaseReplyView;

    open spec fn view(&self) -> LeaseReplyView {
        LeaseReplyView {
            data: match self.data {
                Some(key) => Some(key.api_key_token@),
                None => None,
            },
            lease_id: match self.lease_id {
                Some(id) => Some(id@),
                None => None,
            },
            renewable: self.renewable,
        }
    }
}

/// Why no lease could be had.
#[derive(Clone, Copy, Debug, PartialEq, Eq, Structural)]
pub enum LeaseError {
    /// The secret store did not answer the request for a new lease.
    Unavailable,
    /// The reply carries no secret.
    MissingData,
    /// The reply does not say whether the lease can be renewed.
    MissingRenewable,
    /// The reply carries no lease id.
    MissingLeaseId,
}

/// By how many seconds a renewal asks to extend a lease.
pub const RENEWAL_SECONDS: u64 = 60;

/// One request to the secret store.
#[derive(Debug)]
pub enum StoreRequest {
    /// Extend the lease with this id by `increment` seconds.
    Renew { lease_id: String, increment: u64 },
    /// Issue a new lease from this secret engine, for this role.
    Issue { secret_engine: String, role: String },
}

/// The mathematical value of a [`StoreRequest`].
pub enum StoreRequestView {
    Renew { lease_id: Seq<char>, increment: u64 },
    Issue { secret_engine: Seq<char>, role: Seq<char> },
}

impl View for StoreRequest {
    type V = StoreRequestView;

    open spec fn view(&self) -> StoreRequestView {
        match self {
            StoreRequest::Renew { lease_id, increment } => StoreRequestView::Renew {
                lease_id: lease_id@,
                increment: *increment,
            },
            StoreRequest::Issue { secret_engine, role } => StoreRequestView::Issue {
                secret_engine: secret_engine@,
                role: role@,
            },
        }
    }
}

/// Where the lease policy stands after a reply to a renewal.
#[derive(Debug)]
pub enum LeaseStep {
    /// A lease is held: its secret can be used.
    Ready,
    /// No lease is held: this request is to be made next.
    Ask(StoreRequest),
    /// No lease is held and none can be had in this round.
    Failed(LeaseError),
}

/// The mathematical value of a [`LeaseStep`].
pub enum LeaseStepView {
    Ready,
    Ask(StoreRequestView),
    Failed(LeaseError),
}

impl View for LeaseStep {
    type V = LeaseStepView;

    open spec fn view(&self) -> LeaseStepView {
        match self {
            LeaseStep::Ready => LeaseStepView::Ready,
            LeaseStep::Ask(request) => LeaseStepView::Ask(request@),
            LeaseStep::Failed(error) => LeaseStepView::Failed(*error),
        }
    }
}

/// The request for a brand-new lease.
pub open spec fn issue_request(secret_engine: Seq<char>, role: Seq<char>) -> StoreRequestView {
    StoreRequestView::Issue { secret_engine, role }
}

/// The request that opens a round: a renewable lease is renewed; without a
/// lease, or with one that cannot be renewed, a new lease is requested.
pub open spec fn first_request(
    held: Option<LeaseView>,
    secret_engine: Seq<char>,
    role: Seq<char>,
) -> StoreRequestView {
    match held {
        Some(lease) if lease.renewable => StoreRequestView::Renew {
            lease_id: lease.lease_id,
            increment: RENEWAL_SECONDS,
        },
        _ => issue_request(secret_engine, role),
    }
}

/// The lease that stays held while the first request is under way: a lease
/// that is being renewed, and no other.
pub open spec fn lease_while_asking(held: Option<LeaseView>) -> Option<LeaseView> {
    match held {
        Some(lease) if lease.renewable => held,
        _ => None,
    }
}

/// The lease that a reply to a renewal leaves: the held secret under the new
/// lease id and renewable flag, if a lease is held and the reply carries
/// both; otherwise none. `None` for `reply` stands for a renewal that failed.
pub open spec fn lease_after_renewal(
    held: Option<LeaseView>,
    reply: Option<LeaseReplyView>,
) -> Option<LeaseView> {
    match (held, reply) {
        (
            Some(lease),
            Some(LeaseReplyView { data: _, lease_id: Some(id), renewable: Some(renewable) }),
        ) => Some(LeaseView { key: lease.key, lease_id: id, renewable }),
        _ => None,
    }
}

/// Where the policy stands after a reply to a renewal: a failed renewal, or
/// a reply while no lease is held, is followed by the request for a new lease;
/// a reply that lacks the renewable flag or the lease id ends the round.
pub open spec fn step_after_renewal(
    held: Option<LeaseView>,
    reply: Option<LeaseReplyView>,
    secret_engine: Seq<char>,
    role: Seq<char>,
) -> LeaseStepView {
    match (held, reply) {
        (Some(_), Some(r)) => if r.renewable is None {
            LeaseStepView::Failed(LeaseError::MissingRenewable)
        } else if r.lease_id is None {
            LeaseStepView::Failed(LeaseError::MissingLeaseId)
        } else {
            LeaseStepView::Ready
        },
        _ => LeaseStepView::Ask(issue_request(secret_engine, role)),
    }
}

/// What a reply to the request for a new lease gives: the lease, or the first
/// thing that the reply lacks. `None` for `reply` stands for a request that
/// failed.
pub open spec fn lease_issued(reply: Option<LeaseReplyView>) -> Result<LeaseView, LeaseError> {
    match reply {
        None => Err(LeaseError::Unavailable),
        Some(r) => match (r.data, r.renewable, r.lease_id) {
            (None, _, _) => Err(LeaseError::MissingData),
            (Some(_), None, _) => Err(LeaseError::MissingRenewable),
            (Some(_), Some(_), None) => Err(LeaseError::MissingLeaseId),
            (Some(key), Some(renewable), Some(id)) => Ok(
                LeaseView { key, lease_id: id, renewable },
            ),
        },
    }
}

/// The one request that a fetch makes of the inventory provider: a GET of
/// `url` with one query parameter and one header.
#[derive(Debug)]
pub struct InventoryRequest {
    pub url: String,
    pub query_name: String,
    pub query_value: String,
    pub header_name: String,
    pub header_value: String,
}

/// The mathematical value of an [`InventoryRequest`].
pub struct InventoryRequestView {
    pub url: Seq<char>,
    pub query_name: Seq<char>,
    pub query_value: Seq<char>,
    pub header_name: Seq<char>,
    pub header_value: Seq<char>,
}

impl View for InventoryRequest {
    type V = InventoryRequestView;

    open spec fn view(&self) -> InventoryRequestView {
        InventoryRequestView {
            url: self.url@,
            query_name: self.query_name@,
            query_value: self.query_value@,
            header_name: self.header_name@,
            header_value: self.header_value@,
        }
    }
}

/// The request for the devices of `project`, authenticated by `secret`: up to
/// a thousand devices of the project, in one page.
pub open spec fn inventory_request(project: Seq<char>, secret: Seq<char>) -> InventoryRequestView {
    InventoryRequestView {
        url: "https://api.packet.net/projects/"@ + project + "/devices"@,
        query_name: "per_page"@,
        query_value: "1000"@,
        header_name: "X-Auth-Token"@,
        header_value: secret,
    }
}

/// What the inventory provider says of the paging of its answer.
#[derive(Clone, Copy, Debug)]
pub struct PacketMeta {
    pub current_page: usize,
    pub last_page: usize,
    pub total: usize,
}

/// One page of the inventory provider's answer.
#[derive(Debug)]
pub struct Devices {
    pub devices: Vec<Device>,
    pub meta: PacketMeta,
}

/// The devices of a fetch, and whether the provider holds more than the fetch
/// took.
#[derive(Debug)]
pub struct Fetched {
    pub devices: Vec<Device>,
    /// The number of pages that the provider reports, where it is more than
    /// the one page that was read.
    pub unread_pages: Option<usize>,
}

/// The mathematical value of a [`Monitor`].
pub struct MonitorView {
    pub project_id: Seq<char>,
    pub secret_engine: Seq<char>,
    pub vault_role: Seq<char>,
    pub lease: Option<LeaseView>,
    pub devices: Seq<DeviceView>,
}

/// The fleet monitor: the latest snapshot of the fleet, and the lease that
/// gates the next fetch.
pub struct Monitor {
    secret_engine: String,
    vault_role: String,
    project_id: String,
    token: Option<LeasedKey>,
    devices: DeviceSet,
}

impl View for Monitor {
    type V = MonitorView;

    closed spec fn view(&self) -> MonitorView {
        MonitorView {
            project_id: self.project_id@,
            secret_engine: self.secret_engine@,
            vault_role: self.vault_role@,
            lease: match self.token {
                Some(lease) => Some(lease@),
                None => None,
            },
            devices: self.devices@,
        }
    }
}

impl Monitor {
    /// A monitor of `project_id` that holds no lease and has seen no device.
    pub fn new(project_id: String, secret_engine: String, vault_role: String) -> (monitor: Monitor)
        ensures
            monitor@ == (MonitorView {
                project_id: project_id@,
                secret_engine: secret_engine@,
                vault_role: vault_role@,
                lease: None,
                devices: Seq::empty(),
            }),
    {
        Monitor { secret_engine, vault_role, project_id, token: None, devices: DeviceSet::new() }
    }

    /// The latest snapshot of the fleet.
    pub fn devices(&self) -> (snapshot: &DeviceSet)
        ensures
            snapshot@ == self@.devices,
            self@.devices.no_duplicates(),
    {
        proof {
            use_type_invariant(&self.devices);
        }
        &self.devices
    }

    /// The secret of the lease that is held, if one is.
    pub fn token(&self) -> (secret: Option<&PacketKey>)
        ensures
            match secret {
                Some(key) => self@.lease is Some && key.api_key_token@ == self@.lease->0.key,
                None => self@.lease is None,
            },
    {
        match &self.token {
            Some(lease) => Some(&lease.key),
            None => None,
        }
    }

    /// Opens a round of the lease policy and returns the request to make of
    /// the secret store: a renewable lease stays held and is renewed; any
    /// other lease is discarded and a new one requested.
    pub fn get_token(&mut self) -> (request: StoreRequest)
        ensures
            request@ == first_request(
                old(self)@.lease,
                old(self)@.secret_engine,
                old(self)@.vault_role,
            ),
            final(self)@ == (MonitorView {
                lease: lease_while_asking(old(self)@.lease),
                ..old(self)@
            }),
    {
        match self.token.take() {
            Some(lease) => {
                if lease.renewable {
                    let request = StoreRequest::Renew {
                        lease_id: lease.lease_id.clone(),
                        increment: RENEWAL_SECONDS,
                    };
                    self.token = Some(lease);
                    request
                } else {
                    self.fresh_lease_request()
                }
            },
            None => self.fresh_lease_request(),
        }
    }

    /// Takes in the reply to a renewal; `None` stands for a renewal that
    /// failed. A reply that carries a lease id and a renewable flag keeps the
    /// held secret under them. Anything else discards the lease: a failed
    /// renewal is followed by the request for a new lease, a reply that lacks
    /// a field ends the round.
    pub fn renewed(&mut self, reply: Option<LeaseReply>) -> (step: LeaseStep)
        ensures
            step@ == step_after_renewal(
                old(self)@.lease,
                match reply {
                    Some(r) => Some(r@),
                    None => None,
                },
                old(self)@.secret_engine,
                old(self)@.vault_role,
            ),
            final(self)@ == (MonitorView {
                lease: lease_after_renewal(
                    old(self)@.lease,
                    match reply {
                        Some(r) => Some(r@),
                        None => None,
                    },
                ),
                ..old(self)@
            }),
    {
        match (self.token.take(), reply) {
            (Some(lease), Some(r)) => match r.renewable {
                None => LeaseStep::Failed(LeaseError::MissingRenewable),
                Some(renewable) => match r.lease_id {
                    None => LeaseStep::Failed(LeaseError::MissingLeaseId),
                    Some(lease_id) => {
                        self.token = Some(LeasedKey { key: lease.key, lease_id, renewable });
                        LeaseStep::Ready
                    },
                },
            },
            _ => LeaseStep::Ask(self.fresh_lease_request()),
        }
    }

    /// Takes in the reply to the request for a new lease; `None` stands for a
    /// request that failed. A reply that carries a secret, a renewable flag
    /// and a lease id becomes the held lease. Otherwise no lease is held, and
    /// the error names the first of the three that is missing.
    pub fn issued(&mut self, reply: Option<LeaseReply>) -> (outcome: Result<(), LeaseError>)
        ensures
            match lease_issued(
                match reply {
                    Some(r) => Some(r@),
                    None => None,
                },
            ) {
                Ok(lease) => outcome is Ok && final(self)@ == (MonitorView {
                    lease: Some(lease),
                    ..old(self)@
                }),
                Err(error) => outcome == Err::<(), LeaseError>(error) && final(self)@ == (
                MonitorView { lease: None, ..old(self)@ }),
            },
    {
        self.token = None;
        match reply {
            None => Err(LeaseError::Unavailable),
            Some(r) => match r.data {
                None => Err(LeaseError::MissingData),
                Some(key) => match r.renewable {
                    None => Err(LeaseError::MissingRenewable),
                    Some(renewable) => match r.lease_id {
                        None => Err(LeaseError::MissingLeaseId),
                        Some(lease_id) => {
                            self.token = Some(LeasedKey { key, lease_id, renewable });
                            Ok(())
                        },
                    },
                },
            },
        }
    }

    /// The request of this round's fetch, authenticated by the held secret;
    /// `None` while no lease is held.
    pub fn fetch_once(&self) -> (request: Option<InventoryRequest>)
        ensures
            match request {
                Some(r) => self@.lease is Some && r@ == inventory_request(
                    self@.project_id,
                    self@.lease->0.key,
                ),
                None => self@.lease is None,
            },
    {
        match &self.token {
            None => None,
            Some(lease) => {
                let mut url = String::from_str("https://api.packet.net/projects/");
                url.append(self.project_id.as_str());
                url.append("/devices");
                Some(
                    InventoryRequest {
                        url,
                        query_name: String::from_str("per_page"),
                        query_value: String::from_str("1000"),
                        header_name: String::from_str("X-Auth-Token"),
                        header_value: lease.key.api_key_token.clone(),
                    },
                )
            },
        }
    }

    /// Takes in the outcome of a fetch. A fetch that failed leaves the monitor
    /// as it was and hands the failure on. A listing becomes the snapshot, and
    /// the change from the snapshot before is returned.
    pub fn sync<E>(&mut self, fetched: Result<Vec<Device>, E>) -> (outcome: Result<Diff, E>)
        ensures
            match fetched {
                Err(failure) => outcome == Err::<Diff, E>(failure) && *final(self) == *old(self),
                Ok(listing) => {
                    &&& outcome is Ok
                    &&& final(self)@ == (MonitorView {
                        devices: snapshot_of(views(listing@)),
                        ..old(self)@
                    })
                    &&& final(self)@.devices.to_set() == views(listing@).to_set()
                    &&& outcome->Ok_0.added@ == added_between(
                        old(self)@.devices,
                        final(self)@.devices,
                    )
                    &&& outcome->Ok_0.removed@ == removed_between(
                        old(self)@.devices,
                        final(self)@.devices,
                    )
                    &&& outcome->Ok_0.added.set() == final(self)@.devices.to_set().difference(
                        old(self)@.devices.to_set(),
                    )
                    &&& outcome->Ok_0.removed.set() == old(self)@.devices.to_set().difference(
                        final(self)@.devices.to_set(),
                    )
                    &&& outcome->Ok_0.added.set().disjoint(outcome->Ok_0.removed.set())
                },
            },
    {
        match fetched {
            Err(failure) => Err(failure),
            Ok(listing) => {
                let mut upstream_devices = DeviceSet::from_vec(listing);
                core::mem::swap(&mut self.devices, &mut upstream_devices);
                let old_devices = upstream_devices;
                Ok(Diff::between(&old_devices, &self.devices))
            },
        }
    }

    fn fresh_lease_request(&self) -> (request: StoreRequest)
        ensures
            request@ == issue_request(self@.secret_engine, self@.vault_role),
    {
        StoreRequest::Issue {
            secret_engine: self.secret_engine.clone(),
            role: self.vault_role.clone(),
        }
    }
}

impl Devices {
    /// The devices of the page that was read. Where the provider reports more
    /// than one page, the pages beyond the first stay unread, and their number
    /// is reported for a warning.
    pub fn first_page(self) -> (fetched: Fetched)
        ensures
            fetched.devices == self.devices,
            fetched.unread_pages == if self.meta.last_page > 1 {
                Some(self.meta.last_page)
            } else {
                None
            },
    {
        let unread_pages = if self.meta.last_page > 1 {
            Some(self.meta.last_page)
        } else {
            None
        };
        Fetched { devices: self.devices, unread_pages }
    }
}

/// The requests that one round of the lease policy makes of the secret
/// store, in order, where `renewal` is the reply to the renewal if one is
/// made (`None` for a renewal that failed).
pub open spec fn round_requests(
    held: Option<LeaseView>,
    renewal: Option<LeaseReplyView>,
    secret_engine: Seq<char>,
    role: Seq<char>,
) -> Seq<StoreRequestView> {
    let first = first_request(held, secret_engine, role);
    if first is Renew {
        match step_after_renewal(lease_while_asking(held), renewal, secret_engine, role) {
            LeaseStepView::Ask(next) => seq![first, next],
            _ => seq![first],
        }
    } else {
        seq![first]
    }
}

/// The renewal policy. With a renewable lease in hand, the round opens with a
/// renewal of that lease, so that no request for a new lease comes before the
/// renewal; a renewal that is answered is followed by no such request, and a
/// renewal that failed is followed by exactly one. Without a lease, or with one
/// that cannot be renewed, the round is the request for a new lease.
pub proof fn lemma_renewal_comes_first(
    held: Option<LeaseView>,
    renewal: Option<LeaseReplyView>,
    secret_engine: Seq<char>,
    role: Seq<char>,
)
    ensures
        (held is Some && held->0.renewable) ==> {
            &&& round_requests(held, renewal, secret_engine, role)[0] == (StoreRequestView::Renew {
                lease_id: held->0.lease_id,
                increment: 60,
            })
            &&& forall|i: int|
                0 <= i < round_requests(held, renewal, secret_engine, role).len()
                    && round_requests(held, renewal, secret_engine, role)[i] is Issue ==> i > 0
            &&& renewal is Some ==> round_requests(held, renewal, secret_engine, role).len() == 1
            &&& renewal is None ==> round_requests(held, renewal, secret_engine, role) == seq![
                StoreRequestView::Renew { lease_id: held->0.lease_id, increment: 60 },
                issue_request(secret_engine, role),
            ]
        },
        !(held is Some && held->0.renewable) ==> round_requests(
            held,
            renewal,
            secret_engine,
            role,
        ) == seq![issue_request(secret_engine, role)],
{
}

} // verus!
