use mayday::fleet::DeviceSet;
use mayday::servers::{
    Device, Devices, Diff, LeaseError, LeaseReply, LeaseStep, Monitor, PacketKey, PacketMeta,
    StoreRequest, RENEWAL_SECONDS,
};

fn device(id: &str, hostname: &str, facility: &str) -> Device {
    Device::new(id.to_string(), hostname.to_string(), facility.to_string())
}

fn a() -> Device {
    device("id-a", "alpha", "ewr1")
}

fn b() -> Device {
    device("id-b", "bravo", "sjc1")
}

fn c() -> Device {
    device("id-c", "charlie", "ams1")
}

fn monitor() -> Monitor {
    Monitor::new("proj-1".to_string(), "packet".to_string(), "read-only".to_string())
}

fn reply(data: Option<&str>, lease_id: Option<&str>, renewable: Option<bool>) -> LeaseReply {
    LeaseReply {
        data: data.map(|k| PacketKey { api_key_token: k.to_string() }),
        lease_id: lease_id.map(|l| l.to_string()),
        renewable,
    }
}

fn holding(lease_id: &str, renewable: bool) -> Monitor {
    let mut m = monitor();
    let _ = m.get_token();
    assert_eq!(m.issued(Some(reply(Some("s3cr3t"), Some(lease_id), Some(renewable)))), Ok(()));
    m
}

#[test]
fn sos_joins_id_and_facility() {
    assert_eq!(a().sos(), "id-a@sos.ewr1.packet.net");
    assert_eq!(device("", "h", "").sos(), "@sos..packet.net");
}

#[test]
fn log_name_joins_hostname_and_id() {
    assert_eq!(a().log_name(), "alpha-id-a");
}

#[test]
fn devices_are_equal_when_all_three_fields_are() {
    assert_eq!(a(), a());
    assert_eq!(a().clone(), a());
    assert_ne!(a(), device("id-a", "alpha", "sjc1"));
    assert_ne!(a(), device("id-a", "renamed", "ewr1"));
    assert_ne!(a(), device("id-x", "alpha", "ewr1"));
}

#[test]
fn set_from_listing_keeps_first_mentions() {
    let s = DeviceSet::from_vec(vec![a(), b(), a(), c(), b()]);
    assert_eq!(s.len(), 3);
    assert_eq!(s.to_vec(), vec![a(), b(), c()]);
    assert!(s.contains(&b()));
    assert!(!s.contains(&device("id-b", "bravo", "ewr1")));
    assert!(DeviceSet::from_vec(vec![]).is_empty());
    assert!(DeviceSet::new().is_empty());
}

#[test]
fn set_insert_reports_new_members() {
    let mut s = DeviceSet::new();
    assert!(s.insert(a()));
    assert!(s.insert(b()));
    assert!(!s.insert(a()));
    assert_eq!(s.to_vec(), vec![a(), b()]);
    assert_eq!(*s.get(1), b());
}

#[test]
fn set_operations() {
    let x = DeviceSet::from_vec(vec![a(), b()]);
    let y = DeviceSet::from_vec(vec![c(), b()]);
    assert_eq!(x.difference(&y).to_vec(), vec![a()]);
    assert_eq!(y.difference(&x).to_vec(), vec![c()]);
    assert_eq!(x.intersection(&y).to_vec(), vec![b()]);
    assert_eq!(x.union(&y).to_vec(), vec![a(), b(), c()]);
    assert_eq!(x.difference(&DeviceSet::new()).to_vec(), vec![a(), b()]);
    assert!(DeviceSet::new().difference(&x).is_empty());
}

#[test]
fn diff_is_the_two_set_differences() {
    let previous = DeviceSet::from_vec(vec![a(), b()]);
    let current = DeviceSet::from_vec(vec![b(), c()]);
    let diff = Diff::between(&previous, &current);
    assert_eq!(diff.added.to_vec(), vec![c()]);
    assert_eq!(diff.removed.to_vec(), vec![a()]);
    assert!(diff.added.intersection(&diff.removed).is_empty());
    assert!(!diff.is_empty());
}

#[test]
fn diff_of_a_set_with_itself_is_empty() {
    let s = DeviceSet::from_vec(vec![a(), b(), c()]);
    let diff = Diff::between(&s, &s);
    assert!(diff.added.is_empty());
    assert!(diff.removed.is_empty());
    assert!(diff.is_empty());
    assert!(Diff::between(&DeviceSet::new(), &DeviceSet::new()).is_empty());
}

#[test]
fn changed_hostname_is_a_different_device() {
    let previous = DeviceSet::from_vec(vec![a()]);
    let renamed = device("id-a", "alpha-2", "ewr1");
    let current = DeviceSet::from_vec(vec![renamed.clone()]);
    let diff = Diff::between(&previous, &current);
    assert_eq!(diff.added.to_vec(), vec![renamed]);
    assert_eq!(diff.removed.to_vec(), vec![a()]);
}

#[test]
fn sync_reports_the_change_and_keeps_the_listing() {
    let mut m = monitor();
    assert!(m.devices().is_empty());
    let first = m.sync::<String>(Ok(vec![a(), b()])).unwrap();
    assert_eq!(first.added.to_vec(), vec![a(), b()]);
    assert!(first.removed.is_empty());
    assert_eq!(m.devices().to_vec(), vec![a(), b()]);
    let second = m.sync::<String>(Ok(vec![b(), c()])).unwrap();
    assert_eq!(second.added.to_vec(), vec![c()]);
    assert_eq!(second.removed.to_vec(), vec![a()]);
    assert_eq!(m.devices().to_vec(), vec![b(), c()]);
}

#[test]
fn second_sync_of_an_unchanged_listing_is_empty() {
    let mut m = monitor();
    let _ = m.sync::<String>(Ok(vec![a(), b(), a()])).unwrap();
    let again = m.sync::<String>(Ok(vec![a(), b(), a()])).unwrap();
    assert!(again.is_empty());
    let reordered = m.sync::<String>(Ok(vec![b(), a()])).unwrap();
    assert!(reordered.is_empty());
}

#[test]
fn failed_sync_leaves_the_snapshot() {
    let mut m = monitor();
    let _ = m.sync::<String>(Ok(vec![a(), b()])).unwrap();
    let failed = m.sync(Err("connection refused".to_string()));
    assert_eq!(failed.err(), Some("connection refused".to_string()));
    assert_eq!(m.devices().to_vec(), vec![a(), b()]);
}

#[test]
fn without_a_lease_a_new_one_is_requested() {
    let mut m = monitor();
    assert!(m.token().is_none());
    assert!(m.fetch_once().is_none());
    match m.get_token() {
        StoreRequest::Issue { secret_engine, role } => {
            assert_eq!(secret_engine, "packet");
            assert_eq!(role, "read-only");
        }
        other => panic!("unexpected request {:?}", other),
    }
    assert!(m.token().is_none());
}

#[test]
fn issued_lease_is_held() {
    let m = holding("lease-1", true);
    assert_eq!(m.token().unwrap().api_key_token, "s3cr3t");
}

#[test]
fn renewable_lease_is_renewed_first() {
    let mut m = holding("lease-1", true);
    match m.get_token() {
        StoreRequest::Renew { lease_id, increment } => {
            assert_eq!(lease_id, "lease-1");
            assert_eq!(increment, 60);
            assert_eq!(increment, RENEWAL_SECONDS);
        }
        other => panic!("unexpected request {:?}", other),
    }
    assert_eq!(m.token().unwrap().api_key_token, "s3cr3t");
    assert!(matches!(m.renewed(Some(reply(None, Some("lease-2"), Some(false)))), LeaseStep::Ready));
    assert_eq!(m.token().unwrap().api_key_token, "s3cr3t");
    match m.get_token() {
        StoreRequest::Issue { .. } => {}
        other => panic!("the renewed lease is no longer renewable, yet {:?}", other),
    }
}

#[test]
fn renewal_keeps_secret_under_new_lease_id() {
    let mut m = holding("lease-1", true);
    let _ = m.get_token();
    assert!(matches!(m.renewed(Some(reply(None, Some("lease-2"), Some(true)))), LeaseStep::Ready));
    match m.get_token() {
        StoreRequest::Renew { lease_id, increment } => {
            assert_eq!(lease_id, "lease-2");
            assert_eq!(increment, 60);
        }
        other => panic!("unexpected request {:?}", other),
    }
}

#[test]
fn lease_that_cannot_be_renewed_is_replaced() {
    let mut m = holding("lease-1", false);
    match m.get_token() {
        StoreRequest::Issue { secret_engine, role } => {
            assert_eq!(secret_engine, "packet");
            assert_eq!(role, "read-only");
        }
        other => panic!("unexpected request {:?}", other),
    }
    assert!(m.token().is_none());
}

#[test]
fn failed_renewal_falls_back_to_a_new_lease() {
    let mut m = holding("lease-1", true);
    let _ = m.get_token();
    match m.renewed(None) {
        LeaseStep::Ask(StoreRequest::Issue { secret_engine, role }) => {
            assert_eq!(secret_engine, "packet");
            assert_eq!(role, "read-only");
        }
        other => panic!("unexpected step {:?}", other),
    }
    assert!(m.token().is_none());
    assert_eq!(m.issued(Some(reply(Some("fresh"), Some("lease-9"), Some(true)))), Ok(()));
    assert_eq!(m.token().unwrap().api_key_token, "fresh");
}

#[test]
fn renewal_reply_without_a_field_ends_the_round() {
    let mut m = holding("lease-1", true);
    let _ = m.get_token();
    assert!(matches!(
        m.renewed(Some(reply(None, Some("lease-2"), None))),
        LeaseStep::Failed(LeaseError::MissingRenewable)
    ));
    assert!(m.token().is_none());
    let mut m = holding("lease-1", true);
    let _ = m.get_token();
    assert!(matches!(
        m.renewed(Some(reply(None, None, Some(true)))),
        LeaseStep::Failed(LeaseError::MissingLeaseId)
    ));
    assert!(m.token().is_none());
    let mut m = holding("lease-1", true);
    let _ = m.get_token();
    assert!(matches!(
        m.renewed(Some(reply(None, None, None))),
        LeaseStep::Failed(LeaseError::MissingRenewable)
    ));
}

#[test]
fn renewal_reply_without_a_lease_asks_for_a_new_one() {
    let mut m = monitor();
    assert!(matches!(
        m.renewed(Some(reply(None, Some("lease-2"), Some(true)))),
        LeaseStep::Ask(StoreRequest::Issue { .. })
    ));
    assert!(m.token().is_none());
}

#[test]
fn issue_errors_name_the_first_missing_field() {
    let mut m = monitor();
    assert_eq!(m.issued(None), Err(LeaseError::Unavailable));
    assert_eq!(m.issued(Some(reply(None, None, None))), Err(LeaseError::MissingData));
    assert_eq!(
        m.issued(Some(reply(None, Some("l"), Some(true)))),
        Err(LeaseError::MissingData)
    );
    assert_eq!(m.issued(Some(reply(Some("k"), None, None))), Err(LeaseError::MissingRenewable));
    assert_eq!(
        m.issued(Some(reply(Some("k"), Some("l"), None))),
        Err(LeaseError::MissingRenewable)
    );
    assert_eq!(
        m.issued(Some(reply(Some("k"), None, Some(true)))),
        Err(LeaseError::MissingLeaseId)
    );
    assert!(m.token().is_none());
}

#[test]
fn failed_issue_drops_the_held_lease() {
    let mut m = holding("lease-1", false);
    assert_eq!(m.issued(None), Err(LeaseError::Unavailable));
    assert!(m.token().is_none());
}

#[test]
fn fetch_request_carries_project_and_secret() {
    let m = holding("lease-1", true);
    let request = m.fetch_once().unwrap();
    assert_eq!(request.url, "https://api.packet.net/projects/proj-1/devices");
    assert_eq!(request.query_name, "per_page");
    assert_eq!(request.query_value, "1000");
    assert_eq!(request.header_name, "X-Auth-Token");
    assert_eq!(request.header_value, "s3cr3t");
}

#[test]
fn first_page_warns_of_unread_pages() {
    let meta = PacketMeta { current_page: 1, last_page: 1, total: 2 };
    let one = Devices { devices: vec![a(), b()], meta }.first_page();
    assert_eq!(one.devices, vec![a(), b()]);
    assert_eq!(one.unread_pages, None);
    let meta = PacketMeta { current_page: 1, last_page: 3, total: 2500 };
    let many = Devices { devices: vec![a()], meta }.first_page();
    assert_eq!(many.devices, vec![a()]);
    assert_eq!(many.unread_pages, Some(3));
    let meta = PacketMeta { current_page: 0, last_page: 0, total: 0 };
    assert_eq!(Devices { devices: vec![], meta }.first_page().unread_pages, None);
}
