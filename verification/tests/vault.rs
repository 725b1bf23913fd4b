use mayday::vault::{AutoRevokedClient, TokenRequest, SUB_TOKEN_HOURS};

#[test]
fn sub_token_lasts_a_day() {
    let request = AutoRevokedClient::<u32>::sub_token_request();
    assert_eq!(request, TokenRequest { ttl_seconds: 86400 });
    assert_eq!(SUB_TOKEN_HOURS, 24);
}

#[test]
fn created_node_lends_its_handle() {
    let node = AutoRevokedClient::create("https://vault:8200".to_string(), 7u32);
    assert!(node.active());
    assert_eq!(*node.client(), 7);
    assert_eq!(*node.client(), 7);
    assert_eq!(node.server(), "https://vault:8200");
}

#[test]
fn app_client_is_a_node_of_its_own() {
    let node =
        AutoRevokedClient::create_app_client("https://vault:8200".to_string(), "root-sub".to_string());
    assert!(node.active());
    assert_eq!(node.client(), "root-sub");
    assert_eq!(node.server(), "https://vault:8200");
}

#[test]
fn parent_can_have_many_children() {
    let parent = AutoRevokedClient::create("https://vault:8200".to_string(), 1u32);
    let first = parent.child_client(2);
    let second = parent.child_client(3);
    assert_eq!(*first.client(), 2);
    assert_eq!(*second.client(), 3);
    assert_eq!(first.server(), "https://vault:8200");
    assert_eq!(second.server(), "https://vault:8200");
    assert!(parent.active());
    assert_eq!(*parent.client(), 1);
}

#[test]
fn node_is_revoked_exactly_once() {
    let mut node = AutoRevokedClient::create("https://vault:8200".to_string(), 9u32);
    assert_eq!(node.revoke(), Some(9));
    assert!(!node.active());
    assert_eq!(node.revoke(), None);
    assert_eq!(node.revoke(), None);
    assert_eq!(node.server(), "https://vault:8200");
}

#[test]
fn children_are_revoked_on_their_own() {
    let mut parent = AutoRevokedClient::create("https://vault:8200".to_string(), 1u32);
    let mut child = parent.child_client(2);
    assert_eq!(child.revoke(), Some(2));
    assert!(parent.active());
    assert_eq!(parent.revoke(), Some(1));
    assert!(!child.active());
}
