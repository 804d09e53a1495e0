use lis::ticket::{make_ticket, parse_ticket, TicketError};

#[test]
fn ticket_is_base64_of_cluster_peer_timestamp() {
    let t = make_ticket("c1", "peer", 123);
    assert_eq!(t, "YzE6cGVlcjoxMjM=");
    assert_eq!(parse_ticket(&t, "c1"), Ok(("peer".to_string(), "123".to_string())));
}

#[test]
fn ticket_errors() {
    assert_eq!(parse_ticket("!!!", "c1"), Err(TicketError::InvalidEncoding));
    // Padding must be canonical.
    assert_eq!(parse_ticket("YTpi=", "c1"), Err(TicketError::InvalidEncoding));
    assert_eq!(parse_ticket("/w==", "c1"), Err(TicketError::InvalidUtf8));
    assert_eq!(parse_ticket("YTpi", "a"), Err(TicketError::InvalidFormat));
    assert_eq!(parse_ticket("eDpwOjE=", "c"), Err(TicketError::WrongCluster("x".to_string())));
    assert_eq!(parse_ticket("eDpwOjE=", "x"), Ok(("p".to_string(), "1".to_string())));
}
