use lis::ticket_file::{join_ticket_file, record_known_peer, record_share_ticket};

#[test]
fn share_ticket_recorded_in_a_new_file() {
    let text = record_share_ticket("", "VElDS0VU", "peer1", 1700000000, "c:peer1:1700000000").unwrap();
    let table: toml::Table = toml::from_str(&text).unwrap();
    let info = table["VElDS0VU"].as_table().unwrap();
    assert_eq!(info["peer_id"].as_str(), Some("peer1"));
    assert_eq!(info["timestamp"].as_integer(), Some(1700000000));
    assert_eq!(info["data"].as_str(), Some("c:peer1:1700000000"));
    assert_eq!(table.len(), 1);
}

#[test]
fn share_ticket_keeps_other_entries_and_replaces_its_own() {
    let before = "[join_ticket]\nticket = \"abc\"\n\n[T]\npeer_id = \"old\"\ntimestamp = 1\ndata = \"x\"\n";
    let text = record_share_ticket(before, "T", "new", 2, "y").unwrap();
    let table: toml::Table = toml::from_str(&text).unwrap();
    assert_eq!(table["join_ticket"]["ticket"].as_str(), Some("abc"));
    assert_eq!(table["T"]["peer_id"].as_str(), Some("new"));
    assert_eq!(table["T"]["timestamp"].as_integer(), Some(2));
    assert_eq!(table.len(), 2);
}

#[test]
fn share_ticket_over_a_text_that_is_not_toml() {
    let text = record_share_ticket("not = [toml", "T", "p", 3, "d").unwrap();
    let table: toml::Table = toml::from_str(&text).unwrap();
    assert_eq!(table.len(), 1);
    assert_eq!(table["T"]["data"].as_str(), Some("d"));
}

#[test]
fn join_ticket_file_holds_the_ticket() {
    let text = join_ticket_file("VElDS0VU").unwrap();
    let table: toml::Table = toml::from_str(&text).unwrap();
    assert_eq!(table.len(), 1);
    assert_eq!(table["join_ticket"]["ticket"].as_str(), Some("VElDS0VU"));
}

#[test]
fn known_peer_recorded_beside_the_others() {
    let before = "[old]\npeer_id = \"old\"\ntimestamp = 5\n";
    let text = record_known_peer(before, "host", 1700000000).unwrap();
    let table: toml::Table = toml::from_str(&text).unwrap();
    assert_eq!(table.len(), 2);
    assert_eq!(table["old"]["timestamp"].as_integer(), Some(5));
    assert_eq!(table["host"]["peer_id"].as_str(), Some("host"));
    assert_eq!(table["host"]["timestamp"].as_integer(), Some(1700000000));
    let fresh = record_known_peer("", "h", 1).unwrap();
    let table: toml::Table = toml::from_str(&fresh).unwrap();
    assert_eq!(table.len(), 1);
}
