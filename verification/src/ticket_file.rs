//! The file of a cluster's share tickets: a TOML table that maps each
//! ticket to what it was made of. The TOML text is read and written by the
//! `toml` crate; which entries the file holds is decided here.

use vstd::prelude::*;

verus! {

#[verifier::external_type_specification]
#[verifier::external_body]
#[verifier::reject_recursive_types(K)]
#[verifier::reject_recursive_types(V)]
pub struct ExTomlMap<K, V>(toml::map::Map<K, V>);

#[verifier::external_type_specification]
#[verifier::external_body]
pub struct ExTomlValue(toml::Value);

/// The value of a TOML value: a float by the bits of its `f64`, a datetime
/// by its text, a table by its entries in the table's order.
pub enum TomlView {
    Str(Seq<char>),
    Int(i64),
    Float(u64),
    Bool(bool),
    Datetime(Seq<char>),
    Array(Seq<TomlView>),
    Table(Seq<(Seq<char>, TomlView)>),
}

/// The entries of a TOML table, in the table's order.
pub uninterp spec fn table_items(t: toml::map::Map<String, toml::Value>) -> Seq<(Seq<char>, TomlView)>;

/// The value of a TOML value.
pub uninterp spec fn value_view(v: toml::Value) -> TomlView;

/// What `toml::from_str` reads from a text as a table: its entries, or
/// nothing where the text is not a TOML table.
pub uninterp spec fn parsed_table(text: Seq<char>) -> Option<Seq<(Seq<char>, TomlView)>>;

/// What `toml::to_string` writes for a table with these entries, or nothing
/// where it refuses them.
pub uninterp spec fn table_text(items: Seq<(Seq<char>, TomlView)>) -> Option<Seq<char>>;

/// The entries of a table by key (a later entry of a key wins).
pub open spec fn entries_of(items: Seq<(Seq<char>, TomlView)>) -> Map<Seq<char>, TomlView>
    decreases items.len(),
{
    if items.len() == 0 {
        Map::empty()
    } else {
        entries_of(items.drop_last()).insert(items.last().0, items.last().1)
    }
}

/// `toml::from_str` into a table: the table a text holds, or nothing where
/// it is not a TOML table.
#[verifier::external_body]
fn parse_table(text: &str) -> (r: Option<toml::map::Map<String, toml::Value>>)
    ensures
        match r {
            Some(t) => parsed_table(text@) == Some(table_items(t)),
            None => parsed_table(text@) is None,
        },
{
    toml::from_str::<toml::Table>(text).ok()
}

/// `toml::map::Map::new`: an empty table.
#[verifier::external_body]
fn new_table() -> (t: toml::map::Map<String, toml::Value>)
    ensures
        table_items(t) == Seq::<(Seq<char>, TomlView)>::empty(),
{
    toml::map::Map::new()
}

/// `toml::map::Map::insert`: the table maps `key` to `v`, replacing the
/// value it had; the other entries stay.
#[verifier::external_body]
fn table_insert(t: &mut toml::map::Map<String, toml::Value>, key: String, v: toml::Value)
    ensures
        entries_of(table_items(*final(t))) == entries_of(table_items(*old(t))).insert(key@, value_view(v)),
{
    t.insert(key, v);
}

/// `toml::Value::String`.
#[verifier::external_body]
fn string_value(s: String) -> (v: toml::Value)
    ensures
        value_view(v) == TomlView::Str(s@),
{
    toml::Value::String(s)
}

/// `toml::Value::Integer`.
#[verifier::external_body]
fn integer_value(i: i64) -> (v: toml::Value)
    ensures
        value_view(v) == TomlView::Int(i),
{
    toml::Value::Integer(i)
}

/// `toml::Value::Table`.
#[verifier::external_body]
fn table_value(t: toml::map::Map<String, toml::Value>) -> (v: toml::Value)
    ensures
        value_view(v) == TomlView::Table(table_items(t)),
{
    toml::Value::Table(t)
}

/// `toml::to_string` of a table: its TOML text, or nothing where it is
/// refused.
#[verifier::external_body]
fn render_table(t: &toml::map::Map<String, toml::Value>) -> (r: Option<String>)
    ensures
        match r {
            Some(s) => table_text(table_items(*t)) == Some(s@),
            None => table_text(table_items(*t)) is None,
        },
{
    toml::to_string(t).ok()
}

/// The entries of a ticket file's text: those it holds as a TOML table,
/// none where it is not one.
pub open spec fn file_entries(text: Seq<char>) -> Map<Seq<char>, TomlView> {
    match parsed_table(text) {
        Some(items) => entries_of(items),
        None => Map::empty(),
    }
}

/// What a share ticket is recorded with: the host's peer, the time it was
/// made (as a TOML integer, the 64 bits read as signed), and its text.
pub open spec fn ticket_info(peer_id: Seq<char>, timestamp: u64, data: Seq<char>) -> Map<Seq<char>, TomlView> {
    map!["peer_id"@ => TomlView::Str(peer_id), "timestamp"@ => TomlView::Int(timestamp as i64), "data"@ => TomlView::Str(data)]
}

/// The ticket file after recording the share ticket `encoded`: the entries
/// of `tickets_text` (none where it is not a TOML table), with `encoded`
/// mapped to a table of `peer_id`, `timestamp` and `data` (see
/// `ticket_info`), written out as TOML; nothing where the table cannot be
/// written.
pub fn record_share_ticket(tickets_text: &str, encoded: &str, peer_id: &str, timestamp: u64, data: &str) -> (r: Option<String>)
    ensures
        exists|info: Seq<(Seq<char>, TomlView)>, items: Seq<(Seq<char>, TomlView)>|
            {
                &&& entries_of(info) == ticket_info(peer_id@, timestamp, data@)
                &&& entries_of(items) == file_entries(tickets_text@).insert(encoded@, TomlView::Table(info))
                &&& match r {
                    Some(s) => table_text(items) == Some(s@),
                    None => table_text(items) is None,
                }
            },
{
    let mut tickets = match parse_table(tickets_text) {
        Some(t) => t,
        None => new_table(),
    };
    let ghost base = table_items(tickets);
    proof {
        assert(entries_of(base) == file_entries(tickets_text@)) by {
            if parsed_table(tickets_text@) is None {
                assert(entries_of(Seq::<(Seq<char>, TomlView)>::empty()) =~= Map::<Seq<char>, TomlView>::empty());
            }
        }
    }
    let mut info = new_table();
    proof {
        assert(entries_of(table_items(info)) =~= Map::<Seq<char>, TomlView>::empty());
    }
    table_insert(&mut info, String::from_str("peer_id"), string_value(String::from_str(peer_id)));
    table_insert(&mut info, String::from_str("timestamp"), integer_value(#[verifier::truncate] (timestamp as i64)));
    table_insert(&mut info, String::from_str("data"), string_value(String::from_str(data)));
    let ghost info_items = table_items(info);
    proof {
        reveal_strlit("peer_id");
        reveal_strlit("timestamp");
        reveal_strlit("data");
        assert(entries_of(info_items) =~= ticket_info(peer_id@, timestamp, data@));
    }
    table_insert(&mut tickets, String::from_str(encoded), table_value(info));
    let r = render_table(&tickets);
    proof {
        let items = table_items(tickets);
        assert(entries_of(items) == file_entries(tickets_text@).insert(encoded@, TomlView::Table(info_items)));
    }
    r
}

/// The ticket file of a cluster being joined: one entry, `join_ticket`,
/// mapped to a table holding the ticket under `ticket`.
pub open spec fn join_ticket_info(ticket: Seq<char>) -> Map<Seq<char>, TomlView> {
    map!["ticket"@ => TomlView::Str(ticket)]
}

/// The ticket file written when joining a cluster with `ticket`: a table
/// whose one entry `join_ticket` is a table of the ticket (see
/// `join_ticket_info`), written out as TOML; nothing where the table cannot
/// be written.
pub fn join_ticket_file(ticket: &str) -> (r: Option<String>)
    ensures
        exists|info: Seq<(Seq<char>, TomlView)>, items: Seq<(Seq<char>, TomlView)>|
            {
                &&& entries_of(info) == join_ticket_info(ticket@)
                &&& entries_of(items) == map!["join_ticket"@ => TomlView::Table(info)]
                &&& match r {
                    Some(s) => table_text(items) == Some(s@),
                    None => table_text(items) is None,
                }
            },
{
    let mut tickets = new_table();
    let mut info = new_table();
    proof {
        assert(entries_of(table_items(tickets)) =~= Map::<Seq<char>, TomlView>::empty());
    }
    table_insert(&mut info, String::from_str("ticket"), string_value(String::from_str(ticket)));
    let ghost info_items = table_items(info);
    proof {
        reveal_strlit("ticket");
        assert(entries_of(info_items) =~= join_ticket_info(ticket@));
    }
    table_insert(&mut tickets, String::from_str("join_ticket"), table_value(info));
    let r = render_table(&tickets);
    proof {
        reveal_strlit("join_ticket");
        let items = table_items(tickets);
        assert(entries_of(items) =~= map!["join_ticket"@ => TomlView::Table(info_items)]);
    }
    r
}

/// What a known peer is recorded with: its ID and when it was reached (as a
/// TOML integer, the 64 bits read as signed).
pub open spec fn peer_info(peer_id: Seq<char>, timestamp: u64) -> Map<Seq<char>, TomlView> {
    map!["peer_id"@ => TomlView::Str(peer_id), "timestamp"@ => TomlView::Int(timestamp as i64)]
}

/// The file of a cluster's known peers after recording `peer_id`, reached
/// at `timestamp`: the entries of `peers_text` (none where it is not a
/// TOML table), with `peer_id` mapped to a table of its ID and the time
/// (see `peer_info`), written out as TOML; nothing where the table cannot
/// be written.
pub fn record_known_peer(peers_text: &str, peer_id: &str, timestamp: u64) -> (r: Option<String>)
    ensures
        exists|info: Seq<(Seq<char>, TomlView)>, items: Seq<(Seq<char>, TomlView)>|
            {
                &&& entries_of(info) == peer_info(peer_id@, timestamp)
                &&& entries_of(items) == file_entries(peers_text@).insert(peer_id@, TomlView::Table(info))
                &&& match r {
                    Some(s) => table_text(items) == Some(s@),
                    None => table_text(items) is None,
                }
            },
{
    let mut peers = match parse_table(peers_text) {
        Some(t) => t,
        None => new_table(),
    };
    proof {
        assert(entries_of(table_items(peers)) == file_entries(peers_text@)) by {
            if parsed_table(peers_text@) is None {
                assert(entries_of(Seq::<(Seq<char>, TomlView)>::empty()) =~= Map::<Seq<char>, TomlView>::empty());
            }
        }
    }
    let mut info = new_table();
    proof {
        assert(entries_of(table_items(info)) =~= Map::<Seq<char>, TomlView>::empty());
    }
    table_insert(&mut info, String::from_str("peer_id"), string_value(String::from_str(peer_id)));
    table_insert(&mut info, String::from_str("timestamp"), integer_value(#[verifier::truncate] (timestamp as i64)));
    let ghost info_items = table_items(info);
    proof {
        reveal_strlit("peer_id");
        reveal_strlit("timestamp");
        assert(entries_of(info_items) =~= peer_info(peer_id@, timestamp));
    }
    table_insert(&mut peers, String::from_str(peer_id), table_value(info));
    let r = render_table(&peers);
    proof {
        let items = table_items(peers);
        assert(entries_of(items) == file_entries(peers_text@).insert(peer_id@, TomlView::Table(info_items)));
    }
    r
}

} // verus!
