use lis::groups::get_groups;

#[test]
fn groups_from_a_status_text() {
    let status = "Name:\tbash\nUmask:\t0022\nGroups:\t4 24 27 \nNgid:\t0\n";
    assert_eq!(get_groups(status), Some(vec![4, 24, 27]));
}

#[test]
fn groups_without_a_groups_line() {
    assert_eq!(get_groups(""), Some(vec![]));
    assert_eq!(get_groups("Name:\tbash\n"), Some(vec![]));
    assert_eq!(get_groups("XGroups:\t1\n"), Some(vec![]));
}

#[test]
fn groups_line_forms() {
    // An empty list.
    assert_eq!(get_groups("Groups:\t\n"), Some(vec![]));
    // A `+` sign, doubled spaces, and a `\r\n` line ending.
    assert_eq!(get_groups("Groups: +5  6\r\nX"), Some(vec![5, 6]));
    // Only the first `Groups:` line counts.
    assert_eq!(get_groups("Groups:\t1\nGroups:\t2"), Some(vec![1]));
    // The largest group number.
    assert_eq!(get_groups("Groups:\t4294967295"), Some(vec![4294967295]));
}

#[test]
fn groups_lines_that_cannot_be_read() {
    // Nothing after the tag.
    assert_eq!(get_groups("Groups:"), None);
    // A separating character that is not ASCII.
    assert_eq!(get_groups("Groups:\u{e9}1"), None);
    // Pieces that are not numbers.
    assert_eq!(get_groups("Groups:\t1 x"), None);
    assert_eq!(get_groups("Groups:\t1\t2 3"), None);
    assert_eq!(get_groups("Groups:\t+"), None);
    assert_eq!(get_groups("Groups:\t-1"), None);
    // A number past 32 bits.
    assert_eq!(get_groups("Groups:\t4294967296"), None);
}
