use envoy::{JoinError, Var};

#[test]
fn round_trip_empty_string() {
    let var = Var::from_text("");
    assert_eq!(var.split().join().unwrap().into_string(), String::from(""));
}

#[test]
fn round_trip_empty_entries() {
    let var = Var::from_text("/bin::/usr/bin:");
    assert_eq!(
        var.split().join().unwrap().into_string(),
        String::from("/bin::/usr/bin:")
    );
}

#[test]
fn count_empty_string_is_one_entry() {
    let var = Var::from_text("");
    let mut split = var.split();
    assert_eq!(split.count(), 1);
}

#[test]
fn count_counts_empty_entries() {
    let var = Var::from_text("/bin::/usr/bin");
    let mut split = var.split();
    assert_eq!(split.count(), 3);
}

#[test]
fn remove_deletes_every_occurrence() {
    let var = Var::from_text("/bin:/usr/bin:/bin:/usr/local/bin");
    assert_eq!(
        var.split().remove("/bin").join().unwrap().into_string(),
        String::from("/usr/bin:/usr/local/bin")
    );
}

#[test]
fn remove_is_exact_no_normalization() {
    let var = Var::from_text("/usr/bin:/usr/bin/");
    assert_eq!(
        var.split().remove("/usr/bin/").join().unwrap().into_string(),
        String::from("/usr/bin")
    );
}

#[test]
fn remove_absent_leaves_string_unchanged() {
    let var = Var::from_text("/bin:/usr/bin:/usr/local/bin");
    assert_eq!(
        var.split().remove("/opt/bin").join().unwrap().into_string(),
        String::from("/bin:/usr/bin:/usr/local/bin")
    );
}

#[test]
fn remove_everything_joins_to_empty() {
    let var = Var::from_text("/bin");
    assert_eq!(
        var.split().remove("/bin").join().unwrap().into_string(),
        String::from("")
    );
}

#[test]
fn prefix_of_nothing_leaves_string_unchanged() {
    let var = Var::from_text("/bin:/usr/bin");
    let none: &[&str] = &[];
    assert_eq!(
        var.split().prefix(none).join().unwrap().into_string(),
        String::from("/bin:/usr/bin")
    );
}

#[test]
fn suffix_of_nothing_leaves_string_unchanged() {
    let var = Var::from_text("/bin:/usr/bin");
    let none: &[&str] = &[];
    assert_eq!(
        var.split().suffix(none).join().unwrap().into_string(),
        String::from("/bin:/usr/bin")
    );
}

#[test]
fn edits_chain_left_to_right() {
    let var = Var::from_text("/bin:/usr/bin");
    let joined = var
        .split()
        .remove("/bin")
        .prefix_entry("/opt/bin")
        .suffix(&["/sbin", "/usr/sbin"])
        .join()
        .unwrap()
        .into_string();
    assert_eq!(joined, String::from("/opt/bin:/usr/bin:/sbin:/usr/sbin"));
}

#[test]
fn join_fails_on_entry_containing_delimiter() {
    let var = Var::from_text("/bin");
    assert_eq!(var.split().suffix_entry("/a:b").join(), Err(JoinError));
}

#[test]
fn join_fails_on_entry_equal_to_delimiter() {
    let var = Var::from_text("/bin");
    assert_eq!(var.split().prefix_entry(":").join(), Err(JoinError));
}

#[test]
fn consuming_exhausts_the_splitter() {
    let var = Var::from_text("/bin:/usr/bin:/usr/local/bin");
    let mut split = var.split();
    assert_eq!(split.count(), 3);
    assert_eq!(split.count(), 0);
    assert_eq!(split.next(), None);
}

#[test]
fn next_yields_entries_in_order_then_nothing() {
    let var = Var::from_text("/bin:/usr/bin");
    let mut split = var.split();
    assert_eq!(split.next(), Some(String::from("/bin")));
    assert_eq!(split.len(), 1);
    assert_eq!(split.next(), Some(String::from("/usr/bin")));
    assert_eq!(split.next(), None);
    assert_eq!(split.next(), None);
}

#[test]
fn variables_compare_by_contents() {
    assert!(Var::from_text("/bin") == Var::from_text("/bin"));
    assert!(Var::from_text("/bin") != Var::from_text("/usr/bin"));
    assert!(Var::from_string(String::from("/bin")) == Var::from_text("/bin"));
}

#[test]
fn as_str_borrows_the_contents() {
    let var = Var::from_text("/bin:/usr/bin");
    assert_eq!(var.as_str(), "/bin:/usr/bin");
}
