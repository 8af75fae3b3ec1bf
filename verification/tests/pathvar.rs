use envoy::Var;

#[test]
fn string_contents() {
    assert_eq!(
        Var::from_text("/usr/bin:/usr/local/bin").into_string(),
        String::from("/usr/bin:/usr/local/bin")
    );
}

#[test]
fn count_split_path() {
    let var = Var::from_text("/bin:/usr/bin:/usr/local/bin");
    let mut split = var.split();
    assert_eq!(split.count(), 3);
}

#[test]
fn split_join_round_trip() {
    let var = Var::from_text("/bin:/usr/bin:/usr/local/bin");
    assert_eq!(
        var.split().join().unwrap().into_string(),
        var.clone().into_string()
    );
}

#[test]
fn remove() {
    let var = Var::from_text("/bin:/usr/bin:/usr/local/bin");
    assert_eq!(
        var.split().remove("/usr/bin").join().unwrap().into_string(),
        String::from("/bin:/usr/local/bin")
    );
}

#[test]
fn prefix() {
    let var = Var::from_text("/usr/bin");
    let prefix = &["/home/dherman/.bin", "/bin"];
    assert_eq!(
        var.split().prefix(prefix).join().unwrap().into_string(),
        String::from("/home/dherman/.bin:/bin:/usr/bin")
    );
}

#[test]
fn prefix_entry() {
    let var = Var::from_text("/usr/bin:/usr/local/bin");
    assert_eq!(
        var.split().prefix_entry("/bin").join().unwrap().into_string(),
        String::from("/bin:/usr/bin:/usr/local/bin")
    );
}

#[test]
fn suffix() {
    let var = Var::from_text("/usr/bin");
    let suffix = &["/home/dherman/.bin", "/bin"];
    assert_eq!(
        var.split().suffix(suffix).join().unwrap().into_string(),
        String::from("/usr/bin:/home/dherman/.bin:/bin")
    );
}

#[test]
fn suffix_entry() {
    let var = Var::from_text("/bin:/usr/bin");
    assert_eq!(
        var.split().suffix_entry("/usr/local/bin").join().unwrap().into_string(),
        String::from("/bin:/usr/bin:/usr/local/bin")
    );
}
