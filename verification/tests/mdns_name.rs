use workplacesim::server::sanitize_instance;

#[test]
fn instance_names_keep_letters_digits_and_dashes() {
    assert_eq!(sanitize_instance("pi-4"), "pi-4");
    assert_eq!(sanitize_instance("my host.lan"), "my-host-lan");
    assert_eq!(sanitize_instance("café"), "caf-");
}

#[test]
fn empty_instance_name_falls_back() {
    assert_eq!(sanitize_instance(""), "workplacesim");
}

#[test]
fn long_instance_names_are_cut_to_a_dns_label() {
    let long = "a".repeat(70);
    assert_eq!(sanitize_instance(&long), "a".repeat(63));
    assert_eq!(sanitize_instance(&"b".repeat(63)), "b".repeat(63));
}
