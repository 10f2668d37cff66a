use orvane::pymod::MODULE_NAME;

#[test]
fn lib_crate_is_wired() {
    assert_eq!(MODULE_NAME, "orvane");
}
