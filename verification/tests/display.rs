use enderpearl::display::EnderDisplay;

#[test]
fn feature_line() {
    assert_eq!(EnderDisplay::active_features(), vec!["Java", "Web"]);
    assert_eq!(EnderDisplay::features_line(), Some("Java, Web".to_string()));
}
