use enderpearl::cli::{forward_target_from_answer, init_protocol_named, init_protocols, optional_answer, validate_address, Validation};
use enderpearl::config::TomlTarget;

fn invalid(msg: &str) -> Validation {
    Validation::Invalid(msg.to_string())
}

#[test]
fn addresses_accepted() {
    assert_eq!(validate_address("127.0.0.1:25566"), Validation::Valid);
    assert_eq!(validate_address("  a:1 , b:+2 ,c:0065535"), Validation::Valid);
    assert_eq!(validate_address("host:0"), Validation::Valid);
}

#[test]
fn addresses_rejected() {
    assert_eq!(validate_address("   "), invalid("Address is required — e.g. 127.0.0.1:25566"));
    assert_eq!(validate_address("a:1,,b:2"), invalid("Pool entry cannot be empty"));
    assert_eq!(validate_address("a:1, localhost "), invalid("'localhost' needs a port — use format host:port"));
    assert_eq!(validate_address("a:65536"), invalid("'65536' is not a valid port number (1–65535)"));
    assert_eq!(validate_address("a:"), invalid("'' is not a valid port number (1–65535)"));
    assert_eq!(validate_address("a:+"), invalid("'+' is not a valid port number (1–65535)"));
    assert_eq!(validate_address("a:-1"), invalid("'-1' is not a valid port number (1–65535)"));
    assert_eq!(validate_address("[::1]:x"), invalid("'x' is not a valid port number (1–65535)"));
}

#[test]
fn forward_targets_from_answers() {
    match forward_target_from_answer(" a:1 , b:2") {
        TomlTarget::Pool(v) => assert_eq!(v, vec!["a:1".to_string(), "b:2".to_string()]),
        _ => panic!("expected a pool"),
    }
    match forward_target_from_answer("  a:1 ") {
        TomlTarget::Address(a) => assert_eq!(a, "a:1"),
        _ => panic!("expected an address"),
    }
}

#[test]
fn optional_answers() {
    assert_eq!(optional_answer("   "), None);
    assert_eq!(optional_answer(" docker start mc\t"), Some("docker start mc".to_string()));
}

#[test]
fn init_protocol_table() {
    assert_eq!(init_protocols().len(), 3);
    let bedrock = init_protocol_named("Minecraft Bedrock").unwrap();
    assert_eq!(bedrock.config_key, "minecraft_bedrock");
    assert_eq!(bedrock.default_port, "127.0.0.1:19132");
    assert!(init_protocol_named("Gopher").is_none());
}
