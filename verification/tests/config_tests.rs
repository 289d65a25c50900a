use pg_amqp_bridge::config::Binding;
use pg_amqp_bridge::config::Config;
use pg_amqp_bridge::config::ConfigError;
use pg_amqp_bridge::config::parse_bridge_channels;
use pg_amqp_bridge::config::parse_delivery_mode;

fn binding(pg_channel: &str, amqp_entity: &str) -> Binding {
    Binding {
        pg_channel: pg_channel.to_string(),
        amqp_entity: amqp_entity.to_string(),
    }
}

#[test]
fn parse_bridge_channels_works() {
    assert!(
        vec![binding("pgchannel1", "exchange1")]
            == parse_bridge_channels("pgchannel1:exchange1").unwrap()
    );
    assert!(
        vec![
            binding("pgchannel1", "exchange1"),
            binding("pgchannel2", "exchange2"),
        ] == parse_bridge_channels("pgchannel1:exchange1,pgchannel2:exchange2").unwrap()
    );
    assert!(
        vec![
            binding("pgchannel1", "exchange1"),
            binding("pgchannel2", "exchange2"),
            binding("pgchannel3", "exchange3"),
        ] == parse_bridge_channels(
            " pgchannel1 : exchange1 , pgchannel2 : exchange2 , pgchannel3 : exchange3, "
        )
        .unwrap()
    );
}

#[test]
fn parse_bridge_channels_panics_if_no_pg_channel_and_exchange_specified() {
    assert_eq!(Err(ConfigError::NoBindings), parse_bridge_channels("   "));
    assert_eq!(Err(ConfigError::NoBindings), parse_bridge_channels(":"));
    assert_eq!(Err(ConfigError::NoBindings), parse_bridge_channels("pgchannel1"));
    assert_eq!(Err(ConfigError::NoBindings), parse_bridge_channels(":exchange1"));
    assert_eq!(Err(ConfigError::NoBindings), parse_bridge_channels("pgchannel1:"));
    assert_eq!(
        Err(ConfigError::NoBindings),
        parse_bridge_channels("pgchannel1, pgchannel1:, :exchange3,,")
    );
}

#[test]
fn parse_bridge_channels_panics_if_duplicate_pg_channel() {
    assert_eq!(
        Err(ConfigError::DuplicateChannel),
        parse_bridge_channels("pgchannel1,pgchannel1:exchange2,pgchannel1:exchange3,")
    );
    // Both items lack an entity, so nothing is kept: still an error, as in
    // the original panic, though for want of bindings rather than the clash.
    assert!(parse_bridge_channels("pgchannel2, pgchannel2").is_err());
}

#[test]
fn parse_bridge_channels_duplicate_channel_rejected() {
    assert_eq!(
        Err(ConfigError::DuplicateChannel),
        parse_bridge_channels("c1,c1:e2,c1:e3")
    );
}

#[test]
fn parse_bridge_channels_sorts_output() {
    let got = parse_bridge_channels("b:x,a:y,c:w").unwrap();
    assert_eq!(
        vec![binding("a", "y"), binding("b", "x"), binding("c", "w")],
        got
    );
}

#[test]
fn parse_bridge_channels_is_deterministic() {
    let input = " zeta : q1 , alpha:ex9,  mid:ex2 ,";
    let first = parse_bridge_channels(input).unwrap();
    let second = parse_bridge_channels(input).unwrap();
    assert_eq!(first, second);
}

#[test]
fn parse_bridge_channels_drops_incomplete_items() {
    let got = parse_bridge_channels("keep:me, lonely, :headless,,").unwrap();
    assert_eq!(vec![binding("keep", "me")], got);
}

#[test]
fn parse_bridge_channels_extra_colon_fields_are_ignored() {
    let got = parse_bridge_channels("chan:ent:ignored").unwrap();
    assert_eq!(vec![binding("chan", "ent")], got);
}

#[test]
fn parse_bridge_channels_same_entity_different_channels_is_fine() {
    let got = parse_bridge_channels("c1:e,c2:e").unwrap();
    assert_eq!(vec![binding("c1", "e"), binding("c2", "e")], got);
}

#[test]
fn parse_delivery_mode_defaults_to_non_persistent() {
    assert_eq!(Ok(1), parse_delivery_mode(None));
}

#[test]
fn parse_delivery_mode_accepts_both_modes() {
    assert_eq!(Ok(1), parse_delivery_mode(Some("NON-PERSISTENT")));
    assert_eq!(Ok(2), parse_delivery_mode(Some("PERSISTENT")));
}

#[test]
fn parse_delivery_mode_rejects_anything_else() {
    assert_eq!(
        Err(ConfigError::InvalidDeliveryMode),
        parse_delivery_mode(Some("persistent"))
    );
    assert_eq!(
        Err(ConfigError::InvalidDeliveryMode),
        parse_delivery_mode(Some(""))
    );
}

#[test]
fn config_new_keeps_values() {
    let c = Config::new(
        "postgres://postgres@localhost".to_string(),
        "127.0.0.1:5672".to_string(),
        "c1:q1".to_string(),
    );
    assert_eq!(c.postgresql_uri, "postgres://postgres@localhost");
    assert_eq!(c.amqp_host_port, "127.0.0.1:5672");
    assert_eq!(c.bridge_channels, "c1:q1");
}
