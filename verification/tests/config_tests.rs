use ruuvi_collector::config::{ConfigError, SensorConfig, TagEntry};

fn tags_of(config: &SensorConfig) -> Vec<(String, String)> {
    config.tags.iter().map(|e| (e.mac.clone(), e.name.clone())).collect()
}

#[test]
fn parses_tag_list() {
    let config = SensorConfig::new(
        "AA:BB:CC:DD:EE:FF=Kitchen,11:22:33:44:55:66=Living Room",
        String::from("postgres://db"),
    )
    .unwrap();
    assert_eq!(
        tags_of(&config),
        vec![
            (String::from("AA:BB:CC:DD:EE:FF"), String::from("Kitchen")),
            (String::from("11:22:33:44:55:66"), String::from("Living Room")),
        ]
    );
    assert_eq!(config.database_url, "postgres://db");
}

#[test]
fn trims_white_space_around_pairs_and_sides() {
    let config = SensorConfig::new("  AA = Kitchen ,\tBB =  Cellar  ", String::new()).unwrap();
    assert_eq!(
        tags_of(&config),
        vec![
            (String::from("AA"), String::from("Kitchen")),
            (String::from("BB"), String::from("Cellar")),
        ]
    );
}

#[test]
fn drops_malformed_pieces() {
    let config = SensorConfig::new("AA=Kitchen,,no separator,=NoMac,NoName=", String::new())
        .unwrap();
    assert_eq!(tags_of(&config), vec![(String::from("AA"), String::from("Kitchen"))]);
}

#[test]
fn later_pair_overrides_earlier() {
    let config = SensorConfig::new("AA=First,AA=Second", String::new()).unwrap();
    assert_eq!(tags_of(&config), vec![(String::from("AA"), String::from("Second"))]);
}

#[test]
fn refuses_empty_tag_list() {
    assert_eq!(SensorConfig::new("", String::new()).unwrap_err(), ConfigError::NoTags);
    assert_eq!(SensorConfig::new(" , ,", String::new()).unwrap_err(), ConfigError::NoTags);
}

#[test]
fn lookup_and_placeholder() {
    let config = SensorConfig::new("AA=Kitchen", String::new()).unwrap();
    assert!(config.is_registered(&String::from("AA")));
    assert!(!config.is_registered(&String::from("BB")));
    assert_eq!(config.resolve_name(&String::from("AA")), "Kitchen");
    assert_eq!(config.resolve_name(&String::from("BB")), "Unknown");
}

#[test]
fn builds_from_explicit_pairs() {
    let pairs = vec![
        TagEntry { mac: String::from("AA"), name: String::from("One") },
        TagEntry { mac: String::from("BB"), name: String::from("Two") },
        TagEntry { mac: String::from("AA"), name: String::from("Three") },
    ];
    let config = SensorConfig::from_tag_pairs(pairs, String::new()).unwrap();
    assert_eq!(
        tags_of(&config),
        vec![
            (String::from("AA"), String::from("Three")),
            (String::from("BB"), String::from("Two")),
        ]
    );
    assert_eq!(
        SensorConfig::from_tag_pairs(Vec::new(), String::new()).unwrap_err(),
        ConfigError::NoTags
    );
}
