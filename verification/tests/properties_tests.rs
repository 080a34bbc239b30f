use metta_bus_client::properties::{Properties, PropertyValue};

fn text_of(v: &PropertyValue) -> String {
    v.to_text()
}

#[test]
fn parse_str_infers_types_in_order() {
    assert!(matches!(PropertyValue::parse_str("true").unwrap(), PropertyValue::Bool(true)));
    assert!(matches!(PropertyValue::parse_str("false").unwrap(), PropertyValue::Bool(false)));
    assert!(matches!(PropertyValue::parse_str("42").unwrap(), PropertyValue::UnsignedInt(42)));
    assert!(matches!(PropertyValue::parse_str("-42").unwrap(), PropertyValue::Long(-42)));
    assert!(matches!(PropertyValue::parse_str("0.5").unwrap(), PropertyValue::Double(_)));
    assert!(matches!(PropertyValue::parse_str("inf").unwrap(), PropertyValue::Double(_)));
    assert!(matches!(PropertyValue::parse_str("NaN").unwrap(), PropertyValue::Double(_)));
    assert!(matches!(PropertyValue::parse_str("1e9").unwrap(), PropertyValue::Double(_)));
    assert!(matches!(PropertyValue::parse_str("hello").unwrap(), PropertyValue::Text(_)));
}

#[test]
fn value_round_trip() {
    let cases = vec![
        PropertyValue::Bool(true),
        PropertyValue::Bool(false),
        PropertyValue::UnsignedInt(1000),
        PropertyValue::Long(-7),
        PropertyValue::Double(String::from("0.25")),
        PropertyValue::Text(String::from("hello world")),
    ];
    for v in cases {
        let text = text_of(&v);
        let back = PropertyValue::parse_str(&text).unwrap();
        assert_eq!(text_of(&back), text);
        assert_eq!(back.tag().as_str(), v.tag().as_str());
    }
}

#[test]
fn nonnegative_long_round_trips_as_unsigned() {
    let v = PropertyValue::Long(5);
    let back = PropertyValue::parse_str(&text_of(&v)).unwrap();
    assert!(matches!(back, PropertyValue::UnsignedInt(5)));
}

#[test]
fn to_vec_prefixes_count_and_flattens_triples() {
    let mut p = Properties::new();
    assert_eq!(p.to_vec(), vec![String::from("0")]);
    p.insert(String::from("max_answers"), PropertyValue::UnsignedInt(1000));
    assert_eq!(
        p.to_vec(),
        vec![
            String::from("3"),
            String::from("max_answers"),
            String::from("unsigned_int"),
            String::from("1000"),
        ]
    );
    p.insert(String::from("count_flag"), PropertyValue::Bool(false));
    let wire = p.to_vec();
    assert_eq!(wire[0], "6");
    assert_eq!(wire.len(), 7);
    assert_eq!(wire[4], "count_flag");
    assert_eq!(wire[5], "bool");
    assert_eq!(wire[6], "false");
}

#[test]
fn insert_replaces_in_place() {
    let mut p = Properties::new();
    p.insert(String::from("a"), PropertyValue::UnsignedInt(1));
    p.insert(String::from("b"), PropertyValue::UnsignedInt(2));
    p.insert(String::from("a"), PropertyValue::UnsignedInt(9));
    let wire = p.to_vec();
    assert_eq!(wire[1], "a");
    assert_eq!(wire[3], "9");
    assert_eq!(wire[4], "b");
}

#[test]
fn typed_getters_check_presence_and_type() {
    let mut p = Properties::new();
    p.insert(String::from("count_flag"), PropertyValue::Bool(true));
    assert_eq!(p.get_bool("count_flag").unwrap(), true);
    assert!(p.get_u64("count_flag").is_err());
    assert!(p.get_bool("missing").is_err());
    assert!(p.get("missing").is_err());
    assert!(p.try_get("count_flag").is_some());
}

#[test]
fn default_holds_standard_parameters() {
    let p = Properties::default();
    assert_eq!(p.get_bool("count_flag").unwrap(), false);
    assert_eq!(p.get_u64("max_answers").unwrap(), 1000);
    assert_eq!(p.get_u64("population_size").unwrap(), 50);
    assert_eq!(p.get_text("context").unwrap(), "context");
    assert_eq!(p.get_bool("use_metta_as_query_tokens").unwrap(), true);
    let keys = p.keys();
    assert_eq!(keys.len(), 23);
    for w in keys.windows(2) {
        assert!(w[0] <= w[1]);
    }
}

#[test]
fn section_lines_report_all_parameters() {
    let p = Properties::default();
    let lines = p.section_lines().unwrap();
    assert_eq!(lines[0], "DAS Parameters:");
    assert_eq!(lines[1], "  Networking:");
    assert!(lines.contains(&String::from("    !(das-set-param! (max_answers 1000))")));
    assert!(lines.contains(&String::from("    !(das-set-param! (elitism_rate 0.08))")));
    assert_eq!(lines.len(), 28);
    let empty = Properties::new();
    assert!(empty.section_lines().is_err());
}
