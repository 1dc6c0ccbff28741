use wikidata_extract::rules::{
    find_mapping, find_rules, get_default_properties, get_entity_type_mappings, kind_of,
    rules_for_codes, PropertyKind,
};

fn codes_of(entity_type: &str) -> Vec<&'static str> {
    let table = get_default_properties();
    find_rules(&table, entity_type).expect("known type").iter().map(|r| r.code).collect()
}

#[test]
fn mappings_hold_the_seven_types() {
    let table = get_entity_type_mappings();
    let names: Vec<&str> = table.iter().map(|m| m.entity_type).collect();
    assert_eq!(
        names,
        vec![
            "person",
            "organization",
            "scientific_organization",
            "research_institute",
            "government_agency",
            "event",
            "mood"
        ]
    );
    assert_eq!(find_mapping(&table, "person"), Some(&vec!["Q5"]));
    assert_eq!(find_mapping(&table, "organization"), Some(&vec!["Q43229"]));
    assert_eq!(find_mapping(&table, "scientific_organization"), Some(&vec!["Q16519632"]));
    assert_eq!(find_mapping(&table, "research_institute"), Some(&vec!["Q31855"]));
    assert_eq!(find_mapping(&table, "government_agency"), Some(&vec!["Q327333"]));
    assert_eq!(find_mapping(&table, "event"), Some(&vec!["Q1656682"]));
    assert_eq!(
        find_mapping(&table, "mood"),
        Some(&vec![
            "Q331769",
            "Q41537118",
            "Q3968640",
            "Q16748867",
            "Q9415",
            "Q9332",
            "Q60539479",
            "Q60539481"
        ])
    );
    assert_eq!(find_mapping(&table, "planet"), None);
}

#[test]
fn default_properties_list_the_codes_in_order() {
    assert_eq!(
        codes_of("person"),
        vec!["P569", "P570", "P27", "P106", "P18", "P39", "P1449", "P101"]
    );
    let organization = vec![
        "P31", "P17", "P112", "P571", "P1813", "P18", "P154", "P159", "P856", "P749", "P1454",
        "P3220", "P452", "P101",
    ];
    assert_eq!(codes_of("organization"), organization);
    assert_eq!(codes_of("scientific_organization"), organization);
    assert_eq!(codes_of("research_institute"), organization);
    assert_eq!(codes_of("government_agency"), organization);
    assert_eq!(codes_of("event"), vec!["P585", "P17", "P276", "P31", "P18"]);
    assert_eq!(
        codes_of("mood"),
        vec!["P31", "P1552", "P1889", "P461", "P460", "P1382", "P18"]
    );
    let table = get_default_properties();
    assert!(find_rules(&table, "planet").is_none());
    assert_eq!(table.len(), 7);
}

#[test]
fn every_rule_carries_the_kind_of_its_code() {
    for entry in get_default_properties() {
        for rule in entry.rules {
            assert_eq!(rule.kind, kind_of(rule.code));
        }
    }
}

#[test]
fn kinds_of_the_codes() {
    for code in ["P569", "P570", "P571"] {
        assert_eq!(kind_of(code), PropertyKind::Date);
    }
    for code in [
        "P17", "P112", "P27", "P106", "P39", "P1454", "P749", "P101", "P452", "P276", "P31",
        "P585", "P1552", "P1889", "P461", "P460", "P1382",
    ] {
        assert_eq!(kind_of(code), PropertyKind::Reference);
    }
    for code in ["P18", "P154"] {
        assert_eq!(kind_of(code), PropertyKind::Image);
    }
    for code in ["P1813", "P1449"] {
        assert_eq!(kind_of(code), PropertyKind::Text);
    }
    for code in ["P856", "P3220"] {
        assert_eq!(kind_of(code), PropertyKind::Url);
    }
    assert_eq!(kind_of("P159"), PropertyKind::Payload);
    for code in ["P0", "P999", "", "p569", "P5690", "P1590", "P15"] {
        assert_eq!(kind_of(code), PropertyKind::Passthrough);
    }
}

#[test]
fn rules_for_codes_keeps_the_order() {
    let rules = rules_for_codes(&vec!["P856", "P569"]);
    assert_eq!(rules.len(), 2);
    assert_eq!(rules[0].code, "P856");
    assert_eq!(rules[0].kind, PropertyKind::Url);
    assert_eq!(rules[1].code, "P569");
    assert_eq!(rules[1].kind, PropertyKind::Date);
}
