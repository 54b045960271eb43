use niz::definition::{
    has_any_attr, has_json_attr, has_skip_attr, hash_variant_rule, record_rules, variant_rules,
    Attribute, DefinitionError, Discriminant, FieldDecl, VariantDecl,
};
use niz::record::{hash_variant_at, hash_variant_explicit};

fn attr(path: &str, tokens: &[&str]) -> Attribute {
    Attribute { path: path.to_string(), tokens: tokens.iter().map(|t| t.to_string()).collect() }
}

#[test]
fn attributes_are_read_from_niz_only() {
    let attrs = vec![attr("allow", &["skip"]), attr("niz", &["json"])];
    assert!(!has_skip_attr(&attrs));
    assert!(has_json_attr(&attrs));
    assert!(has_any_attr(&["other", "json"], &attrs));
    assert!(!has_any_attr(&[], &attrs));
    let none: Vec<Attribute> = Vec::new();
    assert!(!has_skip_attr(&none));
}

#[test]
fn record_rules_follow_declaration_order() {
    let fields = vec![
        FieldDecl { name: Some("a".to_string()), attrs: Vec::new() },
        FieldDecl { name: Some("c".to_string()), attrs: vec![attr("niz", &["skip"])] },
        FieldDecl { name: Some("j".to_string()), attrs: vec![attr("niz", &["json"])] },
    ];
    let rules = match record_rules(&fields) {
        Ok(r) => r,
        Err(_) => panic!("named fields are accepted"),
    };
    assert_eq!(rules.len(), 3);
    assert_eq!(rules[0].name, "a");
    assert!(!rules[0].excluded && !rules[0].as_tree);
    assert!(rules[1].excluded && !rules[1].as_tree);
    assert!(!rules[2].excluded && rules[2].as_tree);
}

#[test]
fn positional_fields_are_rejected() {
    let fields = vec![
        FieldDecl { name: Some("a".to_string()), attrs: Vec::new() },
        FieldDecl { name: None, attrs: Vec::new() },
    ];
    assert!(matches!(record_rules(&fields), Err(DefinitionError::UnnamedFields)));
}

#[test]
fn data_carrying_variants_are_rejected() {
    let variants = vec![
        VariantDecl { name: "A".to_string(), unit: true, discriminant: None },
        VariantDecl { name: "B".to_string(), unit: false, discriminant: None },
    ];
    assert!(matches!(variant_rules(&variants), Err(DefinitionError::DataCarryingVariant)));
}

#[test]
fn variants_use_position_or_explicit_value() {
    let plain = vec![
        VariantDecl { name: "A".to_string(), unit: true, discriminant: None },
        VariantDecl { name: "B".to_string(), unit: true, discriminant: None },
    ];
    let rules = match variant_rules(&plain) {
        Ok(r) => r,
        Err(_) => panic!("unit variants are accepted"),
    };
    assert!(rules[0].discriminant == Discriminant::Position(0));
    assert!(rules[1].discriminant == Discriminant::Position(1));
    assert_eq!(hash_variant_rule("TestEnum", &rules[1]), hash_variant_at("TestEnum", "B", 1));

    let explicit = vec![
        VariantDecl { name: "A".to_string(), unit: true, discriminant: Some(2) },
        VariantDecl { name: "B".to_string(), unit: true, discriminant: Some(5) },
    ];
    let rules = match variant_rules(&explicit) {
        Ok(r) => r,
        Err(_) => panic!("unit variants are accepted"),
    };
    assert!(rules[0].discriminant == Discriminant::Explicit(2));
    assert!(rules[1].discriminant == Discriminant::Explicit(5));
    assert_eq!(
        hash_variant_rule("TestEnumDiscriminant", &rules[0]),
        hash_variant_explicit("TestEnumDiscriminant", "A", 2)
    );
}
