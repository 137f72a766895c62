use rules::api::write::rule::append_rule;
use rules::api::write::tag::{check_tag, merge_tag};
use rules::err::RulesError;
use rules::types::Tag;
use rules::Rules;

fn create_test_tags() -> Vec<String> {
    vec![
        "- colour: red, blue, green".to_string(),
        "- size: small, medium, large".to_string(),
    ]
}

fn rules_with_test_tags() -> Rules {
    let mut rules = Rules::new("config");
    rules.load_tags(&create_test_tags()).unwrap();
    rules
}

fn write_tag(
    lines: Vec<String>,
    tag_name: String,
    tag_values: Vec<String>,
) -> Result<Vec<String>, RulesError> {
    check_tag(&tag_name, &tag_values)?;
    Ok(merge_tag(lines, &tag_name, &tag_values))
}

#[test]
fn test_write_tag_validates_empty_name() {
    let result = write_tag(vec![], "".to_string(), vec!["red".to_string()]);

    assert!(result.is_err());
    if let Err(RulesError::TagParseError(msg)) = result {
        assert!(msg.contains("cannot be empty"));
    } else {
        panic!("Expected TagParseError about empty name");
    }
}

#[test]
fn test_write_tag_validates_empty_values() {
    let result = write_tag(vec![], "colour".to_string(), vec![]);

    assert!(result.is_err());
    if let Err(RulesError::TagParseError(msg)) = result {
        assert!(msg.contains("at least one value"));
    } else {
        panic!("Expected TagParseError about empty values");
    }
}

#[test]
fn test_write_tag_validates_spaces_in_name() {
    let result = write_tag(vec![], "colour name".to_string(), vec!["red".to_string()]);

    assert!(result.is_err());
    if let Err(RulesError::TagParseError(msg)) = result {
        assert!(msg.contains("cannot contain spaces"));
    } else {
        panic!("Expected TagParseError about spaces in name");
    }
}

#[test]
fn test_write_tag_validates_spaces_in_values() {
    let result = write_tag(vec![], "colour".to_string(), vec!["dark red".to_string()]);

    assert!(result.is_err());
    if let Err(RulesError::TagParseError(msg)) = result {
        assert!(msg.contains("cannot contain spaces"));
        assert!(msg.contains("dark red"));
    } else {
        panic!("Expected TagParseError about spaces in value");
    }
}

#[test]
fn test_write_tag_names_first_value_with_space() {
    let result = check_tag(
        "colour",
        &vec!["red".to_string(), "dark red".to_string(), "light blue".to_string()],
    );
    match result {
        Err(e) => assert_eq!(e.message(), "Tag value 'dark red' cannot contain spaces"),
        Ok(()) => panic!("Expected an error"),
    }
}

#[test]
fn test_write_tag_blank_name_comes_before_missing_values() {
    match check_tag("   ", &vec![]) {
        Err(e) => assert_eq!(e.message(), "Tag name cannot be empty"),
        Ok(()) => panic!("Expected an error"),
    }
}

#[test]
fn test_write_tag_appends_values_to_existing_tag() {
    let lines = write_tag(
        vec![],
        "colour".to_string(),
        vec!["red".to_string(), "blue".to_string()],
    )
    .unwrap();
    let lines = write_tag(
        lines,
        "colour".to_string(),
        vec!["green".to_string(), "yellow".to_string()],
    )
    .unwrap();

    let content = lines.join("\n");
    assert!(content.contains("red"));
    assert!(content.contains("blue"));
    assert!(content.contains("green"));
    assert!(content.contains("yellow"));

    let colour_lines: Vec<&str> = content.lines().filter(|l| l.contains("colour")).collect();
    assert_eq!(colour_lines.len(), 1);
    assert_eq!(lines, vec!["- colour: red, blue, green, yellow"]);
}

#[test]
fn test_write_tag_adds_multiple_tags() {
    let lines = write_tag(
        vec![],
        "colour".to_string(),
        vec!["red".to_string(), "blue".to_string()],
    )
    .unwrap();
    let lines = write_tag(
        lines,
        "size".to_string(),
        vec!["small".to_string(), "large".to_string()],
    )
    .unwrap();

    let content = lines.join("\n");
    assert!(content.contains("colour"));
    assert!(content.contains("size"));
    assert!(content.contains("red"));
    assert!(content.contains("small"));
    assert_eq!(lines, vec!["- colour: red, blue", "- size: small, large"]);
}

#[test]
fn test_write_tag_formats_correctly() {
    let lines = write_tag(
        vec![],
        "colour".to_string(),
        vec!["red".to_string(), "blue".to_string(), "green".to_string()],
    )
    .unwrap();

    let content = lines.join("\n");
    assert!(content.contains("- colour: red, blue, green"));
}

#[test]
fn test_write_tag_new_tag() {
    let lines = vec![
        "# Test tags file".to_string(),
        "".to_string(),
        "- Color: Red, Blue".to_string(),
    ];
    let lines = write_tag(
        lines,
        "Size".to_string(),
        vec!["Small".to_string(), "Large".to_string()],
    )
    .unwrap();

    assert!(lines.join("\n").contains("- Size: Small, Large"));
    assert_eq!(
        lines,
        vec!["# Test tags file", "", "- Color: Red, Blue", "- Size: Small, Large"]
    );
}

#[test]
fn test_write_tag_existing_tag() {
    let lines = vec!["- Color: Red, Blue".to_string()];
    let lines = write_tag(lines, "Color".to_string(), vec!["Green".to_string()]).unwrap();

    assert!(lines.join("\n").contains("Red, Blue, Green"));
    assert_eq!(lines, vec!["- Color: Red, Blue, Green"]);
}

#[test]
fn test_write_tag_skips_lines_at_fault() {
    let lines = vec![
        "- Color Red Blue".to_string(),
        "Color: Red".to_string(),
        "- Color: Red".to_string(),
        "- Color: Blue".to_string(),
    ];
    let lines = write_tag(lines, " Color ".to_string(), vec!["Green".to_string()]);
    assert!(lines.is_err());

    let lines = vec![
        "- Color Red Blue".to_string(),
        "Color: Red".to_string(),
        "- Color: Red".to_string(),
        "- Color: Blue".to_string(),
    ];
    let lines = merge_tag(lines, " Color ", &vec!["Green".to_string()]);
    assert_eq!(
        lines,
        vec!["- Color Red Blue", "Color: Red", "- Color: Red, Green", "- Color: Blue"]
    );
}

#[test]
fn test_write_tag_normalizes_filename() {
    assert_eq!(rules::api::write::tag::normalize_filename("test_normalize"), "test_normalize.tags");
    assert_eq!(rules::api::write::tag::normalize_filename("test_normalize.tags"), "test_normalize.tags");
    assert_eq!(rules::api::write::tag::normalize_filename("tags"), "tags.tags");
    assert_eq!(rules::api::write::tag::normalize_filename(""), ".tags");
    assert_eq!(rules::api::write::tag::normalize_filename(".tags"), ".tags");
    assert_eq!(rules::api::write::tag::normalize_filename("a.tag"), "a.tag.tags");
}

#[test]
fn test_write_rule_normalizes_filename() {
    assert_eq!(rules::api::write::rule::normalize_filename("test_normalize"), "test_normalize.rules");
    assert_eq!(rules::api::write::rule::normalize_filename("test_normalize.rules"), "test_normalize.rules");
    assert_eq!(rules::api::write::rule::normalize_filename("x.tags"), "x.tags.rules");
}

#[test]
fn test_write_rule_validates_rule() {
    let rules = rules_with_test_tags();

    // Invalid: missing dash
    let result = rules.write_rule(vec![], "colour = red");
    assert!(result.is_err());

    // Invalid: unknown tag
    let result = rules.write_rule(vec![], "-invalid_tag = value");
    assert!(result.is_err());

    // Invalid: unknown value
    let result = rules.write_rule(vec![], "-colour = purple");
    assert!(result.is_err());
}

#[test]
fn test_write_rule_appends_to_existing_file() {
    let rules = rules_with_test_tags();

    let lines = rules.write_rule(vec![], "-colour = red").unwrap();
    let lines = rules.write_rule(lines, "-size = large").unwrap();

    let content = lines.join("\n");
    assert!(content.contains("-colour = red"));
    assert!(content.contains("-size = large"));
    assert_eq!(lines, vec!["-colour = red", "-size = large"]);
}

#[test]
fn test_write_rule_prevents_duplicates() {
    let rules = rules_with_test_tags();

    let lines = rules.write_rule(vec![], "-colour = red").unwrap();

    let result = rules.write_rule(lines, "-colour = red");
    assert!(result.is_err());
    if let Err(RulesError::RuleParseError(msg)) = result {
        assert!(msg.contains("already exists"));
    } else {
        panic!("Expected RuleParseError about duplicate");
    }
}

#[test]
fn test_write_rule_duplicate_is_found_by_trimmed_text() {
    let lines = vec!["  -colour = red  ".to_string()];
    let result = append_rule(lines, "-colour = red\t");
    match result {
        Err(e) => assert_eq!(e.message(), "Rule already exists in file"),
        Ok(_) => panic!("Expected a duplicate"),
    }

    let lines = vec!["-colour =  red".to_string()];
    let lines = append_rule(lines, "  -colour = red ").unwrap();
    assert_eq!(lines, vec!["-colour =  red", "-colour = red"]);
}

#[test]
fn test_write_rule_complex_rules() {
    let rules = rules_with_test_tags();

    let complex_rules = vec![
        "-colour = red & size = large",
        "-colour = blue | size = small",
        "-(colour = red) & (size = large)",
    ];

    let mut lines = vec![];
    for rule in complex_rules {
        let result = rules.write_rule(lines, rule);
        assert!(result.is_ok(), "Failed to write rule: {}", rule);
        lines = result.unwrap();
    }
    assert_eq!(lines.len(), 3);
}

#[test]
fn test_write_rule_comma_syntax() {
    let rules = rules_with_test_tags();

    let valid_comma_rules = vec![
        "-colour = red, blue",
        "-colour = red, blue, green",
        "-(colour = red, blue)",
        "-(colour = red, blue) & size = large",
        "-colour = red, blue & size = small",
        "-size = small, medium, large",
    ];

    let mut lines = vec![];
    for rule in valid_comma_rules {
        let result = rules.write_rule(lines, rule);
        assert!(result.is_ok(), "Failed to write valid comma rule: {}", rule);
        lines = result.unwrap();
    }
}

#[test]
fn test_write_rule_invalid_comma_syntax() {
    let rules = rules_with_test_tags();

    let invalid_comma_rules = vec![
        "-colour =, red",
        "-,colour = red",
        "-colour = red,",
        "-(colour = red,) & size = large",
    ];

    for rule in invalid_comma_rules {
        let result = rules.write_rule(vec![], rule);
        assert!(result.is_err(), "Should reject invalid comma rule: {}", rule);
    }
}

#[test]
fn test_write_rule_comma_with_different_operators() {
    let rules = rules_with_test_tags();

    let rules_with_different_ops = vec![
        "-colour = red, blue",
        "-colour ! red, blue",
        "-size ! small, medium",
    ];

    for rule in rules_with_different_ops {
        let result = rules.write_rule(vec![], rule);
        assert!(result.is_ok(), "Failed to write rule with comma: {}", rule);
    }
}

#[test]
fn test_rules_write_tag_declares_the_tag() {
    let mut rules = rules_with_test_tags();
    assert!(rules.validate_rule("- material = wood").is_err());

    let lines = rules
        .write_tag(
            vec![],
            "material",
            vec!["wood".to_string(), "metal".to_string(), "plastic".to_string()],
        )
        .unwrap();
    assert_eq!(lines, vec!["- material: wood, metal, plastic"]);
    assert!(rules.validate_rule("- material = wood").is_ok());
    assert_eq!(rules.tags().len(), 3);

    // A tag of the same name takes the place of the one before it.
    rules.write_tag(vec![], "material", vec!["glass".to_string()]).unwrap();
    assert_eq!(rules.tags().len(), 3);
    assert!(rules.validate_rule("- material = wood").is_err());
    assert!(rules.validate_rule("- material = glass").is_ok());

    // A tag at fault changes nothing.
    assert!(rules.write_tag(vec![], "two words", vec!["x".to_string()]).is_err());
    assert_eq!(rules.tags().len(), 3);
    let names: Vec<&str> = rules.tags().iter().map(|t: &Tag| t.name.as_str()).collect();
    assert_eq!(names, vec!["colour", "size", "material"]);
}
