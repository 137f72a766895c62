use rules::err::RulesError;
use rules::parser::tags;

#[test]
fn test_validate_tag_valid() {
    let valid_tag = "- Color: Red, Blue, Green";
    assert!(tags::validate_tag(valid_tag).is_ok());
}

#[test]
fn test_validate_tag_skips_comments() {
    let comment = "# This is a comment";
    assert!(tags::validate_tag(comment).is_ok());
}

#[test]
fn test_validate_tag_skips_empty_lines() {
    let empty = "";
    assert!(tags::validate_tag(empty).is_ok());
}

#[test]
fn test_validate_tag_no_colon() {
    let invalid_tag = "- Color Red Blue";
    let result = tags::validate_tag(invalid_tag);

    assert!(result.is_err());
    if let Err(RulesError::TagParseError(msg)) = result {
        assert!(msg.contains("must contain a ':' separator"));
    } else {
        panic!("Expected TagParseError about missing colon");
    }
}

#[test]
fn test_validate_tag_no_dash() {
    let invalid_tag = "Color: Red, Blue";
    let result = tags::validate_tag(invalid_tag);

    assert!(result.is_err());
    if let Err(RulesError::TagParseError(msg)) = result {
        assert!(msg.contains("Tag must begin with '-'"));
    } else {
        panic!("Expected TagParseError about missing dash");
    }
}

#[test]
fn test_validate_tag_name_with_spaces() {
    let invalid_tag = "- Color Name: Red, Blue";
    let result = tags::validate_tag(invalid_tag);

    assert!(result.is_err());
    if let Err(RulesError::TagParseError(msg)) = result {
        assert!(msg.contains("Tag name cannot contain spaces"));
    } else {
        panic!("Expected TagParseError about tag name spaces");
    }
}

#[test]
fn test_validate_tag_value_with_middle_spaces() {
    let invalid_tag = "- Color: Dark Blue, Red";
    let result = tags::validate_tag(invalid_tag);

    assert!(result.is_err());
    if let Err(RulesError::TagParseError(msg)) = result {
        assert!(msg.contains("Tag values cannot contain spaces"));
    } else {
        panic!("Expected TagParseError about value spaces");
    }
}

#[test]
fn test_validate_tag_multiple_colons() {
    let invalid_tag = "- Color: Red: Blue";
    let result = tags::validate_tag(invalid_tag);

    assert!(result.is_err());
    if let Err(RulesError::TagParseError(msg)) = result {
        assert!(msg.contains("only one") || msg.contains("semi-colon"));
    } else {
        panic!("Expected TagParseError about multiple colons");
    }
}

#[test]
fn test_validate_tag_with_leading_whitespace() {
    let tag_with_whitespace = "  - Color: Red, Blue";
    assert!(tags::validate_tag(tag_with_whitespace).is_ok());
}

#[test]
fn test_get_name_and_values_from_tag() {
    let tag = "- Color: Red, Blue, Green";
    let result = tags::get_name_and_values_from_tag(tag);

    assert!(result.is_ok());
    if let Ok((name, values)) = result {
        assert_eq!(name, "Color");
        assert_eq!(values.len(), 3);
        assert!(values.contains(&"Red".to_string()));
        assert!(values.contains(&"Blue".to_string()));
        assert!(values.contains(&"Green".to_string()));
    }
}

#[test]
fn test_get_name_and_values_trims_whitespace() {
    let tag = "  - Color  :  Red ,  Blue  ";
    let result = tags::get_name_and_values_from_tag(tag);

    assert!(result.is_ok());
    if let Ok((name, values)) = result {
        assert_eq!(name, "Color");
        assert_eq!(values, vec!["Red".to_string(), "Blue".to_string()]);
    }
}

#[test]
fn test_get_name_and_values_parts() {
    let parts = vec!["  - Color  ".to_string(), "  Red ,  Blue  ".to_string()];
    assert_eq!(tags::get_name_from_tag(&parts), "Color");
    assert_eq!(tags::get_values_from_tag(&parts), vec!["Red", "Blue"]);
    let parts = vec!["".to_string(), "".to_string()];
    assert_eq!(tags::get_name_from_tag(&parts), "");
    assert_eq!(tags::get_values_from_tag(&parts), vec![""]);
    let parts = vec!["x".to_string(), ",a,,b ,".to_string()];
    assert_eq!(tags::get_name_from_tag(&parts), "");
    assert_eq!(tags::get_values_from_tag(&parts), vec!["", "a", "", "b", ""]);
}

#[test]
fn test_validate_tag_lists_every_fault() {
    let result = tags::validate_tag("Color Name: Dark Blue: Red");
    match result {
        Err(e) => assert_eq!(
            e.message(),
            "Errors parsing line: 'Color Name: Dark Blue: Red': Tag must only contain one name and one set of values. Ensure there is only one semi-colon, Tag must begin with '-', Tag name cannot contain spaces, Tag values cannot contain spaces"
        ),
        Ok(()) => panic!("expected an error"),
    }
    let result = tags::validate_tag("-Color: Dark Blue");
    match result {
        Err(e) => assert_eq!(
            e.message(),
            "Errors parsing line: '-Color: Dark Blue': Tag values cannot contain spaces"
        ),
        Ok(()) => panic!("expected an error"),
    }
}

#[test]
fn test_validate_tag_edges() {
    // No name at all passes; so does a lone dash.
    assert!(tags::validate_tag(": a, b").is_ok());
    assert!(tags::validate_tag("-: a").is_ok());
    // A tab in a value is no space.
    assert!(tags::validate_tag("- Color: Dark\tBlue").is_ok());
    // A tab in the name makes it two words.
    assert!(tags::validate_tag("- Color\tName: Red").is_err());
    // A comment may hold anything.
    assert!(tags::validate_tag("  # Color Name: a b: c").is_ok());
    // A blank line declares nothing, and is no tag.
    assert!(tags::get_name_and_values_from_tag("").is_err());
    assert!(tags::get_name_and_values_from_tag("# only a comment").is_err());
}

#[test]
fn test_parse_tags() {
    let lines = vec![
        "# tags".to_string(),
        "".to_string(),
        "- colour: red, blue".to_string(),
        "-size:small".to_string(),
    ];
    let tags = tags::parse_tags(&lines).unwrap();
    assert_eq!(tags.len(), 2);
    assert_eq!(tags[0].name, "colour");
    assert_eq!(tags[0].values, vec!["red", "blue"]);
    assert_eq!(tags[1].name, "size");
    assert_eq!(tags[1].values, vec!["small"]);

    let lines = vec!["- colour: red".to_string(), "size: small".to_string()];
    assert!(tags::parse_tags(&lines).is_err());
}
