use rules::dnf::normal_form;
use rules::err::{RuleFault, RulesError};
use rules::message::decimal_text;
use rules::parser::rules::RuleParser;
use rules::parser::types::{Node, Token, TokenType};
use rules::types::{ComparisonOp, Constraint, LogicalOp, SubRule, Tag};
use rules::utils::file::line_blank_or_comment;
use rules::utils::string::normalise;
use rules::{compile, evaluate, validate};

fn tag(name: &str, values: &[&str]) -> Tag {
    Tag {
        name: name.to_string(),
        values: values.iter().map(|v| v.to_string()).collect(),
    }
}

fn registry() -> Vec<Tag> {
    vec![
        tag("colour", &["red", "blue", "green"]),
        tag("size", &["small", "medium", "large"]),
        tag("shape", &["circle", "square"]),
    ]
}

fn strings(items: &[&str]) -> Vec<String> {
    items.iter().map(|s| s.to_string()).collect()
}

// Each clause as a list of (tag, is-equals, value).
fn shape_of(clauses: &Vec<SubRule>) -> Vec<Vec<(String, bool, String)>> {
    clauses
        .iter()
        .map(|c| {
            c.constraints
                .iter()
                .map(|k| (k.tag.clone(), k.op == ComparisonOp::ISEQ, k.value.clone()))
                .collect()
        })
        .collect()
}

fn eq(tag: &str, value: &str) -> (String, bool, String) {
    (tag.to_string(), true, value.to_string())
}

fn ne(tag: &str, value: &str) -> (String, bool, String) {
    (tag.to_string(), false, value.to_string())
}

fn message_of<T>(result: Result<T, RulesError>) -> String {
    match result {
        Err(e) => e.message(),
        Ok(_) => panic!("expected an error"),
    }
}

fn leaf(tag: &str, op: ComparisonOp, value: &str) -> Node {
    Node::Leaf { op, tag: tag.to_string(), value: value.to_string() }
}

fn binary(op: LogicalOp, left: Node, right: Node) -> Node {
    Node::Binary { op, left: Box::new(left), right: Box::new(right) }
}

fn holds_directly(node: &Node, object: &Vec<Tag>) -> bool {
    match node {
        Node::Leaf { op, tag, value } => {
            let has = object
                .iter()
                .any(|t| &t.name == tag && t.values.iter().any(|v| v == value));
            match op {
                ComparisonOp::ISEQ => has,
                ComparisonOp::NOEQ => !has,
            }
        }
        Node::Binary { op, left, right } => match op {
            LogicalOp::AND => holds_directly(left, object) && holds_directly(right, object),
            LogicalOp::OR => holds_directly(left, object) || holds_directly(right, object),
        },
    }
}

// Every object over colour in {red, blue} and size in {small}: each tag
// absent, or present with any subset of its values.
fn small_objects() -> Vec<Vec<Tag>> {
    let colours: Vec<Option<Vec<&str>>> = vec![
        None,
        Some(vec![]),
        Some(vec!["red"]),
        Some(vec!["blue"]),
        Some(vec!["red", "blue"]),
    ];
    let sizes: Vec<Option<Vec<&str>>> = vec![None, Some(vec![]), Some(vec!["small"])];
    let mut all = Vec::new();
    for c in &colours {
        for s in &sizes {
            let mut object = Vec::new();
            if let Some(values) = c {
                object.push(tag("colour", values));
            }
            if let Some(values) = s {
                object.push(tag("size", values));
            }
            all.push(object);
        }
    }
    all
}

#[test]
fn test_compile_round_trip() {
    let registry = vec![tag("colour", &["red", "blue"])];
    let clauses = compile("-colour = red", &registry).unwrap();
    assert_eq!(shape_of(&clauses), vec![vec![eq("colour", "red")]]);
    assert!(evaluate(&clauses, &vec![tag("colour", &["red"])]));
    assert!(!evaluate(&clauses, &vec![tag("colour", &["blue"])]));
}

#[test]
fn test_comma_sugar_is_an_or() {
    let registry = registry();
    let sugar = compile("-colour = red, blue", &registry).unwrap();
    let plain = compile("-colour = red | colour = blue", &registry).unwrap();
    assert_eq!(shape_of(&sugar), shape_of(&plain));
    assert_eq!(
        shape_of(&sugar),
        vec![vec![eq("colour", "red")], vec![eq("colour", "blue")]]
    );
    for object in small_objects() {
        assert_eq!(evaluate(&sugar, &object), evaluate(&plain, &object));
    }
}

#[test]
fn test_comma_sugar_tokens() {
    let tokens = RuleParser::tokenise_rule(&"colour = red, blue".to_string()).unwrap();
    assert_eq!(tokens, vec!["colour", "=", "red", "|", "colour", "=", "blue"]);

    let tokens = RuleParser::tokenise_rule(&"size!small,medium , large".to_string()).unwrap();
    assert_eq!(
        tokens,
        vec!["size", "!", "small", "|", "size", "!", "medium", "|", "size", "!", "large"]
    );

    let tokens =
        RuleParser::tokenise_rule(&"colour = red & size = small, large".to_string()).unwrap();
    assert_eq!(
        tokens,
        vec!["colour", "=", "red", "&", "size", "=", "small", "|", "size", "=", "large"]
    );
}

#[test]
fn test_comma_must_follow_a_value() {
    for rule in ["colour =, red", ",colour = red", ", red", "(colour = red), blue", "colour, red"] {
        let result = RuleParser::tokenise_rule(&rule.to_string());
        assert_eq!(
            message_of(result),
            "Comma must follow a complete tag comparison",
            "rule: {}",
            rule
        );
    }
    // A comparison whose operator did not stand where one was expected is
    // not remembered.
    let result = RuleParser::tokenise_rule(&"= red, blue".to_string());
    assert_eq!(message_of(result), "Comma must follow a complete tag comparison");
}

#[test]
fn test_dnf_agrees_with_direct_evaluation() {
    let a = || leaf("colour", ComparisonOp::ISEQ, "red");
    let b = || leaf("colour", ComparisonOp::NOEQ, "blue");
    let c = || leaf("size", ComparisonOp::ISEQ, "small");
    let d = || leaf("size", ComparisonOp::NOEQ, "small");
    let trees = vec![
        a(),
        b(),
        binary(LogicalOp::AND, a(), b()),
        binary(LogicalOp::OR, a(), c()),
        binary(LogicalOp::AND, binary(LogicalOp::OR, a(), b()), binary(LogicalOp::OR, c(), d())),
        binary(LogicalOp::OR, binary(LogicalOp::AND, a(), c()), binary(LogicalOp::AND, b(), d())),
        binary(
            LogicalOp::AND,
            binary(LogicalOp::OR, a(), binary(LogicalOp::AND, b(), c())),
            binary(LogicalOp::OR, d(), a()),
        ),
        binary(LogicalOp::AND, c(), d()),
    ];
    for tree in &trees {
        let clauses = normal_form(tree);
        for object in small_objects() {
            assert_eq!(evaluate(&clauses, &object), holds_directly(tree, &object));
        }
    }
}

#[test]
fn test_dnf_cross_product_order() {
    let tree = binary(
        LogicalOp::AND,
        binary(
            LogicalOp::OR,
            leaf("a", ComparisonOp::ISEQ, "1"),
            leaf("b", ComparisonOp::ISEQ, "2"),
        ),
        binary(
            LogicalOp::OR,
            leaf("c", ComparisonOp::NOEQ, "3"),
            leaf("d", ComparisonOp::ISEQ, "4"),
        ),
    );
    assert_eq!(
        shape_of(&normal_form(&tree)),
        vec![
            vec![eq("a", "1"), ne("c", "3")],
            vec![eq("a", "1"), eq("d", "4")],
            vec![eq("b", "2"), ne("c", "3")],
            vec![eq("b", "2"), eq("d", "4")],
        ]
    );
}

#[test]
fn test_dnf_keeps_repeated_and_contradictory_constraints() {
    let tree = binary(
        LogicalOp::AND,
        leaf("a", ComparisonOp::ISEQ, "1"),
        binary(
            LogicalOp::AND,
            leaf("a", ComparisonOp::ISEQ, "1"),
            leaf("a", ComparisonOp::NOEQ, "1"),
        ),
    );
    let clauses = normal_form(&tree);
    assert_eq!(shape_of(&clauses), vec![vec![eq("a", "1"), eq("a", "1"), ne("a", "1")]]);
    assert!(!evaluate(&clauses, &vec![tag("a", &["1"])]));
    assert!(!evaluate(&clauses, &vec![]));
}

#[test]
fn test_and_is_split_before_or() {
    let registry = registry();
    let clauses = compile("-colour = red | colour = blue & size = small", &registry).unwrap();
    assert_eq!(
        shape_of(&clauses),
        vec![
            vec![eq("colour", "red"), eq("size", "small")],
            vec![eq("colour", "blue"), eq("size", "small")],
        ]
    );
    let clauses = compile("-colour = red & size = small | shape = circle", &registry).unwrap();
    assert_eq!(
        shape_of(&clauses),
        vec![
            vec![eq("colour", "red"), eq("size", "small")],
            vec![eq("colour", "red"), eq("shape", "circle")],
        ]
    );
}

#[test]
fn test_parentheses_group() {
    let registry = registry();
    let clauses =
        compile("-(colour = red & size = small) | shape = circle", &registry).unwrap();
    assert_eq!(
        shape_of(&clauses),
        vec![
            vec![eq("colour", "red"), eq("size", "small")],
            vec![eq("shape", "circle")],
        ]
    );
    let clauses = compile("-(colour = red) & (size ! large)", &registry).unwrap();
    assert_eq!(shape_of(&clauses), vec![vec![eq("colour", "red"), ne("size", "large")]]);
    let clauses =
        compile("-((colour = red) | (colour = blue)) & (size = large)", &registry).unwrap();
    assert_eq!(
        shape_of(&clauses),
        vec![
            vec![eq("colour", "red"), eq("size", "large")],
            vec![eq("colour", "blue"), eq("size", "large")],
        ]
    );
}

#[test]
fn test_build_ast_shapes() {
    let tree = RuleParser::build_ast(strings(&["a", "=", "1", "&", "b", "!", "2", "&", "c", "=", "3"]))
        .unwrap();
    match tree {
        Node::Binary { op: LogicalOp::AND, left, right } => {
            assert!(matches!(*left, Node::Leaf { op: ComparisonOp::ISEQ, .. }));
            match *right {
                Node::Binary { op: LogicalOp::AND, left, right } => {
                    match (*left, *right) {
                        (
                            Node::Leaf { op: ComparisonOp::NOEQ, tag: t1, value: v1 },
                            Node::Leaf { op: ComparisonOp::ISEQ, tag: t2, value: v2 },
                        ) => {
                            assert_eq!((t1.as_str(), v1.as_str()), ("b", "2"));
                            assert_eq!((t2.as_str(), v2.as_str()), ("c", "3"));
                        }
                        _ => panic!("expected two comparisons"),
                    }
                }
                _ => panic!("expected a conjunction on the right"),
            }
        }
        _ => panic!("expected a conjunction"),
    }
}

#[test]
fn test_build_ast_faults() {
    let result = RuleParser::build_ast(strings(&["(", "(", "a", "=", "1", ")", ")"]));
    assert_eq!(message_of(result), "Invalid leaf node: expected 3 tokens, got 5");

    let result = RuleParser::build_ast(vec![]);
    assert_eq!(message_of(result), "Invalid leaf node: expected 3 tokens, got 0");

    let result = RuleParser::build_ast(strings(&["a", "x", "1"]));
    assert_eq!(message_of(result), "Invalid comparison operator: x");

    let result =
        RuleParser::build_ast(strings(&["a", "=", "(", "b", "&", "c", "=", "d", ")"]));
    assert_eq!(message_of(result), "Expected logical operator, found: =");

    // The left side is read first.
    let result = RuleParser::build_ast(strings(&["a", "&", "b", "=", "=", "c"]));
    assert_eq!(message_of(result), "Invalid leaf node: expected 3 tokens, got 1");
}

#[test]
fn test_only_a_matching_pair_is_stripped() {
    // The first parenthesis closes before the end: nothing is stripped.
    let tree = RuleParser::build_ast(strings(&[
        "(", "a", "=", "1", ")", "|", "(", "b", "=", "2", ")",
    ]))
    .unwrap();
    assert_eq!(
        shape_of(&normal_form(&tree)),
        vec![vec![eq("a", "1")], vec![eq("b", "2")]]
    );
}

#[test]
fn test_find_lowest_prec_op_index() {
    let at = |items: &[&str]| RuleParser::find_lowest_prec_op_index(&strings(items));
    assert_eq!(at(&["a", "=", "1"]), 1);
    assert_eq!(at(&["a", "=", "1", "|", "b", "=", "2", "&", "c", "=", "3"]), 7);
    assert_eq!(at(&["a", "=", "1", "&", "b", "=", "2", "&", "c", "=", "3"]), 3);
    assert_eq!(at(&["(", "a", "=", "1", "&", "b", "=", "2", ")", "|", "c", "=", "3"]), 9);
    assert_eq!(at(&["(", "a", "&", "b", ")"]), 2);
    assert_eq!(at(&["a", "b"]), 0);
    assert_eq!(at(&[]), 0);
    // A closing parenthesis with none open lowers the depth.
    assert_eq!(at(&["a", "&", "b", ")", "|", "c"]), 4);
}

#[test]
fn test_contains_logical_op() {
    assert!(!RuleParser::contains_logical_op(&strings(&["a", "=", "1"])));
    assert!(RuleParser::contains_logical_op(&strings(&["(", "a", "|", "b", ")"])));
    assert!(RuleParser::contains_logical_op(&strings(&["&"])));
    assert!(!RuleParser::contains_logical_op(&strings(&["&&", "a|b"])));
    assert!(!RuleParser::contains_logical_op(&vec![]));
}

#[test]
fn test_unbalanced_parentheses_are_a_parenthesis_error() {
    let registry = registry();
    for rule in ["-(colour = red", "-((colour = red)", "-colour = (red", "-((("] {
        let text = message_of(validate(rule, &registry));
        assert_eq!(text, format!("'{}': Unmatched opening parenthesis", rule));
        assert_eq!(message_of(compile(rule, &registry)), text);
    }
    for rule in ["-colour = red)", "-)", "-(colour = red))", "-)(", "-unknown = xy)"] {
        let text = message_of(validate(rule, &registry));
        assert_eq!(text, format!("'{}': Unmatched closing parenthesis", rule));
    }
}

#[test]
fn test_unbalanced_parentheses_after_another_format_fault() {
    let registry = registry();
    assert_eq!(
        message_of(validate("-,(", &registry)),
        "'-,(': Comma must follow a complete tag comparison"
    );
    assert_eq!(
        message_of(validate("colour = (red", &registry)),
        "'colour = (red': Rule is missing initial dash."
    );
    assert_eq!(
        message_of(validate("-a (", &registry)),
        "'-a (': Invalid token encountered: a"
    );
}

#[test]
fn test_unknown_tag_is_rejected() {
    let registry = registry();
    let result = validate("-unknown_tag = x", &registry);
    assert_eq!(
        message_of(result),
        "'-unknown_tag = x': Rule contains invalid TagName: unknown_tag"
    );
    match compile("-unknown_tag = x", &registry) {
        Err(RulesError::RuleParseError(e)) => {
            assert!(matches!(e.fault, RuleFault::UnknownTagName(ref name) if name == "unknown_tag"));
            assert_eq!(e.rule.as_deref(), Some("-unknown_tag = x"));
        }
        _ => panic!("expected a rule error"),
    }
}

#[test]
fn test_unknown_value_is_rejected() {
    let registry = registry();
    assert_eq!(
        message_of(validate("-colour = Purple", &registry)),
        "'-colour = Purple': Rule contains invalid TagValue: 'purple' is not a valid value for TagName 'colour'"
    );
    // A value of another tag is no value of this one.
    assert!(validate("-colour = small", &registry).is_err());
    assert!(validate("-size = small", &registry).is_ok());
}

#[test]
fn test_case_is_folded() {
    let registry = vec![tag("Colour", &["Red"])];
    assert!(validate("-colour = red", &registry).is_ok());
    assert!(validate("-COLOUR = RED", &registry).is_ok());
    assert!(validate("-Colour = rEd", &registry).is_ok());
    assert!(validate("-colour = blue", &registry).is_err());
    // The clauses keep the text of the rule.
    let clauses = compile("-COLOUR = Red", &registry).unwrap();
    assert_eq!(shape_of(&clauses), vec![vec![eq("COLOUR", "Red")]]);
}

#[test]
fn test_tags_of_one_folded_name_are_joined() {
    let registry = vec![tag("Colour", &["red"]), tag("colour", &["Blue"])];
    assert!(validate("-colour = red", &registry).is_ok());
    assert!(validate("-colour = blue", &registry).is_ok());
    assert!(validate("-colour = green", &registry).is_err());
}

#[test]
fn test_empty_clause_matches_every_object() {
    let clauses = vec![SubRule { constraints: vec![] }];
    for object in small_objects() {
        assert!(evaluate(&clauses, &object));
    }
    let clauses = vec![
        SubRule {
            constraints: vec![Constraint {
                tag: "colour".to_string(),
                op: ComparisonOp::ISEQ,
                value: "none".to_string(),
            }],
        },
        SubRule { constraints: vec![] },
    ];
    assert!(evaluate(&clauses, &vec![]));
    // No clause at all matches nothing.
    assert!(!evaluate(&vec![], &vec![]));
    assert!(!evaluate(&vec![], &vec![tag("colour", &["red"])]));
}

#[test]
fn test_evaluate_missing_tag() {
    let registry = registry();
    let is_red = compile("-colour = red", &registry).unwrap();
    let not_red = compile("-colour ! red", &registry).unwrap();
    let no_colour = vec![tag("size", &["small"])];
    assert!(!evaluate(&is_red, &no_colour));
    assert!(evaluate(&not_red, &no_colour));
    let empty_colour = vec![tag("colour", &[])];
    assert!(!evaluate(&is_red, &empty_colour));
    assert!(evaluate(&not_red, &empty_colour));
}

#[test]
fn test_evaluate_many_values() {
    let registry = registry();
    let clauses = compile("-colour = red & colour = blue & size ! large", &registry).unwrap();
    assert!(evaluate(&clauses, &vec![tag("colour", &["blue", "red"])]));
    assert!(!evaluate(&clauses, &vec![tag("colour", &["red"])]));
    assert!(!evaluate(
        &clauses,
        &vec![tag("colour", &["blue", "red"]), tag("size", &["small", "large"])]
    ));
    // Entries of one name are read together.
    assert!(evaluate(&clauses, &vec![tag("colour", &["blue"]), tag("colour", &["red"])]));
    // Objects are compared as they stand.
    assert!(!evaluate(&clauses, &vec![tag("Colour", &["blue", "red"])]));
}

#[test]
fn test_revalidating_an_accepted_rule() {
    let registry = registry();
    let parser = RuleParser::new(registry.clone());
    for _ in 0..3 {
        assert!(parser.validate_rule("-colour = red & size = large").is_ok());
        assert!(validate("-colour = red & size = large", &registry).is_ok());
    }
}

#[test]
fn test_errors_come_in_order() {
    let registry = registry();
    // format before syntax
    assert_eq!(
        message_of(validate("-colour & size = red)", &registry)),
        "'-colour & size = red)': Unmatched closing parenthesis"
    );
    // syntax before semantics
    assert_eq!(
        message_of(validate("-unknown = red &", &registry)),
        "'-unknown = red &': Rule must end with a tag value, ended with LogicalOp"
    );
    // the dash before everything
    assert_eq!(
        message_of(validate("--unknown = (red &", &registry)),
        "'--unknown = (red &': Rule should only contain 1 dash, found 2"
    );
}

#[test]
fn test_format_faults() {
    let tokens = |rule: &str| RuleParser::tokenise_rule(&rule.to_string());
    assert_eq!(message_of(tokens("a = red")), "Invalid token encountered: a");
    assert_eq!(
        message_of(tokens("colour = r & size = small")),
        "Invalid token encountered: r"
    );
    // A word of one character is found out by the token after it.
    assert_eq!(tokens("colour = r").unwrap(), vec!["colour", "=", "r"]);
    assert_eq!(
        message_of(tokens("colour red blue")),
        "Expected operator but got string instead: colour"
    );
    assert_eq!(message_of(tokens("colour = red)")), "Unmatched closing parenthesis");
    assert_eq!(message_of(tokens("(colour = red")), "Unmatched opening parenthesis");
    assert_eq!(message_of(normalise("colour = red")), "Rule is missing initial dash.");
    assert_eq!(message_of(normalise("")), "Rule is missing initial dash.");
    assert_eq!(message_of(normalise(" -colour = red")), "Rule is missing initial dash.");
    assert_eq!(
        message_of(normalise("-a-b-c = d-e")),
        "Rule should only contain 1 dash, found 4"
    );
}

#[test]
fn test_syntax_faults() {
    let check = |items: &[(&str, TokenType)]| {
        let tokens = items.iter().map(|(s, t)| (s.to_string(), *t, 0)).collect();
        RuleParser::check_rule_syntax(&tokens)
    };
    assert_eq!(message_of(check(&[])), "Empty rule");
    assert_eq!(
        message_of(check(&[("red", TokenType::TagValue)])),
        "Rule must start with a tag name, found TagValue"
    );
    assert_eq!(
        message_of(check(&[("a", TokenType::TagName), ("b", TokenType::LogicalOp)])),
        "Invalid token sequence: TagName followed by LogicalOp"
    );
    assert_eq!(
        message_of(check(&[("a", TokenType::TagName), ("=", TokenType::ComparisonOp)])),
        "Rule must end with a tag value, ended with ComparisonOp"
    );
    // The first fault is the one reported.
    assert_eq!(
        message_of(check(&[
            ("a", TokenType::TagName),
            ("=", TokenType::ComparisonOp),
            ("=", TokenType::ComparisonOp),
            ("b", TokenType::TagName),
        ])),
        "Invalid token sequence: ComparisonOp followed by ComparisonOp"
    );
}

#[test]
fn test_semantic_faults() {
    let parser = RuleParser::new(registry());
    let check = |items: &[(&str, TokenType)]| {
        let tokens = items.iter().map(|(s, t)| (s.to_string(), *t, 0)).collect();
        parser.check_valid_tags(&tokens)
    };
    assert_eq!(
        message_of(check(&[("Red", TokenType::TagValue)])),
        "TagValue 'red' has no associated TagName"
    );
    assert_eq!(
        message_of(check(&[("Nope", TokenType::TagName)])),
        "Rule contains invalid TagName: nope"
    );
    assert_eq!(
        message_of(check(&[("SIZE", TokenType::TagName), ("Red", TokenType::TagValue)])),
        "Rule contains invalid TagValue: 'red' is not a valid value for TagName 'size'"
    );
    // A value is held against the tag name last read.
    assert!(check(&[
        ("colour", TokenType::TagName),
        ("size", TokenType::TagName),
        ("small", TokenType::TagValue),
    ])
    .is_ok());
    // Tokens of other types are not looked at.
    assert!(check(&[("whatever", TokenType::LogicalOp), ("x", TokenType::ComparisonOp)]).is_ok());
}

#[test]
fn test_map_rule_tokens_depths() {
    let tokens = strings(&["(", "(", "colour", "=", "red", ")", "&", "size", "=", "small", ")"]);
    let mapped = RuleParser::map_rule_tokens(&tokens);
    let depths: Vec<i128> = mapped.iter().map(|t| t.2).collect();
    assert_eq!(depths, vec![0, 1, 2, 2, 2, 2, 1, 1, 1, 1, 1]);
    let types: Vec<TokenType> = mapped.iter().map(|t| t.1).collect();
    assert_eq!(
        types,
        vec![
            TokenType::TagName,
            TokenType::TagName,
            TokenType::TagName,
            TokenType::ComparisonOp,
            TokenType::TagValue,
            TokenType::LogicalOp,
            TokenType::LogicalOp,
            TokenType::TagName,
            TokenType::ComparisonOp,
            TokenType::TagValue,
            TokenType::LogicalOp,
        ]
    );
}

#[test]
fn test_white_space_separates_words() {
    let tokens = RuleParser::tokenise_rule(&"\tcolour\t=\u{a0}red\n".to_string()).unwrap();
    assert_eq!(tokens, vec!["colour", "=", "red"]);
    let tokens = RuleParser::tokenise_rule(&"   ".to_string()).unwrap();
    assert!(tokens.is_empty());
    let tokens = RuleParser::tokenise_rule(&"".to_string()).unwrap();
    assert!(tokens.is_empty());
}

#[test]
fn test_words_of_other_alphabets() {
    let registry = vec![tag("Größe", &["KLEIN", "é"])];
    // A word of one character of more than one byte is a word.
    assert!(validate("-größe = É", &registry).is_ok());
    assert!(validate("-GRÖSSE = klein", &registry).is_err());
    let tokens = RuleParser::tokenise_rule(&"é = ü".to_string()).unwrap();
    assert_eq!(tokens, vec!["é", "=", "ü"]);
}

#[test]
fn test_normalise() {
    assert_eq!(normalise("-colour = red").unwrap(), "colour = red");
    assert_eq!(normalise("-  colour = red \t").unwrap(), "colour = red");
    assert_eq!(normalise("-").unwrap(), "");
    assert_eq!(normalise("- \u{3000} ").unwrap(), "");
}

#[test]
fn test_line_blank_or_comment() {
    assert!(line_blank_or_comment(""));
    assert!(line_blank_or_comment("   \t "));
    assert!(line_blank_or_comment("# comment"));
    assert!(line_blank_or_comment("   # comment"));
    assert!(line_blank_or_comment("#"));
    assert!(!line_blank_or_comment("- colour = red # comment"));
    assert!(!line_blank_or_comment("-#"));
    assert!(!line_blank_or_comment("x"));
}

#[test]
fn test_blank_lines_are_valid_but_no_rules() {
    let registry = registry();
    assert!(validate("", &registry).is_ok());
    assert!(validate("  # colour = (", &registry).is_ok());
    assert_eq!(message_of(compile("", &registry)), "'': Rule is missing initial dash.");
}

#[test]
fn test_parse_rules_joins_the_clauses_of_the_lines() {
    let lines = strings(&[
        "# rules",
        "",
        "- colour = red, blue",
        "   ",
        "- size = small & shape ! circle",
    ]);
    let clauses = RuleParser::parse_rules(registry(), &lines).unwrap();
    assert_eq!(
        shape_of(&clauses),
        vec![
            vec![eq("colour", "red")],
            vec![eq("colour", "blue")],
            vec![eq("size", "small"), ne("shape", "circle")],
        ]
    );
    let lines = strings(&["- colour = red", "- colour = pink", "- nothing = x"]);
    assert_eq!(
        message_of(RuleParser::parse_rules(registry(), &lines)),
        "'- colour = pink': Rule contains invalid TagValue: 'pink' is not a valid value for TagName 'colour'"
    );
    assert!(RuleParser::parse_rules(registry(), &vec![]).unwrap().is_empty());
}

#[test]
fn test_string_to_rule() {
    let parser = RuleParser::new(registry());
    let rule = parser.string_to_rule("- colour ! red").unwrap();
    assert!(matches!(
        rule.root_node,
        Node::Leaf { op: ComparisonOp::NOEQ, ref tag, ref value } if tag == "colour" && value == "red"
    ));
    let clauses = parser.rule_to_dnf_subrule(rule);
    assert_eq!(shape_of(&clauses), vec![vec![ne("colour", "red")]]);
    assert_eq!(
        message_of(parser.string_to_rule("-((colour = red))")),
        "'-((colour = red))': Invalid leaf node: expected 3 tokens, got 5"
    );
}

#[test]
fn test_context_is_attached_once() {
    let error = match RuleParser::tokenise_rule(&"colour = red)".to_string()) {
        Err(e) => e,
        Ok(_) => panic!("expected an error"),
    };
    assert_eq!(error.message(), "Unmatched closing parenthesis");
    let once = RuleParser::add_error_context(error, "-colour = red)");
    assert_eq!(once.message(), "'-colour = red)': Unmatched closing parenthesis");
    let twice = RuleParser::add_error_context(once, "another rule");
    assert_eq!(twice.message(), "'-colour = red)': Unmatched closing parenthesis");
}

#[test]
fn test_decimal_text() {
    assert_eq!(decimal_text(0), "0");
    assert_eq!(decimal_text(7), "7");
    assert_eq!(decimal_text(10), "10");
    assert_eq!(decimal_text(1234567890), "1234567890");
    assert_eq!(decimal_text(usize::MAX), usize::MAX.to_string());
}

#[test]
fn test_token_characters() {
    for c in ['(', ')', '=', '!', '&', '|', ','] {
        let token = Token::from_char(c).unwrap();
        assert_eq!(token.as_char(), c);
    }
    assert_eq!(Token::from_char('('), Some(Token::LeftParen));
    assert_eq!(Token::from_char(','), Some(Token::Comma));
    assert_eq!(Token::from_char('-'), None);
    assert_eq!(Token::from_char(' '), None);
    assert_eq!(Token::Or.as_char(), '|');
}

#[test]
fn test_default_subrule_is_the_empty_clause() {
    let clause = SubRule::default();
    assert!(clause.constraints.is_empty());
    assert!(evaluate(&vec![clause], &vec![]));
}

#[test]
fn test_string_utils_at() {
    use_at("héllo", 0, Some('h'));
    use_at("héllo", 1, Some('é'));
    use_at("héllo", 4, Some('o'));
    use_at("héllo", 5, None);
    use_at("", 0, None);
}

fn use_at(text: &str, index: usize, expected: Option<char>) {
    assert_eq!(rules::utils::string::StringUtils::at(text, index), expected);
}

#[test]
fn test_value_that_is_an_operator() {
    let registry = vec![tag("colour", &["&", "x"])];
    assert!(validate("-colour = x", &registry).is_ok());
    assert_eq!(
        shape_of(&compile("-colour = x", &registry).unwrap()),
        vec![vec![eq("colour", "x")]]
    );
    // Valid, since the value is declared, but no expression.
    assert!(validate("-colour = &", &registry).is_ok());
    assert_eq!(
        message_of(compile("-colour = &", &registry)),
        "'-colour = &': Invalid leaf node: expected 3 tokens, got 2"
    );
}

#[test]
fn test_doubled_parentheses_are_valid_but_do_not_compile() {
    let registry = registry();
    assert!(validate("-((colour = red))", &registry).is_ok());
    assert_eq!(
        message_of(compile("-((colour = red))", &registry)),
        "'-((colour = red))': Invalid leaf node: expected 3 tokens, got 5"
    );
    assert!(compile("-(colour = red)", &registry).is_ok());
}
