use confkit::config_file;
use confkit::private;

#[test]
fn preserves_valid_toml() {
    let toml = r#"
        text = "Hello world!"
        enabled = true
        "#;

    let result = config_file::config_generation::generate_config_file(
        toml.to_string(), Vec::new()
    ).unwrap();

    let parsed = result.parse::<toml_edit::DocumentMut>().unwrap();
    assert_eq!(parsed["text"].as_str(), Some("Hello world!"));
    assert_eq!(parsed["enabled"].as_bool(), Some(true));
}

#[test]
fn rejects_invalid_toml() {
    let toml = r#"
        This is not toml.
        "#;

    let result = config_file::config_generation::generate_config_file(
        toml.to_string(), Vec::new()
    );

    assert!(result.is_err());
}

#[test]
fn applies_comments() {
    let toml = r#"
        text = "Hello world!"
        enabled = true    
        "#;

    let comments = vec![
        private::Comment {
            key: "enabled",
            text: Some("This is a boolean!"),
            children: Vec::new(),
        }
    ];

    let result = config_file::config_generation::generate_config_file(
        toml.to_string(), comments
    ).unwrap();

    assert!(result.contains("enabled = true # This is a boolean!"));
}

#[test]
fn applies_nested_comments() {
    let toml = r#"
        [main]
        text = "Hello world!"
    
        [other]
        enabled = true    
        "#;

    let comments = vec![
        private::Comment {
            key: "main",
            text: Some("This is a section!"),
            children: Vec::new(),
        },
        private::Comment {
            key: "other",
            text: None,
            children: vec![
                private::Comment {
                    key: "enabled",
                    text: Some("This is a nested value!"),
                    children: Vec::new(),
                }
            ]
        }
    ];

    let result = config_file::config_generation::generate_config_file(
        toml.to_string(), comments
    ).unwrap();

    assert!(result.contains("[main] # This is a section!"));
    assert!(result.contains("enabled = true # This is a nested value!"));
}

#[test]
fn rejects_invalid_comment_keys() {
    let toml = r#"
        text = "Hello world!"
        enabled = true
        "#;

    let comments = vec![
        private::Comment {
            key: "testing",
            text: Some("This key does not exist"),
            children: Vec::new()
        }
    ];

    let result = config_file::config_generation::generate_config_file(
        toml.to_string(), comments
    );

    assert!(result.is_err());

    let error_text = result.unwrap_err().to_string();

    assert_eq!(error_text, "Error: unable to find the config key 'testing'");
}

#[test]
fn rejects_non_tables_with_nested_comments() {
    let toml = r#"
        text = "Hello world!"
        enabled = true    
        "#;

    let comments = vec![
        private::Comment {
            key: "enabled",
            text: None,
            children: vec![
                private::Comment {
                    key: "testing",
                    text: None,
                    children: Vec::new(),
                }
            ]
        }
    ];

    let result = config_file::config_generation::generate_config_file(
        toml.to_string(), comments
    );

    assert!(result.is_err());

    let error_text = result.unwrap_err().to_string();

    assert_eq!(error_text, "Error: config key 'enabled' was expected to be a table");
}

#[test]
fn rejects_invalid_nested_comment_keys() {
    let toml = r#"
        [main]
        text = "Hello world!"
    
        [other]
        enabled = true    
        "#;

    let comments = vec![
        private::Comment {
            key: "main",
            text: None,
            children: vec![
                private::Comment {
                    key: "testing",
                    text: Some("This key does not exist"),
                    children: Vec::new(),
                }
            ],
        },
    ];

    let result = config_file::config_generation::generate_config_file(
        toml.to_string(), comments
    );

    assert!(result.is_err());

    let error_text = result.unwrap_err().to_string();

    assert_eq!(error_text, "Error: unable to find the nested config key 'testing'")
}

#[test]
fn allows_multi_layer_recursion() {
    let toml = r#"
        [main]
        text = "Hello world!"
        [main.nested]
        enabled = true    
        "#;

    let comments = vec![
        private::Comment {
            key: "main",
            text: None,
            children: vec![
                private::Comment {
                    key: "nested",
                    text: None,
                    children: vec![
                        private::Comment {
                            key: "enabled",
                            text: Some("This is a double nested value!"),
                            children: Vec::new(),
                        }
                    ]
                }
            ]
        }
    ];

    let result = config_file::config_generation::generate_config_file(
        toml.to_string(), comments
    ).unwrap();

    assert!(result.contains("enabled = true # This is a double nested value!"));
}

#[test]
fn preserves_toml_when_no_comments_are_provided() {
    let toml = r#"
        text = "Hello world!"
        enabled = true    
        "#;

    let comments = vec![
        private::Comment {
            key: "text",
            text: None,
            children: Vec::new(),
        }    
    ];

    let result = config_file::config_generation::generate_config_file(
        toml.to_string(), comments
    ).unwrap();

    assert_eq!(toml, result);
}

// ---------------------------------------------------------------------------

#[test]
fn invalid_toml_error_names_the_cause() {
    let result = config_file::config_generation::generate_config_file(
        "not = = toml".to_string(), Vec::new()
    );
    let text = result.unwrap_err().to_string();
    assert!(text.starts_with("Error: failed to create a valid toml table from the given input: "));
    assert!(text.len() > "Error: failed to create a valid toml table from the given input: ".len());
}

#[test]
fn apply_comments_edits_the_document_in_place() {
    let mut doc = "a = 1\n[t]\nb = 2\n".parse::<toml_edit::DocumentMut>().unwrap();
    let comments = vec![
        private::Comment { key: "a", text: Some("one"), children: Vec::new() },
        private::Comment {
            key: "t",
            text: Some("table"),
            children: vec![private::Comment { key: "b", text: Some("two"), children: Vec::new() }],
        },
    ];
    config_file::config_generation::apply_comments(&mut doc, comments).unwrap();
    let text = doc.to_string();
    assert!(text.contains("a = 1 # one"));
    assert!(text.contains("[t] # table"));
    assert!(text.contains("b = 2 # two"));
}

#[test]
fn comments_before_an_error_are_kept() {
    let mut doc = "a = 1\nb = 2\n".parse::<toml_edit::DocumentMut>().unwrap();
    let comments = vec![
        private::Comment { key: "a", text: Some("first"), children: Vec::new() },
        private::Comment { key: "missing", text: Some("x"), children: Vec::new() },
        private::Comment { key: "b", text: Some("never"), children: Vec::new() },
    ];
    let err = config_file::config_generation::apply_comments(&mut doc, comments).unwrap_err();
    assert_eq!(err.to_string(), "Error: unable to find the config key 'missing'");
    let text = doc.to_string();
    assert!(text.contains("a = 1 # first"));
    assert!(!text.contains("never"));
}

#[test]
fn array_of_tables_takes_comment_on_its_first_header() {
    let toml = "[[list]]\nx = 1\n\n[[list]]\nx = 2\n";
    let comments = vec![private::Comment { key: "list", text: Some("the list"), children: Vec::new() }];
    let result = config_file::config_generation::generate_config_file(toml.to_string(), comments).unwrap();
    assert!(result.contains("[[list]] # the list\nx = 1"));
    assert_eq!(result.matches("# the list").count(), 1);
    let parsed = result.parse::<toml_edit::DocumentMut>().unwrap();
    assert_eq!(parsed["list"].as_array_of_tables().map(|a| a.len()), Some(2));
}

#[test]
fn invalid_toml_error_carries_the_parser_text() {
    let text = "not = = toml";
    let parser_text = text.parse::<toml_edit::DocumentMut>().unwrap_err().to_string();
    let err = config_file::config_generation::generate_config_file(text.to_string(), Vec::new()).unwrap_err();
    assert_eq!(
        err.to_string(),
        format!("Error: failed to create a valid toml table from the given input: {}", parser_text)
    );
}

#[test]
fn inline_table_is_a_value_not_a_table() {
    let toml = "point = { x = 1 }\n";
    let comments = vec![private::Comment {
        key: "point",
        text: Some("p"),
        children: vec![private::Comment { key: "x", text: None, children: Vec::new() }],
    }];
    let err = config_file::config_generation::generate_config_file(toml.to_string(), comments).unwrap_err();
    assert_eq!(err.to_string(), "Error: config key 'point' was expected to be a table");
}

#[test]
fn empty_comment_list_keeps_text() {
    let toml = "a = 1 # old\n";
    let result = config_file::config_generation::generate_config_file(toml.to_string(), Vec::new()).unwrap();
    assert_eq!(result, toml);
}

#[test]
fn parse_config_accepts_and_rejects() {
    let doc = config_file::config_generation::parse_config("a = 1\n").unwrap();
    assert_eq!(doc["a"].as_integer(), Some(1));
    let err = config_file::config_generation::parse_config("a = = 1").unwrap_err();
    assert!(err.to_string().starts_with("Error: failed to create a valid toml table from the given input: "));
}

#[test]
fn bare_nested_comments_leave_the_document_as_it_was() {
    let text = "  x = 1   # keep\n[t]  # header\ny = \"s\"\n";
    let mut doc = config_file::config_generation::parse_config(text).unwrap();
    let before = doc.to_string();
    let comments = vec![
        private::Comment { key: "x", text: None, children: Vec::new() },
        private::Comment {
            key: "t",
            text: None,
            children: vec![private::Comment { key: "y", text: None, children: Vec::new() }],
        },
    ];
    config_file::config_generation::apply_comments(&mut doc, comments).unwrap();
    assert_eq!(doc.to_string(), before);
}

#[test]
fn comments_keep_values_and_key_order() {
    let toml = "b = \"two\"\na = 1\n[t]\nz = [1, 2]\ny = { k = true }\n";
    let comments = vec![
        private::Comment { key: "a", text: Some("one"), children: Vec::new() },
        private::Comment {
            key: "t",
            text: Some("table"),
            children: vec![private::Comment { key: "y", text: Some("inline"), children: Vec::new() }],
        },
    ];
    let result = config_file::config_generation::generate_config_file(toml.to_string(), comments).unwrap();
    let parsed = result.parse::<toml_edit::DocumentMut>().unwrap();
    assert_eq!(parsed["b"].as_str(), Some("two"));
    assert_eq!(parsed["a"].as_integer(), Some(1));
    assert_eq!(parsed["t"]["z"].as_array().map(|a| a.len()), Some(2));
    assert_eq!(parsed["t"]["y"]["k"].as_bool(), Some(true));
    let keys: Vec<&str> = parsed.iter().map(|(k, _)| k).collect();
    assert_eq!(keys, vec!["b", "a", "t"]);
    assert!(result.contains("a = 1 # one"));
    assert!(result.contains("[t] # table"));
    assert!(result.contains("y = { k = true } # inline"));
}

#[test]
fn a_new_comment_replaces_an_old_suffix() {
    let toml = "a = 1 # old\n";
    let comments = vec![private::Comment { key: "a", text: Some("new"), children: Vec::new() }];
    let result = config_file::config_generation::generate_config_file(toml.to_string(), comments).unwrap();
    assert!(result.contains("a = 1 # new"));
    assert!(!result.contains("old"));
}
