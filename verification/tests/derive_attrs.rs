use confkit::config_file::config_generation::generate_config_file;
use confkit::derive_attrs::{
    parse_field_attrs, parse_string_expr, parse_struct_attrs, plan_derive, AttrItem, DerivePlan,
    ErrorNote, FieldInput, MetaForm, MetaItem,
};
use confkit::private::Comment;

fn field(key: &str, attrs: Vec<AttrItem>) -> FieldInput {
    FieldInput { key: key.to_string(), attrs }
}

fn attr(ident: &str, at: usize, items: Vec<MetaItem>) -> AttrItem {
    AttrItem { ident: Some(ident.to_string()), args: Ok(items), at }
}

fn name_value(ident: &str, at: usize, value: usize, literal: Option<&str>) -> MetaItem {
    MetaItem {
        ident: Some(ident.to_string()),
        form: MetaForm::NameValue { value, string_literal: literal.map(|s| s.to_string()) },
        at,
    }
}

fn comment_item(at: usize, text: &str) -> MetaItem {
    MetaItem { ident: Some("comment".to_string()), form: MetaForm::List(Ok(text.to_string())), at }
}

fn nested_item(at: usize) -> MetaItem {
    MetaItem { ident: Some("nested".to_string()), form: MetaForm::Path, at }
}

fn plain_fields() -> Vec<FieldInput> {
    vec![field("text", Vec::new()), field("enabled", Vec::new())]
}

fn plan(attrs: Vec<AttrItem>, fields: Vec<FieldInput>) -> DerivePlan {
    match plan_derive("TestStruct", 0, &attrs, &Some(fields)) {
        Ok(plan) => plan,
        Err(_) => panic!("expected a plan"),
    }
}

fn notes(errors: Vec<ErrorNote>) -> Vec<(usize, String)> {
    errors.into_iter().map(|n| (n.at, n.message)).collect()
}

fn leak(s: &str) -> &'static str {
    Box::leak(s.to_string().into_boxed_str())
}

fn comments_of(plan: &DerivePlan) -> Vec<Comment> {
    plan.fields
        .iter()
        .map(|f| Comment {
            key: leak(&f.key),
            text: f.attrs.comment.as_deref().map(leak),
            children: Vec::new(),
        })
        .collect()
}

fn reading(src: &str) -> confkit::derive_input::DeriveReading {
    let tokens: proc_macro2::TokenStream = src.parse().unwrap();
    match confkit::derive_input::plan_derive_from_tokens(tokens) {
        Ok(reading) => reading,
        Err(_) => panic!("expected the input to parse"),
    }
}

fn plan_of(src: &str) -> DerivePlan {
    match reading(src).plan {
        Ok(plan) => plan,
        Err(_) => panic!("expected a plan"),
    }
}

#[test]
fn attribute_applies_comments() {
    let plan = plan_of(
        r#"struct TestStruct {
            text: String,
            #[detail(comment("This is a comment!"))]
            enabled: bool,
        }"#,
    );
    let result = generate_config_file("text = \"\"\nenabled = false\n".to_string(), comments_of(&plan)).unwrap();

    assert!(result.contains("enabled = false # This is a comment!"));
}

#[test]
fn attribute_sets_defaults() {
    let reading = reading(
        r#"struct TestStruct {
            text: String,
            #[detail(default = true)]
            enabled: bool,
        }"#,
    );
    let plan = match reading.plan {
        Ok(plan) => plan,
        Err(_) => panic!("expected a plan"),
    };
    let id = plan.fields[1].attrs.default.unwrap();
    let default = &reading.syntax.exprs[id];

    assert_eq!(quote::ToTokens::to_token_stream(default).to_string(), "true");
    assert_eq!(plan.fields[0].attrs.default, None);
}

#[test]
fn attribute_applies_nested_comments() {
    let nested_plan = plan_of(
        r#"struct Nested {
            #[detail(comment("This is a comment!"))]
            enabled: bool,
        }"#,
    );
    let outer = plan_of(
        r#"struct TestStruct {
            text: String,
            #[detail(nested)]
            nested: Nested,
        }"#,
    );
    assert!(outer.fields[1].attrs.nested);

    let comments = vec![
        Comment { key: "text", text: None, children: Vec::new() },
        Comment { key: "nested", text: None, children: comments_of(&nested_plan) },
    ];
    let result = generate_config_file("text = \"\"\n\n[nested]\nenabled = false\n".to_string(), comments).unwrap();

    assert!(result.contains("enabled = false # This is a comment!"));
}

#[test]
fn attribute_renames_config_file() {
    let plan = plan_of(
        r#"#[config(file = "renamed.toml")]
        struct TestStruct { text: String, enabled: bool }"#,
    );

    let config_path = format!("{}/{}", plan.dir_name, plan.file_name);

    assert_eq!(config_path, "teststruct/renamed.toml");
}

#[test]
fn attribute_renames_config_dir() {
    let plan = plan_of(
        r#"#[config(dir = "renamed_dir")]
        struct TestStruct { text: String, enabled: bool }"#,
    );

    assert_eq!(plan.dir_name, "renamed_dir");
}

#[test]
fn attribute_renames_dir_and_file() {
    let plan = plan_of(
        r#"#[config(dir = "renamed_dir", file = "renamed.toml")]
        struct TestStruct { text: String, enabled: bool }"#,
    );

    let config_path = format!("{}/{}", plan.dir_name, plan.file_name);

    assert_eq!(plan.dir_name, "renamed_dir");
    assert_eq!(config_path, "renamed_dir/renamed.toml");
}

#[test]
fn token_input_errors_point_at_the_syntax() {
    let reading = reading(
        r#"#[config(dir = 5, colour = "red")]
        struct TestStruct {
            #[serde(rename = "x")]
            a: u8,
            #[detail(nested, nested, comment(42))]
            b: u8,
        }"#,
    );
    let errors = match reading.plan {
        Err(errors) => errors,
        Ok(_) => panic!("expected errors"),
    };
    let messages: Vec<&str> = errors.iter().map(|n| n.message.as_str()).collect();
    assert_eq!(messages[0], "value must be a string");
    assert_eq!(messages[1], "unknown config option, expected `dir` or `file`");
    assert_eq!(messages[2], "unknown attribute, expected 'detail'");
    assert_eq!(messages[3], "found redundant use of the 'nested' option");
    assert_eq!(messages.len(), 5);
    for n in &errors {
        assert!(n.at < reading.syntax.origins.len());
    }
}

#[test]
fn token_input_enums_are_rejected() {
    let reading = reading("enum Choice { A, B }");
    match reading.plan {
        Err(errors) => {
            assert_eq!(errors.len(), 1);
            assert_eq!(errors[0].message, "Only structs are supported by confkit derive");
        },
        Ok(_) => panic!("expected an error"),
    }
}

#[test]
fn token_input_that_is_not_an_item_fails_to_parse() {
    let tokens: proc_macro2::TokenStream = "1 + 2".parse().unwrap();
    assert!(confkit::derive_input::plan_derive_from_tokens(tokens).is_err());
}

// ---------------------------------------------------------------------------

#[test]
fn default_location_is_lowercase_name_and_config_toml() {
    let plan = plan(Vec::new(), plain_fields());
    assert_eq!(plan.dir_name, "teststruct");
    assert_eq!(plan.file_name, "config.toml");
    assert_eq!(plan.fields.len(), 2);
    assert_eq!(plan.fields[0].key, "text");
    assert_eq!(plan.fields[1].key, "enabled");
}

#[test]
fn other_struct_attributes_are_ignored() {
    let plan = plan(vec![attr("derive", 1, vec![nested_item(2)])], plain_fields());
    assert_eq!(plan.dir_name, "teststruct");
}

#[test]
fn non_structs_are_rejected() {
    let result = plan_derive("Choice", 9, &Vec::new(), &None);
    match result {
        Err(errors) => assert_eq!(notes(errors), vec![(9, "Only structs are supported by confkit derive".to_string())]),
        Ok(_) => panic!("expected an error"),
    }
}

#[test]
fn field_attribute_errors_are_collected_in_order() {
    let fields = vec![
        field("a", vec![AttrItem { ident: Some("serde".to_string()), args: Ok(Vec::new()), at: 1 }]),
        field(
            "b",
            vec![attr(
                "detail",
                2,
                vec![
                    nested_item(3),
                    nested_item(4),
                    comment_item(5, "x"),
                    comment_item(6, "y"),
                    name_value("default", 7, 70, None),
                    name_value("default", 8, 80, None),
                    MetaItem { ident: Some("colour".to_string()), form: MetaForm::Path, at: 9 },
                ],
            )],
        ),
        field("c", vec![AttrItem { ident: Some("detail".to_string()), args: Err("expected `,`".to_string()), at: 10 }]),
        field(
            "d",
            vec![attr(
                "detail",
                11,
                vec![MetaItem {
                    ident: Some("comment".to_string()),
                    form: MetaForm::List(Err(ErrorNote { at: 12, message: "expected string literal".to_string() })),
                    at: 13,
                }],
            )],
        ),
    ];
    let errors = match parse_field_attrs(&fields) {
        Err(errors) => notes(errors),
        Ok(_) => panic!("expected errors"),
    };
    assert_eq!(
        errors,
        vec![
            (1, "unknown attribute, expected 'detail'".to_string()),
            (4, "found redundant use of the 'nested' option".to_string()),
            (6, "only one 'comment' option can be specified per field".to_string()),
            (8, "only one 'default' option can be specified per field".to_string()),
            (9, "unknown detail option, expected `default`, `comment', or 'nested'".to_string()),
            (10, "expected `,`".to_string()),
            (12, "expected string literal".to_string()),
        ]
    );
}

#[test]
fn field_attributes_are_read() {
    let fields = vec![field(
        "timeout",
        vec![attr("detail", 1, vec![name_value("default", 2, 20, None), comment_item(3, "Timeout"), nested_item(4)])],
    )];
    let infos = match parse_field_attrs(&fields) {
        Ok(infos) => infos,
        Err(_) => panic!("expected field information"),
    };
    assert_eq!(infos.len(), 1);
    assert_eq!(infos[0].key, "timeout");
    assert_eq!(infos[0].attrs.comment.as_deref(), Some("Timeout"));
    assert_eq!(infos[0].attrs.default, Some(20));
    assert!(infos[0].attrs.nested);
}

#[test]
fn struct_attribute_errors() {
    let attrs = vec![
        attr(
            "config",
            1,
            vec![
                name_value("dir", 2, 20, Some("a")),
                name_value("dir", 3, 30, None),
                name_value("colour", 4, 40, Some("red")),
                MetaItem { ident: Some("file".to_string()), form: MetaForm::Path, at: 5 },
            ],
        ),
        attr("config", 6, vec![name_value("file", 7, 70, Some("f.toml")), name_value("file", 8, 80, Some("g.toml"))]),
    ];
    let errors = match parse_struct_attrs(&attrs) {
        Err(errors) => notes(errors),
        Ok(_) => panic!("expected errors"),
    };
    assert_eq!(
        errors,
        vec![
            (3, "config dir name can only be specified once".to_string()),
            (3, "value must be a string".to_string()),
            (4, "unknown config option, expected `dir` or `file`".to_string()),
            (5, "unknown config option, expected `dir` or `file`".to_string()),
            (6, "config attribute can only be used once".to_string()),
            (8, "config file name can only be specified once".to_string()),
        ]
    );
}

#[test]
fn unparsable_config_arguments_end_the_reading() {
    let attrs = vec![
        attr("config", 1, vec![name_value("colour", 2, 20, Some("red"))]),
        AttrItem { ident: Some("config".to_string()), args: Err("unexpected token".to_string()), at: 3 },
        attr("config", 4, Vec::new()),
    ];
    let errors = match parse_struct_attrs(&attrs) {
        Err(errors) => notes(errors),
        Ok(_) => panic!("expected errors"),
    };
    assert_eq!(errors, vec![(3, "unexpected token".to_string())]);
}

#[test]
fn struct_and_field_errors_are_combined() {
    let attrs = vec![attr("config", 1, vec![name_value("dir", 2, 20, None)])];
    let fields = vec![field("a", vec![AttrItem { ident: Some("other".to_string()), args: Ok(Vec::new()), at: 3 }])];
    let errors = match plan_derive("S", 0, &attrs, &Some(fields)) {
        Err(errors) => notes(errors),
        Ok(_) => panic!("expected errors"),
    };
    assert_eq!(
        errors,
        vec![(2, "value must be a string".to_string()), (3, "unknown attribute, expected 'detail'".to_string())]
    );
}

#[test]
fn string_values() {
    assert_eq!(parse_string_expr(&Some("x".to_string()), 1).ok(), Some("x".to_string()));
    let err = parse_string_expr(&None, 4).unwrap_err();
    assert_eq!((err.at, err.message), (4, "value must be a string".to_string()));
}

#[test]
fn unicode_struct_names_are_lowercased() {
    let plan = plan_derive("ÄpfelConfig", 0, &Vec::new(), &Some(Vec::new()));
    match plan {
        Ok(plan) => assert_eq!(plan.dir_name, "äpfelconfig"),
        Err(_) => panic!("expected a plan"),
    }
}

#[test]
fn add_error_appends_after_the_old_errors() {
    let mut errors: Vec<ErrorNote> = Vec::new();
    confkit::derive_attrs::add_error(&mut errors, ErrorNote { at: 1, message: "first".to_string() });
    confkit::derive_attrs::add_error(&mut errors, ErrorNote { at: 2, message: "second".to_string() });
    assert_eq!(notes(errors), vec![(1, "first".to_string()), (2, "second".to_string())]);
}
