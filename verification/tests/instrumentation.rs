use leptos_locatorjs::{
    add_locatorjs_id, add_locatorjs_id_to_block, add_locatorjs_id_to_expr,
    add_locatorjs_id_to_macro_tokens, Delim, FnItem, Stmt, Token,
};

fn ident(s: &str) -> Token {
    Token::Ident(s.to_string())
}

fn punct(c: char) -> Token {
    Token::Punct(c)
}

fn lit(s: &str) -> Token {
    Token::Literal(s.to_string())
}

fn attr_run(loc: &str) -> Vec<Token> {
    vec![
        ident("attr"),
        punct(':'),
        ident("data"),
        punct('-'),
        ident("locatorjs"),
        punct('-'),
        ident("id"),
        punct('='),
        lit(loc),
    ]
}

const LOC: &str = "src/app.rs::7";

fn markup_div_h2() -> Vec<Token> {
    vec![
        punct('<'),
        ident("div"),
        punct('>'),
        punct('<'),
        ident("h2"),
        punct('>'),
        lit("\"Hi\""),
        punct('<'),
        punct('/'),
        ident("h2"),
        punct('>'),
        punct('<'),
        punct('/'),
        ident("div"),
        punct('>'),
    ]
}

fn markup_div_h2_annotated() -> Vec<Token> {
    let mut v = vec![punct('<'), ident("div")];
    v.extend(attr_run(LOC));
    v.push(punct('>'));
    v.push(punct('<'));
    v.push(ident("h2"));
    v.extend(attr_run(LOC));
    v.push(punct('>'));
    v.push(lit("\"Hi\""));
    v.push(punct('<'));
    v.push(punct('/'));
    v.push(ident("h2"));
    v.push(punct('>'));
    v.push(punct('<'));
    v.push(punct('/'));
    v.push(ident("div"));
    v.push(punct('>'));
    v
}

#[test]
fn template_invocation_annotates_div_and_h2() {
    let input = vec![
        ident("view"),
        punct('!'),
        Token::Group(Delim::Brace, markup_div_h2()),
    ];
    let expected = vec![
        ident("view"),
        punct('!'),
        Token::Group(Delim::Brace, markup_div_h2_annotated()),
    ];
    let out = add_locatorjs_id_to_expr(input, &LOC.to_string());
    assert_eq!(out, expected);
}

#[test]
fn immediate_closing_pair_annotates_only_opening() {
    let input = vec![
        punct('<'),
        ident("div"),
        punct('>'),
        punct('<'),
        punct('/'),
        ident("div"),
        punct('>'),
    ];
    let mut expected = vec![punct('<'), ident("div")];
    expected.extend(attr_run(LOC));
    expected.push(punct('>'));
    expected.push(punct('<'));
    expected.push(punct('/'));
    expected.push(ident("div"));
    expected.push(punct('>'));
    let out = add_locatorjs_id_to_macro_tokens(input, &LOC.to_string());
    assert_eq!(out, expected);
}

#[test]
fn attribute_value_text_is_not_annotated() {
    let input = vec![
        punct('<'),
        ident("div"),
        ident("class"),
        punct('='),
        lit("\"div\""),
        punct('>'),
    ];
    let mut expected = vec![punct('<'), ident("div")];
    expected.extend(attr_run(LOC));
    expected.push(ident("class"));
    expected.push(punct('='));
    expected.push(lit("\"div\""));
    expected.push(punct('>'));
    let out = add_locatorjs_id_to_macro_tokens(input, &LOC.to_string());
    assert_eq!(out, expected);
}

#[test]
fn bare_tag_text_without_open_angle_is_not_annotated() {
    let input = vec![ident("div"), lit("\"div\""), ident("h2")];
    let expected = vec![ident("div"), lit("\"div\""), ident("h2")];
    let out = add_locatorjs_id_to_macro_tokens(input, &LOC.to_string());
    assert_eq!(out, expected);
}

#[test]
fn identifier_between_angle_and_tag_clears_the_window() {
    let input = vec![punct('<'), ident("other"), ident("div")];
    let expected = vec![punct('<'), ident("other"), ident("div")];
    let out = add_locatorjs_id_to_macro_tokens(input, &LOC.to_string());
    assert_eq!(out, expected);
}

#[test]
fn three_nested_groups_annotate_only_innermost() {
    let inner = vec![punct('<'), ident("h3"), punct('>')];
    let input = vec![Token::Group(
        Delim::Paren,
        vec![Token::Group(
            Delim::Bracket,
            vec![Token::Group(Delim::Brace, inner)],
        )],
    )];
    let mut inner_expected = vec![punct('<'), ident("h3")];
    inner_expected.extend(attr_run(LOC));
    inner_expected.push(punct('>'));
    let expected = vec![Token::Group(
        Delim::Paren,
        vec![Token::Group(
            Delim::Bracket,
            vec![Token::Group(Delim::Brace, inner_expected)],
        )],
    )];
    let out = add_locatorjs_id_to_macro_tokens(input, &LOC.to_string());
    assert_eq!(out, expected);
}

#[test]
fn window_does_not_cross_group_boundary() {
    // The `<` before the group must not make the group's own leading tag
    // count as opening: each group starts with a fresh window.
    let input = vec![
        punct('<'),
        Token::Group(Delim::Brace, vec![ident("div")]),
    ];
    let expected = vec![
        punct('<'),
        Token::Group(Delim::Brace, vec![ident("div")]),
    ];
    let out = add_locatorjs_id_to_macro_tokens(input, &LOC.to_string());
    assert_eq!(out, expected);
}

#[test]
fn literal_between_angle_and_tag_keeps_the_window() {
    // Only identifiers clear the lookback window; a literal does not, so
    // the tag still counts as opening.
    let input = vec![punct('<'), lit("\"x\""), ident("div")];
    let mut expected = vec![punct('<'), lit("\"x\""), ident("div")];
    expected.extend(attr_run(LOC));
    let out = add_locatorjs_id_to_macro_tokens(input, &LOC.to_string());
    assert_eq!(out, expected);
}

#[test]
fn template_name_without_bang_is_no_invocation() {
    let input = vec![
        ident("view"),
        Token::Group(Delim::Brace, vec![punct('<'), ident("div"), punct('>')]),
    ];
    let expected = vec![
        ident("view"),
        Token::Group(Delim::Brace, vec![punct('<'), ident("div"), punct('>')]),
    ];
    let out = add_locatorjs_id_to_expr(input, &LOC.to_string());
    assert_eq!(out, expected);
}

#[test]
fn empty_input_stays_empty() {
    let out = add_locatorjs_id_to_macro_tokens(Vec::new(), &LOC.to_string());
    assert_eq!(out, Vec::new());
}

fn deep_nesting(levels: usize) -> Vec<Token> {
    let mut v = vec![punct('<'), ident("div"), punct('>')];
    for _ in 0..levels {
        v = vec![Token::Group(Delim::Brace, v)];
    }
    v
}

#[test]
fn nesting_past_the_depth_guard_passes_through_unchanged() {
    let input = deep_nesting(70);
    let out = add_locatorjs_id_to_macro_tokens(input, &LOC.to_string());
    assert_eq!(out, deep_nesting(70));
}

#[test]
fn nesting_within_the_depth_guard_is_instrumented() {
    let input = deep_nesting(10);
    let out = add_locatorjs_id_to_macro_tokens(input, &LOC.to_string());
    let mut inner_expected = vec![punct('<'), ident("div")];
    inner_expected.extend(attr_run(LOC));
    inner_expected.push(punct('>'));
    let mut expected = inner_expected;
    for _ in 0..10 {
        expected = vec![Token::Group(Delim::Brace, expected)];
    }
    assert_eq!(out, expected);
}

#[test]
fn body_without_template_invocation_is_returned_identical() {
    let stmts = vec![
        Stmt::Binding(vec![
            ident("let"),
            ident("x"),
            punct('='),
            lit("2"),
            punct(';'),
        ]),
        Stmt::BareExpression(vec![ident("foo"), Token::Group(Delim::Paren, vec![])], true),
        Stmt::NestedItem(vec![ident("struct"), ident("S"), punct(';')]),
    ];
    let expected = vec![
        Stmt::Binding(vec![
            ident("let"),
            ident("x"),
            punct('='),
            lit("2"),
            punct(';'),
        ]),
        Stmt::BareExpression(vec![ident("foo"), Token::Group(Delim::Paren, vec![])], true),
        Stmt::NestedItem(vec![ident("struct"), ident("S"), punct(';')]),
    ];
    let out = add_locatorjs_id_to_block(stmts, &LOC.to_string());
    assert_eq!(out, expected);
}

#[test]
fn invocation_nested_in_a_binding_is_found() {
    let stmts = vec![Stmt::Binding(vec![
        ident("let"),
        ident("v"),
        punct('='),
        Token::Group(
            Delim::Brace,
            vec![
                ident("view"),
                punct('!'),
                Token::Group(Delim::Brace, markup_div_h2()),
            ],
        ),
        punct(';'),
    ])];
    let expected = vec![Stmt::Binding(vec![
        ident("let"),
        ident("v"),
        punct('='),
        Token::Group(
            Delim::Brace,
            vec![
                ident("view"),
                punct('!'),
                Token::Group(Delim::Brace, markup_div_h2_annotated()),
            ],
        ),
        punct(';'),
    ])];
    let out = add_locatorjs_id_to_block(stmts, &LOC.to_string());
    assert_eq!(out, expected);
}

#[test]
fn unrelated_invocation_is_left_alone() {
    let input = vec![
        ident("other"),
        punct('!'),
        Token::Group(Delim::Brace, vec![punct('<'), ident("div"), punct('>')]),
    ];
    let expected = vec![
        ident("other"),
        punct('!'),
        Token::Group(Delim::Brace, vec![punct('<'), ident("div"), punct('>')]),
    ];
    let out = add_locatorjs_id_to_expr(input, &LOC.to_string());
    assert_eq!(out, expected);
}

#[test]
fn function_header_passes_through_unchanged() {
    let item = FnItem {
        header: vec![
            punct('#'),
            Token::Group(Delim::Bracket, vec![ident("component")]),
            ident("pub"),
            ident("fn"),
            ident("Example"),
            Token::Group(Delim::Paren, vec![]),
        ],
        body: vec![Stmt::MacroInvocation(vec![
            ident("view"),
            punct('!'),
            Token::Group(Delim::Brace, markup_div_h2()),
        ])],
    };
    let out = add_locatorjs_id(item, &LOC.to_string());
    assert_eq!(
        out.header,
        vec![
            punct('#'),
            Token::Group(Delim::Bracket, vec![ident("component")]),
            ident("pub"),
            ident("fn"),
            ident("Example"),
            Token::Group(Delim::Paren, vec![]),
        ]
    );
    assert_eq!(
        out.body,
        vec![Stmt::MacroInvocation(vec![
            ident("view"),
            punct('!'),
            Token::Group(Delim::Brace, markup_div_h2_annotated()),
        ])]
    );
}
