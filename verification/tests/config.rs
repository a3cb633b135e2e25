use test_each_file::config::{Parts, TestEachArgs};
use test_each_file::error::ConfigError;
use test_each_file::token::{write_tokens, Delimiter, Token};

fn word(text: &str) -> Token {
    Token::Ident(text.to_string())
}

fn punct(ch: char) -> Token {
    Token::Punct { ch, joint: false }
}

fn joint(ch: char) -> Token {
    Token::Punct { ch, joint: true }
}

fn literal(source: &str) -> Token {
    Token::Literal(source.to_string())
}

fn group(delimiter: Delimiter, tokens: Vec<Token>) -> Token {
    Token::Group { delimiter, tokens }
}

fn brackets(tokens: Vec<Token>) -> Token {
    group(Delimiter::Bracket, tokens)
}

fn arrow() -> Vec<Token> {
    vec![joint('='), punct('>')]
}

fn strings(items: &[&str]) -> Vec<String> {
    items.iter().map(|item| item.to_string()).collect()
}

fn join(parts: Vec<Vec<Token>>) -> Vec<Token> {
    parts.into_iter().flatten().collect()
}

/// `in "./resources" => check`
fn smallest() -> Vec<Token> {
    join(vec![vec![word("in"), literal("\"./resources\"")], arrow(), vec![word("check")]])
}

#[test]
fn reads_the_smallest_configuration() {
    assert_eq!(
        TestEachArgs::parse(&smallest()),
        Ok(TestEachArgs {
            path: "./resources".to_string(),
            module: None,
            function: "check".to_string(),
            extensions: vec![],
            attributes: vec![],
            async_fn: false,
        })
    );
}

#[test]
fn reads_extensions_and_a_module() {
    // for ["in", "out"] in "./complex" as complex => complex_test
    let input = join(vec![
        vec![
            word("for"),
            brackets(vec![literal("\"in\""), punct(','), literal("\"out\"")]),
            word("in"),
            literal("\"./complex\""),
            word("as"),
            word("complex"),
        ],
        arrow(),
        vec![word("complex_test")],
    ]);
    assert_eq!(
        TestEachArgs::parse(&input),
        Ok(TestEachArgs {
            path: "./complex".to_string(),
            module: Some("complex".to_string()),
            function: "complex_test".to_string(),
            extensions: strings(&["in", "out"]),
            attributes: vec![],
            async_fn: false,
        })
    );
}

#[test]
fn reads_attributes_and_async() {
    // #[tokio::test, cfg(feature = "slow")] async in "./res" => run
    let input = join(vec![
        vec![
            punct('#'),
            brackets(vec![
                word("tokio"),
                joint(':'),
                punct(':'),
                word("test"),
                punct(','),
                word("cfg"),
                group(
                    Delimiter::Parenthesis,
                    vec![word("feature"), punct('='), literal("\"slow\"")],
                ),
            ]),
            word("async"),
            word("in"),
            literal("\"./res\""),
        ],
        arrow(),
        vec![word("run")],
    ]);
    let parsed = TestEachArgs::parse(&input).unwrap();
    assert_eq!(parsed.attributes, strings(&["tokio :: test", "cfg (feature = \"slow\")"]));
    assert!(parsed.async_fn);
    assert_eq!(parsed.path, "./res");
    assert_eq!(parsed.function, "run");
}

#[test]
fn reads_a_closure_as_the_function() {
    // in "./res" => |c: &str| assert!(c.contains(" "))
    let input = join(vec![
        vec![word("in"), literal("\"./res\"")],
        arrow(),
        vec![
            punct('|'),
            word("c"),
            punct(':'),
            punct('&'),
            word("str"),
            punct('|'),
            word("assert"),
            punct('!'),
            group(
                Delimiter::Parenthesis,
                vec![
                    word("c"),
                    punct('.'),
                    word("contains"),
                    group(Delimiter::Parenthesis, vec![literal("\" \"")]),
                ],
            ),
        ],
    ]);
    let parsed = TestEachArgs::parse(&input).unwrap();
    assert_eq!(parsed.function, "| c : & str | assert ! (c . contains (\" \"))");
}

#[test]
fn the_values_of_the_literals_are_read() {
    // for [r"in", "o\u{75}t"] in "a\\b" => f
    let input = join(vec![
        vec![
            word("for"),
            brackets(vec![literal("r\"in\""), punct(','), literal("\"o\\u{75}t\"")]),
            word("in"),
            literal("\"a\\\\b\""),
        ],
        arrow(),
        vec![word("f")],
    ]);
    let parsed = TestEachArgs::parse(&input).unwrap();
    assert_eq!(parsed.extensions, strings(&["in", "out"]));
    assert_eq!(parsed.path, "a\\b");
}

#[test]
fn the_parts_are_kept_as_written() {
    let input = join(vec![
        vec![word("for"), brackets(vec![literal("\"in\"")]), word("in"), literal("\"./res\"")],
        arrow(),
        vec![word("f")],
    ]);
    assert_eq!(
        Parts::split(&input),
        Ok(Parts {
            attributes: vec![],
            async_fn: false,
            extensions: strings(&["\"in\""]),
            path: "\"./res\"".to_string(),
            module: None,
            function: "f".to_string(),
        })
    );
}

#[test]
fn an_empty_attribute_list_is_refused() {
    let input = join(vec![vec![punct('#'), brackets(vec![])], smallest()]);
    assert_eq!(TestEachArgs::parse(&input), Err(ConfigError::MissingAttributes));
}

#[test]
fn a_pound_without_brackets_is_refused() {
    let input = join(vec![vec![punct('#')], smallest()]);
    assert_eq!(TestEachArgs::parse(&input), Err(ConfigError::MissingAttributes));
    let round = join(vec![
        vec![punct('#'), group(Delimiter::Parenthesis, vec![word("test")])],
        smallest(),
    ]);
    assert_eq!(TestEachArgs::parse(&round), Err(ConfigError::MissingAttributes));
    assert_eq!(TestEachArgs::parse(&vec![punct('#')]), Err(ConfigError::MissingAttributes));
}

#[test]
fn a_stray_comma_among_the_attributes_is_refused() {
    for inner in [
        vec![word("a"), punct(',')],
        vec![punct(','), word("a")],
        vec![word("a"), punct(','), punct(','), word("b")],
        vec![punct(',')],
    ] {
        let input = join(vec![vec![punct('#'), brackets(inner)], smallest()]);
        assert_eq!(TestEachArgs::parse(&input), Err(ConfigError::MissingAttributes));
    }
}

#[test]
fn what_is_no_attribute_is_refused() {
    let input = join(vec![vec![punct('#'), brackets(vec![literal("42")])], smallest()]);
    assert_eq!(TestEachArgs::parse(&input), Err(ConfigError::MissingAttributes));
}

#[test]
fn async_without_attributes_is_refused() {
    let input = join(vec![vec![word("async")], smallest()]);
    assert_eq!(TestEachArgs::parse(&input), Err(ConfigError::AsyncWithoutAttributes));
}

#[test]
fn an_empty_extension_list_is_refused() {
    let input = join(vec![vec![word("for"), brackets(vec![])], smallest()]);
    assert_eq!(TestEachArgs::parse(&input), Err(ConfigError::MissingExtensions));
}

#[test]
fn a_malformed_extension_list_is_refused() {
    for inner in [
        vec![literal("\"in\""), punct(',')],
        vec![literal("\"in\""), literal("\"out\"")],
        vec![word("input")],
        vec![literal("\"in\""), punct(';'), literal("\"out\"")],
    ] {
        let input = join(vec![vec![word("for"), brackets(inner)], smallest()]);
        assert_eq!(TestEachArgs::parse(&input), Err(ConfigError::MissingExtensions));
    }
    let bare = join(vec![vec![word("for")], smallest()]);
    assert_eq!(TestEachArgs::parse(&bare), Err(ConfigError::MissingExtensions));
}

#[test]
fn an_extension_that_is_no_string_is_refused() {
    let input = join(vec![vec![word("for"), brackets(vec![literal("7")])], smallest()]);
    assert_eq!(TestEachArgs::parse(&input), Err(ConfigError::MissingExtensions));
}

#[test]
fn a_missing_in_is_refused() {
    let input = join(vec![vec![literal("\"./res\"")], arrow(), vec![word("f")]]);
    assert_eq!(TestEachArgs::parse(&input), Err(ConfigError::MissingIn));
    assert_eq!(TestEachArgs::parse(&vec![]), Err(ConfigError::MissingIn));
}

#[test]
fn a_missing_path_is_refused() {
    let input = join(vec![vec![word("in")], arrow(), vec![word("f")]]);
    assert_eq!(TestEachArgs::parse(&input), Err(ConfigError::MissingPath));
    assert_eq!(TestEachArgs::parse(&vec![word("in")]), Err(ConfigError::MissingPath));
}

#[test]
fn a_path_that_is_no_string_is_refused() {
    let input = join(vec![vec![word("in"), literal("12")], arrow(), vec![word("f")]]);
    assert_eq!(TestEachArgs::parse(&input), Err(ConfigError::MissingPath));
}

#[test]
fn a_missing_module_is_refused() {
    let input =
        join(vec![vec![word("in"), literal("\"./res\""), word("as")], arrow(), vec![word("f")]]);
    assert_eq!(TestEachArgs::parse(&input), Err(ConfigError::MissingModule));
    let reserved = join(vec![
        vec![word("in"), literal("\"./res\""), word("as"), word("mod")],
        arrow(),
        vec![word("f")],
    ]);
    assert_eq!(TestEachArgs::parse(&reserved), Err(ConfigError::MissingModule));
}

#[test]
fn a_missing_arrow_is_refused() {
    let input = vec![word("in"), literal("\"./res\""), word("f")];
    assert_eq!(TestEachArgs::parse(&input), Err(ConfigError::MissingArrow));
    let apart = vec![word("in"), literal("\"./res\""), punct('='), punct('>'), word("f")];
    assert_eq!(TestEachArgs::parse(&apart), Err(ConfigError::MissingArrow));
    let short = vec![word("in"), literal("\"./res\""), joint('=')];
    assert_eq!(TestEachArgs::parse(&short), Err(ConfigError::MissingArrow));
}

#[test]
fn a_missing_function_is_refused() {
    let input = join(vec![vec![word("in"), literal("\"./res\"")], arrow()]);
    assert_eq!(TestEachArgs::parse(&input), Err(ConfigError::MissingFunction));
}

#[test]
fn what_is_no_expression_is_refused() {
    let input =
        join(vec![vec![word("in"), literal("\"./res\"")], arrow(), vec![word("f"), word("g")]]);
    assert_eq!(TestEachArgs::parse(&input), Err(ConfigError::MissingFunction));
}

#[test]
fn the_way_it_is_written_is_checked_before_its_parts() {
    // The attribute is none, and the arrow is missing: the arrow is told.
    let input = vec![
        punct('#'),
        brackets(vec![literal("42")]),
        word("in"),
        literal("\"./res\""),
        word("f"),
    ];
    assert_eq!(TestEachArgs::parse(&input), Err(ConfigError::MissingArrow));
}

#[test]
fn from_parts_goes_by_what_it_is_told() {
    let parts = || Parts {
        attributes: strings(&["test", "ignore"]),
        async_fn: true,
        extensions: strings(&["\"in\"", "\"out\""]),
        path: "\"./res\"".to_string(),
        module: Some("m".to_string()),
        function: "f".to_string(),
    };
    let values = vec![Some("in".to_string()), Some("out".to_string())];
    let path = || Some("./res".to_string());
    assert_eq!(
        TestEachArgs::from_parts(parts(), &vec![true, true], &values, path(), true),
        Ok(TestEachArgs {
            path: "./res".to_string(),
            module: Some("m".to_string()),
            function: "f".to_string(),
            extensions: strings(&["in", "out"]),
            attributes: strings(&["test", "ignore"]),
            async_fn: true,
        })
    );
    assert_eq!(
        TestEachArgs::from_parts(parts(), &vec![true, false], &values, path(), true),
        Err(ConfigError::MissingAttributes)
    );
    assert_eq!(
        TestEachArgs::from_parts(parts(), &vec![true], &values, path(), true),
        Err(ConfigError::MissingAttributes)
    );
    assert_eq!(
        TestEachArgs::from_parts(
            parts(),
            &vec![true, true],
            &vec![Some("in".to_string()), None],
            path(),
            true
        ),
        Err(ConfigError::MissingExtensions)
    );
    assert_eq!(
        TestEachArgs::from_parts(parts(), &vec![true, true], &vec![], path(), true),
        Err(ConfigError::MissingExtensions)
    );
    assert_eq!(
        TestEachArgs::from_parts(parts(), &vec![true, true], &values, None, true),
        Err(ConfigError::MissingPath)
    );
    assert_eq!(
        TestEachArgs::from_parts(parts(), &vec![true, true], &values, path(), false),
        Err(ConfigError::MissingFunction)
    );
    assert_eq!(
        TestEachArgs::from_parts(parts(), &vec![false, true], &vec![None], None, false),
        Err(ConfigError::MissingAttributes)
    );
}

#[test]
fn tokens_are_written_with_blanks_between_them() {
    let tokens = vec![
        word("a"),
        joint(':'),
        punct(':'),
        word("b"),
        group(Delimiter::Parenthesis, vec![literal("1"), punct(','), literal("2")]),
        group(Delimiter::Brace, vec![]),
        group(Delimiter::Invisible, vec![word("x"), word("y")]),
        brackets(vec![joint('\''), word("a")]),
    ];
    assert_eq!(write_tokens(&tokens, 0, tokens.len()), "a :: b (1 , 2) {} x y ['a]");
    assert_eq!(write_tokens(&tokens, 1, 4), ":: b");
    assert_eq!(write_tokens(&tokens, 3, 3), "");
}
