//! What a test suite is generated from, and how it is written down.
//!
//! A configuration is written as
//!
//! ```text
//! [#[attribute, ...]] [async] [for ["extension", ...]] in "path" [as module] => function
//! ```

use crate::error::ConfigError;
use crate::ident::{is_reserved_word, reserved_word};
use crate::syntax::{
    attribute_syntax, expression_syntax, is_attribute, is_expression, literal_value, string_value,
};
use crate::text::{same_text, texts};
use crate::token::{source, token_views, write_tokens, Delimiter, Token, TokenView};
use vstd::prelude::*;
use vstd::string::*;

verus! {

/// The request for one test suite.
#[derive(Debug, PartialEq, Eq)]
pub struct TestEachArgs {
    /// The root directory.
    pub path: String,
    /// The module that holds the generated tests, if any.
    pub module: Option<String>,
    /// The function or closure that every test calls, as source text.
    pub function: String,
    /// The extensions of the files that make up one test, in the order in
    /// which the function takes them; empty where every file is a test.
    pub extensions: Vec<String>,
    /// The attributes that every test gets, each as source text.
    pub attributes: Vec<String>,
    /// Whether the tests await the call.
    pub async_fn: bool,
}

/// [`TestEachArgs`] with its texts as sequences of characters.
pub ghost struct ArgsView {
    pub path: Seq<char>,
    pub module: Option<Seq<char>>,
    pub function: Seq<char>,
    pub extensions: Seq<Seq<char>>,
    pub attributes: Seq<Seq<char>>,
    pub async_fn: bool,
}

impl View for TestEachArgs {
    type V = ArgsView;

    open spec fn view(&self) -> ArgsView {
        ArgsView {
            path: self.path@,
            module: match self.module {
                Some(name) => Some(name@),
                None => None,
            },
            function: self.function@,
            extensions: texts(self.extensions@),
            attributes: texts(self.attributes@),
            async_fn: self.async_fn,
        }
    }
}

/// The parts of a configuration as they were written: the attributes, the
/// extensions, the path and the function as source text.
#[derive(Debug, PartialEq, Eq)]
pub struct Parts {
    pub attributes: Vec<String>,
    pub async_fn: bool,
    pub extensions: Vec<String>,
    pub path: String,
    pub module: Option<String>,
    pub function: String,
}

/// [`Parts`] with its texts as sequences of characters.
pub ghost struct PartsView {
    pub attributes: Seq<Seq<char>>,
    pub async_fn: bool,
    pub extensions: Seq<Seq<char>>,
    pub path: Seq<char>,
    pub module: Option<Seq<char>>,
    pub function: Seq<char>,
}

impl View for Parts {
    type V = PartsView;

    open spec fn view(&self) -> PartsView {
        PartsView {
            attributes: texts(self.attributes@),
            async_fn: self.async_fn,
            extensions: texts(self.extensions@),
            path: self.path@,
            module: match self.module {
                Some(name) => Some(name@),
                None => None,
            },
            function: self.function@,
        }
    }
}

/// A request is valid where tests that await have an attribute: without
/// one nothing would run them.
pub open spec fn valid(args: ArgsView) -> bool {
    args.async_fn ==> args.attributes.len() > 0
}

/// Whether the token at `at` is the word `word`.
pub open spec fn word_at(tokens: Seq<TokenView>, at: int, word: Seq<char>) -> bool {
    0 <= at < tokens.len() && tokens[at] == TokenView::Ident(word)
}

/// Whether the token at `at` is the punctuation `ch`.
pub open spec fn punct_at(tokens: Seq<TokenView>, at: int, ch: char) -> bool {
    0 <= at < tokens.len() && tokens[at] is Punct && tokens[at]->ch == ch
}

/// Whether the token at `at` is a group in square brackets.
pub open spec fn bracketed_at(tokens: Seq<TokenView>, at: int) -> bool {
    0 <= at < tokens.len() && tokens[at] is Group && tokens[at]->delimiter == Delimiter::Bracket
}

/// Where the run of tokens begins that the position `n` belongs to: after
/// the last comma before `n`.
pub open spec fn run_start(tokens: Seq<TokenView>, n: int) -> int
    decreases n,
{
    if n <= 0 || n > tokens.len() {
        0
    } else if punct_at(tokens, n - 1, ',') {
        n
    } else {
        run_start(tokens, n - 1)
    }
}

/// The source texts of the runs that a comma closes among the first `n`
/// tokens; nothing where one of these runs is empty.
pub open spec fn closed_runs(tokens: Seq<TokenView>, n: int) -> Option<Seq<Seq<char>>>
    decreases n,
{
    if n <= 0 || n > tokens.len() {
        Some(Seq::empty())
    } else {
        match closed_runs(tokens, n - 1) {
            None => None,
            Some(runs) => if punct_at(tokens, n - 1, ',') {
                if run_start(tokens, n - 1) == n - 1 {
                    None
                } else {
                    Some(runs.push(source(tokens.subrange(run_start(tokens, n - 1), n - 1))))
                }
            } else {
                Some(runs)
            },
        }
    }
}

/// The source texts of the runs of tokens between the commas of `tokens`;
/// nothing where a run is empty, as it is before a comma in front, after
/// a comma at the end, between two commas, and where there is no token at
/// all.
pub open spec fn separated(tokens: Seq<TokenView>) -> Option<Seq<Seq<char>>> {
    let n = tokens.len() as int;
    match closed_runs(tokens, n) {
        None => None,
        Some(runs) => if run_start(tokens, n) == n {
            None
        } else {
            Some(runs.push(source(tokens.subrange(run_start(tokens, n), n))))
        },
    }
}

/// Whether `tokens` is a list of literals with a comma between each two,
/// and holds one literal at least.
pub open spec fn literal_list(tokens: Seq<TokenView>) -> bool {
    &&& tokens.len() % 2 == 1
    &&& forall|i: int|
        0 <= i < tokens.len() ==> if i % 2 == 0 {
            (#[trigger] tokens[i]) is Literal
        } else {
            punct_at(tokens, i, ',')
        }
}

/// The literals of a list of literals, as they were written.
pub open spec fn listed_literals(tokens: Seq<TokenView>) -> Seq<Seq<char>> {
    Seq::new(((tokens.len() + 1) / 2) as nat, |k: int| tokens[2 * k]->Literal_0)
}

/// Where the tokens go on after the attributes.
pub open spec fn after_attributes(tokens: Seq<TokenView>) -> int {
    if punct_at(tokens, 0, '#') {
        2
    } else {
        0
    }
}

/// Where the tokens go on after `async`.
pub open spec fn after_async(tokens: Seq<TokenView>) -> int {
    let at = after_attributes(tokens);
    if word_at(tokens, at, "async"@) {
        at + 1
    } else {
        at
    }
}

/// Where the tokens go on after the extensions.
pub open spec fn after_extensions(tokens: Seq<TokenView>) -> int {
    let at = after_async(tokens);
    if word_at(tokens, at, "for"@) {
        at + 2
    } else {
        at
    }
}

/// Where the tokens go on after the module.
pub open spec fn after_module(tokens: Seq<TokenView>) -> int {
    let at = after_extensions(tokens) + 2;
    if word_at(tokens, at, "as"@) {
        at + 2
    } else {
        at
    }
}

/// The attributes as they were written: those in the brackets after `#`
/// where the tokens begin with `#`, else none.
pub open spec fn written_attributes(tokens: Seq<TokenView>) -> Result<Seq<Seq<char>>, ConfigError> {
    if punct_at(tokens, 0, '#') {
        if bracketed_at(tokens, 1) {
            match separated(tokens[1]->Group_tokens) {
                Some(attributes) => Ok(attributes),
                None => Err(ConfigError::MissingAttributes),
            }
        } else {
            Err(ConfigError::MissingAttributes)
        }
    } else {
        Ok(Seq::empty())
    }
}

/// The extensions as they were written: the literals in the brackets
/// after `for` where there is a `for`, else none.
pub open spec fn written_extensions(tokens: Seq<TokenView>) -> Result<Seq<Seq<char>>, ConfigError> {
    let at = after_async(tokens);
    if word_at(tokens, at, "for"@) {
        if bracketed_at(tokens, at + 1) && literal_list(tokens[at + 1]->Group_tokens) {
            Ok(listed_literals(tokens[at + 1]->Group_tokens))
        } else {
            Err(ConfigError::MissingExtensions)
        }
    } else {
        Ok(Seq::empty())
    }
}

/// The module as it was written: the word after `as` where there is an
/// `as`, else none. A reserved word is no name for a module.
pub open spec fn written_module(tokens: Seq<TokenView>) -> Result<Option<Seq<char>>, ConfigError> {
    let at = after_extensions(tokens) + 2;
    if word_at(tokens, at, "as"@) {
        if at + 1 < tokens.len() && tokens[at + 1] is Ident && !reserved_word(
            tokens[at + 1]->Ident_0,
        ) {
            Ok(Some(tokens[at + 1]->Ident_0))
        } else {
            Err(ConfigError::MissingModule)
        }
    } else {
        Ok(None)
    }
}

/// The parts of the configuration that `tokens` is, or the first thing
/// that is wrong with it.
pub open spec fn split(tokens: Seq<TokenView>) -> Result<PartsView, ConfigError> {
    let for_at = after_async(tokens);
    let in_at = after_extensions(tokens);
    let arrow_at = after_module(tokens);
    match written_attributes(tokens) {
        Err(e) => Err(e),
        Ok(attributes) => if word_at(tokens, after_attributes(tokens), "async"@)
            && attributes.len() == 0 {
            Err(ConfigError::AsyncWithoutAttributes)
        } else {
            match written_extensions(tokens) {
                Err(e) => Err(e),
                Ok(extensions) => if !word_at(tokens, in_at, "in"@) {
                    Err(ConfigError::MissingIn)
                } else if !(in_at + 1 < tokens.len() && tokens[in_at + 1] is Literal) {
                    Err(ConfigError::MissingPath)
                } else {
                    match written_module(tokens) {
                        Err(e) => Err(e),
                        Ok(module) => if !(tokens.len() > arrow_at + 1 && tokens[arrow_at]
                            == (TokenView::Punct { ch: '=', joint: true }) && punct_at(
                            tokens,
                            arrow_at + 1,
                            '>',
                        )) {
                            Err(ConfigError::MissingArrow)
                        } else if tokens.len() == arrow_at + 2 {
                            Err(ConfigError::MissingFunction)
                        } else {
                            Ok(
                                PartsView {
                                    attributes,
                                    async_fn: word_at(tokens, after_attributes(tokens), "async"@),
                                    extensions,
                                    path: tokens[in_at + 1]->Literal_0,
                                    module,
                                    function: source(
                                        tokens.subrange(arrow_at + 2, tokens.len() as int),
                                    ),
                                },
                            )
                        },
                    }
                },
            }
        },
    }
}

/// Whether the attribute at `i` was not accepted as one.
pub open spec fn refused_attribute(parts: PartsView, attributes_ok: Seq<bool>, i: int) -> bool {
    0 <= i < parts.attributes.len() && !(i < attributes_ok.len() && attributes_ok[i])
}

/// Whether the extension at `i` is no string literal.
pub open spec fn refused_extension(
    parts: PartsView,
    extension_values: Seq<Option<Seq<char>>>,
    i: int,
) -> bool {
    0 <= i < parts.extensions.len() && !(i < extension_values.len() && extension_values[i] is Some)
}

/// What the checks outside this grammar make of the parts: the request,
/// with the values that the literals stand for, or the first part that
/// was not accepted. `attributes_ok` says of each attribute whether it is
/// one, `extension_values` and `path_value` give what the literals stand
/// for where they are string literals, and `function_ok` says whether the
/// function is an expression.
pub open spec fn assembled(
    parts: PartsView,
    attributes_ok: Seq<bool>,
    extension_values: Seq<Option<Seq<char>>>,
    path_value: Option<Seq<char>>,
    function_ok: bool,
) -> Result<ArgsView, ConfigError> {
    if exists|i: int| refused_attribute(parts, attributes_ok, i) {
        Err(ConfigError::MissingAttributes)
    } else if exists|i: int| refused_extension(parts, extension_values, i) {
        Err(ConfigError::MissingExtensions)
    } else if path_value is None {
        Err(ConfigError::MissingPath)
    } else if !function_ok {
        Err(ConfigError::MissingFunction)
    } else {
        Ok(
            ArgsView {
                path: path_value->0,
                module: parts.module,
                function: parts.function,
                extensions: Seq::new(parts.extensions.len(), |i: int| extension_values[i]->0),
                attributes: parts.attributes,
                async_fn: parts.async_fn,
            },
        )
    }
}

/// The request that `tokens` is, or the first thing that is wrong with
/// it: with the way it is written, or else with one of its parts.
pub open spec fn parsed(tokens: Seq<TokenView>) -> Result<ArgsView, ConfigError> {
    match split(tokens) {
        Err(e) => Err(e),
        Ok(parts) => assembled(
            parts,
            parts.attributes.map_values(|text: Seq<char>| attribute_syntax(text)),
            parts.extensions.map_values(|text: Seq<char>| literal_value(text)),
            literal_value(parts.path),
            expression_syntax(parts.function),
        ),
    }
}

fn is_word_at(tokens: &Vec<Token>, at: usize, word: &str) -> (found: bool)
    ensures
        found == word_at(token_views(tokens@), at as int, word@),
{
    if at < tokens.len() {
        match &tokens[at] {
            Token::Ident(name) => same_text(name.as_str(), word),
            _ => false,
        }
    } else {
        false
    }
}

fn is_punct_at(tokens: &Vec<Token>, at: usize, wanted: char) -> (found: bool)
    ensures
        found == punct_at(token_views(tokens@), at as int, wanted),
{
    if at < tokens.len() {
        match &tokens[at] {
            Token::Punct { ch, joint } => *ch == wanted,
            _ => false,
        }
    } else {
        false
    }
}

fn bracketed<'a>(tokens: &'a Vec<Token>, at: usize) -> (inner: Option<&'a Vec<Token>>)
    ensures
        inner is Some == bracketed_at(token_views(tokens@), at as int),
        inner matches Some(group) ==> token_views(tokens@)[at as int]->Group_tokens == token_views(
            group@,
        ),
{
    if at < tokens.len() {
        match &tokens[at] {
            Token::Group { delimiter, tokens: group } => {
                assert(tokens@[at as int]@->Group_tokens =~= token_views(group@));
                match delimiter {
                    Delimiter::Bracket => Some(group),
                    _ => None,
                }
            },
            _ => None,
        }
    } else {
        None
    }
}

fn separate(tokens: &Vec<Token>) -> (runs: Option<Vec<String>>)
    ensures
        match runs {
            Some(list) => separated(token_views(tokens@)) == Some(texts(list@)),
            None => separated(token_views(tokens@)) is None,
        },
{
    let ghost row = token_views(tokens@);
    let mut list: Vec<String> = Vec::new();
    let mut start: usize = 0;
    let mut i: usize = 0;
    assert(texts(list@) =~= Seq::empty());
    while i < tokens.len()
        invariant
            i <= tokens.len(),
            row == token_views(tokens@),
            start == run_start(row, i as int),
            start <= i,
            closed_runs(row, i as int) == Some(texts(list@)),
        decreases tokens.len() - i,
    {
        if is_punct_at(tokens, i, ',') {
            if start == i {
                proof {
                    closed_runs_stay_open(row, i + 1, row.len() as int);
                }
                return None;
            }
            let run = write_tokens(tokens, start, i);
            let ghost before = list@;
            list.push(run);
            assert(texts(list@) =~= texts(before).push(run@));
            start = i + 1;
        }
        i += 1;
    }
    if start == tokens.len() {
        return None;
    }
    let run = write_tokens(tokens, start, tokens.len());
    let ghost before = list@;
    list.push(run);
    assert(texts(list@) =~= texts(before).push(run@));
    Some(list)
}

/// An empty run among the first `k` tokens is one among any more.
proof fn closed_runs_stay_open(tokens: Seq<TokenView>, k: int, n: int)
    requires
        0 <= k <= n <= tokens.len(),
        closed_runs(tokens, k) is None,
    ensures
        closed_runs(tokens, n) is None,
    decreases n,
{
    if k < n {
        closed_runs_stay_open(tokens, k, n - 1);
    }
}

fn literals(tokens: &Vec<Token>) -> (found: Option<Vec<String>>)
    ensures
        found is Some == literal_list(token_views(tokens@)),
        found matches Some(list) ==> texts(list@) == listed_literals(token_views(tokens@)),
{
    let ghost row = token_views(tokens@);
    if tokens.len() % 2 == 0 {
        return None;
    }
    let mut list: Vec<String> = Vec::new();
    let mut i: usize = 0;
    while i < tokens.len()
        invariant
            i <= tokens.len(),
            row == token_views(tokens@),
            tokens.len() % 2 == 1,
            list.len() == (i + 1) / 2,
            forall|k: int| 0 <= k < list.len() ==> (#[trigger] list@[k])@ == row[2 * k]->Literal_0,
            forall|j: int|
                0 <= j < i ==> if j % 2 == 0 {
                    (#[trigger] row[j]) is Literal
                } else {
                    punct_at(row, j, ',')
                },
        decreases tokens.len() - i,
    {
        if i % 2 == 0 {
            match &tokens[i] {
                Token::Literal(text) => {
                    list.push(text.clone());
                },
                _ => {
                    assert(!(row[i as int] is Literal));
                    return None;
                },
            }
        } else {
            if !is_punct_at(tokens, i, ',') {
                return None;
            }
        }
        i += 1;
    }
    assert(texts(list@) =~= listed_literals(row));
    Some(list)
}

impl Parts {
    /// Takes a configuration apart as the grammar says, and tells the
    /// first thing in which it does not follow the grammar.
    pub fn split(input: &Vec<Token>) -> (result: Result<Parts, ConfigError>)
        ensures
            match result {
                Ok(parts) => split(token_views(input@)) == Ok::<PartsView, ConfigError>(parts@),
                Err(e) => split(token_views(input@)) == Err::<PartsView, ConfigError>(e),
            },
    {
        let ghost tokens = token_views(input@);
        let mut at: usize = 0;
        let attributes = if is_punct_at(input, 0, '#') {
            at = 2;
            match bracketed(input, 1) {
                Some(group) => match separate(group) {
                    Some(attributes) => attributes,
                    None => {
                        return Err(ConfigError::MissingAttributes);
                    },
                },
                None => {
                    return Err(ConfigError::MissingAttributes);
                },
            }
        } else {
            Vec::new()
        };
        assert(written_attributes(tokens) == Ok::<Seq<Seq<char>>, ConfigError>(
            texts(attributes@),
        )) by {
            assert(texts(Seq::<String>::empty()) =~= Seq::empty());
        }
        let async_fn = is_word_at(input, at, "async");
        if async_fn {
            if attributes.len() == 0 {
                return Err(ConfigError::AsyncWithoutAttributes);
            }
            at += 1;
        }
        assert(at == after_async(tokens));
        let extensions = if is_word_at(input, at, "for") {
            let found = match bracketed(input, at + 1) {
                Some(group) => literals(group),
                None => None,
            };
            at += 2;
            match found {
                Some(extensions) => extensions,
                None => {
                    return Err(ConfigError::MissingExtensions);
                },
            }
        } else {
            Vec::new()
        };
        assert(written_extensions(tokens) == Ok::<Seq<Seq<char>>, ConfigError>(
            texts(extensions@),
        )) by {
            assert(texts(Seq::<String>::empty()) =~= Seq::empty());
        }
        assert(at == after_extensions(tokens));
        if !is_word_at(input, at, "in") {
            return Err(ConfigError::MissingIn);
        }
        if at + 1 >= input.len() {
            return Err(ConfigError::MissingPath);
        }
        let path = match &input[at + 1] {
            Token::Literal(text) => text.clone(),
            _ => {
                return Err(ConfigError::MissingPath);
            },
        };
        at += 2;
        let module = if is_word_at(input, at, "as") {
            if at + 1 >= input.len() {
                return Err(ConfigError::MissingModule);
            }
            let name = match &input[at + 1] {
                Token::Ident(name) => name,
                _ => {
                    return Err(ConfigError::MissingModule);
                },
            };
            if is_reserved_word(name.as_str()) {
                return Err(ConfigError::MissingModule);
            }
            at += 2;
            Some(name.clone())
        } else {
            None
        };
        assert(at == after_module(tokens));
        if at + 1 >= input.len() {
            return Err(ConfigError::MissingArrow);
        }
        let arrow = match &input[at] {
            Token::Punct { ch, joint } => *ch == '=' && *joint,
            _ => false,
        };
        if !arrow || !is_punct_at(input, at + 1, '>') {
            return Err(ConfigError::MissingArrow);
        }
        if at + 2 == input.len() {
            return Err(ConfigError::MissingFunction);
        }
        let function = write_tokens(input, at + 2, input.len());
        Ok(Parts { attributes, async_fn, extensions, path, module, function })
    }
}

impl TestEachArgs {
    /// Makes the request from the parts of a configuration and from what
    /// was found of each part: whether each attribute is one, what each
    /// extension and the path stand for where they are string literals,
    /// and whether the function is an expression.
    #[verifier::loop_isolation(false)]
    pub fn from_parts(
        parts: Parts,
        attributes_ok: &Vec<bool>,
        extension_values: &Vec<Option<String>>,
        path_value: Option<String>,
        function_ok: bool,
    ) -> (result: Result<TestEachArgs, ConfigError>)
        ensures
            match result {
                Ok(args) => assembled(
                    parts@,
                    attributes_ok@,
                    option_texts(extension_values@),
                    option_text(path_value),
                    function_ok,
                ) == Ok::<ArgsView, ConfigError>(args@),
                Err(e) => assembled(
                    parts@,
                    attributes_ok@,
                    option_texts(extension_values@),
                    option_text(path_value),
                    function_ok,
                ) == Err::<ArgsView, ConfigError>(e),
            },
    {
        let ghost values = option_texts(extension_values@);
        let mut i: usize = 0;
        while i < parts.attributes.len()
            invariant
                i <= parts.attributes.len(),
                forall|j: int| 0 <= j < i ==> !refused_attribute(parts@, attributes_ok@, j),
            decreases parts.attributes.len() - i,
        {
            if i >= attributes_ok.len() || !attributes_ok[i] {
                assert(refused_attribute(parts@, attributes_ok@, i as int));
                return Err(ConfigError::MissingAttributes);
            }
            i += 1;
        }
        assert(forall|j: int| !refused_attribute(parts@, attributes_ok@, j));
        let mut extensions: Vec<String> = Vec::new();
        let mut k: usize = 0;
        while k < parts.extensions.len()
            invariant
                k <= parts.extensions.len(),
                values == option_texts(extension_values@),
                extensions.len() == k,
                forall|j: int| 0 <= j < k ==> !refused_extension(parts@, values, j),
                forall|j: int| 0 <= j < k ==> (#[trigger] extensions@[j])@ == values[j]->0,
            decreases parts.extensions.len() - k,
        {
            if k >= extension_values.len() {
                assert(refused_extension(parts@, values, k as int));
                return Err(ConfigError::MissingExtensions);
            }
            match &extension_values[k] {
                Some(value) => {
                    extensions.push(value.clone());
                },
                None => {
                    assert(refused_extension(parts@, values, k as int));
                    return Err(ConfigError::MissingExtensions);
                },
            }
            assert(!refused_extension(parts@, values, k as int));
            k += 1;
        }
        assert(forall|j: int| !refused_extension(parts@, values, j));
        let path = match path_value {
            Some(path) => path,
            None => {
                return Err(ConfigError::MissingPath);
            },
        };
        if !function_ok {
            return Err(ConfigError::MissingFunction);
        }
        let args = TestEachArgs {
            path,
            module: parts.module,
            function: parts.function,
            extensions,
            attributes: parts.attributes,
            async_fn: parts.async_fn,
        };
        assert(args@.extensions =~= Seq::new(parts@.extensions.len(), |i: int| values[i]->0));
        Ok(args)
    }

    /// Reads a configuration: takes it apart as the grammar says, has
    /// each attribute, each extension, the path and the function checked
    /// against the syntax of Rust, and makes the request from what was
    /// found.
    pub fn parse(input: &Vec<Token>) -> (result: Result<TestEachArgs, ConfigError>)
        ensures
            match result {
                Ok(args) => parsed(token_views(input@)) == Ok::<ArgsView, ConfigError>(args@)
                    && valid(args@),
                Err(e) => parsed(token_views(input@)) == Err::<ArgsView, ConfigError>(e),
            },
    {
        let parts = match Parts::split(input) {
            Ok(parts) => parts,
            Err(e) => {
                return Err(e);
            },
        };
        let mut attributes_ok: Vec<bool> = Vec::new();
        let mut i: usize = 0;
        while i < parts.attributes.len()
            invariant
                i <= parts.attributes.len(),
                attributes_ok@ == parts@.attributes.map_values(
                    |text: Seq<char>| attribute_syntax(text),
                ).take(i as int),
            decreases parts.attributes.len() - i,
        {
            let ok = is_attribute(parts.attributes[i].as_str());
            attributes_ok.push(ok);
            assert(attributes_ok@ =~= parts@.attributes.map_values(
                |text: Seq<char>| attribute_syntax(text),
            ).take(i + 1));
            i += 1;
        }
        let mut extension_values: Vec<Option<String>> = Vec::new();
        let mut k: usize = 0;
        while k < parts.extensions.len()
            invariant
                k <= parts.extensions.len(),
                option_texts(extension_values@) == parts@.extensions.map_values(
                    |text: Seq<char>| literal_value(text),
                ).take(k as int),
            decreases parts.extensions.len() - k,
        {
            let value = string_value(parts.extensions[k].as_str());
            assert(option_text(value) == literal_value(parts@.extensions[k as int]));
            let ghost before = extension_values@;
            extension_values.push(value);
            assert(option_texts(extension_values@) =~= option_texts(before).push(
                option_text(value),
            ));
            assert(option_texts(extension_values@) =~= parts@.extensions.map_values(
                |text: Seq<char>| literal_value(text),
            ).take(k + 1));
            k += 1;
        }
        let path_value = string_value(parts.path.as_str());
        let function_ok = is_expression(parts.function.as_str());
        proof {
            let checked = parts@.attributes.map_values(|text: Seq<char>| attribute_syntax(text));
            let values = parts@.extensions.map_values(|text: Seq<char>| literal_value(text));
            assert(checked.take(checked.len() as int) == checked);
            assert(values.take(values.len() as int) == values);
            split_is_valid(token_views(input@));
        }
        TestEachArgs::from_parts(parts, &attributes_ok, &extension_values, path_value, function_ok)
    }
}

/// The text of a string that may be missing.
pub open spec fn option_text(value: Option<String>) -> Option<Seq<char>> {
    match value {
        Some(text) => Some(text@),
        None => None,
    }
}

/// The texts of a row of strings that may be missing.
pub open spec fn option_texts(row: Seq<Option<String>>) -> Seq<Option<Seq<char>>> {
    row.map_values(|value: Option<String>| option_text(value))
}

/// A configuration with `async` and without an attribute is refused, so
/// what is read is valid.
pub proof fn split_is_valid(tokens: Seq<TokenView>)
    ensures
        split(tokens) matches Ok(parts) ==> (parts.async_fn ==> parts.attributes.len() > 0),
{
}

} // verus!
