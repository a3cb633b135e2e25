//! The tokens that a configuration is written in.

use crate::text::texts;
use vstd::prelude::*;
use vstd::string::*;

verus! {

/// The brackets around a group of tokens.
#[derive(Clone, Copy, Debug, PartialEq, Eq, Structural)]
pub enum Delimiter {
    /// `( ... )`
    Parenthesis,
    /// `{ ... }`
    Brace,
    /// `[ ... ]`
    Bracket,
    /// No brackets at all.
    Invisible,
}

/// One token.
#[derive(Debug, PartialEq, Eq)]
pub enum Token {
    /// A word: an identifier or a keyword.
    Ident(String),
    /// One character of punctuation. It is `joint` where the next token is
    /// punctuation too and follows it at once, as the `=` of `=>` does.
    Punct { ch: char, joint: bool },
    /// A literal, as it was written.
    Literal(String),
    /// The tokens between a pair of brackets.
    Group { delimiter: Delimiter, tokens: Vec<Token> },
}

/// A [`Token`] with its texts as sequences of characters.
pub ghost enum TokenView {
    Ident(Seq<char>),
    Punct { ch: char, joint: bool },
    Literal(Seq<char>),
    Group { delimiter: Delimiter, tokens: Seq<TokenView> },
}

impl Token {
    pub open spec fn view(&self) -> TokenView
        decreases self,
    {
        match self {
            Token::Ident(word) => TokenView::Ident(word@),
            Token::Punct { ch, joint } => TokenView::Punct { ch: *ch, joint: *joint },
            Token::Literal(source) => TokenView::Literal(source@),
            Token::Group { delimiter, tokens } => TokenView::Group {
                delimiter: *delimiter,
                tokens: Seq::new(
                    tokens.len() as nat,
                    |i: int|
                        if 0 <= i < tokens.len() {
                            tokens[i]@
                        } else {
                            arbitrary()
                        },
                ),
            },
        }
    }
}

/// The tokens of a row, each as its view.
pub open spec fn token_views(row: Seq<Token>) -> Seq<TokenView> {
    Seq::new(row.len(), |i: int| row[i]@)
}

/// What opens a group.
pub open spec fn opening(delimiter: Delimiter) -> Seq<char> {
    match delimiter {
        Delimiter::Parenthesis => seq!['('],
        Delimiter::Brace => seq!['{'],
        Delimiter::Bracket => seq!['['],
        Delimiter::Invisible => Seq::empty(),
    }
}

/// What closes a group.
pub open spec fn closing(delimiter: Delimiter) -> Seq<char> {
    match delimiter {
        Delimiter::Parenthesis => seq![')'],
        Delimiter::Brace => seq!['}'],
        Delimiter::Bracket => seq![']'],
        Delimiter::Invisible => Seq::empty(),
    }
}

/// Whether the token is punctuation that the next token follows at once.
pub open spec fn joins(token: TokenView) -> bool {
    token matches TokenView::Punct { joint, .. } && joint
}

/// The source text of the first `n` tokens: the tokens one after the
/// other, with a blank between two of them unless the first is joint.
pub open spec fn source_first(tokens: Seq<TokenView>, n: nat) -> Seq<char>
    decreases tokens, n,
{
    if n == 0 || n > tokens.len() {
        Seq::empty()
    } else {
        let before = source_first(tokens, (n - 1) as nat);
        let gap: Seq<char> = if n == 1 || joins(tokens[n - 2]) {
            Seq::empty()
        } else {
            seq![' ']
        };
        let token = match tokens[n - 1] {
            TokenView::Ident(word) => word,
            TokenView::Punct { ch, .. } => seq![ch],
            TokenView::Literal(source) => source,
            TokenView::Group { delimiter, tokens: inner } => opening(delimiter) + source_first(
                inner,
                inner.len(),
            ) + closing(delimiter),
        };
        before + gap + token
    }
}

/// The source text of a row of tokens.
pub open spec fn source(tokens: Seq<TokenView>) -> Seq<char> {
    source_first(tokens, tokens.len())
}

/// Writes the tokens `from..to` of a row as source text.
pub fn write_tokens(tokens: &Vec<Token>, from: usize, to: usize) -> (text: String)
    requires
        from <= to <= tokens.len(),
    ensures
        text@ == source(token_views(tokens@).subrange(from as int, to as int)),
    decreases tokens,
{
    let ghost row = token_views(tokens@).subrange(from as int, to as int);
    let mut text = String::new();
    let mut i: usize = from;
    while i < to
        invariant
            from <= i <= to <= tokens.len(),
            row == token_views(tokens@).subrange(from as int, to as int),
            text@ == source_first(row, (i - from) as nat),
        decreases to - i,
    {
        assert(row[i - from] == tokens@[i as int]@);
        if i > from {
            assert(row[i - from - 1] == tokens@[i - 1]@);
            let joint = match &tokens[i - 1] {
                Token::Punct { ch, joint } => *joint,
                _ => false,
            };
            if !joint {
                text.push(' ');
            }
        }
        match &tokens[i] {
            Token::Ident(word) => {
                text.append(word.as_str());
            },
            Token::Punct { ch, joint } => {
                text.push(*ch);
            },
            Token::Literal(source) => {
                text.append(source.as_str());
            },
            Token::Group { delimiter, tokens: inner } => {
                assert(row[i - from]->Group_tokens =~= token_views(inner@));
                assert(token_views(inner@).subrange(0, inner.len() as int) =~= token_views(inner@));
                match delimiter {
                    Delimiter::Parenthesis => {
                        text.push('(');
                    },
                    Delimiter::Brace => {
                        text.push('{');
                    },
                    Delimiter::Bracket => {
                        text.push('[');
                    },
                    Delimiter::Invisible => {},
                }
                let written = write_tokens(inner, 0, inner.len());
                text.append(written.as_str());
                match delimiter {
                    Delimiter::Parenthesis => {
                        text.push(')');
                    },
                    Delimiter::Brace => {
                        text.push('}');
                    },
                    Delimiter::Bracket => {
                        text.push(']');
                    },
                    Delimiter::Invisible => {},
                }
            },
        }
        assert(text@ =~= source_first(row, (i + 1 - from) as nat));
        i += 1;
    }
    text
}

} // verus!
