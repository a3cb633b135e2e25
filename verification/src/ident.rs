//! Turning arbitrary file and directory names into identifiers.

use crate::text::same_text;
use vstd::prelude::*;
use vstd::string::*;

verus! {

/// Whether Unicode counts `c` among XID_Start: the characters that may
/// open an identifier.
pub uninterp spec fn xid_start(c: char) -> bool;

/// Whether Unicode counts `c` among XID_Continue: the characters that
/// may stand inside an identifier.
pub uninterp spec fn xid_continue(c: char) -> bool;

/// A character of ASCII.
pub open spec fn ascii(c: char) -> bool {
    c <= '\x7f'
}

/// One of the letters `a` to `z` and `A` to `Z`.
pub open spec fn ascii_letter(c: char) -> bool {
    ('a' <= c && c <= 'z') || ('A' <= c && c <= 'Z')
}

/// One of the digits `0` to `9`.
pub open spec fn ascii_digit(c: char) -> bool {
    '0' <= c && c <= '9'
}

/// Calls `unicode_ident::is_xid_start`. The result says whether `c` is in
/// XID_Start; of ASCII the letters are, and nothing else.
#[verifier::external_body]
fn is_xid_start(c: char) -> (b: bool)
    ensures
        b == xid_start(c),
        ascii(c) ==> b == ascii_letter(c),
{
    unicode_ident::is_xid_start(c)
}

/// Calls `unicode_ident::is_xid_continue`. The result says whether `c` is
/// in XID_Continue; of ASCII the letters, the digits and the underscore
/// are, and nothing else.
#[verifier::external_body]
fn is_xid_continue(c: char) -> (b: bool)
    ensures
        b == xid_continue(c),
        ascii(c) ==> b == (ascii_letter(c) || ascii_digit(c) || c == '_'),
{
    unicode_ident::is_xid_continue(c)
}

/// A character that may open an identifier.
pub open spec fn ident_start(c: char) -> bool {
    if ascii(c) {
        ascii_letter(c)
    } else {
        xid_start(c)
    }
}

/// A character that may stand inside an identifier.
pub open spec fn ident_continue(c: char) -> bool {
    if ascii(c) {
        ascii_letter(c) || ascii_digit(c) || c == '_'
    } else {
        xid_continue(c)
    }
}

/// `s` with an underscore in place of every character that cannot stand
/// inside an identifier.
pub open spec fn replaced(s: Seq<char>) -> Seq<char> {
    Seq::new(
        s.len(),
        |i: int|
            if ident_continue(s[i]) {
                s[i]
            } else {
                '_'
            },
    )
}

/// The words that Rust keeps for itself, in every edition.
pub open spec fn reserved_word(s: Seq<char>) -> bool {
    ||| s == "as"@
    ||| s == "break"@
    ||| s == "const"@
    ||| s == "continue"@
    ||| s == "crate"@
    ||| s == "else"@
    ||| s == "enum"@
    ||| s == "extern"@
    ||| s == "false"@
    ||| s == "fn"@
    ||| s == "for"@
    ||| s == "if"@
    ||| s == "impl"@
    ||| s == "in"@
    ||| s == "let"@
    ||| s == "loop"@
    ||| s == "match"@
    ||| s == "mod"@
    ||| s == "move"@
    ||| s == "mut"@
    ||| s == "pub"@
    ||| s == "ref"@
    ||| s == "return"@
    ||| s == "self"@
    ||| s == "Self"@
    ||| s == "static"@
    ||| s == "struct"@
    ||| s == "super"@
    ||| s == "trait"@
    ||| s == "true"@
    ||| s == "type"@
    ||| s == "unsafe"@
    ||| s == "use"@
    ||| s == "where"@
    ||| s == "while"@
    ||| s == "async"@
    ||| s == "await"@
    ||| s == "dyn"@
    ||| s == "abstract"@
    ||| s == "become"@
    ||| s == "box"@
    ||| s == "do"@
    ||| s == "final"@
    ||| s == "gen"@
    ||| s == "macro"@
    ||| s == "override"@
    ||| s == "priv"@
    ||| s == "try"@
    ||| s == "typeof"@
    ||| s == "unsized"@
    ||| s == "virtual"@
    ||| s == "yield"@
}

/// The marker that goes before a name which cannot stand as an identifier
/// by itself.
pub open spec fn marker() -> Seq<char> {
    seq!['t', 'e', 's', 't', '_']
}

/// Whether a name, already free of invalid characters, still cannot be used
/// as it is: it is empty, opens with a character that no identifier opens
/// with, or is a reserved word.
pub open spec fn needs_marker(name: Seq<char>) -> bool {
    name.len() == 0 || !ident_start(name[0]) || reserved_word(name)
}

/// The identifier made from the raw name `raw`.
pub open spec fn sanitized(raw: Seq<char>) -> Seq<char> {
    let name = replaced(raw);
    if needs_marker(name) {
        marker() + name
    } else {
        name
    }
}

fn replace_invalid(input: &str) -> (name: String)
    ensures
        name@ == replaced(input@),
{
    let mut name = String::new();
    for c in it: input.chars()
        invariant
            it.seq() == input@,
            name@ == replaced(input@.take(it.index())),
    {
        let keep = is_xid_continue(c);
        name.push(
            if keep {
                c
            } else {
                '_'
            },
        );
        assert(input@.take(it.index() + 1) == input@.take(it.index()).push(c));
    }
    assert(input@.take(input@.len() as int) == input@);
    name
}

/// Whether `name` is a reserved word.
pub fn is_reserved_word(name: &str) -> (reserved: bool)
    ensures
        reserved == reserved_word(name@),
{
    same_text(name, "as")
        || same_text(name, "break")
        || same_text(name, "const")
        || same_text(name, "continue")
        || same_text(name, "crate")
        || same_text(name, "else")
        || same_text(name, "enum")
        || same_text(name, "extern")
        || same_text(name, "false")
        || same_text(name, "fn")
        || same_text(name, "for")
        || same_text(name, "if")
        || same_text(name, "impl")
        || same_text(name, "in")
        || same_text(name, "let")
        || same_text(name, "loop")
        || same_text(name, "match")
        || same_text(name, "mod")
        || same_text(name, "move")
        || same_text(name, "mut")
        || same_text(name, "pub")
        || same_text(name, "ref")
        || same_text(name, "return")
        || same_text(name, "self")
        || same_text(name, "Self")
        || same_text(name, "static")
        || same_text(name, "struct")
        || same_text(name, "super")
        || same_text(name, "trait")
        || same_text(name, "true")
        || same_text(name, "type")
        || same_text(name, "unsafe")
        || same_text(name, "use")
        || same_text(name, "where")
        || same_text(name, "while")
        || same_text(name, "async")
        || same_text(name, "await")
        || same_text(name, "dyn")
        || same_text(name, "abstract")
        || same_text(name, "become")
        || same_text(name, "box")
        || same_text(name, "do")
        || same_text(name, "final")
        || same_text(name, "gen")
        || same_text(name, "macro")
        || same_text(name, "override")
        || same_text(name, "priv")
        || same_text(name, "try")
        || same_text(name, "typeof")
        || same_text(name, "unsized")
        || same_text(name, "virtual")
        || same_text(name, "yield")
}

/// Sanitize a string so that it can be a valid identifier: characters that
/// cannot stand inside an identifier become underscores, and a name that
/// still cannot stand by itself gets the marker `test_` in front.
pub fn sanitize_ident(input: &str) -> (name: String)
    ensures
        name@ == sanitized(input@),
{
    broadcast use group_string_axioms;

    let name = replace_invalid(input);
    let valid_start = match name.as_str().chars().next() {
        Some(first) => is_xid_start(first),
        None => false,
    };
    if valid_start && !is_reserved_word(name.as_str()) {
        name
    } else {
        proof {
            reveal_strlit("test_");
            assert("test_"@ == marker());
        }
        String::from_str("test_").concat(name.as_str())
    }
}

/// No reserved word has an underscore as its fifth character.
proof fn reserved_words_shape(s: Seq<char>)
    requires
        reserved_word(s),
    ensures
        s.len() < 5 || s[4] != '_',
{
    reveal_strlit("as");
    reveal_strlit("break");
    reveal_strlit("const");
    reveal_strlit("continue");
    reveal_strlit("crate");
    reveal_strlit("else");
    reveal_strlit("enum");
    reveal_strlit("extern");
    reveal_strlit("false");
    reveal_strlit("fn");
    reveal_strlit("for");
    reveal_strlit("if");
    reveal_strlit("impl");
    reveal_strlit("in");
    reveal_strlit("let");
    reveal_strlit("loop");
    reveal_strlit("match");
    reveal_strlit("mod");
    reveal_strlit("move");
    reveal_strlit("mut");
    reveal_strlit("pub");
    reveal_strlit("ref");
    reveal_strlit("return");
    reveal_strlit("self");
    reveal_strlit("Self");
    reveal_strlit("static");
    reveal_strlit("struct");
    reveal_strlit("super");
    reveal_strlit("trait");
    reveal_strlit("true");
    reveal_strlit("type");
    reveal_strlit("unsafe");
    reveal_strlit("use");
    reveal_strlit("where");
    reveal_strlit("while");
    reveal_strlit("async");
    reveal_strlit("await");
    reveal_strlit("dyn");
    reveal_strlit("abstract");
    reveal_strlit("become");
    reveal_strlit("box");
    reveal_strlit("do");
    reveal_strlit("final");
    reveal_strlit("gen");
    reveal_strlit("macro");
    reveal_strlit("override");
    reveal_strlit("priv");
    reveal_strlit("try");
    reveal_strlit("typeof");
    reveal_strlit("unsized");
    reveal_strlit("virtual");
    reveal_strlit("yield");
}

/// Replacing invalid characters a second time changes nothing.
pub proof fn replaced_idempotent(s: Seq<char>)
    ensures
        replaced(replaced(s)) == replaced(s),
{
    assert(replaced(replaced(s)) =~= replaced(s));
}

/// Sanitizing is idempotent: a sanitized name is its own sanitized form.
pub proof fn sanitized_idempotent(raw: Seq<char>)
    ensures
        sanitized(sanitized(raw)) == sanitized(raw),
{
    let name = replaced(raw);
    replaced_idempotent(raw);
    if needs_marker(name) {
        let marked = marker() + name;
        assert(replaced(marked) =~= marked);
        if reserved_word(marked) {
            reserved_words_shape(marked);
        }
        assert(marked[0] == 't');
        assert(!needs_marker(marked));
    }
}

} // verus!
