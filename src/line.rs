//! Classification of single lines of a document.
use vstd::prelude::*;

verus! {

/// The line that opens a description: `{:}`.
pub open spec fn description_start() -> Seq<char> {
    seq!['{', ':', '}']
}

/// The line that closes a description: `{.}`.
pub open spec fn description_end() -> Seq<char> {
    seq!['{', '.', '}']
}

/// The opcode named by an alias line: the whole line is `{name}`.
pub open spec fn alias_name(line: Seq<char>) -> Option<Seq<char>> {
    if line.len() >= 2 && line[0] == '{' && line[line.len() - 1] == '}' {
        Some(line.subrange(1, line.len() - 1))
    } else {
        None
    }
}

/// The alias line that names `name`.
pub open spec fn braced(name: Seq<char>) -> Seq<char> {
    seq!['{'] + name + seq!['}']
}

pub proof fn lemma_alias_name_braced(name: Seq<char>)
    ensures
        alias_name(braced(name)) == Some(name),
{
    let b = braced(name);
    assert(b.subrange(1, b.len() - 1) =~= name);
}

fn is_three_char_line(line: &str, a: char, b: char, c: char) -> (r: bool)
    ensures
        r == (line@ == seq![a, b, c]),
{
    let n = line.unicode_len();
    if n == 3 && line.get_char(0) == a && line.get_char(1) == b && line.get_char(2) == c {
        assert(line@ =~= seq![a, b, c]);
        true
    } else {
        false
    }
}

/// Whether `line` is exactly `{:}`.
pub fn is_description_start(line: &str) -> (r: bool)
    ensures
        r == (line@ == description_start()),
{
    is_three_char_line(line, '{', ':', '}')
}

/// Whether `line` is exactly `{.}`.
pub fn is_description_end(line: &str) -> (r: bool)
    ensures
        r == (line@ == description_end()),
{
    is_three_char_line(line, '{', '.', '}')
}

/// The opcode named by `line`, if the whole line is `{name}`.
pub fn parse_alias(line: &str) -> (r: Option<String>)
    ensures
        match r {
            Some(name) => alias_name(line@) == Some(name@),
            None => alias_name(line@) is None,
        },
{
    let n = line.unicode_len();
    if n >= 2 && line.get_char(0) == '{' && line.get_char(n - 1) == '}' {
        let inner = line.substring_char(1, n - 1);
        Some(inner.to_owned())
    } else {
        None
    }
}

} // verus!
