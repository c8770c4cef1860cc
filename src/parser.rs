//! The two-state block parser.
use vstd::prelude::*;

use crate::line::{alias_name, description_end, description_start, is_description_end,
    is_description_start, parse_alias};

verus! {

/// What the parser is reading.
#[derive(PartialEq, Eq, Structural, Clone, Copy, Debug)]
pub enum ParserState {
    /// Alias lines of the next block.
    Opcodes,
    /// The description of the current block.
    Description,
}

/// A finished block: its opcodes in document order and its description.
pub struct Block {
    pub aliases: Vec<String>,
    pub documentation: String,
}

/// The mathematical value of a `Block`.
pub struct BlockModel {
    pub aliases: Seq<Seq<char>>,
    pub documentation: Seq<char>,
}

impl BlockModel {
    /// The opcode that owns the block's documentation: the last one named.
    pub open spec fn canonical(self) -> Seq<char> {
        self.aliases.last()
    }
}

impl View for Block {
    type V = BlockModel;

    open spec fn view(&self) -> BlockModel {
        BlockModel {
            aliases: self.aliases@.map_values(|a: String| a@),
            documentation: self.documentation@,
        }
    }
}

/// The mathematical value of a `DocParser`.
pub struct ParserModel {
    pub state: ParserState,
    pub aliases: Seq<Seq<char>>,
    pub description: Seq<char>,
}

impl ParserModel {
    /// The parser before the first line and after each finished block.
    pub open spec fn initial() -> ParserModel {
        ParserModel { state: ParserState::Opcodes, aliases: seq![], description: seq![] }
    }
}

/// The effect of one line on the parser: the next parser and the block that
/// the line finished, if any. `None` where the line closes a description that
/// no opcode preceded.
pub open spec fn parse_line(p: ParserModel, line: Seq<char>) -> Option<(ParserModel, Option<BlockModel>)> {
    match p.state {
        ParserState::Opcodes => {
            if line == description_start() {
                Some((ParserModel { state: ParserState::Description, ..p }, None))
            } else {
                match alias_name(line) {
                    Some(name) => Some((ParserModel { aliases: p.aliases.push(name), ..p }, None)),
                    None => Some((p, None)),
                }
            }
        },
        ParserState::Description => {
            if line == description_end() {
                if p.aliases.len() == 0 {
                    None
                } else {
                    Some(
                        (
                            ParserModel::initial(),
                            Some(BlockModel { aliases: p.aliases, documentation: p.description }),
                        ),
                    )
                }
            } else {
                Some((ParserModel { description: p.description + line + seq!['\n'], ..p }, None))
            }
        },
    }
}

/// The parser's accumulators: the state, the opcodes named so far in the
/// current block and the description read so far.
pub struct DocParser {
    state: ParserState,
    aliases: Vec<String>,
    description: String,
}

impl View for DocParser {
    type V = ParserModel;

    closed spec fn view(&self) -> ParserModel {
        ParserModel {
            state: self.state,
            aliases: self.aliases@.map_values(|a: String| a@),
            description: self.description@,
        }
    }
}

/// A description was closed with no opcode before it.
#[derive(Clone, Copy, Debug, PartialEq, Eq)]
pub struct EmptyBlock;

impl DocParser {
    pub fn new() -> (r: DocParser)
        ensures
            r@ == ParserModel::initial(),
    {
        let r = DocParser { state: ParserState::Opcodes, aliases: Vec::new(), description: String::new() };
        assert(r@.aliases =~= seq![]);
        r
    }

    /// Reads one line. Returns the block that the line finished, if any, or
    /// `EmptyBlock`, leaving the parser as it was, where the line closes a
    /// description that no opcode preceded.
    pub fn feed(&mut self, line: &str) -> (r: Result<Option<Block>, EmptyBlock>)
        ensures
            match parse_line(old(self)@, line@) {
                None => r is Err && final(self)@ == old(self)@,
                Some((p, b)) => r is Ok && final(self)@ == p && match (r->Ok_0, b) {
                    (Some(x), Some(y)) => x@ == y,
                    (None, None) => true,
                    _ => false,
                },
            },
    {
        match self.state {
            ParserState::Opcodes => {
                if is_description_start(line) {
                    self.state = ParserState::Description;
                } else {
                    match parse_alias(line) {
                        Some(name) => {
                            let ghost before = self@.aliases;
                            let ghost n = name@;
                            self.aliases.push(name);
                            assert(self@.aliases =~= before.push(n));
                        },
                        None => {},
                    }
                }
                Ok(None)
            },
            ParserState::Description => {
                if is_description_end(line) {
                    if self.aliases.len() == 0 {
                        return Err(EmptyBlock);
                    }
                    let mut aliases = Vec::new();
                    let mut documentation = String::new();
                    std::mem::swap(&mut aliases, &mut self.aliases);
                    std::mem::swap(&mut documentation, &mut self.description);
                    self.state = ParserState::Opcodes;
                    assert(self@.aliases =~= seq![]);
                    Ok(Some(Block { aliases, documentation }))
                } else {
                    self.description.append(line);
                    self.description.append("\n");
                    proof {
                        reveal_strlit("\n");
                    }
                    assert(self@.description =~= old(self)@.description + line@ + seq!['\n']);
                    Ok(None)
                }
            },
        }
    }
}

} // verus!
