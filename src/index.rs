//! The keyword index of a whole document.
use vstd::prelude::*;

use crate::categories::{snippet_types_from_json, snippet_types_of, SnippetTypes};
use crate::error::{DocError, Fault};
use crate::parser::{parse_line, Block, BlockModel, DocParser, ParserModel};
use crate::table::{each_to, StringTable};

verus! {

/// The documentation of a keyword and its snippet type.
pub struct KeywordInfo {
    pub documentation: String,
    pub snippet_type: String,
}

/// The mathematical value of a `KeywordInfo`.
pub struct KeywordInfoModel {
    pub documentation: Seq<char>,
    pub snippet_type: Seq<char>,
}

impl View for KeywordInfo {
    type V = KeywordInfoModel;

    open spec fn view(&self) -> KeywordInfoModel {
        KeywordInfoModel { documentation: self.documentation@, snippet_type: self.snippet_type@ }
    }
}

/// The mathematical value of an `IndexedDocumentation`.
pub struct IndexModel {
    pub keys_to_doc: Map<Seq<char>, KeywordInfoModel>,
    pub keys_with_shared_doc: Map<Seq<char>, Seq<char>>,
}

impl IndexModel {
    pub open spec fn empty() -> IndexModel {
        IndexModel { keys_to_doc: Map::empty(), keys_with_shared_doc: Map::empty() }
    }

    /// Every alias points at a keyword that has documentation.
    pub open spec fn shared_targets_documented(self) -> bool {
        forall|a: Seq<char>| #[trigger]
            self.keys_with_shared_doc.contains_key(a) ==> self.keys_to_doc.contains_key(
                self.keys_with_shared_doc[a],
            )
    }
}

/// The index after one more block: its canonical keyword owns the
/// documentation, and each other keyword of the block points at it.
pub open spec fn add_block(idx: IndexModel, b: BlockModel, snippet_type: Seq<char>) -> IndexModel {
    IndexModel {
        keys_to_doc: idx.keys_to_doc.insert(
            b.canonical(),
            KeywordInfoModel { documentation: b.documentation, snippet_type },
        ),
        keys_with_shared_doc: idx.keys_with_shared_doc.union_prefer_right(
            each_to(b.aliases.drop_last(), b.canonical()),
        ),
    }
}

/// The index of a sequence of blocks, later blocks overwriting earlier ones.
pub open spec fn index_blocks(types: Map<Seq<char>, Seq<char>>, blocks: Seq<BlockModel>) -> IndexModel
    decreases blocks.len(),
{
    if blocks.len() == 0 {
        IndexModel::empty()
    } else {
        add_block(
            index_blocks(types, blocks.drop_last()),
            blocks.last(),
            types[blocks.last().canonical()],
        )
    }
}

/// The canonical keyword of the first block that has no snippet type.
pub open spec fn first_unclassified(types: Map<Seq<char>, Seq<char>>, blocks: Seq<BlockModel>) -> Option<Seq<char>>
    decreases blocks.len(),
{
    if blocks.len() == 0 {
        None
    } else {
        match first_unclassified(types, blocks.drop_last()) {
            Some(c) => Some(c),
            None => if types.contains_key(blocks.last().canonical()) {
                None
            } else {
                Some(blocks.last().canonical())
            },
        }
    }
}

/// How far the parser got over a prefix of a document: its state, the blocks
/// it finished, and whether a description was closed with no opcode before it
/// (after which it reads no further).
pub struct ParseRun {
    pub parser: ParserModel,
    pub blocks: Seq<BlockModel>,
    pub failed: bool,
}

pub open spec fn initial_run() -> ParseRun {
    ParseRun { parser: ParserModel::initial(), blocks: seq![], failed: false }
}

pub open spec fn run_line(r: ParseRun, line: Seq<char>) -> ParseRun {
    if r.failed {
        r
    } else {
        match parse_line(r.parser, line) {
            None => ParseRun { failed: true, ..r },
            Some((p, None)) => ParseRun { parser: p, ..r },
            Some((p, Some(b))) => ParseRun { parser: p, blocks: r.blocks.push(b), ..r },
        }
    }
}

pub open spec fn run_from(r: ParseRun, lines: Seq<Seq<char>>) -> ParseRun
    decreases lines.len(),
{
    if lines.len() == 0 {
        r
    } else {
        run_line(run_from(r, lines.drop_last()), lines.last())
    }
}

/// The parser's run over a whole document.
pub open spec fn parse_document(lines: Seq<Seq<char>>) -> ParseRun {
    run_from(initial_run(), lines)
}

/// The index of a document under the given snippet types, or the first
/// defect met in reading it.
pub open spec fn index_result(types: Map<Seq<char>, Seq<char>>, lines: Seq<Seq<char>>) -> Result<IndexModel, Fault> {
    let run = parse_document(lines);
    match first_unclassified(types, run.blocks) {
        Some(c) => Err(Fault::MissingSnippetType(c)),
        None => if run.failed {
            Err(Fault::MissingOpcodes)
        } else {
            Ok(index_blocks(types, run.blocks))
        },
    }
}

/// The index of a document whose snippet types are read from JSON text.
pub open spec fn build_result(category_json: Seq<char>, lines: Seq<Seq<char>>) -> Result<IndexModel, Fault> {
    match snippet_types_of(category_json) {
        None => Err(Fault::InvalidCategories),
        Some(types) => index_result(types, lines),
    }
}

/// Running over `a` then `b` is running over `a + b`.
pub proof fn lemma_run_append(r: ParseRun, a: Seq<Seq<char>>, b: Seq<Seq<char>>)
    ensures
        run_from(r, a + b) == run_from(run_from(r, a), b),
    decreases b.len(),
{
    if b.len() == 0 {
        assert(a + b =~= a);
    } else {
        assert((a + b).drop_last() =~= a + b.drop_last());
        lemma_run_append(r, a, b.drop_last());
    }
}

/// A failed run reads no further; a run only adds blocks.
pub proof fn lemma_run_grows(r: ParseRun, lines: Seq<Seq<char>>)
    ensures
        r.failed ==> run_from(r, lines) == r,
        run_from(r, lines).blocks.len() >= r.blocks.len(),
        run_from(r, lines).blocks.subrange(0, r.blocks.len() as int) == r.blocks,
    decreases lines.len(),
{
    if lines.len() == 0 {
        assert(r.blocks.subrange(0, r.blocks.len() as int) =~= r.blocks);
    } else {
        lemma_run_grows(r, lines.drop_last());
        let s = run_from(r, lines.drop_last());
        let t = run_from(r, lines);
        assert(t.blocks.subrange(0, r.blocks.len() as int) =~= s.blocks.subrange(
            0,
            r.blocks.len() as int,
        ));
    }
}

/// Blocks added after the first unclassified one do not change it.
pub proof fn lemma_first_unclassified_kept(
    types: Map<Seq<char>, Seq<char>>,
    a: Seq<BlockModel>,
    b: Seq<BlockModel>,
)
    requires
        first_unclassified(types, a) is Some,
        b.len() >= a.len(),
        b.subrange(0, a.len() as int) == a,
    ensures
        first_unclassified(types, b) == first_unclassified(types, a),
    decreases b.len(),
{
    if b.len() == a.len() {
        assert(b =~= b.subrange(0, a.len() as int));
    } else {
        assert(b.drop_last().subrange(0, a.len() as int) =~= b.subrange(0, a.len() as int));
        lemma_first_unclassified_kept(types, a, b.drop_last());
    }
}

/// The keyword index: documentation by canonical keyword, and each other
/// keyword of a block mapped to its block's canonical keyword.
pub struct IndexedDocumentation {
    keys_to_doc: StringTable<KeywordInfo>,
    keys_with_shared_doc: StringTable<String>,
}

impl View for IndexedDocumentation {
    type V = IndexModel;

    closed spec fn view(&self) -> IndexModel {
        IndexModel { keys_to_doc: self.keys_to_doc@, keys_with_shared_doc: self.keys_with_shared_doc@ }
    }
}

impl IndexedDocumentation {
    pub closed spec fn wf(&self) -> bool {
        self.keys_to_doc.wf() && self.keys_with_shared_doc.wf()
    }

    pub fn new() -> (r: IndexedDocumentation)
        ensures
            r.wf(),
            r@ == IndexModel::empty(),
    {
        IndexedDocumentation { keys_to_doc: StringTable::new(), keys_with_shared_doc: StringTable::new() }
    }

    /// Documentation by canonical keyword.
    pub fn keys_to_doc(&self) -> (r: &StringTable<KeywordInfo>)
        requires
            self.wf(),
        ensures
            r.wf(),
            r@ == self@.keys_to_doc,
    {
        &self.keys_to_doc
    }

    /// Canonical keyword by alias.
    pub fn keys_with_shared_doc(&self) -> (r: &StringTable<String>)
        requires
            self.wf(),
        ensures
            r.wf(),
            r@ == self@.keys_with_shared_doc,
    {
        &self.keys_with_shared_doc
    }

    /// Adds a finished block, classified by `types`. Fails, leaving the index
    /// as it was, where the block names no keyword or its canonical keyword
    /// has no snippet type.
    pub fn add_block(&mut self, block: Block, types: &SnippetTypes) -> (r: Result<(), DocError>)
        requires
            old(self).wf(),
            types.wf(),
        ensures
            final(self).wf(),
            block@.aliases.len() == 0 ==> r is Err && r->Err_0@ == Fault::MissingOpcodes
                && final(self)@ == old(self)@,
            block@.aliases.len() > 0 && types@.contains_key(block@.canonical()) ==> r is Ok
                && final(self)@ == add_block(old(self)@, block@, types@[block@.canonical()]),
            block@.aliases.len() > 0 && !types@.contains_key(block@.canonical()) ==> r is Err
                && r->Err_0@ == Fault::MissingSnippetType(block@.canonical()) && final(self)@
                == old(self)@,
    {
        let ghost bv = block@;
        let Block { aliases: mut aliases, documentation } = block;
        let canonical = match aliases.pop() {
            Some(c) => c,
            None => {
                return Err(DocError::MissingOpcodes);
            },
        };
        let ghost rest = aliases@.map_values(|a: String| a@);
        assert(rest =~= bv.aliases.drop_last());
        assert(canonical@ == bv.canonical());
        let snippet_type = match types.get(&canonical) {
            Some(t) => t.clone(),
            None => {
                return Err(DocError::MissingSnippetType(canonical));
            },
        };
        self.keys_to_doc.insert(canonical.clone(), KeywordInfo { documentation, snippet_type });
        let ghost base = self.keys_with_shared_doc@;
        let ghost docs = self.keys_to_doc@;
        let mut j: usize = 0;
        assert(base =~= base.union_prefer_right(each_to(rest.take(0), canonical@)));
        while j < aliases.len()
            invariant
                j <= aliases@.len(),
                rest == aliases@.map_values(|a: String| a@),
                self.keys_with_shared_doc.wf(),
                self.keys_to_doc.wf(),
                self.keys_to_doc@ == docs,
                self.keys_with_shared_doc@ == base.union_prefer_right(
                    each_to(rest.take(j as int), canonical@),
                ),
            decreases aliases@.len() - j,
        {
            let ghost m = rest[j as int];
            self.keys_with_shared_doc.insert(aliases[j].clone(), canonical.clone());
            let ghost cur = rest.take(j as int);
            let ghost nxt = rest.take(j + 1);
            assert(nxt =~= cur.push(m));
            assert forall|k: Seq<char>| nxt.contains(k) <==> (cur.contains(k) || k == m) by {
                if k == m {
                    assert(nxt[j as int] == m);
                }
                if cur.contains(k) {
                    let t = choose|t: int| 0 <= t < cur.len() && cur[t] == k;
                    assert(nxt[t] == k);
                }
                if nxt.contains(k) && k != m {
                    let t = choose|t: int| 0 <= t < nxt.len() && nxt[t] == k;
                    assert(cur[t] == k);
                }
            }
            assert(self.keys_with_shared_doc@ =~= base.union_prefer_right(each_to(nxt, canonical@)));
            j = j + 1;
        }
        assert(rest.take(j as int) =~= rest);
        Ok(())
    }
}

/// Indexes a document, given as its lines, under the given snippet types.
pub fn index_document(lines: &Vec<String>, types: &SnippetTypes) -> (r: Result<IndexedDocumentation, DocError>)
    requires
        types.wf(),
    ensures
        match index_result(types@, lines.deep_view()) {
            Ok(m) => r is Ok && r->Ok_0.wf() && r->Ok_0@ == m,
            Err(f) => r is Err && r->Err_0@ == f,
        },
        r is Ok ==> r->Ok_0@.shared_targets_documented(),
{
    let ghost dv = lines.deep_view();
    let mut parser = DocParser::new();
    let mut doc = IndexedDocumentation::new();
    let mut i: usize = 0;
    assert(dv.take(0) =~= seq![]);
    while i < lines.len()
        invariant
            i <= lines@.len(),
            dv == lines.deep_view(),
            types.wf(),
            doc.wf(),
            !parse_document(dv.take(i as int)).failed,
            first_unclassified(types@, parse_document(dv.take(i as int)).blocks) is None,
            parser@ == parse_document(dv.take(i as int)).parser,
            doc@ == index_blocks(types@, parse_document(dv.take(i as int)).blocks),
        decreases lines@.len() - i,
    {
        let ghost prev = parse_document(dv.take(i as int));
        let ghost line = dv[i as int];
        assert(line == lines@[i as int]@);
        assert(dv.take(i + 1).drop_last() =~= dv.take(i as int));
        let ghost next = parse_document(dv.take(i + 1));
        assert(next == run_line(prev, line));
        proof {
            lemma_run_append(initial_run(), dv.take(i + 1), dv.skip(i + 1));
            assert(dv.take(i + 1) + dv.skip(i + 1) =~= dv);
            lemma_run_grows(next, dv.skip(i + 1));
        }
        match parser.feed(lines[i].as_str()) {
            Err(_) => {
                return Err(DocError::MissingOpcodes);
            },
            Ok(None) => {},
            Ok(Some(block)) => {
                assert(next.blocks.drop_last() =~= prev.blocks);
                match doc.add_block(block, types) {
                    Ok(()) => {},
                    Err(e) => {
                        proof {
                            lemma_first_unclassified_kept(
                                types@,
                                next.blocks,
                                parse_document(dv).blocks,
                            );
                        }
                        return Err(e);
                    },
                }
            },
        }
        i = i + 1;
    }
    assert(dv.take(i as int) =~= dv);
    proof {
        crate::laws::lemma_shared_targets_documented(types@, dv);
    }
    Ok(doc)
}

/// Indexes a document, given as its lines, under the snippet types read from
/// a JSON object that maps each category name to its member opcodes.
pub fn build_index(category_json: &str, lines: &Vec<String>) -> (r: Result<IndexedDocumentation, DocError>)
    ensures
        match build_result(category_json@, lines.deep_view()) {
            Ok(m) => r is Ok && r->Ok_0.wf() && r->Ok_0@ == m,
            Err(f) => r is Err && r->Err_0@ == f,
        },
{
    let types = snippet_types_from_json(category_json)?;
    index_document(lines, &types)
}

} // verus!
