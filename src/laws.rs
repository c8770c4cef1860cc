//! Properties of the index that hold across documents and runs.
use vstd::prelude::*;

use crate::error::Fault;
use crate::index::{add_block, build_result, first_unclassified, index_blocks, index_result,
    initial_run, lemma_run_append, parse_document, run_from, run_line, ParseRun};
use crate::line::{alias_name, braced, description_end, description_start, lemma_alias_name_braced};
use crate::parser::{BlockModel, ParserModel, ParserState};

verus! {

proof fn lemma_index_blocks_targets(types: Map<Seq<char>, Seq<char>>, blocks: Seq<BlockModel>)
    ensures
        index_blocks(types, blocks).shared_targets_documented(),
    decreases blocks.len(),
{
    if blocks.len() > 0 {
        lemma_index_blocks_targets(types, blocks.drop_last());
        let idx = index_blocks(types, blocks.drop_last());
        let b = blocks.last();
        let next = add_block(idx, b, types[b.canonical()]);
        assert forall|a: Seq<char>| #[trigger] next.keys_with_shared_doc.contains_key(a) implies next.keys_to_doc.contains_key(next.keys_with_shared_doc[a]) by {
            if !b.aliases.drop_last().contains(a) {
                assert(idx.keys_with_shared_doc.contains_key(a));
            }
        }
    }
}

/// Every alias of an index points at a keyword that has documentation of
/// its own.
pub proof fn lemma_shared_targets_documented(types: Map<Seq<char>, Seq<char>>, lines: Seq<Seq<char>>)
    requires
        index_result(types, lines) is Ok,
    ensures
        index_result(types, lines)->Ok_0.shared_targets_documented(),
{
    lemma_index_blocks_targets(types, parse_document(lines).blocks);
}

} // verus!

verus! {

/// `k` is named by some block: an alias line of it.
pub open spec fn names_keyword(blocks: Seq<BlockModel>, k: Seq<char>) -> bool {
    exists|i: int, j: int|
        0 <= i < blocks.len() && 0 <= j < blocks[i].aliases.len() && #[trigger] blocks[i].aliases[j]
            == k
}

/// No keyword is named twice, in one block or in two.
pub open spec fn keywords_distinct(blocks: Seq<BlockModel>) -> bool {
    forall|i1: int, j1: int, i2: int, j2: int|
        0 <= i1 < blocks.len() && 0 <= j1 < blocks[i1].aliases.len() && 0 <= i2 < blocks.len() && 0
            <= j2 < blocks[i2].aliases.len() && (i1 != i2 || j1 != j2) ==> #[trigger] blocks[i1].aliases[j1]
            != #[trigger] blocks[i2].aliases[j2]
}

/// A well-formed document: every description follows at least one opcode,
/// no block is left open at the end, and no keyword is named twice.
pub open spec fn well_formed_document(lines: Seq<Seq<char>>) -> bool {
    let run = parse_document(lines);
    &&& !run.failed
    &&& run.parser == ParserModel::initial()
    &&& keywords_distinct(run.blocks)
}

/// Each block the parser finishes names at least one keyword.
proof fn lemma_blocks_nonempty(r: ParseRun, lines: Seq<Seq<char>>)
    requires
        forall|i: int| 0 <= i < r.blocks.len() ==> #[trigger] r.blocks[i].aliases.len() > 0,
    ensures
        forall|i: int|
            0 <= i < run_from(r, lines).blocks.len() ==> #[trigger] run_from(r, lines).blocks[i].aliases.len()
                > 0,
    decreases lines.len(),
{
    if lines.len() > 0 {
        lemma_blocks_nonempty(r, lines.drop_last());
    }
}

/// The keys of the index of some blocks: the canonical keywords, and the
/// other keywords of each block.
proof fn lemma_index_blocks_keys(types: Map<Seq<char>, Seq<char>>, blocks: Seq<BlockModel>)
    requires
        forall|i: int| 0 <= i < blocks.len() ==> #[trigger] blocks[i].aliases.len() > 0,
    ensures
        forall|k: Seq<char>|
            #[trigger] index_blocks(types, blocks).keys_to_doc.contains_key(k) <==> exists|i: int|
                0 <= i < blocks.len() && #[trigger] blocks[i].canonical() == k,
        forall|k: Seq<char>|
            #[trigger] index_blocks(types, blocks).keys_with_shared_doc.contains_key(k) <==> exists|
                i: int,
                j: int,
            | 0 <= i < blocks.len() && 0 <= j < blocks[i].aliases.len() - 1 && #[trigger] blocks[i].aliases[j]
                == k,
    decreases blocks.len(),
{
    if blocks.len() > 0 {
        let prev = blocks.drop_last();
        assert forall|i: int| 0 <= i < prev.len() implies #[trigger] prev[i].aliases.len() > 0 by {
            assert(prev[i] == blocks[i]);
        }
        lemma_index_blocks_keys(types, prev);
        let n = blocks.len() - 1;
        let b = blocks.last();
        let idx = index_blocks(types, blocks);
        assert forall|k: Seq<char>| #[trigger] idx.keys_to_doc.contains_key(k) <==> exists|i: int|
            0 <= i < blocks.len() && #[trigger] blocks[i].canonical() == k by {
            if idx.keys_to_doc.contains_key(k) && k != b.canonical() {
                assert(index_blocks(types, prev).keys_to_doc.contains_key(k));
                let i = choose|i: int| 0 <= i < prev.len() && #[trigger] prev[i].canonical() == k;
                assert(blocks[i] == prev[i]);
            }
            if exists|i: int| 0 <= i < blocks.len() && #[trigger] blocks[i].canonical() == k {
                let i = choose|i: int| 0 <= i < blocks.len() && #[trigger] blocks[i].canonical() == k;
                if i < n {
                    assert(prev[i] == blocks[i]);
                    assert(index_blocks(types, prev).keys_to_doc.contains_key(k));
                }
            }
        }
        assert forall|k: Seq<char>| #[trigger] idx.keys_with_shared_doc.contains_key(k) <==> exists|
            i: int,
            j: int,
        | 0 <= i < blocks.len() && 0 <= j < blocks[i].aliases.len() - 1 && #[trigger] blocks[i].aliases[j]
            == k by {
            let rest = b.aliases.drop_last();
            if idx.keys_with_shared_doc.contains_key(k) {
                if rest.contains(k) {
                    let j = choose|j: int| 0 <= j < rest.len() && rest[j] == k;
                    assert(blocks[n].aliases[j] == k);
                } else {
                    assert(index_blocks(types, prev).keys_with_shared_doc.contains_key(k));
                    let (i, j) = choose|i: int, j: int|
                        0 <= i < prev.len() && 0 <= j < prev[i].aliases.len() - 1
                            && #[trigger] prev[i].aliases[j] == k;
                    assert(blocks[i] == prev[i]);
                }
            }
            if exists|i: int, j: int|
                0 <= i < blocks.len() && 0 <= j < blocks[i].aliases.len() - 1
                    && #[trigger] blocks[i].aliases[j] == k {
                let (i, j) = choose|i: int, j: int|
                    0 <= i < blocks.len() && 0 <= j < blocks[i].aliases.len() - 1
                        && #[trigger] blocks[i].aliases[j] == k;
                if i < n {
                    assert(prev[i] == blocks[i]);
                    assert(prev[i].aliases[j] == k);
                    assert(index_blocks(types, prev).keys_with_shared_doc.contains_key(k));
                } else {
                    assert(rest[j] == k);
                }
            }
        }
    }
}

/// In the index of a well-formed document each keyword that the document
/// names is a key of exactly one of the two maps: of the documentation where
/// it owns its block's text, of the aliases otherwise. No other key occurs.
pub proof fn lemma_each_keyword_indexed_once(types: Map<Seq<char>, Seq<char>>, lines: Seq<Seq<char>>)
    requires
        well_formed_document(lines),
        index_result(types, lines) is Ok,
    ensures
        forall|k: Seq<char>|
            names_keyword(parse_document(lines).blocks, k) <==> (
            #[trigger] index_result(types, lines)->Ok_0.keys_to_doc.contains_key(k)
                || index_result(types, lines)->Ok_0.keys_with_shared_doc.contains_key(k)),
        forall|k: Seq<char>|
            !(#[trigger] index_result(types, lines)->Ok_0.keys_to_doc.contains_key(k)
                && index_result(types, lines)->Ok_0.keys_with_shared_doc.contains_key(k)),
{
    let blocks = parse_document(lines).blocks;
    let idx = index_result(types, lines)->Ok_0;
    assert(idx == index_blocks(types, blocks));
    lemma_blocks_nonempty(initial_run(), lines);
    lemma_index_blocks_keys(types, blocks);
    assert forall|k: Seq<char>|
        names_keyword(blocks, k) <==> (#[trigger] idx.keys_to_doc.contains_key(k)
            || idx.keys_with_shared_doc.contains_key(k)) by {
        if names_keyword(blocks, k) {
            let (i, j) = choose|i: int, j: int|
                0 <= i < blocks.len() && 0 <= j < blocks[i].aliases.len()
                    && #[trigger] blocks[i].aliases[j] == k;
            if j == blocks[i].aliases.len() - 1 {
                assert(blocks[i].canonical() == k);
            }
        }
        if idx.keys_to_doc.contains_key(k) {
            let i = choose|i: int| 0 <= i < blocks.len() && #[trigger] blocks[i].canonical() == k;
            assert(blocks[i].aliases[blocks[i].aliases.len() - 1] == k);
        }
    }
    assert forall|k: Seq<char>|
        !(#[trigger] idx.keys_to_doc.contains_key(k) && idx.keys_with_shared_doc.contains_key(k)) by {
        if idx.keys_to_doc.contains_key(k) && idx.keys_with_shared_doc.contains_key(k) {
            let i1 = choose|i: int| 0 <= i < blocks.len() && #[trigger] blocks[i].canonical() == k;
            let (i2, j2) = choose|i: int, j: int|
                0 <= i < blocks.len() && 0 <= j < blocks[i].aliases.len() - 1
                    && #[trigger] blocks[i].aliases[j] == k;
            let j1 = blocks[i1].aliases.len() - 1;
            assert(blocks[i1].aliases[j1] == blocks[i2].aliases[j2]);
        }
    }
}

proof fn lemma_unclassified_found(types: Map<Seq<char>, Seq<char>>, blocks: Seq<BlockModel>, i: int)
    requires
        0 <= i < blocks.len(),
        !types.contains_key(blocks[i].canonical()),
    ensures
        first_unclassified(types, blocks) is Some,
    decreases blocks.len(),
{
    if i < blocks.len() - 1 {
        assert(blocks.drop_last()[i] == blocks[i]);
        lemma_unclassified_found(types, blocks.drop_last(), i);
    }
}

/// A document fails to index, with a missing snippet type, when the canonical
/// keyword of any of its blocks has no snippet type.
pub proof fn lemma_unclassified_block_fails(types: Map<Seq<char>, Seq<char>>, lines: Seq<Seq<char>>, i: int)
    requires
        0 <= i < parse_document(lines).blocks.len(),
        !types.contains_key(parse_document(lines).blocks[i].canonical()),
    ensures
        index_result(types, lines) matches Err(Fault::MissingSnippetType(_)),
{
    lemma_unclassified_found(types, parse_document(lines).blocks, i);
}

} // verus!

verus! {

/// The documentation made of description lines: each line followed by a
/// newline.
pub open spec fn join_lines(body: Seq<Seq<char>>) -> Seq<char>
    decreases body.len(),
{
    if body.len() == 0 {
        seq![]
    } else {
        join_lines(body.drop_last()) + body.last() + seq!['\n']
    }
}

/// The lines of one block: an alias line per name, then the description
/// between its two sentinels.
pub open spec fn block_lines(names: Seq<Seq<char>>, body: Seq<Seq<char>>) -> Seq<Seq<char>> {
    names.map_values(|n: Seq<char>| braced(n)) + seq![description_start()] + body + seq![
        description_end(),
    ]
}

proof fn lemma_run_one(r: ParseRun, line: Seq<char>)
    ensures
        run_from(r, seq![line]) == run_line(r, line),
{
    assert(seq![line].drop_last() =~= Seq::<Seq<char>>::empty());
    assert(run_from(r, seq![line].drop_last()) == r);
}

proof fn lemma_braced_not_start(name: Seq<char>)
    requires
        name != seq![':'],
    ensures
        braced(name) != description_start(),
{
    if braced(name) == description_start() {
        assert(braced(name).len() == 3);
        assert(name[0] == braced(name)[1]);
        assert(name =~= seq![':']);
    }
}

proof fn lemma_run_alias_lines(r: ParseRun, names: Seq<Seq<char>>)
    requires
        !r.failed,
        r.parser.state == ParserState::Opcodes,
        forall|i: int| 0 <= i < names.len() ==> #[trigger] names[i] != seq![':'],
    ensures
        run_from(r, names.map_values(|n: Seq<char>| braced(n))) == (ParseRun {
            parser: ParserModel { aliases: r.parser.aliases + names, ..r.parser },
            ..r
        }),
    decreases names.len(),
{
    let lines = names.map_values(|n: Seq<char>| braced(n));
    if names.len() == 0 {
        assert(r.parser.aliases + names =~= r.parser.aliases);
        assert(lines.len() == 0);
    } else {
        let prev = names.drop_last();
        assert(lines.drop_last() =~= prev.map_values(|n: Seq<char>| braced(n)));
        assert forall|i: int| 0 <= i < prev.len() implies #[trigger] prev[i] != seq![':'] by {
            assert(prev[i] == names[i]);
        }
        lemma_run_alias_lines(r, prev);
        let n = names.last();
        assert(names[names.len() - 1] != seq![':']);
        lemma_alias_name_braced(n);
        lemma_braced_not_start(n);
        assert(lines.last() == braced(n));
        assert((r.parser.aliases + prev).push(n) =~= r.parser.aliases + names);
    }
}

proof fn lemma_run_body(r: ParseRun, body: Seq<Seq<char>>)
    requires
        !r.failed,
        r.parser.state == ParserState::Description,
        forall|i: int| 0 <= i < body.len() ==> #[trigger] body[i] != description_end(),
    ensures
        run_from(r, body) == (ParseRun {
            parser: ParserModel { description: r.parser.description + join_lines(body), ..r.parser },
            ..r
        }),
    decreases body.len(),
{
    if body.len() == 0 {
        assert(r.parser.description + join_lines(body) =~= r.parser.description);
    } else {
        let prev = body.drop_last();
        assert forall|i: int| 0 <= i < prev.len() implies #[trigger] prev[i] != description_end() by {
            assert(prev[i] == body[i]);
        }
        lemma_run_body(r, prev);
        assert(body[body.len() - 1] != description_end());
        assert(r.parser.description + join_lines(prev) + body.last() + seq!['\n']
            =~= r.parser.description + join_lines(body));
    }
}

/// A block read after whole blocks is finished as written: its keywords in
/// order, and as documentation its description lines, each followed by a
/// newline, whatever the number of keywords.
pub proof fn lemma_block_documentation(prefix: Seq<Seq<char>>, names: Seq<Seq<char>>, body: Seq<Seq<char>>)
    requires
        !parse_document(prefix).failed,
        parse_document(prefix).parser == ParserModel::initial(),
        names.len() > 0,
        forall|i: int| 0 <= i < names.len() ==> #[trigger] names[i] != seq![':'],
        forall|i: int| 0 <= i < body.len() ==> #[trigger] body[i] != description_end(),
    ensures
        parse_document(prefix + block_lines(names, body)) == (ParseRun {
            parser: ParserModel::initial(),
            blocks: parse_document(prefix).blocks.push(
                BlockModel { aliases: names, documentation: join_lines(body) },
            ),
            failed: false,
        }),
{
    let r0 = parse_document(prefix);
    let aliases = names.map_values(|n: Seq<char>| braced(n));
    let opened = aliases + seq![description_start()];
    let described = opened + body;
    assert(block_lines(names, body) == described + seq![description_end()]);
    lemma_run_append(initial_run(), prefix, block_lines(names, body));
    lemma_run_append(r0, described, seq![description_end()]);
    lemma_run_append(r0, opened, body);
    lemma_run_append(r0, aliases, seq![description_start()]);
    lemma_run_alias_lines(r0, names);
    let r1 = run_from(r0, aliases);
    assert(r0.parser.aliases + names =~= names);
    lemma_run_one(r1, description_start());
    let r2 = run_from(r0, opened);
    assert(r2.parser.state == ParserState::Description);
    lemma_run_body(r2, body);
    let r3 = run_from(r0, described);
    assert(r3.parser.description =~= join_lines(body));
    lemma_run_one(r3, description_end());
}

/// The last keyword of a block that ends a document owns the block's
/// documentation, and each other keyword of the block points at it.
pub proof fn lemma_block_indexed(
    types: Map<Seq<char>, Seq<char>>,
    prefix: Seq<Seq<char>>,
    names: Seq<Seq<char>>,
    body: Seq<Seq<char>>,
)
    requires
        !parse_document(prefix).failed,
        parse_document(prefix).parser == ParserModel::initial(),
        names.len() > 0,
        forall|i: int| 0 <= i < names.len() ==> #[trigger] names[i] != seq![':'],
        forall|i: int| 0 <= i < body.len() ==> #[trigger] body[i] != description_end(),
        index_result(types, prefix + block_lines(names, body)) is Ok,
    ensures
        ({
            let idx = index_result(types, prefix + block_lines(names, body))->Ok_0;
            &&& idx.keys_to_doc.contains_key(names.last())
            &&& idx.keys_to_doc[names.last()].documentation == join_lines(body)
            &&& forall|j: int|
                0 <= j < names.len() - 1 ==> idx.keys_with_shared_doc.contains_key(#[trigger] names[j])
                    && idx.keys_with_shared_doc[names[j]] == names.last()
        }),
{
    lemma_block_documentation(prefix, names, body);
    let blocks = parse_document(prefix + block_lines(names, body)).blocks;
    assert(blocks.drop_last() =~= parse_document(prefix).blocks);
    let rest = names.drop_last();
    assert forall|j: int| 0 <= j < names.len() - 1 implies rest.contains(#[trigger] names[j]) by {
        assert(rest[j] == names[j]);
    }
}

/// Between blocks, a line that is neither an alias line nor `{:}` changes
/// nothing: not the parse, not the index, not the error.
pub proof fn lemma_ignored_line(
    types: Map<Seq<char>, Seq<char>>,
    a: Seq<Seq<char>>,
    line: Seq<char>,
    b: Seq<Seq<char>>,
)
    requires
        parse_document(a).parser.state == ParserState::Opcodes,
        alias_name(line) is None,
        line != description_start(),
    ensures
        parse_document(a.push(line) + b) == parse_document(a + b),
        index_result(types, a.push(line) + b) == index_result(types, a + b),
{
    lemma_run_append(initial_run(), a.push(line), b);
    lemma_run_append(initial_run(), a, b);
    assert(a.push(line).drop_last() =~= a);
}

/// Indexing is a function of its inputs: runs on the same category text and
/// the same document lines give the same maps, or the same error.
pub proof fn lemma_rerun_identical(
    json1: Seq<char>,
    json2: Seq<char>,
    lines1: Seq<Seq<char>>,
    lines2: Seq<Seq<char>>,
)
    requires
        json1 == json2,
        lines1 == lines2,
    ensures
        build_result(json1, lines1) == build_result(json2, lines2),
{
}

} // verus!
