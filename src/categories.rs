//! Snippet types: which category each opcode belongs to.
use vstd::prelude::*;

use crate::error::DocError;
use crate::table::{each_to, StringTable};

verus! {

#[verifier::external_type_specification]
#[verifier::external_body]
pub struct ExJsonError(serde_json::Error);

/// The categories held by a JSON object whose values are arrays of strings,
/// ordered by category name; `None` where the text is no such object.
pub uninterp spec fn json_categories(text: Seq<char>) -> Option<Seq<(Seq<char>, Seq<Seq<char>>)>>;

/// Relies on serde_json::from_str, reading the text as a map from category
/// name to member list; the result is a function of the text alone.
#[verifier::external_body]
fn read_categories_json(text: &str) -> (r: Result<Vec<(String, Vec<String>)>, serde_json::Error>)
    ensures
        match r {
            Ok(c) => json_categories(text@) == Some(c.deep_view()),
            Err(_) => json_categories(text@) is None,
        },
{
    match serde_json::from_str::<std::collections::BTreeMap<String, Vec<String>>>(text) {
        Ok(m) => Ok(m.into_iter().collect()),
        Err(e) => Err(e),
    }
}

/// Each opcode mapped to its category. An opcode listed under several
/// categories gets the last of them.
pub open spec fn invert_categories(cats: Seq<(Seq<char>, Seq<Seq<char>>)>) -> Map<Seq<char>, Seq<char>>
    decreases cats.len(),
{
    if cats.len() == 0 {
        Map::empty()
    } else {
        invert_categories(cats.drop_last()).union_prefer_right(
            each_to(cats.last().1, cats.last().0),
        )
    }
}

/// The snippet type of each opcode: the inverse of a category list.
pub struct SnippetTypes {
    table: StringTable<String>,
}

impl View for SnippetTypes {
    type V = Map<Seq<char>, Seq<char>>;

    closed spec fn view(&self) -> Map<Seq<char>, Seq<char>> {
        self.table@
    }
}

impl SnippetTypes {
    pub closed spec fn wf(&self) -> bool {
        self.table.wf()
    }

    /// Inverts a list of categories, each a name and its member opcodes.
    pub fn from_categories(cats: &Vec<(String, Vec<String>)>) -> (r: SnippetTypes)
        ensures
            r.wf(),
            r@ == invert_categories(cats.deep_view()),
    {
        let ghost dv = cats.deep_view();
        let mut table: StringTable<String> = StringTable::new();
        let mut i: usize = 0;
        assert(dv.take(0) =~= seq![]);
        while i < cats.len()
            invariant
                i <= cats@.len(),
                dv == cats.deep_view(),
                table.wf(),
                table@ == invert_categories(dv.take(i as int)),
            decreases cats@.len() - i,
        {
            let name = &cats[i].0;
            let members = &cats[i].1;
            let ghost base = table@;
            let ghost mv = members.deep_view();
            assert(dv[i as int] == (name@, mv));
            let mut j: usize = 0;
            assert(base =~= base.union_prefer_right(each_to(mv.take(0), name@)));
            while j < members.len()
                invariant
                    j <= members@.len(),
                    mv == members.deep_view(),
                    table.wf(),
                    table@ == base.union_prefer_right(each_to(mv.take(j as int), name@)),
                decreases members@.len() - j,
            {
                let ghost m = mv[j as int];
                assert(m == members@[j as int]@);
                table.insert(members[j].clone(), name.clone());
                let ghost cur = mv.take(j as int);
                let ghost nxt = mv.take(j + 1);
                assert(nxt =~= cur.push(m));
                assert forall|k: Seq<char>| nxt.contains(k) <==> (cur.contains(k) || k == m) by {
                    if k == m {
                        assert(nxt[j as int] == m);
                    }
                    if cur.contains(k) {
                        let t = choose|t: int| 0 <= t < cur.len() && cur[t] == k;
                        assert(nxt[t] == k);
                    }
                    if nxt.contains(k) && k != m {
                        let t = choose|t: int| 0 <= t < nxt.len() && nxt[t] == k;
                        assert(cur[t] == k);
                    }
                }
                assert(table@ =~= base.union_prefer_right(each_to(mv.take(j + 1), name@)));
                j = j + 1;
            }
            assert(mv.take(j as int) =~= mv);
            assert(dv.take(i + 1).drop_last() =~= dv.take(i as int));
            i = i + 1;
        }
        assert(dv.take(i as int) =~= dv);
        SnippetTypes { table }
    }

    /// The snippet type of `keyword`.
    pub fn get(&self, keyword: &String) -> (r: Option<&String>)
        requires
            self.wf(),
        ensures
            match r {
                Some(t) => self@.contains_key(keyword@) && t@ == self@[keyword@],
                None => !self@.contains_key(keyword@),
            },
    {
        self.table.get(keyword)
    }
}

/// The snippet types read from a JSON object that maps each category name to
/// its member opcodes.
pub open spec fn snippet_types_of(text: Seq<char>) -> Option<Map<Seq<char>, Seq<char>>> {
    match json_categories(text) {
        Some(cats) => Some(invert_categories(cats)),
        None => None,
    }
}

/// Reads snippet types from a JSON object that maps each category name to
/// its member opcodes.
pub fn snippet_types_from_json(text: &str) -> (r: Result<SnippetTypes, DocError>)
    ensures
        match snippet_types_of(text@) {
            Some(m) => r is Ok && r->Ok_0.wf() && r->Ok_0@ == m,
            None => r == Err::<SnippetTypes, DocError>(DocError::InvalidCategories),
        },
{
    match read_categories_json(text) {
        Ok(cats) => Ok(SnippetTypes::from_categories(&cats)),
        Err(_) => Err(DocError::InvalidCategories),
    }
}

} // verus!
