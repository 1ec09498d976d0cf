//! Assembly of the schema from the tables that the crawl filled.
use vstd::prelude::*;
use crate::crawl::{insert_all, text_map};
use crate::error::{Error, Violation};
use crate::introspect::{introspect_item, node_spec, Lookup};
use crate::names::{entries_map, keys_sorted, lemma_index_unique, lex_lt};
use crate::schema::{Definitions, Node, NodeV};
use crate::token_table::{invert_tokens, inverted};

verus! {

/// Builds the schema: every recorded declaration introspected, in the order
/// of their names, with `version`, and the token table turned from kind to
/// spelling.
pub fn parse(lookup: &Lookup, version: String) -> (r: Result<Definitions, Error>)
    requires
        lookup.wf(),
    ensures
        r matches Ok(d) ==> {
            &&& d.version@ == version@
            &&& d.types@.len() == lookup.items.spec_entries().len()
            &&& forall|k: int| 0 <= k < d.types@.len() ==> node_spec(lookup.items.spec_entries()[k].1, *lookup)
                == Ok::<NodeV, Violation>((#[trigger] d.types@[k])@)
            &&& forall|i: int, j: int| 0 <= i < j < d.types@.len() ==> lex_lt(#[trigger] d.types@[i].ident@, #[trigger] d.types@[j].ident@)
            &&& keys_sorted(d.tokens@)
            &&& text_map(entries_map(d.tokens@)) == insert_all(Map::empty(), inverted(lookup.tokens.spec_entries()))
        },
        r matches Err(e) ==> e matches Error::Violation(v) && exists|k: int| 0 <= k < lookup.items.spec_entries().len()
            && node_spec(#[trigger] lookup.items.spec_entries()[k].1, *lookup) == Err::<NodeV, Violation>(v),
{
    let entries = lookup.items.entries();
    let mut types: Vec<Node> = Vec::new();
    let mut i: usize = 0;
    while i < entries.len()
        invariant
            lookup.wf(),
            entries@ == lookup.items.spec_entries(),
            i <= entries@.len(),
            types@.len() == i,
            forall|k: int| 0 <= k < i ==> node_spec(entries@[k].1, *lookup) == Ok::<NodeV, Violation>((#[trigger] types@[k])@),
            forall|k: int| 0 <= k < i ==> (#[trigger] types@[k]).ident@ == entries@[k].0@,
        decreases entries@.len() - i,
    {
        proof {
            lemma_index_unique(entries@, i as int);
        }
        let node = match introspect_item(&entries[i].1, lookup) {
            Ok(n) => n,
            Err(e) => {
                assert(node_spec(entries@[i as int].1, *lookup) is Err);
                return Err(e);
            },
        };
        types.push(node);
        i = i + 1;
    }
    proof {
        assert forall|a: int, b: int| 0 <= a < b < types@.len() implies lex_lt(#[trigger] types@[a].ident@, #[trigger] types@[b].ident@) by {
            assert(lex_lt(entries@[a].0@, entries@[b].0@));
        }
    }
    let inv = invert_tokens(&lookup.tokens);
    Ok(Definitions { version, types, tokens: inv.entries })
}

} // verus!
