//! Properties that hold across the extraction's functions.
use vstd::prelude::*;
use crate::crawl::insert_all;
use crate::error::{Error, Violation};
use crate::introspect::{
    all_pub, any_doc_hidden, fields_spec, is_group_name, is_std_name, node_spec, resolve, result_matches,
    type_spec, variants_spec, Lookup,
};
use crate::names::{has_name, index_of};
use crate::schema::{NodeDataV, Type, TypeV};
use crate::syntax::{AstItem, Data, Field, TypeExpr, Variant};
use crate::token_table::inverted;
use crate::decl::{
    after_head, ast_enum_of_structs_ok, ast_enum_ok, entries_from, entry_end, list_from, list_ok, member_ok,
    skip_outer, tag_at, variant_end, variants_from, variants_ok,
};
use crate::syntax::type_end;
use crate::tokens::Tok;

verus! {

/// The field names of a declaration differ from one another.
pub open spec fn distinct_fields(fs: Seq<Field>) -> bool {
    forall|i: int, j: int| 0 <= i < j < fs.len() ==> (#[trigger] fs[i]).ident@ != (#[trigger] fs[j]).ident@
}

/// A struct whose fields are all public, with distinct names, becomes a
/// node with one field entry per declared field, in declaration order,
/// each with the schema type of the declared type.
pub proof fn lemma_struct_fields(item: AstItem, lk: Lookup)
    requires
        item.data matches Data::Struct(fs) && all_pub(fs@) && distinct_fields(fs@),
        node_spec(item, lk) is Ok,
    ensures
        item.data matches Data::Struct(fs) && node_spec(item, lk)->Ok_0.data matches NodeDataV::Struct(fields)
            && fields.len() == fs@.len()
            && forall|i: int| 0 <= i < fs@.len() ==> (#[trigger] fields[i]).0 == fs@[i].ident@
                && type_spec(fs@[i].ty, lk) == Ok::<TypeV, Violation>(fields[i].1),
{
    if let Data::Struct(fs) = item.data {
        lemma_fields_shape(fs@, lk);
    }
}

proof fn lemma_fields_shape(fs: Seq<Field>, lk: Lookup)
    requires
        fields_spec(fs, lk) is Ok,
        distinct_fields(fs),
    ensures
        fields_spec(fs, lk)->Ok_0.len() == fs.len(),
        forall|i: int| 0 <= i < fs.len() ==> (#[trigger] fields_spec(fs, lk)->Ok_0[i]).0 == fs[i].ident@
            && type_spec(fs[i].ty, lk) == Ok::<TypeV, Violation>(fields_spec(fs, lk)->Ok_0[i].1),
    decreases fs.len(),
{
    if fs.len() > 0 {
        assert forall|i: int, j: int| 0 <= i < j < fs.drop_last().len() implies (#[trigger] fs.drop_last()[i]).ident@
            != (#[trigger] fs.drop_last()[j]).ident@ by {
            assert(fs[i].ident@ != fs[j].ident@);
        }
        lemma_fields_shape(fs.drop_last(), lk);
        let front = fields_spec(fs.drop_last(), lk)->Ok_0;
        let all = fields_spec(fs, lk)->Ok_0;
        let k = fs.last().ident@;
        assert(!exists|i: int| 0 <= i < front.len() && (#[trigger] front[i]).0 == k) by {
            if exists|i: int| 0 <= i < front.len() && (#[trigger] front[i]).0 == k {
                let i = choose|i: int| 0 <= i < front.len() && (#[trigger] front[i]).0 == k;
                assert(fs.drop_last()[i] == fs[i]);
                assert(fs[i].ident@ != fs[fs.len() - 1].ident@);
            }
        }
        assert(all == front.push((k, type_spec(fs.last().ty, lk)->Ok_0)));
        assert forall|i: int| 0 <= i < fs.len() implies (#[trigger] all[i]).0 == fs[i].ident@
            && type_spec(fs[i].ty, lk) == Ok::<TypeV, Violation>(all[i].1) by {
            if i < fs.len() - 1 {
                assert(all[i] == front[i]);
                assert(fs.drop_last()[i] == fs[i]);
            }
        }
    }
}

/// Introspecting one declared type twice gives structurally equal types.
pub proof fn lemma_introspect_idempotent(e: TypeExpr, lk: Lookup, first: Result<Type, Error>, second: Result<Type, Error>)
    requires
        result_matches(first, type_spec(e, lk)),
        result_matches(second, type_spec(e, lk)),
    ensures
        first is Ok <==> second is Ok,
        first is Ok ==> first->Ok_0@ == second->Ok_0@,
        first is Err ==> first == second,
{
}

/// Two enums whose variants agree, one by one, in name, payload types and
/// hiddenness have the same variant table, whichever declaration form
/// wrote them.
pub proof fn lemma_variants_by_payload(a: Seq<Variant>, b: Seq<Variant>, lk: Lookup)
    requires
        a.len() == b.len(),
        forall|i: int| 0 <= i < a.len() ==> (#[trigger] a[i]).ident@ == b[i].ident@ && a[i].fields@ == b[i].fields@
            && any_doc_hidden(a[i].attrs@) == any_doc_hidden(b[i].attrs@),
    ensures
        variants_spec(a, lk) == variants_spec(b, lk),
    decreases a.len(),
{
    if a.len() > 0 {
        assert forall|i: int| 0 <= i < a.len() - 1 implies (#[trigger] a.drop_last()[i]).ident@ == b.drop_last()[i].ident@
            && a.drop_last()[i].fields@ == b.drop_last()[i].fields@
            && any_doc_hidden(a.drop_last()[i].attrs@) == any_doc_hidden(b.drop_last()[i].attrs@) by {
            assert(a.drop_last()[i] == a[i]);
            assert(b.drop_last()[i] == b[i]);
        }
        lemma_variants_by_payload(a.drop_last(), b.drop_last(), lk);
        assert(a.last() == a[a.len() - 1]);
    }
}

/// An alias chain `a` to `b` to `c`, with `c` a node, resolves a type
/// named `a` to a reference to `c`.
pub proof fn lemma_alias_chain(lk: Lookup, e: TypeExpr, a: Seq<char>, b: Seq<char>, c: Seq<char>)
    requires
        lk.wf(),
        e matches TypeExpr::Path(segs) && segs@.len() == 1 && segs@[0].ident@ == a && segs@[0].args@.len() == 0,
        lk.aliases@.contains_key(a) && lk.aliases@[a]@ == b,
        lk.aliases@.contains_key(b) && lk.aliases@[b]@ == c,
        !lk.aliases@.contains_key(c),
        lk.items@.contains_key(c),
        a != "Option"@ && a != "Vec"@ && a != "Box"@ && a != "Punctuated"@,
        !is_group_name(a) && !lk.is_leaf(a) && !is_std_name(a),
    ensures
        type_spec(e, lk) == Ok::<TypeV, Violation>(TypeV::NodeRef(c)),
{
    let s = lk.aliases.spec_entries();
    let ia = index_of(s, a);
    let ib = index_of(s, b);
    assert(has_name(s, a));
    assert(has_name(s, b));
    assert(a != b);
    assert(s[ia].0@ == a);
    assert(s[ib].0@ == b);
    assert(lk.alias_fuel() >= 2);
    let f = lk.alias_fuel();
    assert(resolve(lk.aliases@, c, (f - 2) as nat) == Some(c));
    assert(resolve(lk.aliases@, b, (f - 1) as nat) == Some(c));
    assert(resolve(lk.aliases@, a, f) == Some(c));
}

/// After the pairs of `s`, whose first parts differ, are put into an empty
/// map, the map holds each pair and nothing else.
pub proof fn lemma_insert_all_distinct(s: Seq<(Seq<char>, Seq<char>)>)
    requires
        forall|i: int, j: int| 0 <= i < j < s.len() ==> (#[trigger] s[i]).0 != (#[trigger] s[j]).0,
    ensures
        insert_all(Map::empty(), s).dom().finite(),
        insert_all(Map::empty(), s).dom().len() == s.len(),
        forall|k: Seq<char>| #[trigger] insert_all(Map::empty(), s).contains_key(k) <==> exists|i: int| 0 <= i < s.len() && (#[trigger] s[i]).0 == k,
        forall|i: int| 0 <= i < s.len() ==> insert_all(Map::empty(), s)[(#[trigger] s[i]).0] == s[i].1,
    decreases s.len(),
{
    if s.len() > 0 {
        let front = s.drop_last();
        assert forall|i: int, j: int| 0 <= i < j < front.len() implies (#[trigger] front[i]).0 != (#[trigger] front[j]).0 by {
            assert(front[i] == s[i] && front[j] == s[j]);
        }
        lemma_insert_all_distinct(front);
        let m = insert_all(Map::<Seq<char>, Seq<char>>::empty(), front);
        let last = s.last();
        if m.contains_key(last.0) {
            let i = choose|i: int| 0 <= i < front.len() && (#[trigger] front[i]).0 == last.0;
            assert(s[i].0 != s[s.len() - 1].0);
        }
        assert forall|k: Seq<char>| #[trigger] insert_all(Map::empty(), s).contains_key(k) <==> exists|i: int| 0 <= i < s.len() && (#[trigger] s[i]).0 == k by {
            if m.contains_key(k) {
                let i = choose|i: int| 0 <= i < front.len() && (#[trigger] front[i]).0 == k;
                assert(s[i] == front[i]);
            }
            if exists|i: int| 0 <= i < s.len() && (#[trigger] s[i]).0 == k {
                let i = choose|i: int| 0 <= i < s.len() && (#[trigger] s[i]).0 == k;
                if i < s.len() - 1 {
                    assert(front[i] == s[i]);
                }
            }
        }
        assert forall|i: int| 0 <= i < s.len() implies insert_all(Map::empty(), s)[(#[trigger] s[i]).0] == s[i].1 by {
            if i < s.len() - 1 {
                assert(front[i] == s[i]);
                assert(s[i].0 != s[s.len() - 1].0);
            }
        }
    }
}

/// The token table read backwards gives back, for each kind, the spelling
/// it was loaded with, with one entry per loaded rule, as long as no two
/// spellings name one kind.
pub proof fn lemma_tokens_round_trip(t: Seq<(String, String)>)
    requires
        forall|i: int, j: int| 0 <= i < j < t.len() ==> (#[trigger] t[i]).1@ != (#[trigger] t[j]).1@,
    ensures
        insert_all(Map::empty(), inverted(t)).dom().len() == t.len(),
        forall|i: int| 0 <= i < t.len() ==> insert_all(Map::empty(), inverted(t)).contains_key((#[trigger] t[i]).1@)
            && insert_all(Map::empty(), inverted(t))[t[i].1@] == t[i].0@,
{
    let s = inverted(t);
    assert forall|i: int, j: int| 0 <= i < j < s.len() implies (#[trigger] s[i]).0 != (#[trigger] s[j]).0 by {
        assert(t[i].1@ != t[j].1@);
    }
    lemma_insert_all_distinct(s);
    assert forall|i: int| 0 <= i < t.len() implies insert_all(Map::empty(), s).contains_key((#[trigger] t[i]).1@)
        && insert_all(Map::empty(), s)[t[i].1@] == t[i].0@ by {
        assert(s[i].0 == t[i].1@);
    }
}

/// The payload of an entry, one path, is a payload of one type.
proof fn lemma_member_is_list(c: Seq<Tok>)
    requires
        member_ok(c),
    ensures
        list_ok(c),
{
    assert(type_end(c, 0) == Some(c.len() as int));
}

/// Entries of an enum of wrapped nodes, each followed by a comma, are
/// variants of a tagged enum.
proof fn lemma_entries_are_variants(c: Seq<Tok>, k: int)
    requires
        0 <= k < c.len(),
        entries_from(c, k),
    ensures
        variants_from(c, k),
    decreases c.len() - k,
{
    let e = entry_end(c, k)->Some_0;
    let p = skip_outer(c, k);
    if p + 1 < c.len() && (c[p + 1] matches Tok::Group(crate::tokens::Delimiter::Parenthesis, _)) {
        lemma_member_is_list(c[p + 1]->Group_1);
    }
    assert(variant_end(c, k) == Some(e - 1));
    if e < c.len() {
        lemma_entries_are_variants(c, e);
    }
}

/// Tokens in the form of an enum of wrapped nodes are also in the form of
/// a tagged enum, without the `#no_visit` marker: both recognizers take
/// them, and each variant of the one is an entry of the other.
pub proof fn lemma_wrapped_enum_is_tagged(s: Seq<Tok>)
    requires
        ast_enum_of_structs_ok(s),
    ensures
        ast_enum_ok(s),
        !tag_at(s, skip_outer(s, 0) + 3, "no_visit"@),
{
    let i = skip_outer(s, 0) + 3;
    assert(after_head(s, "no_visit"@) == i);
    let c = s[i]->Group_1;
    if c.len() > 0 {
        lemma_entries_are_variants(c, 0);
    }
    assert(variants_ok(c));
}

} // verus!
