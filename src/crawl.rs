//! One step of the crawl over the modules of the modeled library: what a
//! file's items add to the tables, and which module files to read next.
use vstd::prelude::*;
use crate::attr::{is_ident_spec, meta_path, str_eq, Attribute, Meta, Path};
use crate::decl::{
    ast_enum, ast_enum_of_structs, ast_enum_of_structs_ok, ast_enum_ok, ast_struct, ast_struct_ok, entries_body,
    enum_body, head_attrs, head_name, plain_struct, plain_struct_ok, skip_outer, struct_body, tag_at,
};
use crate::error::{Error, Expected};
use crate::features::{cfg_spec, introspect_features, lit_str, lit_str_value, merge, merge_spec, Features};
use crate::introspect::Lookup;
use crate::names::NameMap;
use crate::syntax::{AstItem, Data};
use crate::tokens::{lemma_toks_view, tok_view, toks, Tok, TokenTree};

verus! {

/// A `use` tree as written.
pub enum UseTree {
    /// `prefix::tree`
    Path(String, Box<UseTree>),
    /// `name`
    Name(String),
    /// `name as rename`
    Rename(String, String),
    /// `*`
    Glob,
    /// `{ a, b }`
    Group(Vec<UseTree>),
}

/// A top-level item of a source file, as far as the crawl reads it.
pub enum FileItem {
    /// A module declaration; `inline` when its body is written in place.
    Mod { attrs: Vec<Attribute>, ident: String, inline: bool },
    /// A macro invocation, with the tokens between its delimiters.
    Macro { attrs: Vec<Attribute>, path: Path, tokens: Vec<TokenTree> },
    /// A plain struct, with all of its tokens.
    Struct { ident: String, tokens: Vec<TokenTree> },
    /// A `use` declaration.
    Use { is_pub: bool, tree: UseTree },
    Other,
}

/// A module file to read next, relative to the directory of the file that
/// declared it, with the condition that its declarations stand under.
pub struct ModuleLoad {
    pub file: String,
    pub features: Features,
}

/// Modules that hold generated traversal code, never grammar.
pub open spec fn is_ignored_mod(n: Seq<char>) -> bool {
    n == "fold"@ || n == "visit"@ || n == "visit_mut"@
}

/// Plain structs that the schema takes although no declaration form
/// declares them.
pub open spec fn is_extra_type(n: Seq<char>) -> bool {
    n == "Lifetime"@
}

/// Modules under a fixed feature whatever their own attributes say.
pub open spec fn module_override(n: Seq<char>) -> Option<Seq<char>> {
    if n == "derive"@ {
        Some("derive"@)
    } else {
        None
    }
}

/// The file named by a `#[path = ".."]` among `attrs`: the first such
/// attribute decides.
pub open spec fn path_attr_spec(attrs: Seq<Attribute>) -> Option<Option<Seq<char>>>
    decreases attrs.len(),
{
    if attrs.len() == 0 {
        Some(None)
    } else if is_ident_spec(meta_path(attrs[0].meta), "path"@) {
        match attrs[0].meta {
            Meta::NameValue(nv) => {
                let v = toks(&nv.value);
                if v.len() == 1 && v[0] is Literal {
                    match lit_str_value(v[0]->Literal_0) {
                        Some(s) => Some(Some(s)),
                        None => None,
                    }
                } else {
                    None
                }
            },
            _ => None,
        }
    } else {
        path_attr_spec(attrs.drop_first())
    }
}

/// The file that a `#[path = "file"]` among `attrs` names, if any.
pub fn path_attr(attrs: &Vec<Attribute>) -> (r: Result<Option<String>, Error>)
    ensures
        match r {
            Ok(Some(s)) => path_attr_spec(attrs@) == Some(Some(s@)),
            Ok(None) => path_attr_spec(attrs@) == Some(None::<Seq<char>>),
            Err(_) => path_attr_spec(attrs@) is None,
        },
{
    let mut i: usize = 0;
    assert(attrs@.subrange(0, attrs@.len() as int) =~= attrs@);
    while i < attrs.len()
        invariant
            i <= attrs@.len(),
            path_attr_spec(attrs@) == path_attr_spec(attrs@.subrange(i as int, attrs@.len() as int)),
        decreases attrs@.len() - i,
    {
        let ghost rest = attrs@.subrange(i as int, attrs@.len() as int);
        assert(rest[0] == attrs@[i as int]);
        proof {
            reveal_strlit("path");
        }
        if attrs[i].path().is_ident("path") {
            if let Meta::NameValue(nv) = &attrs[i].meta {
                proof {
                    lemma_toks_view(nv.value@);
                }
                if nv.value.len() == 1 {
                    if let TokenTree::Literal(text) = &nv.value[0] {
                        assert(toks(&nv.value)[0] == tok_view(nv.value@[0]));
                        return match lit_str(text) {
                            Ok(s) => Ok(Some(s)),
                            Err(e) => Err(e),
                        };
                    }
                    assert(toks(&nv.value)[0] == tok_view(nv.value@[0]));
                }
            }
            return Err(Error::Syntax(Expected::StrLit));
        }
        assert(rest.drop_first() =~= attrs@.subrange(i + 1, attrs@.len() as int));
        i = i + 1;
    }
    Ok(None)
}

/// The renames `name as rename` in a `use` tree, in order, each as the pair
/// `(rename, name)`.
pub open spec fn renames(t: UseTree) -> Seq<(Seq<char>, Seq<char>)>
    decreases t, 1nat,
{
    match t {
        UseTree::Path(_, sub) => renames(*sub),
        UseTree::Rename(name, rename) => seq![(rename@, name@)],
        UseTree::Group(items) => renames_all(items@),
        _ => Seq::empty(),
    }
}

pub open spec fn renames_all(s: Seq<UseTree>) -> Seq<(Seq<char>, Seq<char>)>
    decreases s, 0nat,
{
    if s.len() == 0 {
        Seq::empty()
    } else {
        renames_all(s.drop_last()) + renames(s.last())
    }
}

/// A map of names after the pairs of `s` are put in, in order.
pub open spec fn insert_all(m: Map<Seq<char>, Seq<char>>, s: Seq<(Seq<char>, Seq<char>)>) -> Map<Seq<char>, Seq<char>>
    decreases s.len(),
{
    if s.len() == 0 {
        m
    } else {
        insert_all(m, s.drop_last()).insert(s.last().0, s.last().1)
    }
}

pub open spec fn text_map(m: Map<Seq<char>, String>) -> Map<Seq<char>, Seq<char>> {
    m.map_values(|s: String| s@)
}

proof fn lemma_insert_all_append(m: Map<Seq<char>, Seq<char>>, a: Seq<(Seq<char>, Seq<char>)>, b: Seq<(Seq<char>, Seq<char>)>)
    ensures
        insert_all(m, a + b) == insert_all(insert_all(m, a), b),
    decreases b.len(),
{
    if b.len() == 0 {
        assert(a + b =~= a);
    } else {
        assert((a + b).drop_last() =~= a + b.drop_last());
        lemma_insert_all_append(m, a, b.drop_last());
    }
}

/// Records the renames of a public `use` tree as aliases.
pub fn load_aliases(tree: &UseTree, aliases: &mut NameMap<String>)
    requires
        old(aliases).wf(),
    ensures
        final(aliases).wf(),
        text_map(final(aliases)@) == insert_all(text_map(old(aliases)@), renames(*tree)),
    decreases tree, 1nat,
{
    match tree {
        UseTree::Path(_, sub) => {
            let t: &UseTree = sub;
            let ghost m0 = text_map(aliases@);
            assert(renames(*tree) == renames(*t));
            load_aliases(t, aliases);
            assert(text_map(aliases@) == insert_all(m0, renames(*t)));
            assert(m0 == text_map(old(aliases)@));
        },
        UseTree::Rename(name, rename) => {
            let ghost before = text_map(aliases@);
            aliases.insert(rename.clone(), name.clone());
            proof {
                assert(text_map(aliases@) =~= before.insert(rename@, name@));
                assert(seq![(rename@, name@)].drop_last() =~= Seq::<(Seq<char>, Seq<char>)>::empty());
                assert(seq![(rename@, name@)].last() == (rename@, name@));
                assert(insert_all(before, Seq::<(Seq<char>, Seq<char>)>::empty()) == before);
                assert(insert_all(before, seq![(rename@, name@)]) == before.insert(rename@, name@));
                assert(renames(*tree) == seq![(rename@, name@)]);
            }
        },
        UseTree::Group(items) => {
            load_alias_list(items, aliases);
        },
        _ => {
            assert(renames(*tree) =~= Seq::<(Seq<char>, Seq<char>)>::empty());
            assert(text_map(aliases@) == insert_all(text_map(old(aliases)@), renames(*tree)));
        },
    }
}

/// Records the renames of each tree of a `use` group, in order.
fn load_alias_list(items: &Vec<UseTree>, aliases: &mut NameMap<String>)
    requires
        old(aliases).wf(),
    ensures
        final(aliases).wf(),
        text_map(final(aliases)@) == insert_all(text_map(old(aliases)@), renames_all(items@)),
    decreases items, 0nat,
{
    let ghost start = text_map(aliases@);
    let mut i: usize = 0;
    assert(insert_all(start, renames_all(items@.subrange(0, 0))) == start);
    while i < items.len()
        invariant
            aliases.wf(),
            i <= items@.len(),
            text_map(aliases@) == insert_all(start, renames_all(items@.subrange(0, i as int))),
        decreases items@.len() - i,
    {
        assert(items@.subrange(0, i + 1).drop_last() =~= items@.subrange(0, i as int));
        assert(decreases_to!(items => items@[i as int]));
        load_aliases(&items[i], aliases);
        proof {
            lemma_insert_all_append(start, renames_all(items@.subrange(0, i as int)), renames(items@[i as int]));
        }
        i = i + 1;
    }
    assert(items@.subrange(0, items@.len() as int) =~= items@);
}

} // verus!

verus! {

/// The condition of a module declared with `attrs` inside code under `base`.
pub open spec fn module_features(ident: Seq<char>, attrs: Seq<Attribute>, base: Set<Seq<char>>) -> Option<Set<Seq<char>>> {
    match module_override(ident) {
        Some(f) => Some(set![f]),
        None => cfg_spec(attrs, base),
    }
}

/// The file of a module: the one its `#[path]` names, else `<name>.rs`.
pub open spec fn module_file(ident: Seq<char>, attrs: Seq<Attribute>) -> Option<Seq<char>> {
    match path_attr_spec(attrs) {
        Some(Some(f)) => Some(f),
        Some(None) => Some(ident + ".rs"@),
        None => None,
    }
}

/// The declaration macros that the crawl recognizes.
pub open spec fn is_decl_macro(p: Path) -> bool {
    is_ident_spec(p, "ast_struct"@) || is_ident_spec(p, "ast_enum"@) || is_ident_spec(p, "ast_enum_of_structs"@)
}

/// The tokens of a declaration macro have the form that its path names.
pub open spec fn decl_ok(p: Path, s: Seq<Tok>) -> bool {
    if is_ident_spec(p, "ast_struct"@) {
        ast_struct_ok(s)
    } else if is_ident_spec(p, "ast_enum"@) {
        ast_enum_ok(s)
    } else {
        ast_enum_of_structs_ok(s)
    }
}

/// A tagged enum marked `#no_visit`: recognized, and left out.
pub open spec fn decl_skipped(p: Path, s: Seq<Tok>) -> bool {
    !is_ident_spec(p, "ast_struct"@) && is_ident_spec(p, "ast_enum"@)
        && tag_at(s, skip_outer(s, 0) + 3, "no_visit"@)
}

/// The condition that a declaration carries itself: `full` for a plain
/// node marked `#full`.
pub open spec fn decl_own(p: Path, s: Seq<Tok>) -> Set<Seq<char>> {
    if is_ident_spec(p, "ast_struct"@) && tag_at(s, skip_outer(s, 0) + 3, "full"@) {
        set!["full"@]
    } else {
        Set::empty()
    }
}

/// The body that a declaration records matches its tokens.
pub open spec fn decl_data_ok(p: Path, s: Seq<Tok>, d: Data) -> bool {
    if is_ident_spec(p, "ast_struct"@) {
        d is Struct && struct_body(s, d->Struct_0@)
    } else if is_ident_spec(p, "ast_enum"@) {
        d is Enum && enum_body(s, d->Enum_0@)
    } else {
        d is Enum && entries_body(s, d->Enum_0@)
    }
}

/// The attributes that a declaration records: none for a plain node, the
/// outer attributes of the head for the two enum forms.
pub open spec fn decl_attrs_ok(p: Path, s: Seq<Tok>, attrs: Seq<Attribute>) -> bool {
    if is_ident_spec(p, "ast_struct"@) {
        attrs.len() == 0
    } else {
        head_attrs(s, attrs)
    }
}

/// Taking item `it` of a file read under `base` succeeds.
pub open spec fn item_ok(it: FileItem, base: Set<Seq<char>>) -> bool {
    match it {
        FileItem::Mod { attrs, ident, inline } => inline || is_ignored_mod(ident@) || (module_features(
            ident@,
            attrs@,
            base,
        ) is Some && module_file(ident@, attrs@) is Some),
        FileItem::Macro { attrs, path, tokens } => !is_decl_macro(path) || (decl_ok(path, toks(&tokens)) && (
        decl_skipped(path, toks(&tokens)) || (cfg_spec(attrs@, base) is Some && merge_spec(
            decl_own(path, toks(&tokens)),
            cfg_spec(attrs@, base)->Some_0,
        ) is Some))),
        FileItem::Struct { ident, tokens } => !is_extra_type(ident@) || plain_struct_ok(toks(&tokens)),
        _ => true,
    }
}

/// The name under which taking item `it` records a node, if it records
/// one.
pub open spec fn item_records(it: FileItem) -> Option<Seq<char>> {
    match it {
        FileItem::Macro { attrs, path, tokens } => if is_decl_macro(path) && !decl_skipped(path, toks(&tokens)) {
            Some(head_name(toks(&tokens)))
        } else {
            None
        },
        FileItem::Struct { ident, tokens } => if is_extra_type(ident@) {
            Some(ident@)
        } else {
            None
        },
        _ => None,
    }
}

/// Records a node declaration under its name.
fn record(lookup: &mut Lookup, item: AstItem)
    requires
        old(lookup).wf(),
        item.features.any.wf(),
    ensures
        final(lookup).wf(),
        final(lookup).items@ == old(lookup).items@.insert(item.ident@, item),
        final(lookup).tokens == old(lookup).tokens,
        final(lookup).aliases == old(lookup).aliases,
        final(lookup).leaves == old(lookup).leaves,
{
    let ghost k = item.ident@;
    let ghost v = item;
    lookup.items.insert(item.ident.clone(), item);
    assert forall|q: Seq<char>| #[trigger] lookup.items@.contains_key(q) implies lookup.items@[q].ident@ == q
        && lookup.items@[q].features.any.wf() by {
        if q != k {
            assert(old(lookup).items@.contains_key(q));
        }
    }
}

/// Takes one top-level item of a file into the tables: a node declaration
/// is recorded under its name with the condition it stands under, a public
/// `use` of the root file adds its renames as aliases, and a module
/// declaration that is neither written in place nor ignored gives the
/// module file to read next. `features` is the condition of the file.
pub fn load_item(lookup: &mut Lookup, is_root: bool, features: &Features, item: &FileItem) -> (r: Result<Option<ModuleLoad>, Error>)
    requires
        old(lookup).wf(),
        features.any.wf(),
    ensures
        final(lookup).wf(),
        final(lookup).tokens == old(lookup).tokens,
        final(lookup).leaves == old(lookup).leaves,
        r is Ok <==> item_ok(*item, features@),
        r is Ok && item_records(*item) is None ==> final(lookup).items == old(lookup).items,
        r is Ok && item_records(*item) is Some ==> {
            let k = item_records(*item)->Some_0;
            &&& final(lookup).items@ == old(lookup).items@.insert(k, final(lookup).items@[k])
            &&& recorded_as(*item, features@, final(lookup).items@[k])
        },
        match *item {
            FileItem::Mod { attrs, ident, inline } => {
                &&& final(lookup).items == old(lookup).items
                &&& final(lookup).aliases == old(lookup).aliases
                &&& r matches Ok(found) ==> {
                    &&& found is None <==> (inline || is_ignored_mod(ident@))
                    &&& found matches Some(load) ==> {
                        &&& module_features(ident@, attrs@, features@) == Some(load.features@)
                        &&& module_file(ident@, attrs@) == Some(load.file@)
                        &&& load.features.any.wf()
                    }
                }
                &&& r is Err <==> (!inline && !is_ignored_mod(ident@)
                    && (module_features(ident@, attrs@, features@) is None || module_file(ident@, attrs@) is None))
            },
            FileItem::Use { is_pub, tree } => {
                &&& final(lookup).items == old(lookup).items
                &&& r == Ok::<Option<ModuleLoad>, Error>(None)
                &&& if is_root && is_pub {
                    text_map(final(lookup).aliases@) == insert_all(text_map(old(lookup).aliases@), renames(tree))
                } else {
                    final(lookup).aliases == old(lookup).aliases
                }
            },
            FileItem::Macro { attrs, path, tokens } => {
                &&& final(lookup).aliases == old(lookup).aliases
                &&& r is Ok ==> r == Ok::<Option<ModuleLoad>, Error>(None)
                &&& r is Ok && item_records(*item) is None ==> final(lookup).items == old(lookup).items
                &&& r is Ok && item_records(*item) is Some ==> {
                    let k = head_name(toks(&tokens));
                    let v = final(lookup).items@[k];
                    &&& final(lookup).items@ == old(lookup).items@.insert(k, v)
                    &&& v.ident@ == k
                    &&& Some(v.features@) == merge_spec(decl_own(path, toks(&tokens)), cfg_spec(attrs@, features@)->Some_0)
                    &&& decl_data_ok(path, toks(&tokens), v.data)
                    &&& decl_attrs_ok(path, toks(&tokens), v.attrs@)
                }
            },
            FileItem::Struct { ident, tokens } => {
                &&& final(lookup).aliases == old(lookup).aliases
                &&& r is Ok ==> r == Ok::<Option<ModuleLoad>, Error>(None)
                &&& !is_extra_type(ident@) ==> final(lookup).items == old(lookup).items
                &&& r is Ok && is_extra_type(ident@) ==> {
                    let v = final(lookup).items@[ident@];
                    &&& final(lookup).items@ == old(lookup).items@.insert(ident@, v)
                    &&& v.ident@ == ident@
                    &&& v.features@ == features@
                    &&& v.data is Struct && struct_body(toks(&tokens), v.data->Struct_0@)
                    &&& head_attrs(toks(&tokens), v.attrs@)
                }
            },
            FileItem::Other => {
                &&& final(lookup).items == old(lookup).items
                &&& final(lookup).aliases == old(lookup).aliases
                &&& r == Ok::<Option<ModuleLoad>, Error>(None)
            },
        },
{
    match item {
        FileItem::Mod { attrs, ident, inline } => {
            if *inline {
                return Ok(None);
            }
            if str_eq(ident, "fold") || str_eq(ident, "visit") || str_eq(ident, "visit_mut") {
                return Ok(None);
            }
            proof {
                reveal_strlit("derive");
            }
            let condition = if str_eq(ident, "derive") {
                Features::single("derive".to_owned())
            } else {
                introspect_features(attrs, features)?
            };
            let file = match path_attr(attrs)? {
                Some(f) => f,
                None => ident.clone().concat(".rs"),
            };
            Ok(Some(ModuleLoad { file, features: condition }))
        },
        FileItem::Macro { attrs, path, tokens } => {
            let found = if path.is_ident("ast_struct") {
                Some(ast_struct(tokens)?)
            } else if path.is_ident("ast_enum") {
                ast_enum(tokens)?
            } else if path.is_ident("ast_enum_of_structs") {
                Some(ast_enum_of_structs(tokens)?)
            } else {
                return Ok(None);
            };
            if let Some(found) = found {
                let condition = introspect_features(attrs, features)?;
                let merged = merge(&found.features, &condition)?;
                let AstItem { attrs: item_attrs, ident, data, features: _ } = found;
                let node = AstItem { attrs: item_attrs, ident, data, features: merged };
                let ghost k = node.ident@;
                record(lookup, node);
                assert(lookup.items@ == old(lookup).items@.insert(k, lookup.items@[k]));
            }
            Ok(None)
        },
        FileItem::Struct { ident, tokens } => {
            proof {
                reveal_strlit("Lifetime");
            }
            if !str_eq(ident, "Lifetime") {
                return Ok(None);
            }
            let found = plain_struct(tokens)?;
            let AstItem { attrs: item_attrs, ident: _, data, features: _ } = found;
            let node = AstItem { attrs: item_attrs, ident: ident.clone(), data, features: features.copy() };
            let ghost k = node.ident@;
            record(lookup, node);
            assert(lookup.items@ == old(lookup).items@.insert(k, lookup.items@[k]));
            Ok(None)
        },
        FileItem::Use { is_pub, tree } => {
            if is_root && *is_pub {
                load_aliases(tree, &mut lookup.aliases);
            }
            Ok(None)
        },
        FileItem::Other => Ok(None),
    }
}

} // verus!

verus! {

/// The module declarations among `items` that the crawl follows, in order:
/// each one's name and attributes.
pub open spec fn followed_mods(items: Seq<FileItem>) -> Seq<(Seq<char>, Seq<Attribute>)>
    decreases items.len(),
{
    if items.len() == 0 {
        Seq::empty()
    } else {
        let front = followed_mods(items.drop_last());
        match items.last() {
            FileItem::Mod { attrs, ident, inline } => if !inline && !is_ignored_mod(ident@) {
                front.push((ident@, attrs@))
            } else {
                front
            },
            _ => front,
        }
    }
}

/// `loads` are the module files of the declarations `mods`, one for one,
/// each with its conditions, for a file read under `base`.
pub open spec fn loads_match(mods: Seq<(Seq<char>, Seq<Attribute>)>, base: Set<Seq<char>>, loads: Seq<ModuleLoad>) -> bool {
    &&& loads.len() == mods.len()
    &&& forall|j: int| 0 <= j < loads.len() ==> {
        &&& module_features(mods[j].0, mods[j].1, base) == Some((#[trigger] loads[j]).features@)
        &&& module_file(mods[j].0, mods[j].1) == Some(loads[j].file@)
        &&& loads[j].features.any.wf()
    }
}

/// `v` is the node that taking item `it` under `base` records.
pub open spec fn recorded_as(it: FileItem, base: Set<Seq<char>>, v: AstItem) -> bool {
    match it {
        FileItem::Macro { attrs, path, tokens } => {
            &&& v.ident@ == head_name(toks(&tokens))
            &&& Some(v.features@) == merge_spec(decl_own(path, toks(&tokens)), cfg_spec(attrs@, base)->Some_0)
            &&& decl_data_ok(path, toks(&tokens), v.data)
            &&& decl_attrs_ok(path, toks(&tokens), v.attrs@)
        },
        FileItem::Struct { ident, tokens } => {
            &&& v.ident@ == ident@
            &&& v.features@ == base
            &&& v.data is Struct && struct_body(toks(&tokens), v.data->Struct_0@)
            &&& head_attrs(toks(&tokens), v.attrs@)
        },
        _ => false,
    }
}

/// The last of the first `n` items that records a node named `k`.
pub open spec fn last_record(items: Seq<FileItem>, n: int, k: Seq<char>) -> Option<int>
    decreases n,
{
    if n <= 0 || n > items.len() {
        None
    } else if item_records(items[n - 1]) == Some(k) {
        Some(n - 1)
    } else {
        last_record(items, n - 1, k)
    }
}

/// The names of the nodes that the items record, in any order.
pub open spec fn recorded_names(items: Seq<FileItem>) -> Set<Seq<char>>
    decreases items.len(),
{
    if items.len() == 0 {
        Set::empty()
    } else {
        match item_records(items.last()) {
            Some(k) => recorded_names(items.drop_last()).insert(k),
            None => recorded_names(items.drop_last()),
        }
    }
}

/// The renames of the public `use` declarations among the items, in order.
pub open spec fn file_renames(items: Seq<FileItem>) -> Seq<(Seq<char>, Seq<char>)>
    decreases items.len(),
{
    if items.len() == 0 {
        Seq::empty()
    } else {
        file_renames(items.drop_last()) + match items.last() {
            FileItem::Use { is_pub, tree } => if is_pub { renames(tree) } else { Seq::empty() },
            _ => Seq::empty(),
        }
    }
}

/// Takes the top-level items of one file into the tables, in order; gives
/// the module files that the file declares, in order, each to be read
/// after this file. `is_root` tells the library's root file, the only one
/// whose public renames are aliases.
pub fn load_file(lookup: &mut Lookup, is_root: bool, features: &Features, items: &Vec<FileItem>) -> (r: Result<Vec<ModuleLoad>, Error>)
    requires
        old(lookup).wf(),
        features.any.wf(),
    ensures
        final(lookup).wf(),
        final(lookup).tokens == old(lookup).tokens,
        final(lookup).leaves == old(lookup).leaves,
        r matches Ok(loads) ==> loads_match(followed_mods(items@), features@, loads@),
        r is Ok <==> forall|i: int| 0 <= i < items@.len() ==> item_ok(#[trigger] items@[i], features@),
        r is Ok ==> final(lookup).items@.dom() == old(lookup).items@.dom().union(recorded_names(items@)),
        r is Ok ==> forall|k: Seq<char>| #[trigger] final(lookup).items@.contains_key(k) ==> match last_record(
            items@,
            items@.len() as int,
            k,
        ) {
            Some(j) => recorded_as(items@[j], features@, final(lookup).items@[k]),
            None => final(lookup).items@[k] == old(lookup).items@[k],
        },
        r is Ok ==> if is_root {
            text_map(final(lookup).aliases@) == insert_all(text_map(old(lookup).aliases@), file_renames(items@))
        } else {
            final(lookup).aliases == old(lookup).aliases
        },
{
    let mut loads: Vec<ModuleLoad> = Vec::new();
    let mut i: usize = 0;
    while i < items.len()
        invariant
            lookup.wf(),
            features.any.wf(),
            lookup.tokens == old(lookup).tokens,
            lookup.leaves == old(lookup).leaves,
            i <= items@.len(),
            loads_match(followed_mods(items@.subrange(0, i as int)), features@, loads@),
            forall|q: int| 0 <= q < i ==> item_ok(#[trigger] items@[q], features@),
            lookup.items@.dom() == old(lookup).items@.dom().union(recorded_names(items@.subrange(0, i as int))),
            forall|k: Seq<char>| #[trigger] lookup.items@.contains_key(k) ==> match last_record(items@, i as int, k) {
                Some(j) => recorded_as(items@[j], features@, lookup.items@[k]),
                None => lookup.items@[k] == old(lookup).items@[k],
            },
            if is_root {
                text_map(lookup.aliases@) == insert_all(text_map(old(lookup).aliases@), file_renames(items@.subrange(0, i as int)))
            } else {
                lookup.aliases == old(lookup).aliases
            },
        decreases items@.len() - i,
    {
        let ghost dom0 = lookup.items@.dom();
        let ghost m0 = lookup.items@;
        let ghost al0 = text_map(lookup.aliases@);
        let found = load_item(lookup, is_root, features, &items[i])?;
        proof {
            let pre = items@.subrange(0, i as int);
            let next = items@.subrange(0, i + 1);
            assert(next.drop_last() =~= pre);
            assert(next.last() == items@[i as int]);
            assert forall|k: Seq<char>| #[trigger] lookup.items@.contains_key(k) implies match last_record(items@, i + 1, k) {
                Some(j) => recorded_as(items@[j], features@, lookup.items@[k]),
                None => lookup.items@[k] == old(lookup).items@[k],
            } by {
                if item_records(items@[i as int]) != Some(k) {
                    assert(m0.contains_key(k));
                    assert(lookup.items@[k] == m0[k]);
                }
            }
            match item_records(items@[i as int]) {
                Some(k) => {
                    assert(lookup.items@.dom() =~= dom0.insert(k));
                    assert(lookup.items@.dom() =~= old(lookup).items@.dom().union(recorded_names(next)));
                },
                None => {
                    assert(lookup.items@.dom() =~= old(lookup).items@.dom().union(recorded_names(next)));
                },
            }
            if is_root {
                match items@[i as int] {
                    FileItem::Use { is_pub, tree } => {
                        if is_pub {
                            lemma_insert_all_append(text_map(old(lookup).aliases@), file_renames(pre), renames(tree));
                        } else {
                            assert(file_renames(next) =~= file_renames(pre));
                        }
                    },
                    _ => {
                        assert(file_renames(next) =~= file_renames(pre));
                    },
                }
            }
        }
        let ghost prefix = followed_mods(items@.subrange(0, i as int));
        assert(items@.subrange(0, i + 1).drop_last() =~= items@.subrange(0, i as int));
        assert(items@.subrange(0, i + 1).last() == items@[i as int]);
        let ghost before = loads@;
        if let Some(load) = found {
            loads.push(load);
            assert forall|j: int| 0 <= j < loads@.len() implies {
                &&& module_features(followed_mods(items@.subrange(0, i + 1))[j].0, followed_mods(items@.subrange(0, i + 1))[j].1, features@) == Some((#[trigger] loads@[j]).features@)
                &&& module_file(followed_mods(items@.subrange(0, i + 1))[j].0, followed_mods(items@.subrange(0, i + 1))[j].1) == Some(loads@[j].file@)
                &&& loads@[j].features.any.wf()
            } by {
                if j < before.len() {
                    assert(loads@[j] == before[j]);
                    assert(followed_mods(items@.subrange(0, i + 1))[j] == prefix[j]);
                }
            }
        }
        i = i + 1;
    }
    assert(items@.subrange(0, items@.len() as int) =~= items@);
    Ok(loads)
}

} // verus!
