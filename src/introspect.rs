//! From declarations as written to the schema's nodes and types.
use vstd::prelude::*;
use crate::attr::{is_ident_spec, meta_path, str_eq, Attribute, Meta};
use crate::error::{Error, Expected, Violation};
use crate::names::{
    distinct_names, keyed_insert, lemma_keyed_insert_map, lemma_keyed_view_distinct, name_view, put_keyed, NameMap,
};
use crate::schema::{
    fields_view, type_view, types_view, variants_view, Node, NodeData, NodeDataV, NodeV, Punctuated, Type, TypeV,
};
use crate::syntax::{AstItem, Data, Field, TypeExpr, Variant, Visibility};
use crate::tokens::{
    lemma_toks_view, render, render_tokens, tok_view, toks, Delimiter, Tok, TokenTree,
};

verus! {

/// The tables that a crawl fills: the node declarations by name, the token
/// table from spelling to kind, the aliases from a re-exported name to the
/// name it renames, and the names of the opaque leaf types.
pub struct Lookup {
    pub items: NameMap<AstItem>,
    pub tokens: NameMap<String>,
    pub aliases: NameMap<String>,
    pub leaves: Vec<String>,
}

impl Lookup {
    pub open spec fn wf(&self) -> bool {
        &&& self.items.wf()
        &&& self.tokens.wf()
        &&& self.aliases.wf()
        &&& forall|k: Seq<char>| #[trigger] self.items@.contains_key(k) ==> self.items@[k].ident@ == k
            && self.items@[k].features.any.wf()
    }

    /// How many steps an alias chain may take: one per alias.
    pub open spec fn alias_fuel(&self) -> nat {
        self.aliases.spec_entries().len()
    }

    pub open spec fn is_leaf(&self, n: Seq<char>) -> bool {
        exists|i: int| 0 <= i < self.leaves@.len() && #[trigger] self.leaves@[i]@ == n
    }
}

impl Lookup {
    /// Empty tables around a token table, with the usual opaque leaves:
    /// `TokenStream`, `Literal`, `Ident` and `Span`.
    pub fn new(tokens: NameMap<String>) -> (r: Lookup)
        requires
            tokens.wf(),
        ensures
            r.wf(),
            r.tokens == tokens,
            r.items@ == Map::<Seq<char>, AstItem>::empty(),
            r.aliases@ == Map::<Seq<char>, String>::empty(),
            r.leaves@.len() == 4,
            r.leaves@[0]@ == "TokenStream"@,
            r.leaves@[1]@ == "Literal"@,
            r.leaves@[2]@ == "Ident"@,
            r.leaves@[3]@ == "Span"@,
    {
        let mut leaves: Vec<String> = Vec::new();
        leaves.push("TokenStream".to_owned());
        leaves.push("Literal".to_owned());
        leaves.push("Ident".to_owned());
        leaves.push("Span".to_owned());
        Lookup { items: NameMap::new(), tokens, aliases: NameMap::new(), leaves }
    }
}

pub open spec fn is_group_name(n: Seq<char>) -> bool {
    n == "Brace"@ || n == "Bracket"@ || n == "Paren"@ || n == "Group"@
}

pub open spec fn is_std_name(n: Seq<char>) -> bool {
    n == "String"@ || n == "u32"@ || n == "usize"@ || n == "bool"@
}

/// The name that `n` stands for after following aliases, at most `fuel`
/// steps; none where the chain does not end.
pub open spec fn resolve(al: Map<Seq<char>, String>, n: Seq<char>, fuel: nat) -> Option<Seq<char>>
    decreases fuel,
{
    if !al.contains_key(n) {
        Some(n)
    } else if fuel == 0 {
        None
    } else {
        resolve(al, al[n]@, (fuel - 1) as nat)
    }
}

/// The schema type of a type name that is not a wrapper.
pub open spec fn named_spec(n: Seq<char>, lk: Lookup) -> Result<TypeV, Violation> {
    if is_group_name(n) {
        Ok(TypeV::Group(n))
    } else if lk.is_leaf(n) {
        Ok(TypeV::Ext(n))
    } else if is_std_name(n) {
        Ok(TypeV::Std(n))
    } else {
        match resolve(lk.aliases@, n, lk.alias_fuel()) {
            Some(m) => if lk.items@.contains_key(m) {
                Ok(TypeV::NodeRef(m))
            } else {
                Err(Violation::UnknownType)
            },
            None => Err(Violation::UnknownType),
        }
    }
}

/// The schema type of a declared type.
pub open spec fn type_spec(e: TypeExpr, lk: Lookup) -> Result<TypeV, Violation>
    decreases e, 1nat,
{
    match e {
        TypeExpr::Path(segs) => {
            if segs@.len() == 0 {
                Err(Violation::TypeShape)
            } else {
                let last = segs@.last();
                let n = last.ident@;
                let args = last.args@;
                if n == "Option"@ || n == "Vec"@ || n == "Box"@ || n == "Punctuated"@ {
                    if args.len() == 0 {
                        Err(Violation::MissingTypeArgument)
                    } else {
                        match type_spec(args[0], lk) {
                            Err(v) => Err(v),
                            Ok(inner) => if n == "Option"@ {
                                Ok(TypeV::Optional(Box::new(inner)))
                            } else if n == "Vec"@ {
                                Ok(TypeV::Vector(Box::new(inner)))
                            } else if n == "Box"@ {
                                Ok(TypeV::Boxed(Box::new(inner)))
                            } else {
                                match type_spec(args.last(), lk) {
                                    Err(v) => Err(v),
                                    Ok(TypeV::Token(p)) => Ok(TypeV::Punctuated(Box::new(inner), p)),
                                    Ok(_) => Err(Violation::SeparatorNotToken),
                                }
                            },
                        }
                    }
                } else {
                    named_spec(n, lk)
                }
            }
        },
        TypeExpr::Tuple(elems) => match types_spec(elems@, lk) {
            Ok(s) => Ok(TypeV::Tuple(s)),
            Err(v) => Err(v),
        },
        TypeExpr::Macro(path, _, tokens) => {
            if path@.len() > 0 && path@.last().ident@ == "Token"@ {
                let spelling = render(toks(&tokens));
                if lk.tokens@.contains_key(spelling) {
                    Ok(TypeV::Token(lk.tokens@[spelling]@))
                } else {
                    Err(Violation::UnknownToken)
                }
            } else {
                Err(Violation::TypeShape)
            }
        },
    }
}

/// The schema types of a sequence of declared types.
pub open spec fn types_spec(s: Seq<TypeExpr>, lk: Lookup) -> Result<Seq<TypeV>, Violation>
    decreases s, 0nat,
{
    if s.len() == 0 {
        Ok(Seq::empty())
    } else {
        match types_spec(s.drop_last(), lk) {
            Err(v) => Err(v),
            Ok(front) => match type_spec(s.last(), lk) {
                Err(v) => Err(v),
                Ok(t) => Ok(front.push(t)),
            },
        }
    }
}

} // verus!

verus! {

pub open spec fn result_matches(r: Result<Type, Error>, s: Result<TypeV, Violation>) -> bool {
    match r {
        Ok(t) => s == Ok::<TypeV, Violation>(t@),
        Err(Error::Violation(v)) => s == Err::<TypeV, Violation>(v),
        Err(_) => false,
    }
}

fn is_leaf_name(leaves: &Vec<String>, n: &String) -> (r: bool)
    ensures
        r == (exists|i: int| 0 <= i < leaves@.len() && #[trigger] leaves@[i]@ == n@),
{
    let mut i: usize = 0;
    while i < leaves.len()
        invariant
            i <= leaves@.len(),
            forall|k: int| 0 <= k < i ==> #[trigger] leaves@[k]@ != n@,
        decreases leaves@.len() - i,
    {
        if leaves[i] == *n {
            return true;
        }
        i = i + 1;
    }
    false
}

/// Follows the aliases from `n` to the name it stands for.
pub fn resolve_alias(lookup: &Lookup, n: &String) -> (r: Option<String>)
    requires
        lookup.wf(),
    ensures
        r matches Some(m) ==> resolve(lookup.aliases@, n@, lookup.alias_fuel()) == Some(m@),
        r is None ==> resolve(lookup.aliases@, n@, lookup.alias_fuel()) is None,
{
    let fuel = lookup.aliases.len();
    let mut name = n.clone();
    let mut steps: usize = 0;
    loop
        invariant
            lookup.wf(),
            fuel == lookup.alias_fuel(),
            steps <= fuel,
            resolve(lookup.aliases@, n@, fuel as nat) == resolve(lookup.aliases@, name@, (fuel - steps) as nat),
        decreases fuel - steps,
    {
        match lookup.aliases.get(&name) {
            None => return Some(name),
            Some(target) => {
                if steps == fuel {
                    return None;
                }
                name = target.clone();
                steps = steps + 1;
            },
        }
    }
}

/// The schema type of a type name that is not a wrapper.
fn introspect_named(n: &String, lookup: &Lookup) -> (r: Result<Type, Error>)
    requires
        lookup.wf(),
    ensures
        result_matches(r, named_spec(n@, *lookup)),
{
    if str_eq(n, "Brace") || str_eq(n, "Bracket") || str_eq(n, "Paren") || str_eq(n, "Group") {
        Ok(Type::Group(n.clone()))
    } else if is_leaf_name(&lookup.leaves, n) {
        Ok(Type::Ext(n.clone()))
    } else if str_eq(n, "String") || str_eq(n, "u32") || str_eq(n, "usize") || str_eq(n, "bool") {
        Ok(Type::Std(n.clone()))
    } else {
        match resolve_alias(lookup, n) {
            Some(m) => {
                if lookup.items.get(&m).is_some() {
                    Ok(Type::NodeRef(m))
                } else {
                    Err(Error::Violation(Violation::UnknownType))
                }
            },
            None => Err(Error::Violation(Violation::UnknownType)),
        }
    }
}

/// Converts a declared type into the schema's type algebra: wrappers
/// (`Option`, `Vec`, `Box`, `Punctuated`) around their first type argument,
/// group markers, opaque leaves, standard types, nodes through aliases,
/// tuples element by element, and `Token![..]` through the token table.
pub fn introspect_type(e: &TypeExpr, lookup: &Lookup) -> (r: Result<Type, Error>)
    requires
        lookup.wf(),
    ensures
        result_matches(r, type_spec(*e, *lookup)),
    decreases e, 1nat,
{
    match e {
        TypeExpr::Path(segs) => {
            if segs.len() == 0 {
                return Err(Error::Violation(Violation::TypeShape));
            }
            let last = &segs[segs.len() - 1];
            let n = &last.ident;
            if str_eq(n, "Option") || str_eq(n, "Vec") || str_eq(n, "Box") || str_eq(n, "Punctuated") {
                if last.args.len() == 0 {
                    return Err(Error::Violation(Violation::MissingTypeArgument));
                }
                assert(decreases_to!(e => last.args@[0]));
                let inner = introspect_type(&last.args[0], lookup)?;
                if str_eq(n, "Option") {
                    Ok(Type::Optional(Box::new(inner)))
                } else if str_eq(n, "Vec") {
                    Ok(Type::Vector(Box::new(inner)))
                } else if str_eq(n, "Box") {
                    Ok(Type::Boxed(Box::new(inner)))
                } else {
                    let k = last.args.len() - 1;
                    assert(decreases_to!(e => last.args@[k as int]));
                    let sep = introspect_type(&last.args[k], lookup)?;
                    match sep {
                        Type::Token(p) => Ok(Type::Punctuated(Punctuated { element: Box::new(inner), punct: p })),
                        _ => Err(Error::Violation(Violation::SeparatorNotToken)),
                    }
                }
            } else {
                introspect_named(n, lookup)
            }
        },
        TypeExpr::Tuple(elems) => {
            let tys = introspect_types(elems, lookup)?;
            Ok(Type::Tuple(tys))
        },
        TypeExpr::Macro(path, _, tokens) => {
            proof {
                reveal_strlit("Token");
            }
            if path.len() > 0 && str_eq(&path[path.len() - 1].ident, "Token") {
                let spelling = render_tokens(tokens);
                match lookup.tokens.get(&spelling) {
                    Some(kind) => Ok(Type::Token(kind.clone())),
                    None => Err(Error::Violation(Violation::UnknownToken)),
                }
            } else {
                Err(Error::Violation(Violation::TypeShape))
            }
        },
    }
}

/// The schema types of a sequence of declared types.
pub fn introspect_types(es: &Vec<TypeExpr>, lookup: &Lookup) -> (r: Result<Vec<Type>, Error>)
    requires
        lookup.wf(),
    ensures
        match r {
            Ok(ts) => types_spec(es@, *lookup) == Ok::<Seq<TypeV>, Violation>(types_view(ts@)),
            Err(Error::Violation(v)) => types_spec(es@, *lookup) == Err::<Seq<TypeV>, Violation>(v),
            Err(_) => false,
        },
    decreases es, 0nat,
{
    let mut out: Vec<Type> = Vec::new();
    let mut i: usize = 0;
    while i < es.len()
        invariant
            lookup.wf(),
            i <= es@.len(),
            types_spec(es@.subrange(0, i as int), *lookup) == Ok::<Seq<TypeV>, Violation>(types_view(out@)),
        decreases es@.len() - i,
    {
        assert(es@.subrange(0, i + 1).drop_last() =~= es@.subrange(0, i as int));
        assert(decreases_to!(es => es@[i as int]));
        let t = match introspect_type(&es[i], lookup) {
            Ok(t) => t,
            Err(e) => {
                proof {
                    lemma_types_err(es@, *lookup, i as int);
                }
                return Err(e);
            },
        };
        let ghost before = out@;
        out.push(t);
        assert(out@.drop_last() =~= before);
        i = i + 1;
    }
    assert(es@.subrange(0, es@.len() as int) =~= es@);
    Ok(out)
}

/// Once a prefix fails, the whole sequence fails the same way.
proof fn lemma_types_err(s: Seq<TypeExpr>, lk: Lookup, i: int)
    requires
        0 <= i < s.len(),
        types_spec(s.subrange(0, i), lk) is Ok,
        type_spec(s[i], lk) is Err,
    ensures
        types_spec(s, lk) == Err::<Seq<TypeV>, Violation>(type_spec(s[i], lk)->Err_0),
    decreases s.len() - i,
{
    let v = type_spec(s[i], lk)->Err_0;
    assert(s.subrange(0, i + 1).drop_last() =~= s.subrange(0, i));
    lemma_types_err_extend(s, lk, i + 1, v);
}

proof fn lemma_types_err_extend(s: Seq<TypeExpr>, lk: Lookup, j: int, v: Violation)
    requires
        0 < j <= s.len(),
        types_spec(s.subrange(0, j), lk) == Err::<Seq<TypeV>, Violation>(v),
    ensures
        types_spec(s, lk) == Err::<Seq<TypeV>, Violation>(v),
    decreases s.len() - j,
{
    if j == s.len() {
        assert(s.subrange(0, j) =~= s);
    } else {
        assert(s.subrange(0, j + 1).drop_last() =~= s.subrange(0, j));
        lemma_types_err_extend(s, lk, j + 1, v);
    }
}

} // verus!

verus! {

/// `#[doc(hidden)]`: the content of a `doc(..)` list is the one word
/// `hidden` in parentheses.
pub open spec fn doc_hidden_spec(a: Attribute) -> bool {
    is_ident_spec(meta_path(a.meta), "doc"@) && match a.meta {
        Meta::List(l) => l.delimiter == Delimiter::Parenthesis && toks(&l.tokens) == seq![Tok::Ident("hidden"@)],
        _ => false,
    }
}

pub open spec fn any_doc_hidden(attrs: Seq<Attribute>) -> bool {
    exists|i: int| 0 <= i < attrs.len() && doc_hidden_spec(#[trigger] attrs[i])
}

pub open spec fn any_non_exhaustive(attrs: Seq<Attribute>) -> bool {
    exists|i: int| 0 <= i < attrs.len() && is_ident_spec(meta_path(#[trigger] attrs[i].meta), "non_exhaustive"@)
}

/// Checks that the list content of a `doc` attribute is `(hidden)`.
pub fn parse_doc_hidden_attr(delimiter: Delimiter, tokens: &Vec<TokenTree>) -> (r: Result<(), Error>)
    ensures
        r is Ok <==> (delimiter == Delimiter::Parenthesis && toks(tokens) == seq![Tok::Ident("hidden"@)]),
{
    proof {
        lemma_toks_view(tokens@);
        reveal_strlit("hidden");
    }
    if delimiter != Delimiter::Parenthesis {
        return Err(Error::Syntax(Expected::Parentheses));
    }
    if tokens.len() != 1 {
        return Err(Error::Syntax(Expected::Ident));
    }
    assert(toks(tokens)[0] == tok_view(tokens@[0]));
    assert(seq![Tok::Ident("hidden"@)][0] == Tok::Ident("hidden"@));
    match &tokens[0] {
        TokenTree::Ident(s) => {
            if str_eq(s, "hidden") {
                assert(toks(tokens) =~= seq![Tok::Ident("hidden"@)]);
                Ok(())
            } else {
                Err(Error::Syntax(Expected::Ident))
            }
        },
        _ => Err(Error::Syntax(Expected::Ident)),
    }
}

/// Whether one of `attrs` is `#[doc(hidden)]`.
pub fn is_doc_hidden(attrs: &Vec<Attribute>) -> (r: bool)
    ensures
        r == any_doc_hidden(attrs@),
{
    let mut i: usize = 0;
    while i < attrs.len()
        invariant
            i <= attrs@.len(),
            forall|k: int| 0 <= k < i ==> !doc_hidden_spec(#[trigger] attrs@[k]),
        decreases attrs@.len() - i,
    {
        let a = &attrs[i];
        proof {
            reveal_strlit("doc");
        }
        if a.path().is_ident("doc") {
            if let Meta::List(l) = &a.meta {
                if parse_doc_hidden_attr(l.delimiter, &l.tokens).is_ok() {
                    return true;
                }
            }
        }
        i = i + 1;
    }
    false
}

/// Whether one of `attrs` is `#[non_exhaustive]`.
pub fn is_non_exhaustive(attrs: &Vec<Attribute>) -> (r: bool)
    ensures
        r == any_non_exhaustive(attrs@),
{
    let mut i: usize = 0;
    while i < attrs.len()
        invariant
            i <= attrs@.len(),
            forall|k: int| 0 <= k < i ==> !is_ident_spec(meta_path(#[trigger] attrs@[k].meta), "non_exhaustive"@),
        decreases attrs@.len() - i,
    {
        if attrs[i].path().is_ident("non_exhaustive") {
            return true;
        }
        i = i + 1;
    }
    false
}

} // verus!

verus! {

/// The field table of a struct: each field's name and schema type, in
/// declaration order; a name met again keeps its first place and takes the
/// later type.
pub open spec fn fields_spec(fs: Seq<Field>, lk: Lookup) -> Result<Seq<(Seq<char>, TypeV)>, Violation>
    decreases fs.len(),
{
    if fs.len() == 0 {
        Ok(Seq::empty())
    } else {
        match fields_spec(fs.drop_last(), lk) {
            Err(v) => Err(v),
            Ok(front) => match type_spec(fs.last().ty, lk) {
                Err(v) => Err(v),
                Ok(t) => Ok(keyed_insert(front, fs.last().ident@, t)),
            },
        }
    }
}

/// The variant table of an enum: each variant that is not hidden, with the
/// schema types of its payload, in declaration order; a name met again
/// keeps its first place and takes the later payload.
pub open spec fn variants_spec(vs: Seq<Variant>, lk: Lookup) -> Result<Seq<(Seq<char>, Seq<TypeV>)>, Violation>
    decreases vs.len(),
{
    if vs.len() == 0 {
        Ok(Seq::empty())
    } else {
        match variants_spec(vs.drop_last(), lk) {
            Err(v) => Err(v),
            Ok(front) => if any_doc_hidden(vs.last().attrs@) {
                Ok(front)
            } else {
                match types_spec(vs.last().fields@, lk) {
                    Err(v) => Err(v),
                    Ok(t) => Ok(keyed_insert(front, vs.last().ident@, t)),
                }
            },
        }
    }
}

pub open spec fn all_pub(fs: Seq<Field>) -> bool {
    forall|i: int| 0 <= i < fs.len() ==> (#[trigger] fs[i]).vis is Public
}

pub open spec fn any_hidden_variant(vs: Seq<Variant>) -> bool {
    exists|i: int| 0 <= i < vs.len() && any_doc_hidden((#[trigger] vs[i]).attrs@)
}

/// The node that a declaration becomes.
pub open spec fn node_spec(item: AstItem, lk: Lookup) -> Result<NodeV, Violation> {
    match item.data {
        Data::Enum(vs) => match variants_spec(vs@, lk) {
            Err(v) => Err(v),
            Ok(vars) => Ok(NodeV {
                ident: item.ident@,
                features: item.features@,
                data: NodeDataV::Enum(vars),
                exhaustive: !(any_non_exhaustive(item.attrs@) || any_hidden_variant(vs@)),
            }),
        },
        Data::Struct(fs) => if all_pub(fs@) {
            match fields_spec(fs@, lk) {
                Err(v) => Err(v),
                Ok(fields) => Ok(NodeV {
                    ident: item.ident@,
                    features: item.features@,
                    data: NodeDataV::Struct(fields),
                    exhaustive: true,
                }),
            }
        } else {
            Ok(NodeV { ident: item.ident@, features: item.features@, data: NodeDataV::Private, exhaustive: true })
        },
    }
}

/// The field table of a struct.
pub fn introspect_struct(fs: &Vec<Field>, lookup: &Lookup) -> (r: Result<Vec<(String, Type)>, Error>)
    requires
        lookup.wf(),
    ensures
        match r {
            Ok(f) => fields_spec(fs@, *lookup) == Ok::<Seq<(Seq<char>, TypeV)>, Violation>(fields_view(f@))
                && distinct_names(fields_view(f@)),
            Err(Error::Violation(v)) => fields_spec(fs@, *lookup) == Err::<Seq<(Seq<char>, TypeV)>, Violation>(v),
            Err(_) => false,
        },
{
    let mut out: Vec<(String, Type)> = Vec::new();
    let mut i: usize = 0;
    assert(fields_view(out@) =~= Seq::empty());
    assert(name_view(out@) =~= Seq::empty());
    assert(fields_view(out@) =~= name_view(out@).map_values(|p: (Seq<char>, Type)| (p.0, type_view(p.1))));
    while i < fs.len()
        invariant
            lookup.wf(),
            i <= fs@.len(),
            fields_spec(fs@.subrange(0, i as int), *lookup) == Ok::<Seq<(Seq<char>, TypeV)>, Violation>(fields_view(out@)),
            distinct_names(name_view(out@)),
            fields_view(out@) == name_view(out@).map_values(|p: (Seq<char>, Type)| (p.0, type_view(p.1))),
        decreases fs@.len() - i,
    {
        assert(fs@.subrange(0, i + 1).drop_last() =~= fs@.subrange(0, i as int));
        let t = match introspect_type(&fs[i].ty, lookup) {
            Ok(t) => t,
            Err(e) => {
                proof {
                    lemma_fields_err(fs@, *lookup, i + 1);
                }
                return Err(e);
            },
        };
        let ghost before = out@;
        let ghost tv = t;
        put_keyed(&mut out, fs[i].ident.clone(), t);
        proof {
            let f = |x: Type| type_view(x);
            lemma_keyed_insert_map(name_view(before), fs@[i as int].ident@, tv, f);
            assert(name_view(before).map_values(|p: (Seq<char>, Type)| (p.0, f(p.1))) =~= fields_view(before));
            assert(name_view(out@).map_values(|p: (Seq<char>, Type)| (p.0, f(p.1))) =~= name_view(out@).map_values(|p: (Seq<char>, Type)| (p.0, type_view(p.1))));
            assert(fields_view(out@) =~= name_view(out@).map_values(|p: (Seq<char>, Type)| (p.0, type_view(p.1))));
            assert(fields_view(out@) == keyed_insert(fields_view(before), fs@[i as int].ident@, tv@));
        }
        i = i + 1;
    }
    assert(fs@.subrange(0, fs@.len() as int) =~= fs@);
    proof {
        lemma_keyed_view_distinct(name_view(out@), |x: Type| type_view(x));
    }
    Ok(out)
}

proof fn lemma_fields_err(s: Seq<Field>, lk: Lookup, j: int)
    requires
        0 < j <= s.len(),
        fields_spec(s.subrange(0, j), lk) is Err,
    ensures
        fields_spec(s, lk) == fields_spec(s.subrange(0, j), lk),
    decreases s.len() - j,
{
    if j == s.len() {
        assert(s.subrange(0, j) =~= s);
    } else {
        assert(s.subrange(0, j + 1).drop_last() =~= s.subrange(0, j));
        lemma_fields_err(s, lk, j + 1);
    }
}

proof fn lemma_variants_err(s: Seq<Variant>, lk: Lookup, j: int)
    requires
        0 < j <= s.len(),
        variants_spec(s.subrange(0, j), lk) is Err,
    ensures
        variants_spec(s, lk) == variants_spec(s.subrange(0, j), lk),
    decreases s.len() - j,
{
    if j == s.len() {
        assert(s.subrange(0, j) =~= s);
    } else {
        assert(s.subrange(0, j + 1).drop_last() =~= s.subrange(0, j));
        lemma_variants_err(s, lk, j + 1);
    }
}

/// The variant table of an enum, hidden variants left out.
pub fn introspect_enum(vs: &Vec<Variant>, lookup: &Lookup) -> (r: Result<Vec<(String, Vec<Type>)>, Error>)
    requires
        lookup.wf(),
    ensures
        match r {
            Ok(v) => variants_spec(vs@, *lookup) == Ok::<Seq<(Seq<char>, Seq<TypeV>)>, Violation>(variants_view(v@))
                && distinct_names(variants_view(v@)),
            Err(Error::Violation(v)) => variants_spec(vs@, *lookup) == Err::<Seq<(Seq<char>, Seq<TypeV>)>, Violation>(v),
            Err(_) => false,
        },
{
    let mut out: Vec<(String, Vec<Type>)> = Vec::new();
    let mut i: usize = 0;
    assert(variants_view(out@) =~= Seq::empty());
    assert(name_view(out@) =~= Seq::empty());
    assert(variants_view(out@) =~= name_view(out@).map_values(|p: (Seq<char>, Vec<Type>)| (p.0, types_view(p.1@))));
    while i < vs.len()
        invariant
            lookup.wf(),
            i <= vs@.len(),
            variants_spec(vs@.subrange(0, i as int), *lookup) == Ok::<Seq<(Seq<char>, Seq<TypeV>)>, Violation>(variants_view(out@)),
            distinct_names(name_view(out@)),
            variants_view(out@) == name_view(out@).map_values(|p: (Seq<char>, Vec<Type>)| (p.0, types_view(p.1@))),
        decreases vs@.len() - i,
    {
        assert(vs@.subrange(0, i + 1).drop_last() =~= vs@.subrange(0, i as int));
        if !is_doc_hidden(&vs[i].attrs) {
            let t = match introspect_types(&vs[i].fields, lookup) {
                Ok(t) => t,
                Err(e) => {
                    proof {
                        lemma_variants_err(vs@, *lookup, i + 1);
                    }
                    return Err(e);
                },
            };
            let ghost before = out@;
            let ghost tv = t;
            put_keyed(&mut out, vs[i].ident.clone(), t);
            proof {
                let f = |x: Vec<Type>| types_view(x@);
                lemma_keyed_insert_map(name_view(before), vs@[i as int].ident@, tv, f);
                assert(name_view(before).map_values(|p: (Seq<char>, Vec<Type>)| (p.0, f(p.1))) =~= variants_view(before));
                assert(name_view(out@).map_values(|p: (Seq<char>, Vec<Type>)| (p.0, f(p.1))) =~= name_view(out@).map_values(|p: (Seq<char>, Vec<Type>)| (p.0, types_view(p.1@))));
                assert(variants_view(out@) =~= name_view(out@).map_values(|p: (Seq<char>, Vec<Type>)| (p.0, types_view(p.1@))));
                assert(variants_view(out@) == keyed_insert(variants_view(before), vs@[i as int].ident@, types_view(tv@)));
            }
        }
        i = i + 1;
    }
    assert(vs@.subrange(0, vs@.len() as int) =~= vs@);
    proof {
        lemma_keyed_view_distinct(name_view(out@), |x: Vec<Type>| types_view(x@));
    }
    Ok(out)
}

/// Whether one of the variants is hidden.
fn has_hidden_variant(vs: &Vec<Variant>) -> (r: bool)
    ensures
        r == any_hidden_variant(vs@),
{
    let mut i: usize = 0;
    while i < vs.len()
        invariant
            i <= vs@.len(),
            forall|k: int| 0 <= k < i ==> !any_doc_hidden((#[trigger] vs@[k]).attrs@),
        decreases vs@.len() - i,
    {
        if is_doc_hidden(&vs[i].attrs) {
            return true;
        }
        i = i + 1;
    }
    false
}

/// Whether every field is public.
fn all_fields_pub(fs: &Vec<Field>) -> (r: bool)
    ensures
        r == all_pub(fs@),
{
    let mut i: usize = 0;
    while i < fs.len()
        invariant
            i <= fs@.len(),
            forall|k: int| 0 <= k < i ==> (#[trigger] fs@[k]).vis is Public,
        decreases fs@.len() - i,
    {
        match fs[i].vis {
            Visibility::Public => {},
            _ => return false,
        }
        i = i + 1;
    }
    true
}

/// The node that a declaration becomes: an enum with its visible
/// variants, exhaustive unless marked `#[non_exhaustive]` or holding a
/// hidden variant; a struct with its field table when every field is
/// public, opaque otherwise.
pub fn introspect_item(item: &AstItem, lookup: &Lookup) -> (r: Result<Node, Error>)
    requires
        lookup.wf(),
        item.features.any.wf(),
    ensures
        match r {
            Ok(n) => node_spec(*item, *lookup) == Ok::<NodeV, Violation>(n@) && n.features.any.wf(),
            Err(Error::Violation(v)) => node_spec(*item, *lookup) == Err::<NodeV, Violation>(v),
            Err(_) => false,
        },
{
    match &item.data {
        Data::Enum(vs) => {
            let variants = introspect_enum(vs, lookup)?;
            let exhaustive = !(is_non_exhaustive(&item.attrs) || has_hidden_variant(vs));
            Ok(Node {
                ident: item.ident.clone(),
                features: item.features.copy(),
                data: NodeData::Enum(variants),
                exhaustive,
            })
        },
        Data::Struct(fs) => {
            let data = if all_fields_pub(fs) {
                NodeData::Struct(introspect_struct(fs, lookup)?)
            } else {
                NodeData::Private
            };
            Ok(Node { ident: item.ident.clone(), features: item.features.copy(), data, exhaustive: true })
        },
    }
}

} // verus!
