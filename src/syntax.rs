//! The declarations as written: type expressions, fields, variants, and
//! the items that the declaration forms produce.
use vstd::prelude::*;
use crate::attr::{colons_at, ident_at, meta_toks, peek_colons, peek_punct, punct_at, AttrStyle, Attribute};
use crate::error::{Error, Expected, Violation};
use crate::features::Features;
use crate::tokens::{
    copy_tokens, lemma_toks_view, lemma_unspaced, tok_view, toks, unspaced, unspaced_tok, Delimiter, Tok,
    TokenTree,
};

verus! {

/// One segment of a type path, with its angle-bracketed type arguments
/// (none when there are no brackets).
pub struct PathSegment {
    pub ident: String,
    pub args: Vec<TypeExpr>,
}

/// A declared type, as written.
pub enum TypeExpr {
    /// A path such as `Option<Box<Expr>>` or `token::Brace`.
    Path(Vec<PathSegment>),
    /// A tuple such as `(Token![!], Path)`.
    Tuple(Vec<TypeExpr>),
    /// A macro in type position such as `Token![,]`: the macro's path, its
    /// delimiter and its tokens.
    Macro(Vec<PathSegment>, Delimiter, Vec<TokenTree>),
}

/// The visibility of a field: `pub`, `pub(..)` with its restriction, or
/// none.
pub enum Visibility {
    Public,
    Restricted(Vec<TokenTree>),
    Inherited,
}

/// A named field of a struct declaration.
pub struct Field {
    pub attrs: Vec<Attribute>,
    pub vis: Visibility,
    pub ident: String,
    pub ty: TypeExpr,
}

/// A variant of an enum declaration, with its positional payload.
pub struct Variant {
    pub attrs: Vec<Attribute>,
    pub ident: String,
    pub fields: Vec<TypeExpr>,
}

/// The body of a declaration.
pub enum Data {
    Struct(Vec<Field>),
    Enum(Vec<Variant>),
}

/// A node declaration found in the sources, with the condition it stands under.
pub struct AstItem {
    pub attrs: Vec<Attribute>,
    pub ident: String,
    pub data: Data,
    pub features: Features,
}

/// `::` with its spacing forgotten.
pub open spec fn ucolons() -> Seq<Tok> {
    seq![Tok::Punct(':', false), Tok::Punct(':', false)]
}

/// The tokens of a type, punctuation unspaced.
pub open spec fn type_toks(e: TypeExpr) -> Seq<Tok>
    decreases e, 0nat,
{
    match e {
        TypeExpr::Path(segs) => segs_toks(segs@),
        TypeExpr::Tuple(elems) => seq![Tok::Group(Delimiter::Parenthesis, tuple_toks(elems@))],
        TypeExpr::Macro(segs, d, tokens) => segs_toks(segs@) + seq![Tok::Punct('!', false), Tok::Group(d, unspaced(toks(&tokens)))],
    }
}

/// The tokens of path segments joined by `::`.
pub open spec fn segs_toks(s: Seq<PathSegment>) -> Seq<Tok>
    decreases s, 0nat,
{
    if s.len() == 0 {
        Seq::empty()
    } else if s.len() == 1 {
        seg_toks(s[0])
    } else {
        segs_toks(s.drop_last()) + ucolons() + seg_toks(s.last())
    }
}

/// The tokens of one path segment: its name, and its type arguments in
/// angle brackets when it has any.
pub open spec fn seg_toks(seg: PathSegment) -> Seq<Tok>
    decreases seg, 0nat,
{
    seq![Tok::Ident(seg.ident@)] + if seg.args@.len() > 0 {
        seq![Tok::Punct('<', false)] + list_toks(seg.args@) + seq![Tok::Punct('>', false)]
    } else {
        Seq::empty()
    }
}

/// The tokens of types joined by commas.
pub open spec fn list_toks(s: Seq<TypeExpr>) -> Seq<Tok>
    decreases s, 0nat,
{
    if s.len() == 0 {
        Seq::empty()
    } else if s.len() == 1 {
        type_toks(s[0])
    } else {
        list_toks(s.drop_last()) + seq![Tok::Punct(',', false)] + type_toks(s.last())
    }
}

/// The tokens inside the parentheses of a tuple type: a one-element tuple
/// keeps its trailing comma.
pub open spec fn tuple_toks(s: Seq<TypeExpr>) -> Seq<Tok>
    decreases s, 1nat,
{
    list_toks(s) + if s.len() == 1 { seq![Tok::Punct(',', false)] } else { Seq::empty() }
}

/// The tokens of an attribute, punctuation unspaced.
pub open spec fn attr_utoks(a: Attribute) -> Seq<Tok> {
    seq![Tok::Punct('#', false)] + (if a.style == AttrStyle::Inner {
        seq![Tok::Punct('!', false)]
    } else {
        Seq::empty()
    }) + seq![Tok::Group(Delimiter::Bracket, unspaced(meta_toks(a.meta)))]
}

/// The tokens of attributes one after another, punctuation unspaced.
pub open spec fn attrs_utoks(s: Seq<Attribute>) -> Seq<Tok>
    decreases s.len(),
{
    if s.len() == 0 {
        Seq::empty()
    } else {
        attrs_utoks(s.drop_last()) + attr_utoks(s.last())
    }
}

pub open spec fn vis_toks(v: Visibility) -> Seq<Tok> {
    match v {
        Visibility::Public => seq![Tok::Ident("pub"@)],
        Visibility::Restricted(r) => seq![Tok::Ident("pub"@), Tok::Group(Delimiter::Parenthesis, unspaced(toks(&r)))],
        Visibility::Inherited => Seq::empty(),
    }
}

/// The tokens of a named field, punctuation unspaced.
pub open spec fn field_toks(f: Field) -> Seq<Tok> {
    attrs_utoks(f.attrs@) + vis_toks(f.vis) + seq![Tok::Ident(f.ident@), Tok::Punct(':', false)] + type_toks(f.ty)
}

/// The tokens of named fields separated by commas.
pub open spec fn fields_toks(s: Seq<Field>) -> Seq<Tok>
    decreases s.len(),
{
    if s.len() == 0 {
        Seq::empty()
    } else if s.len() == 1 {
        field_toks(s[0])
    } else {
        fields_toks(s.drop_last()) + seq![Tok::Punct(',', false)] + field_toks(s.last())
    }
}

/// The tokens of a variant: its attributes, its name, and its payload in
/// parentheses when it has one.
pub open spec fn variant_toks(v: Variant) -> Seq<Tok> {
    attrs_utoks(v.attrs@) + seq![Tok::Ident(v.ident@)] + if v.fields@.len() > 0 {
        seq![Tok::Group(Delimiter::Parenthesis, list_toks(v.fields@))]
    } else {
        Seq::empty()
    }
}

/// The tokens of variants separated by commas.
pub open spec fn variants_toks(s: Seq<Variant>) -> Seq<Tok>
    decreases s.len(),
{
    if s.len() == 0 {
        Seq::empty()
    } else if s.len() == 1 {
        variant_toks(s[0])
    } else {
        variants_toks(s.drop_last()) + seq![Tok::Punct(',', false)] + variant_toks(s.last())
    }
}

/// The tokens of variants each followed by a comma.
pub open spec fn entries_toks(s: Seq<Variant>) -> Seq<Tok>
    decreases s.len(),
{
    if s.len() == 0 {
        Seq::empty()
    } else {
        entries_toks(s.drop_last()) + variant_toks(s.last()) + seq![Tok::Punct(',', false)]
    }
}

/// `s` is the tokens of the items that `print` gives, with or without a
/// trailing comma.
pub open spec fn with_optional_comma(s: Seq<Tok>, printed: Seq<Tok>, nonempty: bool) -> bool {
    s == printed || (nonempty && s == printed + seq![Tok::Punct(',', false)])
}

/// Where a type that starts at `pos` ends, if one starts there: a tuple in
/// parentheses, or a path (no leading `::`) possibly followed by `!` and a
/// group.
pub open spec fn type_end(s: Seq<Tok>, pos: int) -> Option<int>
    decreases s, s.len() - pos, 3nat,
{
    if pos < 0 || pos >= s.len() {
        None
    } else if s[pos] matches Tok::Group(Delimiter::Parenthesis, _) {
        if tuple_ok(s[pos]->Group_1) { Some(pos + 1) } else { None }
    } else if colons_at(s, pos) {
        None
    } else {
        match segs_end(s, pos) {
            None => None,
            Some(i) => if punct_at(s, i, '!') && i + 1 < s.len() && s[i + 1] is Group {
                Some(i + 2)
            } else {
                Some(i)
            },
        }
    }
}

/// Where path segments that start at `i` end: identifiers with optional
/// type arguments, separated by `::`.
pub open spec fn segs_end(s: Seq<Tok>, i: int) -> Option<int>
    decreases s, s.len() - i, 2nat,
{
    if !(0 <= i < s.len() && s[i] is Ident) {
        None
    } else {
        match seg_args_end(s, i + 1) {
            None => None,
            Some(j) => if j <= i {
                None
            } else if colons_at(s, j) {
                segs_end(s, j + 2)
            } else {
                Some(j)
            },
        }
    }
}

/// Where the optional type arguments `<..>` at `i` end.
pub open spec fn seg_args_end(s: Seq<Tok>, i: int) -> Option<int>
    decreases s, s.len() - i, 1nat,
{
    if i >= 0 && punct_at(s, i, '<') {
        args_end(s, i + 1)
    } else {
        Some(i)
    }
}

/// Where type arguments from `i` up to and with the closing `>` end.
pub open spec fn args_end(s: Seq<Tok>, i: int) -> Option<int>
    decreases s, s.len() - i, 4nat,
{
    if i < 0 || i >= s.len() {
        None
    } else {
        match type_end(s, i) {
            None => None,
            Some(j) => if j <= i {
                None
            } else if punct_at(s, j, '>') {
                Some(j + 1)
            } else if punct_at(s, j, ',') {
                args_end(s, j + 1)
            } else {
                None
            },
        }
    }
}

/// `s` is the content of a tuple type's parentheses.
pub open spec fn tuple_ok(s: Seq<Tok>) -> bool
    decreases s, s.len() + 1, 0nat,
{
    s.len() == 0 || tuple_from(s, 0, 0)
}

/// The tuple elements from `i` on, `count` of them read before, are well
/// formed.
pub open spec fn tuple_from(s: Seq<Tok>, i: int, count: nat) -> bool
    decreases s, s.len() - i, 5nat,
{
    if i < 0 || i >= s.len() {
        false
    } else {
        match type_end(s, i) {
            None => false,
            Some(j) => if j <= i || j > s.len() {
                false
            } else if j == s.len() {
                count + 1 != 1
            } else if !punct_at(s, j, ',') {
                false
            } else if j + 1 == s.len() {
                count + 1 == 1
            } else {
                tuple_from(s, j + 1, count + 1)
            },
        }
    }
}

/// Parses a type expression at position `pos`: a path with type arguments,
/// a tuple, or a macro such as `Token![,]`. Gives it with the position after
/// it; the tokens it took print as the type.
pub fn parse_type(ts: &Vec<TokenTree>, pos: usize) -> (r: Result<(TypeExpr, usize), Error>)
    ensures
        r matches Ok((e, end)) ==> pos < end <= ts@.len()
            && unspaced(toks(ts)).subrange(pos as int, end as int) == type_toks(e)
            && type_end(toks(ts), pos as int) == Some(end as int)
            && (e is Path <==> (!(toks(ts)[pos as int] matches Tok::Group(Delimiter::Parenthesis, _))
                && segs_end(toks(ts), pos as int) == Some(end as int))),
        r is Ok <==> type_end(toks(ts), pos as int) is Some,
    decreases ts, ts@.len() - pos,
{
    proof {
        lemma_toks_view(ts@);
        lemma_unspaced(toks(ts));
    }
    let ghost u = unspaced(toks(ts));
    let n = ts.len();
    if pos >= n {
        return Err(Error::Syntax(Expected::Type));
    }
    assert(toks(ts)[pos as int] == tok_view(ts@[pos as int]));
    if let TokenTree::Group(Delimiter::Parenthesis, inner) = &ts[pos] {
        assert(decreases_to!(ts => ts@[pos as int]));
        let elems = parse_tuple(inner)?;
        assert(toks(ts)[pos as int]->Group_1 == toks(inner));
        proof {
            assert(u[pos as int] == unspaced_tok(tok_view(ts@[pos as int])));
            assert(u.subrange(pos as int, pos + 1) =~= type_toks(TypeExpr::Tuple(elems)));
        }
        return Ok((TypeExpr::Tuple(elems), pos + 1));
    }
    if peek_colons(ts, pos) {
        return Err(Error::Violation(Violation::TypeShape));
    }
    let mut i: usize = pos;
    let mut segments: Vec<PathSegment> = Vec::new();
    loop
        invariant_except_break
            segs_end(toks(ts), pos as int) == segs_end(toks(ts), i as int),
            segments@.len() == 0 ==> i == pos,
            segments@.len() > 0 ==> u.subrange(pos as int, i as int) == segs_toks(segments@) + ucolons(),
        invariant
            pos <= i <= n,
            pos < n,
            !colons_at(toks(ts), pos as int),
            !(toks(ts)[pos as int] matches Tok::Group(Delimiter::Parenthesis, _)),
            n == ts@.len(),
            toks(ts).len() == ts@.len(),
            u == unspaced(toks(ts)),
            u.len() == n,
            forall|q: int| 0 <= q < n ==> #[trigger] u[q] == unspaced_tok(toks(ts)[q]),
        ensures
            segs_end(toks(ts), pos as int) == Some(i as int),
            pos < i <= n,
            segments@.len() > 0,
            u.subrange(pos as int, i as int) == segs_toks(segments@),
        decreases n - i,
    {
        let seg_start = i;
        let ident = match ident_at(ts, i) {
            Some(s) => s,
            None => return Err(Error::Violation(Violation::TypeShape)),
        };
        i = i + 1;
        let mut args: Vec<TypeExpr> = Vec::new();
        if peek_punct(ts, i, '<') {
            i = i + 1;
            loop
                invariant_except_break
                    seg_args_end(toks(ts), seg_start + 1) == args_end(toks(ts), i as int),
                    args@.len() == 0 ==> i == seg_start + 2,
                    args@.len() > 0 ==> u.subrange(seg_start + 2, i as int) == list_toks(args@) + seq![Tok::Punct(',', false)],
                invariant
                    seg_start + 2 <= i <= n,
                    pos <= seg_start,
                    pos < n,
                    !colons_at(toks(ts), pos as int),
                    !(toks(ts)[pos as int] matches Tok::Group(Delimiter::Parenthesis, _)),
                    segs_end(toks(ts), pos as int) == segs_end(toks(ts), seg_start as int),
                    seg_start < n && toks(ts)[seg_start as int] is Ident,
                    n == ts@.len(),
                    toks(ts).len() == ts@.len(),
                    u == unspaced(toks(ts)),
                    u.len() == n,
                    forall|q: int| 0 <= q < n ==> #[trigger] u[q] == unspaced_tok(toks(ts)[q]),
                ensures
                    seg_args_end(toks(ts), seg_start + 1) == Some(i as int),
                    seg_start + 2 < i <= n,
                    args@.len() > 0,
                    u.subrange(seg_start + 2, i as int) == list_toks(args@) + seq![Tok::Punct('>', false)],
                decreases n - i,
            {
                let (arg, next) = parse_type(ts, i)?;
                let ghost before = args@;
                args.push(arg);
                proof {
                    assert(args@.drop_last() =~= before);
                    if before.len() == 0 {
                        assert(u.subrange(seg_start + 2, next as int) =~= list_toks(args@));
                    } else {
                        assert(u.subrange(seg_start + 2, next as int) =~= u.subrange(seg_start + 2, i as int) + u.subrange(i as int, next as int));
                        assert(list_toks(args@) == list_toks(before) + seq![Tok::Punct(',', false)] + type_toks(arg));
                        assert(u.subrange(seg_start + 2, next as int) =~= list_toks(args@));
                    }
                }
                i = next;
                if peek_punct(ts, i, '>') {
                    assert(u.subrange(seg_start + 2, i + 1) =~= u.subrange(seg_start + 2, i as int) + seq![u[i as int]]);
                    i = i + 1;
                    break;
                } else if peek_punct(ts, i, ',') {
                    assert(u.subrange(seg_start + 2, i + 1) =~= u.subrange(seg_start + 2, i as int) + seq![u[i as int]]);
                    i = i + 1;
                } else {
                    return Err(Error::Syntax(Expected::Comma));
                }
            }
        }
        assert(seg_args_end(toks(ts), seg_start + 1) == Some(i as int));
        let seg = PathSegment { ident, args };
        proof {
            if seg.args@.len() > 0 {
                assert(u.subrange(seg_start as int, i as int) =~= seq![u[seg_start as int], u[seg_start + 1]] + u.subrange(seg_start + 2, i as int));
            } else {
                assert(u.subrange(seg_start as int, i as int) =~= seq![u[seg_start as int]]);
            }
            assert(u.subrange(seg_start as int, i as int) =~= seg_toks(seg));
        }
        let ghost before = segments@;
        segments.push(seg);
        proof {
            assert(segments@.drop_last() =~= before);
            if before.len() == 0 {
                assert(u.subrange(pos as int, i as int) =~= segs_toks(segments@));
            } else {
                assert(u.subrange(pos as int, i as int) =~= u.subrange(pos as int, seg_start as int) + u.subrange(seg_start as int, i as int));
                assert(segs_toks(segments@) == segs_toks(before) + ucolons() + seg_toks(seg));
                assert(u.subrange(pos as int, i as int) =~= segs_toks(segments@));
            }
        }
        if peek_colons(ts, i) {
            assert(u.subrange(pos as int, i + 2) =~= u.subrange(pos as int, i as int) + seq![u[i as int], u[i + 1]]);
            i = i + 2;
        } else {
            break;
        }
    }
    if peek_punct(ts, i, '!') && i < n - 1 {
        if let TokenTree::Group(d, inner) = &ts[i + 1] {
            let tokens = copy_tokens(inner);
            proof {
                assert(u[i + 1] == unspaced_tok(tok_view(ts@[i + 1])));
                assert(u.subrange(pos as int, i + 2) =~= u.subrange(pos as int, i as int) + seq![u[i as int], u[i + 1]]);
            }
            let e = TypeExpr::Macro(segments, *d, tokens);
            assert(u.subrange(pos as int, i + 2) =~= type_toks(e));
            return Ok((e, i + 2));
        }
    }
    Ok((TypeExpr::Path(segments), i))
}

/// Parses the content of a tuple type's parentheses: types separated by
/// commas, the comma after a single type required (without it the type is
/// parenthesized, which the schema does not take).
pub fn parse_tuple(ts: &Vec<TokenTree>) -> (r: Result<Vec<TypeExpr>, Error>)
    ensures
        r matches Ok(elems) ==> unspaced(toks(ts)) == tuple_toks(elems@),
        r is Ok <==> tuple_ok(toks(ts)),
    decreases ts, ts@.len() + 1,
{
    proof {
        lemma_toks_view(ts@);
        lemma_unspaced(toks(ts));
    }
    let ghost u = unspaced(toks(ts));
    let n = ts.len();
    let mut elems: Vec<TypeExpr> = Vec::new();
    let mut i: usize = 0;
    if n == 0 {
        assert(u =~= tuple_toks(elems@));
        return Ok(elems);
    }
    loop
        invariant
            i < n,
            n == ts@.len(),
            toks(ts).len() == ts@.len(),
            u == unspaced(toks(ts)),
            u.len() == n,
            forall|q: int| 0 <= q < n ==> #[trigger] u[q] == unspaced_tok(toks(ts)[q]),
            elems@.len() == 0 ==> i == 0,
            elems@.len() > 0 ==> u.subrange(0, i as int) == list_toks(elems@) + seq![Tok::Punct(',', false)],
            tuple_ok(toks(ts)) == tuple_from(toks(ts), i as int, elems@.len()),
        decreases n - i,
    {
        let ghost count = elems@.len();
        let (e, next) = parse_type(ts, i)?;
        let ghost before = elems@;
        elems.push(e);
        proof {
            assert(elems@.drop_last() =~= before);
            if before.len() == 0 {
                assert(u.subrange(0, next as int) =~= list_toks(elems@));
            } else {
                assert(u.subrange(0, next as int) =~= u.subrange(0, i as int) + u.subrange(i as int, next as int));
                assert(list_toks(elems@) == list_toks(before) + seq![Tok::Punct(',', false)] + type_toks(e));
                assert(u.subrange(0, next as int) =~= list_toks(elems@));
            }
        }
        i = next;
        if i == n {
            if elems.len() == 1 {
                return Err(Error::Violation(Violation::TypeShape));
            }
            assert(u =~= u.subrange(0, i as int));
            return Ok(elems);
        }
        if !peek_punct(ts, i, ',') {
            return Err(Error::Syntax(Expected::Comma));
        }
        assert(u.subrange(0, i + 1) =~= u.subrange(0, i as int) + seq![u[i as int]]);
        i = i + 1;
        assert(elems@.len() == count + 1);
        if i == n {
            if elems.len() == 1 {
                assert(u =~= u.subrange(0, i as int));
                return Ok(elems);
            }
            return Err(Error::Syntax(Expected::Type));
        }
    }
}

} // verus!
