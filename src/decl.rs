//! Recognition of the three declaration forms: a plain node
//! (`pub struct Name #full { .. }`), a tagged enum
//! (`pub enum Name #no_visit { .. }`), and an enum of wrapped nodes
//! (`pub enum Name { A(Path), B, }`).
use vstd::prelude::*;
use crate::attr::{
    attr_at, attrs_at, ident_at, outer_run, peek_punct, punct_at, str_eq, AttrStyle, Attribute,
};
use crate::error::{Error, Expected, Violation};
use crate::features::Features;
use crate::syntax::{
    attr_utoks, attrs_utoks, segs_end, type_end, entries_toks, field_toks, fields_toks, list_toks, parse_type, type_toks, variant_toks,
    variants_toks, vis_toks, with_optional_comma, AstItem, Data, Field, TypeExpr, Variant, Visibility,
};
use crate::tokens::{
    copy_tokens, is_punct, lemma_toks_view, lemma_unspaced, tok_view, toks, unspaced, unspaced_tok, Delimiter, Tok,
    TokenTree,
};

verus! {

/// The position after the outer attributes that start at `i`.
pub open spec fn skip_outer(s: Seq<Tok>, i: int) -> int
    decreases s.len() - i,
{
    if 0 <= i && i + 1 < s.len() && punct_at(s, i, '#') {
        skip_outer(s, i + 2)
    } else {
        i
    }
}

/// `s` holds the marker `#tag` at position `i`.
pub open spec fn tag_at(s: Seq<Tok>, i: int, tag: Seq<char>) -> bool {
    punct_at(s, i, '#') && i + 1 < s.len() && s[i + 1] == Tok::Ident(tag)
}

/// `s` holds the identifier `word` at position `i`.
pub open spec fn word_at(s: Seq<Tok>, i: int, word: Seq<char>) -> bool {
    0 <= i < s.len() && s[i] == Tok::Ident(word)
}

/// Whether the marker `#tag` stands at position `i`.
pub fn peek_tag(ts: &Vec<TokenTree>, i: usize, tag: &str) -> (r: bool)
    ensures
        r == tag_at(toks(ts), i as int, tag@),
{
    proof {
        lemma_toks_view(ts@);
    }
    let n = ts.len();
    if !peek_punct(ts, i, '#') || i + 1 >= n {
        return false;
    }
    match ident_at(ts, i + 1) {
        Some(s) => str_eq(&s, tag),
        None => false,
    }
}

/// Whether the keyword `word` stands at position `i`.
fn peek_word(ts: &Vec<TokenTree>, i: usize, word: &str) -> (r: bool)
    ensures
        r == word_at(toks(ts), i as int, word@),
{
    match ident_at(ts, i) {
        Some(s) => str_eq(&s, word),
        None => false,
    }
}

/// Skips the outer attributes at `pos`, giving them with the position after.
fn outer_attrs(ts: &Vec<TokenTree>, pos: usize) -> (r: Result<(Vec<Attribute>, usize), Error>)
    ensures
        r matches Ok((attrs, end)) ==> end == skip_outer(toks(ts), pos as int) && end == pos + 2 * attrs@.len()
            && attrs_at(attrs@, toks(ts), pos as int, 2)
            && (forall|k: int| 0 <= k < attrs@.len() ==> (#[trigger] attrs@[k]).style == AttrStyle::Outer)
            && (pos <= toks(ts).len() ==> end <= toks(ts).len()
                && unspaced(toks(ts)).subrange(pos as int, end as int) == attrs_utoks(attrs@)),
        r is Ok <==> outer_run(toks(ts), pos as int),
{
    let (attrs, end) = Attribute::parse_outer(ts, pos)?;
    proof {
        lemma_attrs_unspaced(attrs@, toks(ts), pos as int);
        let s = toks(ts);
        let n = attrs@.len() as int;
        assert forall|k: int| 0 <= k < n implies punct_at(s, #[trigger] (pos + 2 * k), '#') && pos + 2 * k + 1 < s.len() by {
            assert(crate::attr::attr_at(attrs@[k], s.subrange(pos + 2 * k, pos + 2 * k + 2)));
            assert(s.subrange(pos + 2 * k, pos + 2 * k + 2)[0] == s[pos + 2 * k]);
        }
        lemma_skip_outer(s, pos as int, n);
    }
    Ok((attrs, end))
}

proof fn lemma_skip_outer(s: Seq<Tok>, pos: int, n: int)
    requires
        0 <= n,
        pos >= 0,
        n > 0 ==> pos + 2 * n <= s.len(),
        forall|k: int| 0 <= k < n ==> punct_at(s, #[trigger] (pos + 2 * k), '#') && pos + 2 * k + 1 < s.len(),
        !punct_at(s, pos + 2 * n, '#'),
    ensures
        skip_outer(s, pos) == pos + 2 * n,
    decreases n,
{
    if n > 0 {
        assert(punct_at(s, pos + 2 * 0, '#'));
        assert forall|k: int| 0 <= k < n - 1 implies punct_at(s, #[trigger] ((pos + 2) + 2 * k), '#') && (pos + 2) + 2 * k + 1 < s.len() by {
            assert(punct_at(s, pos + 2 * (k + 1), '#') && pos + 2 * (k + 1) + 1 < s.len());
        }
        lemma_skip_outer(s, pos + 2, n - 1);
    }
}

} // verus!

verus! {

/// Outer attributes one after another print as their unspaced tokens.
proof fn lemma_attrs_unspaced(attrs: Seq<Attribute>, s: Seq<Tok>, pos: int)
    requires
        pos >= 0,
        attrs_at(attrs, s, pos, 2),
        forall|k: int| 0 <= k < attrs.len() ==> (#[trigger] attrs[k]).style == AttrStyle::Outer,
    ensures
        pos <= s.len() ==> pos + 2 * attrs.len() <= s.len()
            && unspaced(s).subrange(pos, pos + 2 * attrs.len()) == attrs_utoks(attrs),
    decreases attrs.len(),
{
    lemma_unspaced(s);
    if attrs.len() == 0 {
        if pos <= s.len() {
            assert(unspaced(s).subrange(pos, pos) =~= attrs_utoks(attrs));
        }
    } else {
        let front = attrs.drop_last();
        let k = attrs.len() - 1;
        assert forall|q: int| 0 <= q < front.len() implies attr_at(#[trigger] front[q], s.subrange(pos + 2 * q, pos + 2 * q + 2)) by {
            assert(front[q] == attrs[q]);
        }
        assert forall|q: int| 0 <= q < front.len() implies (#[trigger] front[q]).style == AttrStyle::Outer by {
            assert(front[q] == attrs[q]);
        }
        lemma_attrs_unspaced(front, s, pos);
        let a = attrs[k];
        let sub = s.subrange(pos + 2 * k, pos + 2 * k + 2);
        assert(attr_at(a, sub));
        assert(sub[0] == s[pos + 2 * k]);
        assert(sub[1] == s[pos + 2 * k + 1]);
        let u = unspaced(s);
        assert(u.subrange(pos + 2 * k, pos + 2 * k + 2) =~= attr_utoks(a));
        assert(u.subrange(pos, pos + 2 * attrs.len()) =~= u.subrange(pos, pos + 2 * k) + u.subrange(pos + 2 * k, pos + 2 * k + 2));
    }
}

/// Where a visibility that starts at `p` ends: `pub`, `pub(..)`, or none.
pub open spec fn vis_end(s: Seq<Tok>, p: int) -> int {
    if word_at(s, p, "pub"@) {
        if p + 1 < s.len() && (s[p + 1] matches Tok::Group(Delimiter::Parenthesis, _)) { p + 2 } else { p + 1 }
    } else {
        p
    }
}

/// Where a named field that starts at `i` ends: outer attributes, a
/// visibility, a name, `:` and a type.
pub open spec fn field_end(s: Seq<Tok>, i: int) -> Option<int> {
    if !outer_run(s, i) {
        None
    } else {
        let p = skip_outer(s, i);
        let q = vis_end(s, p);
        if p >= s.len() || !(0 <= q < s.len() && s[q] is Ident) || !punct_at(s, q + 1, ':') {
            None
        } else {
            type_end(s, q + 2)
        }
    }
}

/// The fields from `i` on are well formed, separated by commas, a trailing
/// comma allowed.
pub open spec fn fields_from(s: Seq<Tok>, i: int) -> bool
    decreases s.len() - i,
{
    if i < 0 || i >= s.len() {
        false
    } else {
        match field_end(s, i) {
            None => false,
            Some(e) => if e <= i {
                false
            } else if e >= s.len() {
                e == s.len()
            } else if !punct_at(s, e, ',') {
                false
            } else if e + 1 == s.len() {
                true
            } else {
                fields_from(s, e + 1)
            },
        }
    }
}

/// `s` is the content of a struct's braces.
pub open spec fn fields_ok(s: Seq<Tok>) -> bool {
    s.len() == 0 || fields_from(s, 0)
}

/// The types from `i` on are well formed and separated by commas, with no
/// trailing comma.
pub open spec fn list_from(s: Seq<Tok>, i: int) -> bool
    decreases s.len() - i,
{
    if i < 0 || i >= s.len() {
        false
    } else {
        match type_end(s, i) {
            None => false,
            Some(j) => if j <= i {
                false
            } else if j >= s.len() {
                j == s.len()
            } else if !punct_at(s, j, ',') || j + 1 == s.len() {
                false
            } else {
                list_from(s, j + 1)
            },
        }
    }
}

/// `s` is the payload of a variant: one or more types.
pub open spec fn list_ok(s: Seq<Tok>) -> bool {
    s.len() > 0 && list_from(s, 0)
}

/// Where a variant that starts at `i` ends: outer attributes, a name, and
/// an optional payload in parentheses.
pub open spec fn variant_end(s: Seq<Tok>, i: int) -> Option<int> {
    if !outer_run(s, i) {
        None
    } else {
        let p = skip_outer(s, i);
        if !(0 <= p < s.len() && s[p] is Ident) {
            None
        } else if p + 1 < s.len() {
            match s[p + 1] {
                Tok::Group(Delimiter::Parenthesis, inner) => if list_ok(inner) { Some(p + 2) } else { None },
                Tok::Group(Delimiter::Brace, _) => None,
                Tok::Punct('=', _) => None,
                _ => Some(p + 1),
            }
        } else {
            Some(p + 1)
        }
    }
}

/// The variants from `i` on are well formed, separated by commas, a
/// trailing comma allowed.
pub open spec fn variants_from(s: Seq<Tok>, i: int) -> bool
    decreases s.len() - i,
{
    if i < 0 || i >= s.len() {
        false
    } else {
        match variant_end(s, i) {
            None => false,
            Some(e) => if e <= i {
                false
            } else if e >= s.len() {
                e == s.len()
            } else if !punct_at(s, e, ',') {
                false
            } else if e + 1 == s.len() {
                true
            } else {
                variants_from(s, e + 1)
            },
        }
    }
}

/// `s` is the content of an enum's braces.
pub open spec fn variants_ok(s: Seq<Tok>) -> bool {
    s.len() == 0 || variants_from(s, 0)
}

/// `c` is the content of an entry's parentheses: exactly one path.
pub open spec fn member_ok(c: Seq<Tok>) -> bool {
    c.len() > 0 && !(c[0] matches Tok::Group(Delimiter::Parenthesis, _)) && type_end(c, 0) == Some(c.len() as int)
        && segs_end(c, 0) == Some(c.len() as int)
}

/// Where an entry of an enum of wrapped nodes that starts at `pos` ends:
/// outer attributes, a name, an optional path in parentheses, and a comma.
pub open spec fn entry_end(s: Seq<Tok>, pos: int) -> Option<int> {
    if !outer_run(s, pos) {
        None
    } else {
        let p = skip_outer(s, pos);
        if !(0 <= p < s.len() && s[p] is Ident) {
            None
        } else {
            let k = if p + 1 < s.len() && (s[p + 1] matches Tok::Group(Delimiter::Parenthesis, _)) {
                if member_ok(s[p + 1]->Group_1) { p + 2 } else { -1 }
            } else {
                p + 1
            };
            if k >= 0 && punct_at(s, k, ',') { Some(k + 1) } else { None }
        }
    }
}

/// The entries from `k` on are well formed.
pub open spec fn entries_from(s: Seq<Tok>, k: int) -> bool
    decreases s.len() - k,
{
    if k < 0 {
        false
    } else if k >= s.len() {
        true
    } else {
        match entry_end(s, k) {
            None => false,
            Some(e) => e > k && entries_from(s, e),
        }
    }
}

/// The position after the name of a declaration head, past `#tag` if it
/// follows.
pub open spec fn after_head(s: Seq<Tok>, tag: Seq<char>) -> int {
    let p = skip_outer(s, 0);
    if tag_at(s, p + 3, tag) { p + 5 } else { p + 3 }
}

/// The tokens have the head `#[..]* pub <keyword> Name`.
pub open spec fn head_ok(s: Seq<Tok>, keyword: Seq<char>) -> bool {
    let p = skip_outer(s, 0);
    outer_run(s, 0) && word_at(s, p, "pub"@) && word_at(s, p + 1, keyword) && 0 <= p + 2 < s.len()
        && s[p + 2] is Ident
}

/// The name that a declaration head gives.
pub open spec fn head_name(s: Seq<Tok>) -> Seq<char> {
    s[skip_outer(s, 0) + 2]->Ident_0
}

/// `s[i]` is the last token and a struct body: fields in braces, or `;`.
pub open spec fn struct_body_ok(s: Seq<Tok>, i: int) -> bool {
    0 <= i < s.len() && s.len() - i == 1 && (((s[i] matches Tok::Group(Delimiter::Brace, _))
        && fields_ok(s[i]->Group_1)) || is_punct(s[i], ';'))
}

/// The plain-node form: `#[..]* pub struct Name #full? { fields }` or `;`.
pub open spec fn ast_struct_ok(s: Seq<Tok>) -> bool {
    head_ok(s, "struct"@) && struct_body_ok(s, after_head(s, "full"@))
}

/// The tagged-enum form: `#[..]* pub enum Name #no_visit? { variants }`.
pub open spec fn ast_enum_ok(s: Seq<Tok>) -> bool {
    let i = after_head(s, "no_visit"@);
    head_ok(s, "enum"@) && 0 <= i < s.len() && s.len() - i == 1
        && (s[i] matches Tok::Group(Delimiter::Brace, _)) && variants_ok(s[i]->Group_1)
}

/// The form of an enum of wrapped nodes: `#[..]* pub enum Name { entries }`.
pub open spec fn ast_enum_of_structs_ok(s: Seq<Tok>) -> bool {
    let i = skip_outer(s, 0) + 3;
    head_ok(s, "enum"@) && 0 <= i < s.len() && s.len() - i == 1
        && (s[i] matches Tok::Group(Delimiter::Brace, _)) && entries_from(s[i]->Group_1, 0)
}

/// A plain struct item: `#[..]* vis struct Name { fields }` or `;`.
pub open spec fn plain_struct_ok(s: Seq<Tok>) -> bool {
    let q = vis_end(s, skip_outer(s, 0));
    outer_run(s, 0) && skip_outer(s, 0) <= s.len() && word_at(s, q, "struct"@) && 0 <= q + 1 < s.len()
        && s[q + 1] is Ident && struct_body_ok(s, q + 2)
}

/// `attrs` are the outer attributes that start a declaration's tokens `s`,
/// in order, each taking two tokens.
pub open spec fn head_attrs(s: Seq<Tok>, attrs: Seq<Attribute>) -> bool {
    &&& attrs.len() * 2 == skip_outer(s, 0)
    &&& attrs_at(attrs, s, 0, 2)
    &&& forall|k: int| 0 <= k < attrs.len() ==> (#[trigger] attrs[k]).style == AttrStyle::Outer
}

/// Parses a visibility at `pos`: `pub`, `pub(..)`, or none.
fn parse_vis(ts: &Vec<TokenTree>, pos: usize) -> (r: (Visibility, usize))
    requires
        pos <= ts@.len(),
    ensures
        pos <= r.1 <= ts@.len(),
        r.1 == vis_end(toks(ts), pos as int),
        unspaced(toks(ts)).subrange(pos as int, r.1 as int) == vis_toks(r.0),
{
    proof {
        lemma_toks_view(ts@);
        lemma_unspaced(toks(ts));
        reveal_strlit("pub");
    }
    let ghost u = unspaced(toks(ts));
    if peek_word(ts, pos, "pub") {
        if pos < ts.len() - 1 {
            assert(toks(ts)[pos + 1] == tok_view(ts@[pos + 1]));
            if let TokenTree::Group(Delimiter::Parenthesis, inner) = &ts[pos + 1] {
                let v = Visibility::Restricted(copy_tokens(inner));
                assert(u[pos + 1] == unspaced_tok(tok_view(ts@[pos + 1])));
                assert(u.subrange(pos as int, pos + 2) =~= vis_toks(v));
                return (v, pos + 2);
            }
        }
        assert(pos + 1 < ts@.len() ==> toks(ts)[pos + 1] == tok_view(ts@[pos + 1]));
        assert(u.subrange(pos as int, pos + 1) =~= vis_toks(Visibility::Public));
        (Visibility::Public, pos + 1)
    } else {
        assert(u.subrange(pos as int, pos as int) =~= vis_toks(Visibility::Inherited));
        (Visibility::Inherited, pos)
    }
}

/// The body of a struct declaration: fields in braces, or `;` for none.
pub open spec fn struct_body(s: Seq<Tok>, fs: Seq<Field>) -> bool {
    s.len() > 0 && match s.last() {
        Tok::Group(Delimiter::Brace, b) => with_optional_comma(unspaced(b), fields_toks(fs), fs.len() > 0),
        Tok::Punct(';', _) => fs.len() == 0,
        _ => false,
    }
}

/// The body of a tagged enum declaration: variants in braces.
pub open spec fn enum_body(s: Seq<Tok>, vs: Seq<Variant>) -> bool {
    s.len() > 0 && match s.last() {
        Tok::Group(Delimiter::Brace, b) => with_optional_comma(unspaced(b), variants_toks(vs), vs.len() > 0),
        _ => false,
    }
}

/// The body of an enum of wrapped nodes: entries in braces, each followed
/// by a comma.
pub open spec fn entries_body(s: Seq<Tok>, vs: Seq<Variant>) -> bool {
    s.len() > 0 && match s.last() {
        Tok::Group(Delimiter::Brace, b) => unspaced(b) == entries_toks(vs),
        _ => false,
    }
}

/// Parses the named fields in the braces of a struct.
#[verifier::rlimit(60)]
pub fn parse_fields(ts: &Vec<TokenTree>) -> (r: Result<Vec<Field>, Error>)
    ensures
        r matches Ok(fs) ==> with_optional_comma(unspaced(toks(ts)), fields_toks(fs@), fs@.len() > 0),
        r is Ok <==> fields_ok(toks(ts)),
{
    proof {
        lemma_toks_view(ts@);
        lemma_unspaced(toks(ts));
    }
    let ghost u = unspaced(toks(ts));
    let n = ts.len();
    let mut fields: Vec<Field> = Vec::new();
    if n == 0 {
        assert(u =~= fields_toks(fields@));
        return Ok(fields);
    }
    let mut i: usize = 0;
    loop
        invariant
            i < n,
            n == ts@.len(),
            toks(ts).len() == n,
            u == unspaced(toks(ts)),
            u.len() == n,
            forall|q: int| 0 <= q < n ==> #[trigger] u[q] == unspaced_tok(toks(ts)[q]),
            fields@.len() == 0 ==> i == 0,
            fields@.len() > 0 ==> u.subrange(0, i as int) == fields_toks(fields@) + seq![Tok::Punct(',', false)],
            fields_ok(toks(ts)) == fields_from(toks(ts), i as int),
        decreases n - i,
    {
        let start = i;
        let (attrs, p) = outer_attrs(ts, i)?;
        if p >= n {
            return Err(Error::Syntax(Expected::Ident));
        }
        let (vis, q) = parse_vis(ts, p);
        let ident = match ident_at(ts, q) {
            Some(s) => s,
            None => return Err(Error::Syntax(Expected::Ident)),
        };
        if !peek_punct(ts, q + 1, ':') {
            return Err(Error::Syntax(Expected::Colon));
        }
        assert(p == skip_outer(toks(ts), start as int));
        assert(q == vis_end(toks(ts), p as int));
        let (ty, end) = parse_type(ts, q + 2)?;
        assert(field_end(toks(ts), start as int) == Some(end as int));
        let f = Field { attrs, vis, ident, ty };
        proof {
            assert(u.subrange(q as int, q + 2) =~= seq![Tok::Ident(f.ident@), Tok::Punct(':', false)]);
            assert(u.subrange(start as int, end as int) =~= u.subrange(start as int, p as int) + u.subrange(p as int, q as int)
                + u.subrange(q as int, q + 2) + u.subrange(q + 2, end as int));
            assert(u.subrange(start as int, end as int) =~= field_toks(f));
        }
        let ghost before = fields@;
        fields.push(f);
        proof {
            assert(fields@.drop_last() =~= before);
            if before.len() == 0 {
                assert(u.subrange(0, end as int) =~= fields_toks(fields@));
            } else {
                assert(u.subrange(0, end as int) =~= u.subrange(0, start as int) + u.subrange(start as int, end as int));
                assert(fields_toks(fields@) == fields_toks(before) + seq![Tok::Punct(',', false)] + field_toks(f));
                assert(u.subrange(0, end as int) =~= fields_toks(fields@));
            }
        }
        i = end;
        if i == n {
            assert(u =~= u.subrange(0, i as int));
            return Ok(fields);
        }
        if !peek_punct(ts, i, ',') {
            return Err(Error::Syntax(Expected::Comma));
        }
        assert(u.subrange(0, i + 1) =~= u.subrange(0, i as int) + seq![u[i as int]]);
        i = i + 1;
        if i == n {
            assert(u =~= u.subrange(0, i as int));
            return Ok(fields);
        }
    }
}

/// Parses a variant's payload: one or more types separated by commas.
pub fn parse_type_list(ts: &Vec<TokenTree>) -> (r: Result<Vec<TypeExpr>, Error>)
    ensures
        r matches Ok(list) ==> list@.len() > 0 && unspaced(toks(ts)) == list_toks(list@),
        r is Ok <==> list_ok(toks(ts)),
{
    proof {
        lemma_toks_view(ts@);
        lemma_unspaced(toks(ts));
    }
    let ghost u = unspaced(toks(ts));
    let n = ts.len();
    if n == 0 {
        return Err(Error::Syntax(Expected::Type));
    }
    let mut out: Vec<TypeExpr> = Vec::new();
    let mut i: usize = 0;
    loop
        invariant
            i < n,
            n == ts@.len(),
            toks(ts).len() == n,
            u == unspaced(toks(ts)),
            u.len() == n,
            forall|q: int| 0 <= q < n ==> #[trigger] u[q] == unspaced_tok(toks(ts)[q]),
            out@.len() == 0 ==> i == 0,
            out@.len() > 0 ==> u.subrange(0, i as int) == list_toks(out@) + seq![Tok::Punct(',', false)],
            list_ok(toks(ts)) == list_from(toks(ts), i as int),
        decreases n - i,
    {
        let (ty, end) = parse_type(ts, i)?;
        let ghost before = out@;
        out.push(ty);
        proof {
            assert(out@.drop_last() =~= before);
            if before.len() == 0 {
                assert(u.subrange(0, end as int) =~= list_toks(out@));
            } else {
                assert(u.subrange(0, end as int) =~= u.subrange(0, i as int) + u.subrange(i as int, end as int));
                assert(list_toks(out@) == list_toks(before) + seq![Tok::Punct(',', false)] + type_toks(ty));
                assert(u.subrange(0, end as int) =~= list_toks(out@));
            }
        }
        i = end;
        if i == n {
            assert(u =~= u.subrange(0, i as int));
            return Ok(out);
        }
        if !peek_punct(ts, i, ',') {
            return Err(Error::Syntax(Expected::Comma));
        }
        assert(u.subrange(0, i + 1) =~= u.subrange(0, i as int) + seq![u[i as int]]);
        i = i + 1;
        if i == n {
            return Err(Error::Syntax(Expected::Type));
        }
    }
}

/// Parses the variants in the braces of an enum: each a name with an
/// optional positional payload in parentheses.
#[verifier::rlimit(60)]
pub fn parse_variants(ts: &Vec<TokenTree>) -> (r: Result<Vec<Variant>, Error>)
    ensures
        r matches Ok(vs) ==> with_optional_comma(unspaced(toks(ts)), variants_toks(vs@), vs@.len() > 0),
        r is Ok <==> variants_ok(toks(ts)),
{
    proof {
        lemma_toks_view(ts@);
        lemma_unspaced(toks(ts));
    }
    let ghost u = unspaced(toks(ts));
    let n = ts.len();
    let mut variants: Vec<Variant> = Vec::new();
    if n == 0 {
        assert(u =~= variants_toks(variants@));
        return Ok(variants);
    }
    let mut i: usize = 0;
    loop
        invariant
            i < n,
            n == ts@.len(),
            toks(ts).len() == n,
            u == unspaced(toks(ts)),
            u.len() == n,
            forall|q: int| 0 <= q < n ==> #[trigger] u[q] == unspaced_tok(toks(ts)[q]),
            variants@.len() == 0 ==> i == 0,
            variants@.len() > 0 ==> u.subrange(0, i as int) == variants_toks(variants@) + seq![Tok::Punct(',', false)],
            variants_ok(toks(ts)) == variants_from(toks(ts), i as int),
        decreases n - i,
    {
        let start = i;
        let (attrs, p) = outer_attrs(ts, i)?;
        let ident = match ident_at(ts, p) {
            Some(s) => s,
            None => return Err(Error::Syntax(Expected::Ident)),
        };
        let mut end = p + 1;
        let mut fields: Vec<TypeExpr> = Vec::new();
        assert(p == skip_outer(toks(ts), start as int));
        if end < n {
            proof {
                lemma_toks_view(ts@);
            }
            assert(toks(ts)[end as int] == tok_view(ts@[end as int]));
            match &ts[end] {
                TokenTree::Group(Delimiter::Parenthesis, inner) => {
                    fields = match parse_type_list(inner) {
                        Ok(list) => list,
                        Err(_) => return Err(Error::Violation(Violation::VariantShape)),
                    };
                    proof {
                        lemma_toks_view(ts@);
                    }
                    assert(u[end as int] == unspaced_tok(tok_view(ts@[end as int])));
                    end = end + 1;
                },
                TokenTree::Group(Delimiter::Brace, _) => {
                    return Err(Error::Violation(Violation::VariantShape));
                },
                TokenTree::Punct('=', _) => {
                    return Err(Error::Violation(Violation::VariantShape));
                },
                _ => {},
            }
        }
        let v = Variant { attrs, ident, fields };
        proof {
            if v.fields@.len() > 0 {
                assert(u.subrange(p as int, end as int) =~= seq![u[p as int], u[p + 1]]);
            } else {
                assert(u.subrange(p as int, end as int) =~= seq![u[p as int]]);
            }
            assert(u.subrange(start as int, end as int) =~= u.subrange(start as int, p as int) + u.subrange(p as int, end as int));
            assert(u.subrange(start as int, end as int) =~= variant_toks(v));
        }
        let ghost before = variants@;
        variants.push(v);
        proof {
            assert(variants@.drop_last() =~= before);
            if before.len() == 0 {
                assert(u.subrange(0, end as int) =~= variants_toks(variants@));
            } else {
                assert(u.subrange(0, end as int) =~= u.subrange(0, start as int) + u.subrange(start as int, end as int));
                assert(variants_toks(variants@) == variants_toks(before) + seq![Tok::Punct(',', false)] + variant_toks(v));
                assert(u.subrange(0, end as int) =~= variants_toks(variants@));
            }
        }
        i = end;
        if i == n {
            assert(u =~= u.subrange(0, i as int));
            return Ok(variants);
        }
        if !peek_punct(ts, i, ',') {
            return Err(Error::Syntax(Expected::Comma));
        }
        assert(u.subrange(0, i + 1) =~= u.subrange(0, i as int) + seq![u[i as int]]);
        i = i + 1;
        if i == n {
            assert(u =~= u.subrange(0, i as int));
            return Ok(variants);
        }
    }
}

/// The declaration head `pub struct Name` or `pub enum Name` after the
/// outer attributes: the position of the name.
pub open spec fn head_at(s: Seq<Tok>, keyword: Seq<char>, name: Seq<char>) -> bool {
    let p = skip_outer(s, 0);
    word_at(s, p, "pub"@) && word_at(s, p + 1, keyword) && word_at(s, p + 2, name)
}

/// Parses the tokens of a plain node declaration:
/// `#[..]* pub struct Name #full? { fields }` (or `;` for no fields). The
/// marker `#full` puts the node under the feature `full`.
pub fn ast_struct(ts: &Vec<TokenTree>) -> (r: Result<AstItem, Error>)
    ensures
        r matches Ok(item) ==> {
            &&& head_at(toks(ts), "struct"@, item.ident@)
            &&& item.features@ == if tag_at(toks(ts), skip_outer(toks(ts), 0) + 3, "full"@) {
                set!["full"@]
            } else {
                Set::<Seq<char>>::empty()
            }
            &&& item.features.any.wf()
            &&& item.data is Struct
            &&& struct_body(toks(ts), item.data->Struct_0@)
            &&& item.attrs@.len() == 0
        },
        r is Ok <==> ast_struct_ok(toks(ts)),
{
    proof {
        lemma_toks_view(ts@);
        reveal_strlit("full");
    }
    let n = ts.len();
    let (_, p) = outer_attrs(ts, 0)?;
    if !peek_word(ts, p, "pub") {
        return Err(Error::Syntax(Expected::Pub));
    }
    if !peek_word(ts, p + 1, "struct") {
        return Err(Error::Syntax(Expected::Struct));
    }
    let ident = match ident_at(ts, p + 2) {
        Some(s) => s,
        None => return Err(Error::Syntax(Expected::Ident)),
    };
    let mut i = p + 3;
    let features = if peek_tag(ts, i, "full") {
        i = i + 2;
        Features::single("full".to_owned())
    } else {
        Features::none()
    };
    if i < n && n - i == 1 {
        match &ts[i] {
            TokenTree::Group(Delimiter::Brace, inner) => {
                let fields = parse_fields(inner)?;
                assert(toks(ts).last() == tok_view(ts@[i as int]));
                return Ok(AstItem { attrs: Vec::new(), ident, data: Data::Struct(fields), features });
            },
            TokenTree::Punct(';', _) => {
                assert(toks(ts).last() == tok_view(ts@[i as int]));
                return Ok(AstItem { attrs: Vec::new(), ident, data: Data::Struct(Vec::new()), features });
            },
            _ => {},
        }
    }
    if i < n {
        if let TokenTree::Group(Delimiter::Parenthesis, _) = &ts[i] {
            return Err(Error::Violation(Violation::StructShape));
        }
    }
    Err(Error::Syntax(Expected::Braces))
}

/// Parses the tokens of a tagged enum declaration:
/// `#[..]* pub enum Name #no_visit? { variants }`. An enum marked
/// `#no_visit` stays out of the schema: none is returned for it.
pub fn ast_enum(ts: &Vec<TokenTree>) -> (r: Result<Option<AstItem>, Error>)
    ensures
        r matches Ok(found) ==> {
            &&& found is None <==> tag_at(toks(ts), skip_outer(toks(ts), 0) + 3, "no_visit"@)
            &&& found matches Some(item) ==> {
                &&& head_at(toks(ts), "enum"@, item.ident@)
                &&& item.features@ == Set::<Seq<char>>::empty()
                &&& item.features.any.wf()
                &&& item.data is Enum
                &&& enum_body(toks(ts), item.data->Enum_0@)
                &&& head_attrs(toks(ts), item.attrs@)
            }
        },
        r is Ok <==> ast_enum_ok(toks(ts)),
{
    proof {
        lemma_toks_view(ts@);
    }
    let n = ts.len();
    let (attrs, p) = outer_attrs(ts, 0)?;
    if !peek_word(ts, p, "pub") {
        return Err(Error::Syntax(Expected::Pub));
    }
    if !peek_word(ts, p + 1, "enum") {
        return Err(Error::Syntax(Expected::Enum));
    }
    let ident = match ident_at(ts, p + 2) {
        Some(s) => s,
        None => return Err(Error::Syntax(Expected::Ident)),
    };
    let mut i = p + 3;
    let no_visit = peek_tag(ts, i, "no_visit");
    if no_visit {
        i = i + 2;
    }
    if i < n && n - i == 1 {
        if let TokenTree::Group(Delimiter::Brace, inner) = &ts[i] {
            let variants = parse_variants(inner)?;
            assert(toks(ts).last() == tok_view(ts@[i as int]));
            if no_visit {
                return Ok(None);
            }
            return Ok(Some(AstItem { attrs, ident, data: Data::Enum(variants), features: Features::none() }));
        }
    }
    Err(Error::Syntax(Expected::Braces))
}

} // verus!

verus! {

/// A variant of an enum of wrapped nodes: no payload, or one path.
pub open spec fn wraps_one_path(v: Variant) -> bool {
    v.fields@.len() <= 1 && (v.fields@.len() == 1 ==> v.fields@[0] is Path)
}

/// Parses one entry of an enum of wrapped nodes at `pos`:
/// `#[..]* Name(Path)?,`, the comma required.
pub fn eos_variant(ts: &Vec<TokenTree>, pos: usize) -> (r: Result<(Variant, usize), Error>)
    requires
        pos < ts@.len(),
    ensures
        r matches Ok((v, end)) ==> pos < end <= toks(ts).len() && wraps_one_path(v)
            && unspaced(toks(ts)).subrange(pos as int, end as int) == variant_toks(v) + seq![Tok::Punct(',', false)]
            && entry_end(toks(ts), pos as int) == Some(end as int),
        r is Ok <==> entry_end(toks(ts), pos as int) is Some,
{
    proof {
        lemma_toks_view(ts@);
        lemma_unspaced(toks(ts));
    }
    let ghost u = unspaced(toks(ts));
    let n = ts.len();
    let (attrs, p) = outer_attrs(ts, pos)?;
    let ident = match ident_at(ts, p) {
        Some(s) => s,
        None => return Err(Error::Syntax(Expected::Ident)),
    };
    let mut i = p + 1;
    let mut fields: Vec<TypeExpr> = Vec::new();
    assert(p == skip_outer(toks(ts), pos as int));
    if i < n {
        assert(toks(ts)[i as int] == tok_view(ts@[i as int]));
        if let TokenTree::Group(Delimiter::Parenthesis, inner) = &ts[i] {
            assert(toks(ts)[i as int]->Group_1 == toks(inner));
            proof {
                lemma_toks_view(inner@);
            }
            let (member, end) = parse_type(inner, 0)?;
            if end != inner.len() {
                return Err(Error::Syntax(Expected::End));
            }
            proof {
                lemma_toks_view(inner@);
                lemma_unspaced(toks(inner));
                assert(unspaced(toks(inner)) =~= unspaced(toks(inner)).subrange(0, end as int));
                assert(u[i as int] == unspaced_tok(tok_view(ts@[i as int])));
            }
            match member {
                TypeExpr::Path(_) => fields.push(member),
                _ => return Err(Error::Violation(Violation::TypeShape)),
            }
            assert(list_toks(fields@) == type_toks(fields@[0]));
            i = i + 1;
        }
    }
    if !peek_punct(ts, i, ',') {
        return Err(Error::Syntax(Expected::Comma));
    }
    let v = Variant { attrs, ident, fields };
    proof {
        if v.fields@.len() > 0 {
            assert(u.subrange(p as int, i + 1) =~= seq![u[p as int], u[p + 1], u[i as int]]);
        } else {
            assert(u.subrange(p as int, i + 1) =~= seq![u[p as int], u[i as int]]);
        }
        assert(u.subrange(pos as int, i + 1) =~= u.subrange(pos as int, p as int) + u.subrange(p as int, i + 1));
        assert(u.subrange(pos as int, i + 1) =~= variant_toks(v) + seq![Tok::Punct(',', false)]);
    }
    Ok((v, i + 1))
}

/// Parses the tokens of an enum of wrapped nodes:
/// `#[..]* pub enum Name { A(Path), B, }`; each entry becomes a variant
/// whose payload is the one wrapped type, or nothing.
pub fn ast_enum_of_structs(ts: &Vec<TokenTree>) -> (r: Result<AstItem, Error>)
    ensures
        r matches Ok(item) ==> {
            &&& head_at(toks(ts), "enum"@, item.ident@)
            &&& item.features@ == Set::<Seq<char>>::empty()
            &&& item.features.any.wf()
            &&& item.data is Enum
            &&& forall|k: int| 0 <= k < item.data->Enum_0@.len() ==> wraps_one_path(#[trigger] item.data->Enum_0@[k])
            &&& entries_body(toks(ts), item.data->Enum_0@)
            &&& head_attrs(toks(ts), item.attrs@)
        },
        r is Ok <==> ast_enum_of_structs_ok(toks(ts)),
{
    proof {
        lemma_toks_view(ts@);
    }
    let n = ts.len();
    let (attrs, p) = outer_attrs(ts, 0)?;
    if !peek_word(ts, p, "pub") {
        return Err(Error::Syntax(Expected::Pub));
    }
    if !peek_word(ts, p + 1, "enum") {
        return Err(Error::Syntax(Expected::Enum));
    }
    let ident = match ident_at(ts, p + 2) {
        Some(s) => s,
        None => return Err(Error::Syntax(Expected::Ident)),
    };
    let i = p + 3;
    if !(i < n && n - i == 1) {
        return Err(Error::Syntax(Expected::Braces));
    }
    let content = match &ts[i] {
        TokenTree::Group(Delimiter::Brace, inner) => inner,
        _ => return Err(Error::Syntax(Expected::Braces)),
    };
    proof {
        lemma_toks_view(content@);
        lemma_unspaced(toks(content));
        assert(toks(ts).last() == tok_view(ts@[i as int]));
    }
    let ghost u = unspaced(toks(content));
    assert(p == skip_outer(toks(ts), 0));
    assert(toks(ts)[i as int]->Group_1 == toks(content));
    assert(ast_enum_of_structs_ok(toks(ts)) == entries_from(toks(content), 0));
    let m = content.len();
    let mut variants: Vec<Variant> = Vec::new();
    let mut k: usize = 0;
    while k < m
        invariant
            k <= m,
            m == content@.len(),
            toks(content).len() == m,
            u == unspaced(toks(content)),
            u.len() == m,
            forall|q: int| 0 <= q < variants@.len() ==> wraps_one_path(#[trigger] variants@[q]),
            u.subrange(0, k as int) == entries_toks(variants@),
            entries_from(toks(content), 0) == entries_from(toks(content), k as int),
            ast_enum_of_structs_ok(toks(ts)) == entries_from(toks(content), 0),
        decreases m - k,
    {
        let (v, end) = eos_variant(content, k)?;
        assert(entries_from(toks(content), k as int) == entries_from(toks(content), end as int));
        let ghost before = variants@;
        variants.push(v);
        proof {
            assert(variants@.drop_last() =~= before);
            assert(u.subrange(0, end as int) =~= u.subrange(0, k as int) + u.subrange(k as int, end as int));
            assert(u.subrange(0, end as int) =~= entries_toks(variants@));
        }
        k = end;
    }
    assert(u =~= u.subrange(0, m as int));
    Ok(AstItem { attrs, ident, data: Data::Enum(variants), features: Features::none() })
}

} // verus!

verus! {

/// Parses a plain struct item: `#[..]* vis struct Name { fields }` (or `;`).
/// It carries no condition of its own.
pub fn plain_struct(ts: &Vec<TokenTree>) -> (r: Result<AstItem, Error>)
    ensures
        r matches Ok(item) ==> item.data is Struct && item.features@ == Set::<Seq<char>>::empty()
            && item.features.any.wf() && struct_body(toks(ts), item.data->Struct_0@)
            && head_attrs(toks(ts), item.attrs@),
        r is Ok <==> plain_struct_ok(toks(ts)),
{
    proof {
        lemma_toks_view(ts@);
    }
    let n = ts.len();
    let (attrs, p) = outer_attrs(ts, 0)?;
    let (_, p) = parse_vis(ts, p);
    if !peek_word(ts, p, "struct") {
        return Err(Error::Syntax(Expected::Struct));
    }
    let ident = match ident_at(ts, p + 1) {
        Some(s) => s,
        None => return Err(Error::Syntax(Expected::Ident)),
    };
    let i = p + 2;
    if i < n && n - i == 1 {
        match &ts[i] {
            TokenTree::Group(Delimiter::Brace, inner) => {
                let fields = parse_fields(inner)?;
                assert(toks(ts).last() == tok_view(ts@[i as int]));
                return Ok(AstItem { attrs, ident, data: Data::Struct(fields), features: Features::none() });
            },
            TokenTree::Punct(';', _) => {
                assert(toks(ts).last() == tok_view(ts@[i as int]));
                return Ok(AstItem { attrs, ident, data: Data::Struct(Vec::new()), features: Features::none() });
            },
            _ => {},
        }
    }
    Err(Error::Violation(Violation::StructShape))
}

} // verus!
