//! Attributes such as `#[cfg(feature = "full")]`, and how they are read
//! from tokens.
use vstd::prelude::*;
use crate::error::{Error, Expected};
use crate::tokens::{
    copy_tokens, copy_tree, is_punct, lemma_toks_view, tok_view, toks, toks_view, Delimiter, Tok, TokenTree,
};

verus! {

/// A path in module style: identifiers separated by `::`.
#[derive(Debug, PartialEq, Eq)]
pub struct Path {
    pub leading_colon: bool,
    pub segments: Vec<String>,
}

/// Whether an attribute decorates what follows it (`#[..]`) or what
/// contains it (`#![..]`).
#[derive(Clone, Copy, Debug, PartialEq, Eq, Structural)]
pub enum AttrStyle {
    Outer,
    Inner,
}

/// A list after a path, like the `derive(Copy)` in `#[derive(Copy)]`.
#[derive(Debug, PartialEq, Eq)]
pub struct MetaList {
    pub path: Path,
    pub delimiter: Delimiter,
    pub tokens: Vec<TokenTree>,
}

/// A name and a value, like the `path = "a.rs"` in `#[path = "a.rs"]`.
#[derive(Debug, PartialEq, Eq)]
pub struct MetaNameValue {
    pub path: Path,
    pub value: Vec<TokenTree>,
}

/// The content of an attribute.
#[derive(Debug, PartialEq, Eq)]
pub enum Meta {
    Path(Path),
    List(MetaList),
    NameValue(MetaNameValue),
}

/// An attribute, like `#[repr(transparent)]`.
#[derive(Debug, PartialEq, Eq)]
pub struct Attribute {
    pub style: AttrStyle,
    pub meta: Meta,
}

pub open spec fn colons() -> Seq<Tok> {
    seq![Tok::Punct(':', true), Tok::Punct(':', false)]
}

pub open spec fn segments_toks(s: Seq<String>) -> Seq<Tok>
    decreases s.len(),
{
    if s.len() == 0 {
        Seq::empty()
    } else if s.len() == 1 {
        seq![Tok::Ident(s[0]@)]
    } else {
        segments_toks(s.drop_last()) + colons() + seq![Tok::Ident(s.last()@)]
    }
}

/// The tokens of a path.
pub open spec fn path_toks(p: Path) -> Seq<Tok> {
    (if p.leading_colon { colons() } else { Seq::empty() }) + segments_toks(p.segments@)
}

/// The tokens of an attribute's content.
pub open spec fn meta_toks(m: Meta) -> Seq<Tok> {
    match m {
        Meta::Path(p) => path_toks(p),
        Meta::List(l) => path_toks(l.path) + seq![Tok::Group(l.delimiter, toks(&l.tokens))],
        Meta::NameValue(nv) => path_toks(nv.path) + seq![Tok::Punct('=', false)] + toks(&nv.value),
    }
}

/// The path of an attribute's content.
pub open spec fn meta_path(m: Meta) -> Path {
    match m {
        Meta::Path(p) => p,
        Meta::List(l) => l.path,
        Meta::NameValue(nv) => nv.path,
    }
}

/// `s` is the tokens of attribute `a`: a pound sign, an exclamation mark for
/// an inner attribute, and the content in brackets.
pub open spec fn attr_at(a: Attribute, s: Seq<Tok>) -> bool {
    &&& s.len() == (if a.style == AttrStyle::Outer { 2int } else { 3int })
    &&& is_punct(s[0], '#')
    &&& a.style == AttrStyle::Inner ==> is_punct(s[1], '!')
    &&& s.last() == Tok::Group(Delimiter::Bracket, meta_toks(a.meta))
}

/// A well-formed path has at least one segment.
pub open spec fn path_wf(p: Path) -> bool {
    p.segments@.len() > 0
}

pub open spec fn is_ident_spec(p: Path, name: Seq<char>) -> bool {
    !p.leading_colon && p.segments@.len() == 1 && p.segments@[0]@ == name
}

pub fn str_eq(a: &String, b: &str) -> (r: bool)
    ensures
        r == (a@ == b@),
{
    let b = b.to_owned();
    *a == b
}

impl Path {
    /// Whether the path is the single identifier `name`.
    pub fn is_ident(&self, name: &str) -> (r: bool)
        ensures
            r == is_ident_spec(*self, name@),
    {
        !self.leading_colon && self.segments.len() == 1 && str_eq(&self.segments[0], name)
    }
}

impl Meta {
    /// Returns the path that begins this meta item: the `test` in `#[test]`,
    /// the `derive` in `#[derive(Copy)]`, the `path` in `#[path = "a.rs"]`.
    pub fn path(&self) -> (r: &Path)
        ensures
            *r == meta_path(*self),
    {
        match self {
            Meta::Path(path) => path,
            Meta::List(meta) => &meta.path,
            Meta::NameValue(meta) => &meta.path,
        }
    }
}

pub open spec fn punct_at(s: Seq<Tok>, i: int, c: char) -> bool {
    0 <= i < s.len() && is_punct(s[i], c)
}

pub fn peek_punct(ts: &Vec<TokenTree>, i: usize, c: char) -> (r: bool)
    ensures
        r == punct_at(toks(ts), i as int, c),
{
    proof {
        lemma_toks_view(ts@);
    }
    if i < ts.len() {
        match &ts[i] {
            TokenTree::Punct(x, _) => *x == c,
            _ => false,
        }
    } else {
        false
    }
}

/// Whether tokens `i` and `i + 1` form the path separator `::`.
pub fn peek_colons(ts: &Vec<TokenTree>, i: usize) -> (r: bool)
    ensures
        r == (i + 1 < toks(ts).len() && toks(ts)[i as int] == Tok::Punct(':', true)
            && toks(ts)[i + 1] == Tok::Punct(':', false)),
{
    proof {
        lemma_toks_view(ts@);
    }
    if i < ts.len() && i + 1 < ts.len() {
        let a = match &ts[i] {
            TokenTree::Punct(x, j) => *x == ':' && *j,
            _ => false,
        };
        let b = match &ts[i + 1] {
            TokenTree::Punct(x, j) => *x == ':' && !*j,
            _ => false,
        };
        a && b
    } else {
        false
    }
}

/// The identifier at position `i`, if one stands there.
pub fn ident_at(ts: &Vec<TokenTree>, i: usize) -> (r: Option<String>)
    ensures
        r matches Some(s) ==> i < toks(ts).len() && toks(ts)[i as int] == Tok::Ident(s@),
        r is None ==> !(i < toks(ts).len() && toks(ts)[i as int] is Ident),
{
    proof {
        lemma_toks_view(ts@);
    }
    if i < ts.len() {
        match &ts[i] {
            TokenTree::Ident(s) => Some(s.clone()),
            _ => None,
        }
    } else {
        None
    }
}

/// `s` holds `::` at position `i`.
pub open spec fn colons_at(s: Seq<Tok>, i: int) -> bool {
    0 <= i && i + 1 < s.len() && s[i] == Tok::Punct(':', true) && s[i + 1] == Tok::Punct(':', false)
}

/// The end of a path whose segments continue at `i`: each further segment
/// is `::` and an identifier.
pub open spec fn path_more(s: Seq<Tok>, i: int) -> int
    decreases s.len() - i,
{
    if colons_at(s, i) && i + 2 < s.len() && s[i + 2] is Ident {
        path_more(s, i + 3)
    } else {
        i
    }
}

/// Where a path in module style that starts at `pos` ends, if one starts
/// there: an optional leading `::`, then identifiers separated by `::`.
pub open spec fn path_end(s: Seq<Tok>, pos: int) -> Option<int> {
    let i = if colons_at(s, pos) { pos + 2 } else { pos };
    if 0 <= i < s.len() && s[i] is Ident {
        Some(path_more(s, i + 1))
    } else {
        None
    }
}

/// `s` is the content of an attribute: a path alone, a path and one
/// delimited group, or a path, `=` and a value.
pub open spec fn meta_ok(s: Seq<Tok>) -> bool {
    match path_end(s, 0) {
        None => false,
        Some(i) => i == s.len() || (i + 1 == s.len() && (s[i] matches Tok::Group(d, _)) && s[i]->Group_0
            != Delimiter::Invisible) || (i + 1 < s.len() && s[i] == Tok::Punct('=', false)),
    }
}

/// An outer attribute `#[..]` stands at `pos`.
pub open spec fn outer_ok(s: Seq<Tok>, pos: int) -> bool {
    punct_at(s, pos, '#') && pos + 1 < s.len() && (s[pos + 1] matches Tok::Group(Delimiter::Bracket, _))
        && meta_ok(s[pos + 1]->Group_1)
}

/// An inner attribute `#![..]` stands at `pos`.
pub open spec fn inner_ok(s: Seq<Tok>, pos: int) -> bool {
    punct_at(s, pos, '#') && punct_at(s, pos + 1, '!') && pos + 2 < s.len()
        && (s[pos + 2] matches Tok::Group(Delimiter::Bracket, _)) && meta_ok(s[pos + 2]->Group_1)
}

/// Every `#` met from `pos` on, two tokens at a time, starts an outer
/// attribute: reading outer attributes from `pos` succeeds.
pub open spec fn outer_run(s: Seq<Tok>, pos: int) -> bool
    decreases s.len() - pos,
{
    if pos >= 0 && punct_at(s, pos, '#') {
        outer_ok(s, pos) && outer_run(s, pos + 2)
    } else {
        true
    }
}

/// Every `#!` met from `pos` on, three tokens at a time, starts an inner
/// attribute: reading inner attributes from `pos` succeeds.
pub open spec fn inner_run(s: Seq<Tok>, pos: int) -> bool
    decreases s.len() - pos,
{
    if pos >= 0 && punct_at(s, pos, '#') && punct_at(s, pos + 1, '!') {
        inner_ok(s, pos) && inner_run(s, pos + 3)
    } else {
        true
    }
}

/// Parses a path in module style at position `pos`.
pub fn parse_path(ts: &Vec<TokenTree>, pos: usize) -> (r: Result<(Path, usize), Error>)
    ensures
        r matches Ok((p, end)) ==> pos < end <= toks(ts).len() && path_wf(p)
            && toks(ts).subrange(pos as int, end as int) == path_toks(p)
            && path_end(toks(ts), pos as int) == Some(end as int),
        r is Ok <==> path_end(toks(ts), pos as int) is Some,
{
    proof {
        lemma_toks_view(ts@);
    }
    let n = ts.len();
    let leading_colon = peek_colons(ts, pos);
    let mut i: usize = if leading_colon { pos + 2 } else { pos };
    let first = match ident_at(ts, i) {
        Some(s) => s,
        None => return Err(Error::Syntax(Expected::Ident)),
    };
    let mut segments: Vec<String> = Vec::new();
    segments.push(first);
    i = i + 1;
    let ghost start = i as int;
    proof {
        let lead: Seq<Tok> = if leading_colon { colons() } else { Seq::empty() };
        assert(segments_toks(segments@) =~= seq![Tok::Ident(segments@[0]@)]);
        assert(toks(ts).subrange(pos as int, i as int) =~= lead + segments_toks(segments@));
    }
    while peek_colons(ts, i) && ident_at(ts, i + 2).is_some()
        invariant
            pos < i <= toks(ts).len(),
            toks(ts).len() == ts@.len(),
            n == ts@.len(),
            segments@.len() > 0,
            path_end(toks(ts), pos as int) == Some(path_more(toks(ts), start)),
            path_more(toks(ts), start) == path_more(toks(ts), i as int),
            toks(ts).subrange(pos as int, i as int) == (if leading_colon { colons() } else { Seq::<Tok>::empty() }) + segments_toks(segments@),
        decreases ts@.len() - i,
    {
        let s = ident_at(ts, i + 2).unwrap();
        let ghost before = segments@;
        segments.push(s);
        proof {
            assert(segments@.drop_last() =~= before);
            let lead: Seq<Tok> = if leading_colon { colons() } else { Seq::empty() };
            assert(toks(ts).subrange(pos as int, i + 3) =~= toks(ts).subrange(pos as int, i as int) + colons() + seq![Tok::Ident(s@)]);
            assert(toks(ts).subrange(pos as int, i + 3) =~= lead + segments_toks(segments@));
        }
        i = i + 3;
    }
    assert(path_more(toks(ts), i as int) == i);
    Ok((Path { leading_colon, segments }, i))
}

/// Parses the whole of `ts` as the content of an attribute.
pub fn parse_meta(ts: &Vec<TokenTree>) -> (r: Result<Meta, Error>)
    ensures
        r matches Ok(m) ==> toks(ts) == meta_toks(m) && path_wf(meta_path(m)),
        r is Ok <==> meta_ok(toks(ts)),
{
    proof {
        lemma_toks_view(ts@);
    }
    let (path, i) = parse_path(ts, 0)?;
    let ghost ptoks = path_toks(path);
    if i == ts.len() {
        assert(toks(ts) =~= toks(ts).subrange(0, i as int));
        return Ok(Meta::Path(path));
    }
    if i + 1 == ts.len() {
        if let TokenTree::Group(d, inner) = &ts[i] {
            assert(toks(ts)[i as int] == tok_view(ts@[i as int]));
            if let Delimiter::Invisible = d {
                return Err(Error::Syntax(Expected::Parentheses));
            }
            let tokens = copy_tokens(inner);
            let m = MetaList { path, delimiter: *d, tokens };
            proof {
                assert(toks(ts) =~= toks(ts).subrange(0, i as int) + seq![toks(ts)[i as int]]);
            }
            return Ok(Meta::List(m));
        }
    }
    assert(toks(ts)[i as int] == tok_view(ts@[i as int]));
    match &ts[i] {
        TokenTree::Punct('=', false) => {
            if i + 1 == ts.len() {
                return Err(Error::Syntax(Expected::End));
            }
            let mut value: Vec<TokenTree> = Vec::new();
            let mut k: usize = i + 1;
            while k < ts.len()
                invariant
                    i + 1 <= k <= ts@.len(),
                    toks(ts).len() == ts@.len(),
                    forall|q: int| 0 <= q < ts@.len() ==> #[trigger] toks_view(ts@)[q] == tok_view(ts@[q]),
                    toks_view(value@) == toks(ts).subrange(i + 1, k as int),
                decreases ts@.len() - k,
            {
                let one = copy_tree(&ts[k]);
                let ghost before = value@;
                value.push(one);
                assert(value@.drop_last() =~= before);
                assert(toks_view(value@) =~= toks(ts).subrange(i + 1, k + 1));
                k = k + 1;
            }
            proof {
                assert(toks(ts) =~= toks(ts).subrange(0, i as int) + seq![Tok::Punct('=', false)] + toks(ts).subrange(i + 1, ts@.len() as int));
            }
            Ok(Meta::NameValue(MetaNameValue { path, value }))
        },
        _ => Err(Error::Syntax(Expected::End)),
    }
}

} // verus!

verus! {

/// The bracketed content at position `i`, if a bracket group stands there.
fn brackets_at(ts: &Vec<TokenTree>, i: usize) -> (r: Option<&Vec<TokenTree>>)
    ensures
        r matches Some(inner) ==> i < toks(ts).len() && toks(ts)[i as int] == Tok::Group(Delimiter::Bracket, toks(inner)),
        r is None ==> !(i < toks(ts).len() && toks(ts)[i as int] matches Tok::Group(Delimiter::Bracket, _)),
{
    proof {
        lemma_toks_view(ts@);
    }
    if i < ts.len() {
        match &ts[i] {
            TokenTree::Group(Delimiter::Bracket, inner) => Some(inner),
            _ => None,
        }
    } else {
        None
    }
}

/// Parses one outer attribute `#[..]` at position `pos`.
pub fn single_parse_outer(ts: &Vec<TokenTree>, pos: usize) -> (r: Result<Attribute, Error>)
    ensures
        r matches Ok(a) ==> pos + 2 <= toks(ts).len() && a.style == AttrStyle::Outer
            && attr_at(a, toks(ts).subrange(pos as int, pos + 2)) && path_wf(meta_path(a.meta)),
        r is Ok <==> outer_ok(toks(ts), pos as int),
{
    proof {
        lemma_toks_view(ts@);
    }
    let n = ts.len();
    if !peek_punct(ts, pos, '#') {
        return Err(Error::Syntax(Expected::Pound));
    }
    let content = match brackets_at(ts, pos + 1) {
        Some(c) => c,
        None => return Err(Error::Syntax(Expected::Brackets)),
    };
    let meta = parse_meta(content)?;
    Ok(Attribute { style: AttrStyle::Outer, meta })
}

/// Parses one inner attribute `#![..]` at position `pos`.
pub fn single_parse_inner(ts: &Vec<TokenTree>, pos: usize) -> (r: Result<Attribute, Error>)
    ensures
        r matches Ok(a) ==> pos + 3 <= toks(ts).len() && a.style == AttrStyle::Inner
            && attr_at(a, toks(ts).subrange(pos as int, pos + 3)) && path_wf(meta_path(a.meta)),
        r is Ok <==> inner_ok(toks(ts), pos as int),
{
    proof {
        lemma_toks_view(ts@);
    }
    let n = ts.len();
    if !peek_punct(ts, pos, '#') {
        return Err(Error::Syntax(Expected::Pound));
    }
    if !peek_punct(ts, pos + 1, '!') {
        return Err(Error::Syntax(Expected::Bang));
    }
    let content = match brackets_at(ts, pos + 2) {
        Some(c) => c,
        None => return Err(Error::Syntax(Expected::Brackets)),
    };
    let meta = parse_meta(content)?;
    Ok(Attribute { style: AttrStyle::Inner, meta })
}

/// `attrs` stand one after another from position `pos` of `s`, each taking
/// `width` tokens.
pub open spec fn attrs_at(attrs: Seq<Attribute>, s: Seq<Tok>, pos: int, width: int) -> bool {
    &&& attrs.len() > 0 ==> pos + width * attrs.len() <= s.len()
    &&& forall|k: int| 0 <= k < attrs.len() ==> attr_at(#[trigger] attrs[k], s.subrange(pos + width * k, pos + width * k + width))
}

impl Attribute {
    /// Returns the path that identifies the interpretation of this
    /// attribute: the `test` in `#[test]`, the `derive` in `#[derive(Copy)]`.
    pub fn path(&self) -> (r: &Path)
        ensures
            *r == meta_path(self.meta),
    {
        self.meta.path()
    }

    /// Parses the arguments of the attribute, the tokens inside the
    /// delimiters of a list such as `#[name(..)]`, with `parser`. An
    /// attribute without such a list has no arguments to parse: the error
    /// says which form was expected.
    pub fn parse_args_with<T, F: Fn(&Vec<TokenTree>) -> Result<T, Error>>(&self, parser: F) -> (r: Result<T, Error>)
        requires
            forall|ts: &Vec<TokenTree>| #[trigger] parser.requires((ts,)),
        ensures
            match self.meta {
                Meta::List(l) => parser.ensures((&l.tokens,), r),
                Meta::Path(p) => r matches Err(Error::Arguments(m))
                    && m@ == "expected attribute arguments in parentheses: "@ + expected_text(self.style, p),
                Meta::NameValue(nv) => r matches Err(Error::Arguments(m))
                    && m@ == "expected parentheses: "@ + expected_text(self.style, nv.path),
            },
    {
        match &self.meta {
            Meta::List(l) => parser(&l.tokens),
            Meta::Path(path) => {
                let expected = expected_parentheses(self.style, path);
                let msg = "expected attribute arguments in parentheses: ".to_owned().concat(expected.as_str());
                Err(Error::Arguments(msg))
            },
            Meta::NameValue(nv) => {
                let expected = expected_parentheses(self.style, &nv.path);
                let msg = "expected parentheses: ".to_owned().concat(expected.as_str());
                Err(Error::Arguments(msg))
            },
        }
    }

    /// Parses zero or more outer attributes from position `pos`; returns
    /// them with the position after the last.
    pub fn parse_outer(ts: &Vec<TokenTree>, pos: usize) -> (r: Result<(Vec<Attribute>, usize), Error>)
        ensures
            r matches Ok((attrs, end)) ==> {
                &&& end == pos + 2 * attrs@.len()
                &&& attrs_at(attrs@, toks(ts), pos as int, 2)
                &&& forall|k: int| 0 <= k < attrs@.len() ==> (#[trigger] attrs@[k]).style == AttrStyle::Outer
                &&& !punct_at(toks(ts), end as int, '#')
            },
            r is Ok <==> outer_run(toks(ts), pos as int),
    {
        proof {
            lemma_toks_view(ts@);
        }
        let n = ts.len();
        let mut attrs: Vec<Attribute> = Vec::new();
        let mut i = pos;
        while peek_punct(ts, i, '#')
            invariant
                pos <= i <= toks(ts).len() || (i == pos && attrs@.len() == 0),
                toks(ts).len() == ts@.len(),
                n == ts@.len(),
                i == pos + 2 * attrs@.len(),
                outer_run(toks(ts), pos as int) == outer_run(toks(ts), i as int),
                attrs_at(attrs@, toks(ts), pos as int, 2),
                forall|k: int| 0 <= k < attrs@.len() ==> (#[trigger] attrs@[k]).style == AttrStyle::Outer,
            decreases ts@.len() - i,
        {
            let a = single_parse_outer(ts, i)?;
            let ghost before = attrs@;
            attrs.push(a);
            proof {
                assert forall|k: int| 0 <= k < attrs@.len() implies attr_at(#[trigger] attrs@[k], toks(ts).subrange(pos + 2 * k, pos + 2 * k + 2)) by {
                    if k < before.len() {
                        assert(attrs@[k] == before[k]);
                    }
                }
            }
            i = i + 2;
        }
        Ok((attrs, i))
    }

    /// Parses zero or more inner attributes from position `pos`; returns
    /// them with the position after the last.
    pub fn parse_inner(ts: &Vec<TokenTree>, pos: usize) -> (r: Result<(Vec<Attribute>, usize), Error>)
        ensures
            r matches Ok((attrs, end)) ==> {
                &&& end == pos + 3 * attrs@.len()
                &&& attrs_at(attrs@, toks(ts), pos as int, 3)
                &&& forall|k: int| 0 <= k < attrs@.len() ==> (#[trigger] attrs@[k]).style == AttrStyle::Inner
                &&& !(punct_at(toks(ts), end as int, '#') && punct_at(toks(ts), end + 1, '!'))
            },
            r is Ok <==> inner_run(toks(ts), pos as int),
    {
        proof {
            lemma_toks_view(ts@);
        }
        let n = ts.len();
        let mut attrs: Vec<Attribute> = Vec::new();
        let mut i = pos;
        while peek_punct(ts, i, '#') && peek_punct(ts, i + 1, '!')
            invariant
                pos <= i <= toks(ts).len() || (i == pos && attrs@.len() == 0),
                toks(ts).len() == ts@.len(),
                n == ts@.len(),
                i == pos + 3 * attrs@.len(),
                inner_run(toks(ts), pos as int) == inner_run(toks(ts), i as int),
                attrs_at(attrs@, toks(ts), pos as int, 3),
                forall|k: int| 0 <= k < attrs@.len() ==> (#[trigger] attrs@[k]).style == AttrStyle::Inner,
            decreases ts@.len() - i,
        {
            let a = single_parse_inner(ts, i)?;
            let ghost before = attrs@;
            attrs.push(a);
            proof {
                assert forall|k: int| 0 <= k < attrs@.len() implies attr_at(#[trigger] attrs@[k], toks(ts).subrange(pos + 3 * k, pos + 3 * k + 3)) by {
                    if k < before.len() {
                        assert(attrs@[k] == before[k]);
                    }
                }
            }
            i = i + 3;
        }
        Ok((attrs, i))
    }
}

} // verus!

verus! {

/// The text of a path: its segments, each after `::` but a leading first
/// one.
pub open spec fn path_text(leading_colon: bool, segments: Seq<String>) -> Seq<char>
    decreases segments.len(),
{
    if segments.len() == 0 {
        Seq::empty()
    } else {
        let sep: Seq<char> = if segments.len() > 1 || leading_colon { "::"@ } else { Seq::empty() };
        path_text(leading_colon, segments.drop_last()) + sep + segments.last()@
    }
}

/// The text of an attribute with the given style and path and an argument
/// list: `#[path(...)]` or `#![path(...)]`.
pub open spec fn expected_text(style: AttrStyle, p: Path) -> Seq<char> {
    (if style == AttrStyle::Inner { "#!"@ } else { "#"@ }) + "["@ + path_text(p.leading_colon, p.segments@) + "(...)]"@
}

/// Suggests the form that an attribute without arguments in parentheses
/// should have taken.
pub fn expected_parentheses(style: AttrStyle, path: &Path) -> (r: String)
    ensures
        r@ == expected_text(style, *path),
{
    let mut suggestion = String::new();
    match style {
        AttrStyle::Outer => suggestion.append("#"),
        AttrStyle::Inner => suggestion.append("#!"),
    }
    suggestion.append("[");
    let mut i: usize = 0;
    while i < path.segments.len()
        invariant
            i <= path.segments@.len(),
            suggestion@ == (if style == AttrStyle::Inner { "#!"@ } else { "#"@ }) + "["@
                + path_text(path.leading_colon, path.segments@.subrange(0, i as int)),
        decreases path.segments@.len() - i,
    {
        let ghost before = suggestion@;
        if i > 0 || path.leading_colon {
            suggestion.append("::");
        }
        suggestion.append(path.segments[i].as_str());
        proof {
            let next = path.segments@.subrange(0, i + 1);
            assert(next.drop_last() =~= path.segments@.subrange(0, i as int));
            assert(next.last() == path.segments@[i as int]);
            let sep: Seq<char> = if next.len() > 1 || path.leading_colon { "::"@ } else { Seq::empty() };
            assert(suggestion@ =~= before + sep + path.segments@[i as int]@);
        }
        i = i + 1;
    }
    suggestion.append("(...)]");
    assert(path.segments@.subrange(0, path.segments@.len() as int) =~= path.segments@);
    suggestion
}

} // verus!
