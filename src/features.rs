//! Feature conditions: "any one of these features enables the declaration", and
//! how the conditions of one declaration combine.
use vstd::prelude::*;
use crate::attr::{is_ident_spec, meta_path, peek_punct, str_eq, Attribute, Meta};
use crate::error::{Error, Expected, Violation};
use crate::names::NameMap;
use crate::tokens::{is_punct, lemma_toks_view, toks, Delimiter, Tok, TokenTree};

verus! {

/// A set of feature names; the empty set means no condition at all.
#[derive(Debug)]
pub struct Features {
    pub any: NameMap<()>,
}

impl View for Features {
    type V = Set<Seq<char>>;

    open spec fn view(&self) -> Set<Seq<char>> {
        self.any@.dom()
    }
}

/// The value of the string literal written `text`, if `text` is one.
pub uninterp spec fn lit_str_value(text: Seq<char>) -> Option<Seq<char>>;

/// Relies on syn's parsing of a `LitStr` from text and on `LitStr::value`:
/// the text is a string literal exactly when it parses as one, and its
/// value is the decoded string.
#[verifier::external_body]
fn string_literal_value(text: &String) -> (r: Option<String>)
    ensures
        match r {
            Some(v) => lit_str_value(text@) == Some(v@),
            None => lit_str_value(text@) is None,
        },
{
    syn::parse_str::<syn::LitStr>(text).ok().map(|lit| lit.value())
}

/// The feature named by `feature = "name"` at position `i` of `s`.
pub open spec fn feature_item(s: Seq<Tok>, i: int) -> Option<Seq<char>> {
    if 0 <= i && i + 3 <= s.len() && s[i] == Tok::Ident("feature"@) && is_punct(s[i + 1], '=')
        && s[i + 2] is Literal
    {
        lit_str_value(s[i + 2]->Literal_0)
    } else {
        None
    }
}

/// The features of a comma-separated list of `feature = ".."` items from
/// position `i` of `s`, a trailing comma allowed.
pub open spec fn feature_list(s: Seq<Tok>, i: int) -> Option<Set<Seq<char>>>
    decreases s.len() - i,
{
    if i < 0 || i >= s.len() {
        Some(Set::empty())
    } else {
        match feature_item(s, i) {
            None => None,
            Some(v) => if i + 3 == s.len() {
                Some(set![v])
            } else if is_punct(s[i + 3], ',') {
                match feature_list(s, i + 4) {
                    Some(rest) => Some(rest.insert(v)),
                    None => None,
                }
            } else {
                None
            },
        }
    }
}

/// The features of the content of a `cfg(..)`: `feature = ".."`, or
/// `any(..)` of such items; anything else is not understood.
pub open spec fn cfg_features(s: Seq<Tok>) -> Option<Set<Seq<char>>> {
    if s.len() == 2 && s[0] == Tok::Ident("any"@) && s[1] matches Tok::Group(Delimiter::Parenthesis, _) {
        feature_list(s[1]->Group_1, 0)
    } else if s.len() == 3 {
        match feature_item(s, 0) {
            Some(v) => Some(set![v]),
            None => None,
        }
    } else {
        None
    }
}

/// Two conditions on one declaration combine into the narrower one; an empty
/// condition gives way to any other; conditions that are not nested do not combine.
pub open spec fn merge_spec(p: Set<Seq<char>>, q: Set<Seq<char>>) -> Option<Set<Seq<char>>> {
    if p.is_empty() {
        Some(q)
    } else if q.is_empty() {
        Some(p)
    } else if q.subset_of(p) {
        Some(q)
    } else if p.subset_of(q) {
        Some(p)
    } else {
        None
    }
}

/// The value of the string literal `text`.
pub fn lit_str(text: &String) -> (r: Result<String, Error>)
    ensures
        r matches Ok(v) ==> lit_str_value(text@) == Some(v@),
        r is Err ==> lit_str_value(text@) is None,
{
    match string_literal_value(text) {
        Some(v) => Ok(v),
        None => Err(Error::Syntax(Expected::StrLit)),
    }
}

impl Features {
    /// No condition.
    pub fn none() -> (r: Features)
        ensures
            r@ == Set::<Seq<char>>::empty(),
            r.any.wf(),
    {
        Features { any: NameMap::new() }
    }

    /// The condition of one feature.
    pub fn single(name: String) -> (r: Features)
        ensures
            r@ == set![name@],
            r.any.wf(),
    {
        let mut any = NameMap::new();
        any.insert(name, ());
        let r = Features { any };
        assert(r@ =~= set![name@]);
        r
    }

    pub fn is_empty(&self) -> (r: bool)
        requires
            self.any.wf(),
        ensures
            r == self@.is_empty(),
    {
        let r = self.any.len() == 0;
        proof {
            if !r {
                crate::names::lemma_index_unique(self.any.spec_entries(), 0);
            } else {
                assert(self@ =~= Set::<Seq<char>>::empty());
            }
        }
        r
    }

    /// Whether every feature of `self` is one of `other`.
    pub fn is_subset_of(&self, other: &Features) -> (r: bool)
        requires
            self.any.wf(),
            other.any.wf(),
        ensures
            r == self@.subset_of(other@),
    {
        let entries = self.any.entries();
        let mut i: usize = 0;
        while i < entries.len()
            invariant
                entries@ == self.any.spec_entries(),
                self.any.wf(),
                other.any.wf(),
                i <= entries@.len(),
                forall|k: int| 0 <= k < i ==> other@.contains(#[trigger] entries@[k].0@),
            decreases entries@.len() - i,
        {
            if other.any.get(&entries[i].0).is_none() {
                proof {
                    crate::names::lemma_index_unique(entries@, i as int);
                }
                return false;
            }
            i = i + 1;
        }
        proof {
            assert forall|x: Seq<char>| self@.contains(x) implies other@.contains(x) by {
                let k = crate::names::index_of(entries@, x);
            }
        }
        true
    }

    /// A copy of the condition.
    pub fn copy(&self) -> (r: Features)
        requires
            self.any.wf(),
        ensures
            r@ == self@,
            r.any.wf(),
    {
        let entries = self.any.entries();
        let mut any = NameMap::new();
        let mut i: usize = 0;
        while i < entries.len()
            invariant
                entries@ == self.any.spec_entries(),
                self.any.wf(),
                any.wf(),
                i <= entries@.len(),
                any@.dom() == Set::new(|x: Seq<char>| exists|k: int| 0 <= k < i && #[trigger] entries@[k].0@ == x),
            decreases entries@.len() - i,
        {
            any.insert(entries[i].0.clone(), ());
            proof {
                assert forall|x: Seq<char>| (exists|k: int| 0 <= k < i + 1 && #[trigger] entries@[k].0@ == x) == any@.dom().contains(x) by {
                    if x == entries@[i as int].0@ {
                        assert(entries@[i as int].0@ == x);
                    }
                }
                assert(any@.dom() =~= Set::new(|x: Seq<char>| exists|k: int| 0 <= k < i + 1 && #[trigger] entries@[k].0@ == x));
            }
            i = i + 1;
        }
        let r = Features { any };
        assert(r@ =~= self@);
        r
    }

    /// The names of the features, in order.
    pub fn names(&self) -> (r: Vec<String>)
        ensures
            r@.len() == self.any.spec_entries().len(),
            forall|k: int| 0 <= k < r@.len() ==> #[trigger] r@[k]@ == self.any.spec_entries()[k].0@,
    {
        let entries = self.any.entries();
        let mut out: Vec<String> = Vec::new();
        let mut i: usize = 0;
        while i < entries.len()
            invariant
                entries@ == self.any.spec_entries(),
                i <= entries@.len(),
                out@.len() == i,
                forall|k: int| 0 <= k < i ==> #[trigger] out@[k]@ == entries@[k].0@,
            decreases entries@.len() - i,
        {
            out.push(entries[i].0.clone());
            i = i + 1;
        }
        out
    }
}

} // verus!

verus! {

/// Parses `feature = ".."` at position `pos`, giving the name.
pub fn parse_feature(ts: &Vec<TokenTree>, pos: usize) -> (r: Result<String, Error>)
    ensures
        r matches Ok(v) ==> feature_item(toks(ts), pos as int) == Some(v@),
        r is Err ==> feature_item(toks(ts), pos as int) is None,
{
    proof {
        lemma_toks_view(ts@);
        reveal_strlit("feature");
    }
    let n = ts.len();
    if pos >= n || n - pos < 3 {
        return Err(Error::Syntax(Expected::Ident));
    }
    let named = match &ts[pos] {
        TokenTree::Ident(s) => str_eq(s, "feature"),
        _ => false,
    };
    if !named {
        return Err(Error::Violation(Violation::FeaturePredicate));
    }
    match &ts[pos + 1] {
        TokenTree::Punct('=', _) => {},
        _ => return Err(Error::Syntax(Expected::Eq)),
    }
    match &ts[pos + 2] {
        TokenTree::Literal(text) => lit_str(text),
        _ => Err(Error::Syntax(Expected::StrLit)),
    }
}

/// Parses the content of a `cfg(..)` attribute into a condition.
pub fn parse_features(ts: &Vec<TokenTree>) -> (r: Result<Features, Error>)
    ensures
        r matches Ok(f) ==> cfg_features(toks(ts)) == Some(f@) && f.any.wf(),
        r is Err ==> cfg_features(toks(ts)) is None,
{
    proof {
        lemma_toks_view(ts@);
        reveal_strlit("any");
        reveal_strlit("feature");
    }
    let n = ts.len();
    let is_any = n == 2 && match &ts[0] {
        TokenTree::Ident(s) => str_eq(s, "any"),
        _ => false,
    };
    if is_any {
        let inner = match &ts[1] {
            TokenTree::Group(Delimiter::Parenthesis, inner) => inner,
            _ => return Err(Error::Syntax(Expected::Parentheses)),
        };
        proof {
            lemma_toks_view(inner@);
        }
        let m = inner.len();
        assert(toks(ts)[1] == Tok::Group(Delimiter::Parenthesis, toks(inner)));
        assert(cfg_features(toks(ts)) == feature_list(toks(inner), 0));
        let mut features = Features::none();
        let mut i: usize = 0;
        while i < m
            invariant
                m == inner@.len(),
                toks(inner).len() == m,
                i <= m,
                features.any.wf(),
                cfg_features(toks(ts)) == feature_list(toks(inner), 0),
                feature_list(toks(inner), 0) == match feature_list(toks(inner), i as int) {
                    Some(rest) => Some(rest.union(features@)),
                    None => None,
                },
            decreases m - i,
        {
            let name = match parse_feature(inner, i) {
                Ok(name) => name,
                Err(e) => {
                    assert(feature_list(toks(inner), i as int) is None);
                    return Err(e);
                },
            };
            let ghost acc = features@;
            features.any.insert(name, ());
            assert(features@ =~= acc.insert(name@));
            if i + 3 < m {
                if !peek_punct(inner, i + 3, ',') {
                    assert(feature_list(toks(inner), i as int) is None);
                    return Err(Error::Syntax(Expected::Comma));
                }
                proof {
                    if let Some(r) = feature_list(toks(inner), i + 4) {
                        assert(r.insert(name@).union(acc) =~= r.union(features@));
                    }
                }
                i = i + 4;
            } else {
                proof {
                    assert(Set::<Seq<char>>::empty().union(features@) =~= set![name@].union(acc));
                }
                i = i + 3;
            }
        }
        proof {
            assert(Set::<Seq<char>>::empty().union(features@) =~= features@);
        }
        Ok(features)
    } else if n == 3 {
        let name = parse_feature(ts, 0)?;
        let f = Features::single(name);
        Ok(f)
    } else {
        Err(Error::Violation(Violation::FeaturePredicate))
    }
}

} // verus!

verus! {

/// The condition that the `cfg` attributes among `attrs` put on a declaration
/// that already stands under `base`, each attribute merged in turn.
pub open spec fn cfg_spec(attrs: Seq<Attribute>, base: Set<Seq<char>>) -> Option<Set<Seq<char>>>
    decreases attrs.len(),
{
    if attrs.len() == 0 {
        Some(base)
    } else {
        match cfg_spec(attrs.drop_last(), base) {
            None => None,
            Some(acc) => {
                let a = attrs.last();
                if is_ident_spec(meta_path(a.meta), "cfg"@) {
                    match a.meta {
                        Meta::List(l) => match cfg_features(toks(&l.tokens)) {
                            Some(f) => merge_spec(acc, f),
                            None => None,
                        },
                        _ => None,
                    }
                } else {
                    Some(acc)
                }
            },
        }
    }
}

/// Merges two conditions of one declaration into the narrower.
pub fn merge(p: &Features, q: &Features) -> (r: Result<Features, Error>)
    requires
        p.any.wf(),
        q.any.wf(),
    ensures
        r matches Ok(f) ==> merge_spec(p@, q@) == Some(f@) && f.any.wf(),
        r is Err ==> merge_spec(p@, q@) is None && r == Err::<Features, Error>(Error::Violation(Violation::IncomparableFeatures)),
{
    if p.is_empty() {
        Ok(q.copy())
    } else if q.is_empty() {
        Ok(p.copy())
    } else if q.is_subset_of(p) {
        Ok(q.copy())
    } else if p.is_subset_of(q) {
        Ok(p.copy())
    } else {
        Err(Error::Violation(Violation::IncomparableFeatures))
    }
}

/// The condition that the `cfg` attributes among `attrs` put on a declaration
/// that already stands under `base`.
pub fn introspect_features(attrs: &Vec<Attribute>, base: &Features) -> (r: Result<Features, Error>)
    requires
        base.any.wf(),
    ensures
        r matches Ok(f) ==> cfg_spec(attrs@, base@) == Some(f@) && f.any.wf(),
        r is Err ==> cfg_spec(attrs@, base@) is None,
{
    let mut acc = base.copy();
    let mut i: usize = 0;
    while i < attrs.len()
        invariant
            i <= attrs@.len(),
            acc.any.wf(),
            cfg_spec(attrs@.subrange(0, i as int), base@) == Some(acc@),
        decreases attrs@.len() - i,
    {
        let a = &attrs[i];
        proof {
            assert(attrs@.subrange(0, i + 1).drop_last() =~= attrs@.subrange(0, i as int));
            assert(attrs@.subrange(0, i + 1).last() == *a);
            reveal_strlit("cfg");
        }
        if a.path().is_ident("cfg") {
            match &a.meta {
                Meta::List(l) => {
                    let f = parse_features(&l.tokens);
                    match f {
                        Ok(f) => {
                            acc = match merge(&acc, &f) {
                                Ok(m) => m,
                                Err(e) => {
                                    proof {
                                        lemma_cfg_none(attrs@, base@, i as int);
                                    }
                                    return Err(e);
                                },
                            };
                        },
                        Err(e) => {
                            proof {
                                lemma_cfg_none(attrs@, base@, i as int);
                            }
                            return Err(e);
                        },
                    }
                },
                _ => {
                    proof {
                        lemma_cfg_none(attrs@, base@, i as int);
                    }
                    return Err(Error::Violation(Violation::FeaturePredicate));
                },
            }
        }
        i = i + 1;
    }
    assert(attrs@.subrange(0, attrs@.len() as int) =~= attrs@);
    Ok(acc)
}

/// Once the merge fails on a prefix, it fails on the whole.
proof fn lemma_cfg_none(attrs: Seq<Attribute>, base: Set<Seq<char>>, i: int)
    requires
        0 <= i < attrs.len(),
        cfg_spec(attrs.subrange(0, i + 1), base) is None,
    ensures
        cfg_spec(attrs, base) is None,
    decreases attrs.len() - i,
{
    if i + 1 == attrs.len() {
        assert(attrs.subrange(0, i + 1) =~= attrs);
    } else {
        assert(attrs.subrange(0, i + 2).drop_last() =~= attrs.subrange(0, i + 1));
        lemma_cfg_none(attrs, base, i + 1);
    }
}

/// Two nested conditions merge into the narrower, and two conditions of which neither
/// holds the other do not merge.
pub proof fn lemma_merge_nested(p: Set<Seq<char>>, q: Set<Seq<char>>)
    requires
        !p.is_empty(),
        !q.is_empty(),
    ensures
        q.subset_of(p) ==> merge_spec(p, q) == Some(q),
        p.subset_of(q) ==> merge_spec(p, q) == Some(p),
        !q.subset_of(p) && !p.subset_of(q) ==> merge_spec(p, q) is None,
{
    if q.subset_of(p) && p.subset_of(q) {
        assert(p =~= q);
    }
}

} // verus!
