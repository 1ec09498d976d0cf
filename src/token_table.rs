//! The token table: from the spelling of each token to its kind, as the
//! token macro of the modeled library declares it, and back.
use vstd::prelude::*;
use crate::attr::{peek_punct, str_eq};
use crate::crawl::{insert_all, text_map};
use crate::error::{Error, Expected, Violation};
use crate::names::NameMap;
use crate::tokens::{
    is_punct, lemma_toks_view, render, render_tokens, tok_view, toks, Delimiter, Tok, TokenTree,
};

verus! {

/// From position `i`, `e` holds identifiers separated by `::` up to its end.
pub open spec fn path_from(e: Seq<Tok>, i: int) -> bool
    decreases e.len() - i,
{
    if i < 0 || i >= e.len() || !(e[i] is Ident) {
        false
    } else if i + 1 == e.len() {
        true
    } else {
        i + 3 < e.len() + 1 && i + 2 < e.len() && e[i + 1] == Tok::Punct(':', true)
            && e[i + 2] == Tok::Punct(':', false) && path_from(e, i + 3)
    }
}

/// The kind that the expansion `$path` of a token rule names: the last
/// segment of the path.
pub open spec fn expansion_kind(e: Seq<Tok>) -> Option<Seq<char>> {
    if e.len() >= 2 && is_punct(e[0], '$') && path_from(e, 1) {
        Some(e.last()->Ident_0)
    } else {
        None
    }
}

/// The rule at position `i` of `s`: `[spelling] => { $path };`, giving the
/// spelling's text and the kind.
pub open spec fn rule_at(s: Seq<Tok>, i: int) -> Option<(Seq<char>, Seq<char>)> {
    if 0 <= i && i + 5 <= s.len() && (s[i] matches Tok::Group(Delimiter::Bracket, _))
        && s[i + 1] == Tok::Punct('=', true) && is_punct(s[i + 2], '>')
        && (s[i + 3] matches Tok::Group(Delimiter::Brace, _)) && is_punct(s[i + 4], ';')
    {
        match expansion_kind(s[i + 3]->Group_1) {
            Some(k) => Some((render(s[i]->Group_1), k)),
            None => None,
        }
    } else {
        None
    }
}

/// The rules of a token macro's body from position `i` on, in order.
pub open spec fn rules_from(s: Seq<Tok>, i: int) -> Option<Seq<(Seq<char>, Seq<char>)>>
    decreases s.len() - i,
{
    if i < 0 || i >= s.len() {
        Some(Seq::empty())
    } else {
        match rule_at(s, i) {
            None => None,
            Some(r) => match rules_from(s, i + 5) {
                None => None,
                Some(rest) => Some(seq![r] + rest),
            },
        }
    }
}

/// Reads the kind named by the expansion of a token rule.
fn expansion(e: &Vec<TokenTree>) -> (r: Result<String, Error>)
    ensures
        r matches Ok(k) ==> expansion_kind(toks(e)) == Some(k@),
        r is Err ==> expansion_kind(toks(e)) is None,
{
    proof {
        lemma_toks_view(e@);
    }
    let n = e.len();
    if !peek_punct(e, 0, '$') || n < 2 {
        return Err(Error::Syntax(Expected::Dollar));
    }
    let mut i: usize = 1;
    loop
        invariant
            1 <= i < n,
            n == e@.len(),
            toks(e).len() == n,
            is_punct(toks(e)[0], '$'),
            path_from(toks(e), 1) == path_from(toks(e), i as int),
        decreases n - i,
    {
        proof {
            lemma_toks_view(e@);
        }
        let is_ident = match &e[i] {
            TokenTree::Ident(_) => true,
            _ => false,
        };
        assert(toks(e)[i as int] == tok_view(e@[i as int]));
        if !is_ident {
            return Err(Error::Syntax(Expected::Ident));
        }
        if i + 1 == n {
            let k = match &e[i] {
                TokenTree::Ident(s) => s.clone(),
                _ => return Err(Error::Syntax(Expected::Ident)),
            };
            assert(path_from(toks(e), i as int));
            assert(toks(e).last() == Tok::Ident(k@));
            return Ok(k);
        }
        if i + 2 >= n {
            return Err(Error::Syntax(Expected::Colon));
        }
        let sep = match (&e[i + 1], &e[i + 2]) {
            (TokenTree::Punct(':', true), TokenTree::Punct(':', false)) => true,
            _ => false,
        };
        assert(toks(e)[i + 1] == tok_view(e@[i + 1]));
        assert(toks(e)[i + 2] == tok_view(e@[i + 2]));
        if !sep || i + 3 >= n {
            if sep {
                assert(!path_from(toks(e), i + 3));
            }
            assert(!path_from(toks(e), i as int));
            return Err(Error::Syntax(Expected::Colon));
        }
        i = i + 3;
    }
}

} // verus!

verus! {

/// Reads the body of the token macro: rules `[spelling] => { $path };`,
/// giving the table from each spelling's text to its kind (a later rule
/// for the same spelling replaces an earlier one).
pub fn parse_token_macro(ts: &Vec<TokenTree>) -> (r: Result<NameMap<String>, Error>)
    ensures
        r matches Ok(t) ==> t.wf() && rules_from(toks(ts), 0) is Some
            && text_map(t@) == insert_all(Map::empty(), rules_from(toks(ts), 0)->Some_0),
        r is Err ==> rules_from(toks(ts), 0) is None,
{
    proof {
        lemma_toks_view(ts@);
    }
    let n = ts.len();
    let mut table: NameMap<String> = NameMap::new();
    let mut i: usize = 0;
    let ghost mut done: Seq<(Seq<char>, Seq<char>)> = Seq::empty();
    assert(text_map(table@) =~= Map::<Seq<char>, Seq<char>>::empty());
    assert(done + Seq::<(Seq<char>, Seq<char>)>::empty() =~= done);
    while i < n
        invariant
            n == ts@.len(),
            toks(ts).len() == n,
            i <= n,
            table.wf(),
            rules_from(toks(ts), 0) == match rules_from(toks(ts), i as int) {
                Some(rest) => Some(done + rest),
                None => None,
            },
            text_map(table@) == insert_all(Map::empty(), done),
        decreases n - i,
    {
        proof {
            lemma_toks_view(ts@);
        }
        let s = Ghost(toks(ts));
        if n - i < 5 {
            return Err(Error::Syntax(Expected::Semi));
        }
        let pattern = match &ts[i] {
            TokenTree::Group(Delimiter::Bracket, p) => p,
            _ => return Err(Error::Syntax(Expected::Brackets)),
        };
        let arrow = match (&ts[i + 1], &ts[i + 2]) {
            (TokenTree::Punct('=', true), TokenTree::Punct('>', _)) => true,
            _ => false,
        };
        assert(s@[i + 1] == tok_view(ts@[i + 1]));
        assert(s@[i + 2] == tok_view(ts@[i + 2]));
        if !arrow {
            return Err(Error::Syntax(Expected::FatArrow));
        }
        let body = match &ts[i + 3] {
            TokenTree::Group(Delimiter::Brace, b) => b,
            _ => return Err(Error::Syntax(Expected::Braces)),
        };
        if !peek_punct(ts, i + 4, ';') {
            return Err(Error::Syntax(Expected::Semi));
        }
        let kind = expansion(body)?;
        let spelling = render_tokens(pattern);
        let ghost rule = (spelling@, kind@);
        assert(rule_at(s@, i as int) == Some(rule));
        let ghost before = text_map(table@);
        table.insert(spelling, kind);
        proof {
            assert(text_map(table@) =~= before.insert(rule.0, rule.1));
            let next = done.push(rule);
            assert(next.drop_last() =~= done);
            if let Some(rest) = rules_from(s@, i + 5) {
                assert(done + (seq![rule] + rest) =~= next + rest);
            }
            done = next;
        }
        i = i + 5;
    }
    assert(done + Seq::<(Seq<char>, Seq<char>)>::empty() =~= done);
    Ok(table)
}

/// The table from kind to spelling: each rule of `t` read backwards, in
/// the order of the spellings.
pub open spec fn inverted(t: Seq<(String, String)>) -> Seq<(Seq<char>, Seq<char>)> {
    t.map_values(|p: (String, String)| (p.1@, p.0@))
}

/// Turns the table from spelling to kind into the table from kind to
/// spelling.
pub fn invert_tokens(tokens: &NameMap<String>) -> (r: NameMap<String>)
    ensures
        r.wf(),
        text_map(r@) == insert_all(Map::empty(), inverted(tokens.spec_entries())),
{
    let entries = tokens.entries();
    let mut out: NameMap<String> = NameMap::new();
    let mut i: usize = 0;
    assert(text_map(out@) =~= Map::<Seq<char>, Seq<char>>::empty());
    while i < entries.len()
        invariant
            entries@ == tokens.spec_entries(),
            i <= entries@.len(),
            out.wf(),
            text_map(out@) == insert_all(Map::empty(), inverted(entries@.subrange(0, i as int))),
        decreases entries@.len() - i,
    {
        let ghost before = text_map(out@);
        out.insert(entries[i].1.clone(), entries[i].0.clone());
        proof {
            assert(text_map(out@) =~= before.insert(entries@[i as int].1@, entries@[i as int].0@));
            assert(inverted(entries@.subrange(0, i + 1)).drop_last() =~= inverted(entries@.subrange(0, i as int)));
        }
        i = i + 1;
    }
    assert(entries@.subrange(0, entries@.len() as int) =~= entries@);
    out
}

} // verus!

verus! {

/// The first of the macro definitions from `i` on that is named `Token`.
pub open spec fn first_token_macro(defs: Seq<(Option<String>, Vec<TokenTree>)>, i: int) -> Option<int>
    decreases defs.len() - i,
{
    if i < 0 || i >= defs.len() {
        None
    } else if defs[i].0 matches Some(n) && n@ == "Token"@ {
        Some(i)
    } else {
        first_token_macro(defs, i + 1)
    }
}

/// Reads the token table from the macro definitions of the token file,
/// each a name and a body: the first one named `Token` holds the table.
pub fn load_token_table(defs: &Vec<(Option<String>, Vec<TokenTree>)>) -> (r: Result<NameMap<String>, Error>)
    ensures
        match first_token_macro(defs@, 0) {
            None => r == Err::<NameMap<String>, Error>(Error::Violation(Violation::MissingTokenTable)),
            Some(k) => {
                &&& r is Ok <==> rules_from(toks(&defs@[k].1), 0) is Some
                &&& r matches Ok(t) ==> t.wf() && text_map(t@) == insert_all(
                    Map::empty(),
                    rules_from(toks(&defs@[k].1), 0)->Some_0,
                )
            },
        },
{
    let mut i: usize = 0;
    while i < defs.len()
        invariant
            i <= defs@.len(),
            first_token_macro(defs@, 0) == first_token_macro(defs@, i as int),
        decreases defs@.len() - i,
    {
        let named = match &defs[i].0 {
            Some(n) => str_eq(n, "Token"),
            None => false,
        };
        if named {
            return parse_token_macro(&defs[i].1);
        }
        i = i + 1;
    }
    Err(Error::Violation(Violation::MissingTokenTable))
}

} // verus!
