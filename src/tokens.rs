//! A plain model of token trees, their ghost view, and how they print.
use vstd::prelude::*;

verus! {

/// How a group of tokens is delimited.
#[derive(Clone, Copy, Debug, PartialEq, Eq, Structural)]
pub enum Delimiter {
    Parenthesis,
    Brace,
    Bracket,
    Invisible,
}

/// One token tree: a delimited group, an identifier, a punctuation character
/// (with `true` when it is joined to the next punctuation), or a literal as
/// it is written.
#[derive(Debug, PartialEq, Eq)]
pub enum TokenTree {
    Group(Delimiter, Vec<TokenTree>),
    Ident(String),
    Punct(char, bool),
    Literal(String),
}

/// The mathematical value of a token tree.
pub enum Tok {
    Group(Delimiter, Seq<Tok>),
    Ident(Seq<char>),
    Punct(char, bool),
    Literal(Seq<char>),
}

pub open spec fn tok_view(t: TokenTree) -> Tok
    decreases t, 1nat,
{
    match t {
        TokenTree::Group(d, v) => Tok::Group(d, toks_view(v@)),
        TokenTree::Ident(s) => Tok::Ident(s@),
        TokenTree::Punct(c, j) => Tok::Punct(c, j),
        TokenTree::Literal(s) => Tok::Literal(s@),
    }
}

pub open spec fn toks_view(s: Seq<TokenTree>) -> Seq<Tok>
    decreases s, 0nat,
{
    if s.len() == 0 {
        Seq::empty()
    } else {
        toks_view(s.drop_last()).push(tok_view(s.last()))
    }
}

impl View for TokenTree {
    type V = Tok;

    open spec fn view(&self) -> Tok {
        tok_view(*self)
    }
}

/// The view of a token stream.
pub open spec fn toks(v: &Vec<TokenTree>) -> Seq<Tok> {
    toks_view(v@)
}

pub proof fn lemma_toks_view(s: Seq<TokenTree>)
    ensures
        toks_view(s).len() == s.len(),
        forall|i: int| 0 <= i < s.len() ==> #[trigger] toks_view(s)[i] == tok_view(s[i]),
    decreases s.len(),
{
    if s.len() > 0 {
        lemma_toks_view(s.drop_last());
    }
}

pub open spec fn is_punct(t: Tok, c: char) -> bool {
    t matches Tok::Punct(x, _) && x == c
}

pub open spec fn is_joint(t: Tok) -> bool {
    t matches Tok::Punct(_, true)
}

pub open spec fn open_text(d: Delimiter) -> Seq<char> {
    match d {
        Delimiter::Parenthesis => seq!['('],
        Delimiter::Brace => seq!['{', ' '],
        Delimiter::Bracket => seq!['['],
        Delimiter::Invisible => Seq::empty(),
    }
}

pub open spec fn close_text(d: Delimiter, empty: bool) -> Seq<char> {
    match d {
        Delimiter::Parenthesis => seq![')'],
        Delimiter::Brace => if empty { seq!['}'] } else { seq![' ', '}'] },
        Delimiter::Bracket => seq![']'],
        Delimiter::Invisible => Seq::empty(),
    }
}

/// The text of one token tree.
pub open spec fn render_tok(t: Tok) -> Seq<char>
    decreases t, 1nat,
{
    match t {
        Tok::Group(d, s) => open_text(d) + render(s) + close_text(d, s.len() == 0),
        Tok::Ident(s) => s,
        Tok::Punct(c, _) => seq![c],
        Tok::Literal(s) => s,
    }
}

/// The text of a token stream: one space between two trees, except after a
/// punctuation character that is joined to the next.
pub open spec fn render(s: Seq<Tok>) -> Seq<char>
    decreases s, 0nat,
{
    if s.len() == 0 {
        Seq::empty()
    } else {
        let front = s.drop_last();
        let gap: Seq<char> = if front.len() > 0 && !is_joint(front.last()) {
            seq![' ']
        } else {
            Seq::empty()
        };
        render(front) + gap + render_tok(s.last())
    }
}

/// Relies on std's `ToString` for `char`: a string of the one character.
#[verifier::external_body]
fn char_string(c: char) -> (r: String)
    ensures
        r@ == seq![c],
{
    c.to_string()
}

fn push_text(out: &mut String, text: &str)
    ensures
        final(out)@ == old(out)@ + text@,
{
    out.append(text);
}

fn open_string(d: Delimiter) -> (r: &'static str)
    ensures
        r@ == open_text(d),
{
    proof {
        reveal_strlit("(");
        reveal_strlit("{ ");
        reveal_strlit("[");
        reveal_strlit("");
    }
    match d {
        Delimiter::Parenthesis => "(",
        Delimiter::Brace => "{ ",
        Delimiter::Bracket => "[",
        Delimiter::Invisible => "",
    }
}

fn close_string(d: Delimiter, empty: bool) -> (r: &'static str)
    ensures
        r@ == close_text(d, empty),
{
    proof {
        reveal_strlit(")");
        reveal_strlit("}");
        reveal_strlit(" }");
        reveal_strlit("]");
        reveal_strlit("");
    }
    match d {
        Delimiter::Parenthesis => ")",
        Delimiter::Brace => if empty { "}" } else { " }" },
        Delimiter::Bracket => "]",
        Delimiter::Invisible => "",
    }
}

/// Prints a token stream as text.
pub fn render_tokens(ts: &Vec<TokenTree>) -> (r: String)
    ensures
        r@ == render(toks(ts)),
    decreases ts,
{
    proof {
        reveal_strlit(" ");
        lemma_toks_view(ts@);
    }
    let mut out = String::new();
    let mut i: usize = 0;
    while i < ts.len()
        invariant
            i <= ts@.len(),
            toks_view(ts@).len() == ts@.len(),
            forall|k: int| 0 <= k < ts@.len() ==> #[trigger] toks_view(ts@)[k] == tok_view(ts@[k]),
            out@ == render(toks_view(ts@).subrange(0, i as int)),
        decreases ts@.len() - i,
    {
        let ghost pre = toks_view(ts@).subrange(0, i as int);
        let ghost next = toks_view(ts@).subrange(0, i + 1);
        assert(next.drop_last() =~= pre);
        assert(next.last() == tok_view(ts@[i as int]));
        if i > 0 {
            assert(pre.last() == tok_view(ts@[i - 1]));
            let joint = match &ts[i - 1] {
                TokenTree::Punct(_, j) => *j,
                _ => false,
            };
            assert(is_joint(pre.last()) == joint);
            if !joint {
                proof {
                    reveal_strlit(" ");
                }
                push_text(&mut out, " ");
            }
        }
        let ghost mid = out@;
        let piece = match &ts[i] {
            TokenTree::Group(d, inner) => {
                assert(decreases_to!(ts => ts@[i as int]));
                let text = render_tokens(inner);
                let mut piece = String::new();
                push_text(&mut piece, open_string(*d));
                push_text(&mut piece, text.as_str());
                push_text(&mut piece, close_string(*d, inner.len() == 0));
                proof {
                    lemma_toks_view(inner@);
                }
                piece
            },
            TokenTree::Ident(s) => s.clone(),
            TokenTree::Punct(c, _) => char_string(*c),
            TokenTree::Literal(s) => s.clone(),
        };
        assert(piece@ =~= render_tok(tok_view(ts@[i as int])));
        push_text(&mut out, piece.as_str());
        proof {
            let gap: Seq<char> = if pre.len() > 0 && !is_joint(pre.last()) {
                seq![' ']
            } else {
                Seq::empty()
            };
            assert(render(next) == render(pre) + gap + render_tok(next.last()));
            assert(mid =~= render(pre) + gap);
        }
        assert(out@ =~= render(next));
        i = i + 1;
    }
    assert(toks_view(ts@).subrange(0, ts@.len() as int) =~= toks_view(ts@));
    out
}

} // verus!

verus! {

/// A copy of a token tree.
pub fn copy_tree(t: &TokenTree) -> (r: TokenTree)
    ensures
        tok_view(r) == tok_view(*t),
    decreases t, 1nat,
{
    match t {
        TokenTree::Group(d, inner) => TokenTree::Group(*d, copy_tokens(inner)),
        TokenTree::Ident(s) => TokenTree::Ident(s.clone()),
        TokenTree::Punct(c, j) => TokenTree::Punct(*c, *j),
        TokenTree::Literal(s) => TokenTree::Literal(s.clone()),
    }
}

/// A copy of a token stream.
pub fn copy_tokens(ts: &Vec<TokenTree>) -> (r: Vec<TokenTree>)
    ensures
        toks(&r) == toks(ts),
    decreases ts, 0nat,
{
    proof {
        lemma_toks_view(ts@);
    }
    let mut out: Vec<TokenTree> = Vec::new();
    let mut i: usize = 0;
    while i < ts.len()
        invariant
            i <= ts@.len(),
            toks_view(ts@).len() == ts@.len(),
            forall|k: int| 0 <= k < ts@.len() ==> #[trigger] toks_view(ts@)[k] == tok_view(ts@[k]),
            toks_view(out@) == toks_view(ts@).subrange(0, i as int),
        decreases ts@.len() - i,
    {
        assert(decreases_to!(ts => ts@[i as int]));
        let t = copy_tree(&ts[i]);
        let ghost before = out@;
        out.push(t);
        assert(out@.drop_last() =~= before);
        assert(toks_view(out@) =~= toks_view(ts@).subrange(0, i + 1));
        i = i + 1;
    }
    assert(toks_view(ts@).subrange(0, ts@.len() as int) =~= toks_view(ts@));
    out
}

} // verus!

verus! {

/// A token with the spacing of its punctuation forgotten, down through
/// its groups.
pub open spec fn unspaced_tok(t: Tok) -> Tok
    decreases t, 1nat,
{
    match t {
        Tok::Group(d, s) => Tok::Group(d, unspaced(s)),
        Tok::Punct(c, _) => Tok::Punct(c, false),
        _ => t,
    }
}

/// A token stream with the spacing of its punctuation forgotten.
pub open spec fn unspaced(s: Seq<Tok>) -> Seq<Tok>
    decreases s, 0nat,
{
    if s.len() == 0 {
        Seq::empty()
    } else {
        unspaced(s.drop_last()).push(unspaced_tok(s.last()))
    }
}

pub proof fn lemma_unspaced(s: Seq<Tok>)
    ensures
        unspaced(s).len() == s.len(),
        forall|i: int| 0 <= i < s.len() ==> #[trigger] unspaced(s)[i] == unspaced_tok(s[i]),
    decreases s.len(),
{
    if s.len() > 0 {
        lemma_unspaced(s.drop_last());
    }
}

} // verus!
