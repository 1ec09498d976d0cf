//! Tables keyed by name, kept in the lexicographic order of their keys.
use vstd::prelude::*;

verus! {

/// Lexicographic order on character sequences.
pub open spec fn lex_lt(a: Seq<char>, b: Seq<char>) -> bool
    decreases a.len(),
{
    if a.len() == 0 {
        b.len() > 0
    } else if b.len() == 0 {
        false
    } else if a[0] != b[0] {
        (a[0] as int) < (b[0] as int)
    } else {
        lex_lt(a.drop_first(), b.drop_first())
    }
}

pub proof fn lemma_lex_irreflexive(a: Seq<char>)
    ensures
        !lex_lt(a, a),
    decreases a.len(),
{
    if a.len() > 0 {
        lemma_lex_irreflexive(a.drop_first());
    }
}

pub proof fn lemma_lex_transitive(a: Seq<char>, b: Seq<char>, c: Seq<char>)
    requires
        lex_lt(a, b),
        lex_lt(b, c),
    ensures
        lex_lt(a, c),
    decreases a.len(),
{
    if a.len() > 0 && b.len() > 0 && c.len() > 0 && a[0] == b[0] && b[0] == c[0] {
        lemma_lex_transitive(a.drop_first(), b.drop_first(), c.drop_first());
    }
}

pub proof fn lemma_lex_total(a: Seq<char>, b: Seq<char>)
    requires
        a != b,
    ensures
        lex_lt(a, b) || lex_lt(b, a),
    decreases a.len(),
{
    if a.len() > 0 && b.len() > 0 && a[0] == b[0] {
        if a.drop_first() == b.drop_first() {
            assert(a =~= seq![a[0]] + a.drop_first());
            assert(b =~= seq![b[0]] + b.drop_first());
        }
        lemma_lex_total(a.drop_first(), b.drop_first());
    } else if a.len() == 0 && b.len() == 0 {
        assert(a =~= b);
    } else if a.len() > 0 && b.len() > 0 {
        assert((a[0] as int) != (b[0] as int));
    }
}

/// Compares two names: negative, zero or positive as `a` sorts before,
/// equals or sorts after `b`.
pub fn compare_names(a: &String, b: &String) -> (r: i8)
    ensures
        r < 0 <==> lex_lt(a@, b@),
        r == 0 <==> a@ == b@,
        r > 0 <==> lex_lt(b@, a@),
{
    let la = a.as_str().unicode_len();
    let lb = b.as_str().unicode_len();
    let mut i: usize = 0;
    while i < la && i < lb
        invariant
            la == a@.len(),
            lb == b@.len(),
            i <= la,
            i <= lb,
            a@.subrange(0, i as int) == b@.subrange(0, i as int),
        decreases la - i,
    {
        let ca = a.as_str().get_char(i);
        let cb = b.as_str().get_char(i);
        if ca != cb {
            proof {
                lemma_lex_prefix(a@, b@, i as nat);
                assert((ca as int) != (cb as int));
            }
            if (ca as u32) < (cb as u32) {
                return -1;
            } else {
                return 1;
            }
        }
        assert(a@.subrange(0, i + 1) =~= a@.subrange(0, i as int).push(ca));
        assert(b@.subrange(0, i + 1) =~= b@.subrange(0, i as int).push(cb));
        i = i + 1;
    }
    proof {
        lemma_lex_prefix(a@, b@, i as nat);
        lemma_lex_irreflexive(a@);
        if la == lb {
            assert(a@ =~= a@.subrange(0, i as int));
            assert(b@ =~= b@.subrange(0, i as int));
        }
    }
    if la < lb {
        -1
    } else if la == lb {
        0
    } else {
        1
    }
}

/// Two sequences that share their first `n` characters compare as their
/// remainders do.
proof fn lemma_lex_prefix(a: Seq<char>, b: Seq<char>, n: nat)
    requires
        n <= a.len(),
        n <= b.len(),
        a.subrange(0, n as int) == b.subrange(0, n as int),
    ensures
        lex_lt(a, b) == lex_lt(a.subrange(n as int, a.len() as int), b.subrange(n as int, b.len() as int)),
        lex_lt(b, a) == lex_lt(b.subrange(n as int, b.len() as int), a.subrange(n as int, a.len() as int)),
    decreases n,
{
    if n > 0 {
        assert(a[0] == a.subrange(0, n as int)[0]);
        assert(b[0] == b.subrange(0, n as int)[0]);
        assert(a.drop_first().subrange(0, n - 1) =~= a.subrange(0, n as int).drop_first());
        assert(b.drop_first().subrange(0, n - 1) =~= b.subrange(0, n as int).drop_first());
        lemma_lex_prefix(a.drop_first(), b.drop_first(), (n - 1) as nat);
        assert(a.drop_first().subrange(n - 1, a.len() - 1) =~= a.subrange(n as int, a.len() as int));
        assert(b.drop_first().subrange(n - 1, b.len() - 1) =~= b.subrange(n as int, b.len() as int));
    } else {
        assert(a.subrange(0, a.len() as int) =~= a);
        assert(b.subrange(0, b.len() as int) =~= b);
    }
}

} // verus!

verus! {

/// A table from names to values, held as entries in strictly increasing order
/// of their names.
#[derive(Debug)]
pub struct NameMap<V> {
    pub entries: Vec<(String, V)>,
}

pub open spec fn keys_sorted<V>(s: Seq<(String, V)>) -> bool {
    forall|i: int, j: int| 0 <= i < j < s.len() ==> lex_lt(#[trigger] s[i].0@, #[trigger] s[j].0@)
}

pub open spec fn has_name<V>(s: Seq<(String, V)>, k: Seq<char>) -> bool {
    exists|i: int| 0 <= i < s.len() && #[trigger] s[i].0@ == k
}

pub open spec fn index_of<V>(s: Seq<(String, V)>, k: Seq<char>) -> int {
    choose|i: int| 0 <= i < s.len() && #[trigger] s[i].0@ == k
}

/// The map that a sequence of entries with distinct names stands for.
pub open spec fn entries_map<V>(s: Seq<(String, V)>) -> Map<Seq<char>, V> {
    Map::new(|k: Seq<char>| has_name(s, k), |k: Seq<char>| s[index_of(s, k)].1)
}

pub proof fn lemma_index_unique<V>(s: Seq<(String, V)>, i: int)
    requires
        keys_sorted(s),
        0 <= i < s.len(),
    ensures
        has_name(s, s[i].0@),
        index_of(s, s[i].0@) == i,
        entries_map(s).contains_key(s[i].0@),
        entries_map(s)[s[i].0@] == s[i].1,
{
    let k = s[i].0@;
    assert(has_name(s, k));
    let j = index_of(s, k);
    if j < i {
        assert(lex_lt(s[j].0@, s[i].0@));
        lemma_lex_irreflexive(k);
    } else if j > i {
        assert(lex_lt(s[i].0@, s[j].0@));
        lemma_lex_irreflexive(k);
    }
}

impl<V> View for NameMap<V> {
    type V = Map<Seq<char>, V>;

    open spec fn view(&self) -> Map<Seq<char>, V> {
        entries_map(self.entries@)
    }
}

impl<V> NameMap<V> {
    /// The entries, in order of their names.
    pub open spec fn spec_entries(&self) -> Seq<(String, V)> {
        self.entries@
    }

    pub open spec fn wf(&self) -> bool {
        keys_sorted(self.entries@)
    }

    pub fn new() -> (r: Self)
        ensures
            r.wf(),
            r@ == Map::<Seq<char>, V>::empty(),
            r.spec_entries().len() == 0,
    {
        let r = NameMap { entries: Vec::new() };
        assert(r@ =~= Map::<Seq<char>, V>::empty());
        r
    }

    pub fn len(&self) -> (r: usize)
        ensures
            r == self.spec_entries().len(),
    {
        self.entries.len()
    }

    /// The entries, in order of their names.
    pub fn entries(&self) -> (r: &Vec<(String, V)>)
        ensures
            r@ == self.spec_entries(),
    {
        &self.entries
    }

    /// The position where `k` stands or would stand.
    fn find(&self, k: &String) -> (r: usize)
        requires
            self.wf(),
        ensures
            r <= self.entries@.len(),
            forall|i: int| 0 <= i < r ==> lex_lt(#[trigger] self.entries@[i].0@, k@),
            r < self.entries@.len() ==> !lex_lt(self.entries@[r as int].0@, k@),
    {
        let mut i: usize = 0;
        while i < self.entries.len()
            invariant
                i <= self.entries@.len(),
                forall|j: int| 0 <= j < i ==> lex_lt(#[trigger] self.entries@[j].0@, k@),
            decreases self.entries@.len() - i,
        {
            if compare_names(&self.entries[i].0, k) >= 0 {
                return i;
            }
            i = i + 1;
        }
        i
    }

    pub fn get(&self, k: &String) -> (r: Option<&V>)
        requires
            self.wf(),
        ensures
            r matches Some(v) ==> self@.contains_key(k@) && self@[k@] == *v,
            r is None ==> !self@.contains_key(k@),
    {
        let i = self.find(k);
        if i < self.entries.len() && compare_names(&self.entries[i].0, k) == 0 {
            proof {
                lemma_index_unique(self.entries@, i as int);
            }
            Some(&self.entries[i].1)
        } else {
            proof {
                if has_name(self.entries@, k@) {
                    let j = index_of(self.entries@, k@);
                    lemma_lex_irreflexive(k@);
                    if j > i {
                        assert(lex_lt(self.entries@[i as int].0@, self.entries@[j].0@));
                        lemma_lex_total(self.entries@[i as int].0@, k@);
                    }
                }
            }
            None
        }
    }

    pub fn insert(&mut self, k: String, v: V)
        requires
            old(self).wf(),
        ensures
            final(self).wf(),
            final(self)@ == old(self)@.insert(k@, v),
    {
        let i = self.find(&k);
        let ghost s = self.entries@;
        let ghost kk = k@;
        if i < self.entries.len() && compare_names(&self.entries[i].0, &k) == 0 {
            self.entries.remove(i);
            self.entries.insert(i, (k, v));
            proof {
                let t = self.entries@;
                assert(t =~= s.update(i as int, (t[i as int].0, v)));
                assert forall|a: int, b: int| 0 <= a < b < t.len() implies lex_lt(#[trigger] t[a].0@, #[trigger] t[b].0@) by {
                    assert(lex_lt(s[a].0@, s[b].0@));
                }
                assert forall|q: Seq<char>| #[trigger] entries_map(t).contains_key(q) == old(self)@.insert(kk, v).contains_key(q) by {
                    if has_name(t, q) {
                        let j = index_of(t, q);
                        assert(s[j].0@ == q);
                    }
                    if has_name(s, q) {
                        let j = index_of(s, q);
                        assert(t[j].0@ == q);
                    }
                    if q == kk {
                        assert(t[i as int].0@ == q);
                    }
                }
                assert forall|q: Seq<char>| #[trigger] entries_map(t).contains_key(q) implies entries_map(t)[q] == old(self)@.insert(kk, v)[q] by {
                    let j = index_of(t, q);
                    lemma_index_unique(t, j);
                    if j != i {
                        lemma_index_unique(s, j);
                    }
                }
                assert(entries_map(t) =~= old(self)@.insert(kk, v));
            }
        } else {
            self.entries.insert(i, (k, v));
            proof {
                let t = self.entries@;
                assert(t =~= s.insert(i as int, (t[i as int].0, v)));
                assert(t[i as int].0@ == kk);
                if i < s.len() {
                    lemma_lex_total(s[i as int].0@, kk);
                }
                assert forall|a: int, b: int| 0 <= a < b < t.len() implies lex_lt(#[trigger] t[a].0@, #[trigger] t[b].0@) by {
                    if b < i {
                        assert(lex_lt(s[a].0@, s[b].0@));
                    } else if b == i {
                        assert(lex_lt(s[a].0@, kk));
                    } else if a < i {
                        assert(lex_lt(s[a].0@, kk));
                        assert(t[b] == s[b - 1]);
                        if b - 1 > i {
                            assert(lex_lt(s[i as int].0@, s[b - 1].0@));
                            lemma_lex_transitive(kk, s[i as int].0@, s[b - 1].0@);
                        }
                        lemma_lex_transitive(s[a].0@, kk, s[b - 1].0@);
                    } else if a == i {
                        if b - 1 > i {
                            assert(lex_lt(s[i as int].0@, s[b - 1].0@));
                            lemma_lex_transitive(kk, s[i as int].0@, s[b - 1].0@);
                        }
                    } else {
                        assert(lex_lt(s[a - 1].0@, s[b - 1].0@));
                    }
                }
                assert forall|q: Seq<char>| #[trigger] entries_map(t).contains_key(q) == old(self)@.insert(kk, v).contains_key(q) by {
                    if has_name(t, q) {
                        let j = index_of(t, q);
                        if j < i {
                            assert(s[j].0@ == q);
                        } else if j > i {
                            assert(s[j - 1].0@ == q);
                        }
                    }
                    if has_name(s, q) {
                        let j = index_of(s, q);
                        if j < i {
                            assert(t[j].0@ == q);
                        } else {
                            assert(t[j + 1].0@ == q);
                        }
                    }
                }
                assert forall|q: Seq<char>| #[trigger] entries_map(t).contains_key(q) implies entries_map(t)[q] == old(self)@.insert(kk, v)[q] by {
                    let j = index_of(t, q);
                    lemma_index_unique(t, j);
                    lemma_lex_irreflexive(kk);
                    if j < i {
                        assert(lex_lt(t[j].0@, t[i as int].0@));
                        lemma_index_unique(s, j);
                    } else if j > i {
                        assert(lex_lt(t[i as int].0@, t[j].0@));
                        lemma_index_unique(s, j - 1);
                    }
                }
                assert(entries_map(t) =~= old(self)@.insert(kk, v));
            }
        }
    }
}

} // verus!

verus! {

/// The names of a table are pairwise distinct.
pub open spec fn distinct_names<V>(s: Seq<(Seq<char>, V)>) -> bool {
    forall|i: int, j: int| 0 <= i < j < s.len() ==> (#[trigger] s[i]).0 != (#[trigger] s[j]).0
}

/// A table that keeps the order in which names first came, after `(k, v)`
/// is put in: a name already there keeps its place and takes the new value.
pub open spec fn keyed_insert<V>(s: Seq<(Seq<char>, V)>, k: Seq<char>, v: V) -> Seq<(Seq<char>, V)> {
    if exists|i: int| 0 <= i < s.len() && (#[trigger] s[i]).0 == k {
        s.update(choose|i: int| 0 <= i < s.len() && (#[trigger] s[i]).0 == k, (k, v))
    } else {
        s.push((k, v))
    }
}

/// The entries of a keyed table, names viewed as character sequences.
pub open spec fn name_view<V>(s: Seq<(String, V)>) -> Seq<(Seq<char>, V)> {
    s.map_values(|p: (String, V)| (p.0@, p.1))
}

/// Puts `(k, v)` into a table whose names are distinct, keeping the order
/// in which names first came.
pub fn put_keyed<V>(out: &mut Vec<(String, V)>, k: String, v: V)
    requires
        distinct_names(name_view(old(out)@)),
    ensures
        distinct_names(name_view(final(out)@)),
        name_view(final(out)@) == keyed_insert(name_view(old(out)@), k@, v),
{
    let ghost s = name_view(out@);
    let ghost kk = k@;
    let ghost vv = v;
    let mut i: usize = 0;
    let mut found = false;
    while i < out.len()
        invariant_except_break
            !found,
        invariant
            i <= out@.len(),
            s == name_view(out@),
            kk == k@,
            distinct_names(s),
            forall|j: int| 0 <= j < i ==> (#[trigger] out@[j]).0@ != k@,
        ensures
            s == name_view(out@),
            found ==> i < out@.len() && out@[i as int].0@ == k@,
            !found ==> forall|j: int| 0 <= j < out@.len() ==> (#[trigger] out@[j]).0@ != k@,
        decreases out@.len() - i,
    {
        if out[i].0 == k {
            found = true;
            break;
        }
        i = i + 1;
    }
    if found {
        let ghost pos = i as int;
        assert(s[pos].0 == kk);
        assert(exists|q: int| 0 <= q < s.len() && (#[trigger] s[q]).0 == kk);
        let ghost c = choose|q: int| 0 <= q < s.len() && (#[trigger] s[q]).0 == kk;
        assert(c == pos) by {
            if c < pos {
                assert(s[c].0 != s[pos].0);
            } else if c > pos {
                assert(s[pos].0 != s[c].0);
            }
        }
        assert(keyed_insert(s, kk, vv) == s.update(pos, (kk, vv)));
        out.remove(i);
        out.insert(i, (k, v));
        assert(name_view(out@) =~= s.update(pos, (kk, vv)));
        assert forall|a: int, b: int| 0 <= a < b < name_view(out@).len() implies (#[trigger] name_view(out@)[a]).0
            != (#[trigger] name_view(out@)[b]).0 by {
            assert(s[a].0 != s[b].0);
        }
    } else {
        assert(!exists|q: int| 0 <= q < s.len() && (#[trigger] s[q]).0 == kk) by {
            if exists|q: int| 0 <= q < s.len() && (#[trigger] s[q]).0 == kk {
                let q = choose|q: int| 0 <= q < s.len() && (#[trigger] s[q]).0 == kk;
                assert(out@[q].0@ != k@);
            }
        }
        out.push((k, v));
        assert(name_view(out@) =~= s.push((kk, vv)));
        assert forall|a: int, b: int| 0 <= a < b < name_view(out@).len() implies (#[trigger] name_view(out@)[a]).0
            != (#[trigger] name_view(out@)[b]).0 by {
            if b < s.len() {
                assert(s[a].0 != s[b].0);
            } else {
                assert(out@[a].0@ != k@);
            }
        }
    }
}

} // verus!

verus! {

/// Putting an entry in and then viewing the values is viewing them and then
/// putting the viewed entry in.
pub proof fn lemma_keyed_insert_map<A, B>(s: Seq<(Seq<char>, A)>, k: Seq<char>, v: A, f: spec_fn(A) -> B)
    requires
        distinct_names(s),
    ensures
        keyed_insert(s, k, v).map_values(|p: (Seq<char>, A)| (p.0, f(p.1)))
            == keyed_insert(s.map_values(|p: (Seq<char>, A)| (p.0, f(p.1))), k, f(v)),
        distinct_names(s.map_values(|p: (Seq<char>, A)| (p.0, f(p.1)))),
{
    let t = s.map_values(|p: (Seq<char>, A)| (p.0, f(p.1)));
    assert forall|i: int| 0 <= i < s.len() implies (#[trigger] t[i]).0 == s[i].0 by {}
    assert forall|a: int, b: int| 0 <= a < b < t.len() implies (#[trigger] t[a]).0 != (#[trigger] t[b]).0 by {
        assert(s[a].0 != s[b].0);
    }
    if exists|i: int| 0 <= i < s.len() && (#[trigger] s[i]).0 == k {
        let cs = choose|i: int| 0 <= i < s.len() && (#[trigger] s[i]).0 == k;
        assert(t[cs].0 == k);
        assert(exists|i: int| 0 <= i < t.len() && (#[trigger] t[i]).0 == k);
        let ct = choose|i: int| 0 <= i < t.len() && (#[trigger] t[i]).0 == k;
        assert(ct == cs) by {
            if ct < cs {
                assert(t[ct].0 != t[cs].0);
            } else if ct > cs {
                assert(t[cs].0 != t[ct].0);
            }
        }
        assert(keyed_insert(s, k, v).map_values(|p: (Seq<char>, A)| (p.0, f(p.1))) =~= keyed_insert(t, k, f(v)));
    } else {
        assert(!exists|i: int| 0 <= i < t.len() && (#[trigger] t[i]).0 == k) by {
            if exists|i: int| 0 <= i < t.len() && (#[trigger] t[i]).0 == k {
                let i = choose|i: int| 0 <= i < t.len() && (#[trigger] t[i]).0 == k;
                assert(s[i].0 == k);
            }
        }
        assert(keyed_insert(s, k, v).map_values(|p: (Seq<char>, A)| (p.0, f(p.1))) =~= keyed_insert(t, k, f(v)));
    }
}

/// Viewing the values keeps the names distinct.
pub proof fn lemma_keyed_view_distinct<A, B>(s: Seq<(Seq<char>, A)>, f: spec_fn(A) -> B)
    requires
        distinct_names(s),
    ensures
        distinct_names(s.map_values(|p: (Seq<char>, A)| (p.0, f(p.1)))),
{
    let t = s.map_values(|p: (Seq<char>, A)| (p.0, f(p.1)));
    assert forall|a: int, b: int| 0 <= a < b < t.len() implies (#[trigger] t[a]).0 != (#[trigger] t[b]).0 by {
        assert(s[a].0 != s[b].0);
    }
}

} // verus!
