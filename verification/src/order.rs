//! The canonical order of tree nodes.
//!
//! Every node of every form is ranked through a [`Term`]: a tag with a list of
//! children, or a piece of text. Terms compare by tag first and then child by
//! child, a shorter list before any of its extensions; text compares character
//! by character. An object's fields are kept ascending in this order, which
//! makes them a set with one representation.

use vstd::prelude::*;

verus! {

/// Outcome of a three-way comparison.
#[derive(Clone, Copy, Debug, PartialEq, Eq, Structural)]
pub enum Rank {
    Less,
    Equal,
    Greater,
}

/// What a node is ranked by.
pub enum Term {
    Text(Seq<char>),
    Node(nat, Seq<Term>),
}

/// A value with a place in the canonical order.
pub trait Ranked: Sized {
    spec fn term(self) -> Term;
}

impl Ranked for Seq<char> {
    open spec fn term(self) -> Term {
        Term::Text(self)
    }
}

impl<K: Ranked, V: Ranked> Ranked for (K, V) {
    open spec fn term(self) -> Term {
        Term::Node(0, seq![self.0.term(), self.1.term()])
    }
}

/// The terms of a list of ranked values.
pub open spec fn terms<T: Ranked>(s: Seq<T>) -> Seq<Term> {
    Seq::new(s.len(), |i: int| s[i].term())
}

/// Lexicographic comparison of two texts by the code points of their characters.
pub open spec fn compare_text(a: Seq<char>, b: Seq<char>) -> Rank
    decreases a.len(),
{
    if a.len() == 0 {
        if b.len() == 0 {
            Rank::Equal
        } else {
            Rank::Less
        }
    } else if b.len() == 0 {
        Rank::Greater
    } else if (a[0] as u32) < (b[0] as u32) {
        Rank::Less
    } else if (a[0] as u32) > (b[0] as u32) {
        Rank::Greater
    } else {
        compare_text(a.drop_first(), b.drop_first())
    }
}

/// Comparison of two terms: text before nodes, nodes by tag and then by children.
pub open spec fn compare_term(a: Term, b: Term) -> Rank
    decreases a,
{
    match a {
        Term::Text(x) => match b {
            Term::Text(y) => compare_text(x, y),
            Term::Node(_, _) => Rank::Less,
        },
        Term::Node(m, xs) => match b {
            Term::Text(_) => Rank::Greater,
            Term::Node(n, ys) => if m < n {
                Rank::Less
            } else if m > n {
                Rank::Greater
            } else {
                compare_terms(xs, ys)
            },
        },
    }
}

/// Lexicographic comparison of two lists of terms.
pub open spec fn compare_terms(a: Seq<Term>, b: Seq<Term>) -> Rank
    decreases a,
{
    if a.len() == 0 {
        if b.len() == 0 {
            Rank::Equal
        } else {
            Rank::Less
        }
    } else if b.len() == 0 {
        Rank::Greater
    } else {
        match compare_term(a[0], b[0]) {
            Rank::Equal => compare_terms(a.drop_first(), b.drop_first()),
            r => r,
        }
    }
}

/// The comparison seen from the other side.
pub open spec fn flipped(r: Rank) -> Rank {
    match r {
        Rank::Less => Rank::Greater,
        Rank::Equal => Rank::Equal,
        Rank::Greater => Rank::Less,
    }
}

/// Characters with the same code point are the same character.
pub proof fn lemma_char_code(x: char, y: char)
    requires
        (x as u32) == (y as u32),
    ensures
        x == y,
{
}

/// Two texts rank equal exactly when they are the same text.
pub proof fn lemma_text_equal(a: Seq<char>, b: Seq<char>)
    ensures
        (compare_text(a, b) == Rank::Equal) <==> a == b,
    decreases a.len(),
{
    if a.len() == 0 || b.len() == 0 {
        if a.len() == 0 && b.len() == 0 {
            assert(a =~= b);
        }
    } else {
        lemma_text_equal(a.drop_first(), b.drop_first());
        if compare_text(a, b) == Rank::Equal {
            lemma_char_code(a[0], b[0]);
            assert(a.drop_first() == b.drop_first());
            assert(a =~= seq![a[0]] + a.drop_first());
            assert(b =~= seq![b[0]] + b.drop_first());
            assert(a == b);
        }
        if a == b {
            assert(compare_text(a, b) == Rank::Equal);
        }
    }
}

/// Swapping the arguments flips the outcome.
pub proof fn lemma_text_flip(a: Seq<char>, b: Seq<char>)
    ensures
        compare_text(b, a) == flipped(compare_text(a, b)),
    decreases a.len(),
{
    if a.len() != 0 && b.len() != 0 {
        lemma_text_flip(a.drop_first(), b.drop_first());
    }
}

/// The order of texts is transitive.
pub proof fn lemma_text_transitive(a: Seq<char>, b: Seq<char>, c: Seq<char>)
    requires
        compare_text(a, b) == Rank::Less,
        compare_text(b, c) == Rank::Less,
    ensures
        compare_text(a, c) == Rank::Less,
    decreases a.len(),
{
    if a.len() != 0 && b.len() != 0 && c.len() != 0 {
        if (a[0] as u32) == (b[0] as u32) && (b[0] as u32) == (c[0] as u32) {
            lemma_text_transitive(a.drop_first(), b.drop_first(), c.drop_first());
        }
    }
}

/// Two terms rank equal exactly when they are the same term.
pub proof fn lemma_term_equal(a: Term, b: Term)
    ensures
        (compare_term(a, b) == Rank::Equal) <==> a == b,
    decreases a,
{
    match a {
        Term::Text(x) => match b {
            Term::Text(y) => {
                lemma_text_equal(x, y);
            },
            Term::Node(_, _) => {},
        },
        Term::Node(m, xs) => match b {
            Term::Text(_) => {},
            Term::Node(n, ys) => {
                lemma_terms_equal(xs, ys);
            },
        },
    }
}

/// Two lists of terms rank equal exactly when they are the same list.
pub proof fn lemma_terms_equal(a: Seq<Term>, b: Seq<Term>)
    ensures
        (compare_terms(a, b) == Rank::Equal) <==> a == b,
    decreases a,
{
    if a.len() == 0 || b.len() == 0 {
        if a.len() == 0 && b.len() == 0 {
            assert(a =~= b);
        }
    } else {
        lemma_term_equal(a[0], b[0]);
        lemma_terms_equal(a.drop_first(), b.drop_first());
        if a[0] == b[0] && a.drop_first() == b.drop_first() {
            assert(a =~= seq![a[0]] + a.drop_first());
            assert(b =~= seq![b[0]] + b.drop_first());
        }
    }
}

/// Swapping the arguments flips the outcome.
pub proof fn lemma_term_flip(a: Term, b: Term)
    ensures
        compare_term(b, a) == flipped(compare_term(a, b)),
    decreases a,
{
    match a {
        Term::Text(x) => match b {
            Term::Text(y) => {
                lemma_text_flip(x, y);
            },
            Term::Node(_, _) => {},
        },
        Term::Node(m, xs) => match b {
            Term::Text(_) => {},
            Term::Node(n, ys) => {
                lemma_terms_flip(xs, ys);
            },
        },
    }
}

/// Swapping the arguments flips the outcome.
pub proof fn lemma_terms_flip(a: Seq<Term>, b: Seq<Term>)
    ensures
        compare_terms(b, a) == flipped(compare_terms(a, b)),
    decreases a,
{
    if a.len() != 0 && b.len() != 0 {
        lemma_term_flip(a[0], b[0]);
        lemma_terms_flip(a.drop_first(), b.drop_first());
    }
}

/// The order of terms is transitive.
pub proof fn lemma_term_transitive(a: Term, b: Term, c: Term)
    requires
        compare_term(a, b) == Rank::Less,
        compare_term(b, c) == Rank::Less,
    ensures
        compare_term(a, c) == Rank::Less,
    decreases a,
{
    match a {
        Term::Text(x) => match b {
            Term::Text(y) => match c {
                Term::Text(z) => {
                    lemma_text_transitive(x, y, z);
                },
                Term::Node(_, _) => {},
            },
            Term::Node(_, _) => {},
        },
        Term::Node(m, xs) => match b {
            Term::Text(_) => {},
            Term::Node(n, ys) => match c {
                Term::Text(_) => {},
                Term::Node(p, zs) => {
                    if m == n && n == p {
                        lemma_terms_transitive(xs, ys, zs);
                    }
                },
            },
        },
    }
}

/// The order of lists of terms is transitive.
pub proof fn lemma_terms_transitive(a: Seq<Term>, b: Seq<Term>, c: Seq<Term>)
    requires
        compare_terms(a, b) == Rank::Less,
        compare_terms(b, c) == Rank::Less,
    ensures
        compare_terms(a, c) == Rank::Less,
    decreases a,
{
    if a.len() != 0 && b.len() != 0 && c.len() != 0 {
        lemma_term_equal(a[0], b[0]);
        lemma_term_equal(b[0], c[0]);
        lemma_term_equal(a[0], c[0]);
        lemma_term_flip(a[0], c[0]);
        if compare_term(a[0], b[0]) == Rank::Equal {
            if compare_term(b[0], c[0]) == Rank::Equal {
                lemma_terms_transitive(a.drop_first(), b.drop_first(), c.drop_first());
            }
        } else if compare_term(b[0], c[0]) == Rank::Less {
            lemma_term_transitive(a[0], b[0], c[0]);
        }
    }
}

/// Whether a sequence ascends strictly in the canonical order.
pub open spec fn ascending<T: Ranked>(s: Seq<T>) -> bool {
    forall|i: int, j: int|
        0 <= i < j < s.len() ==> compare_term(#[trigger] s[i].term(), #[trigger] s[j].term())
            == Rank::Less
}

/// An ascending sequence with `x` put at its place; unchanged where an item
/// of equal rank is already there.
pub open spec fn insert<T: Ranked>(s: Seq<T>, x: T) -> Seq<T>
    decreases s.len(),
{
    if s.len() == 0 {
        seq![x]
    } else {
        match compare_term(x.term(), s[0].term()) {
            Rank::Less => seq![x] + s,
            Rank::Equal => s,
            Rank::Greater => seq![s[0]] + insert(s.drop_first(), x),
        }
    }
}

/// The ascending sequence that holds the items of `s`, each rank once.
pub open spec fn collect<T: Ranked>(s: Seq<T>) -> Seq<T>
    decreases s.len(),
{
    if s.len() == 0 {
        Seq::empty()
    } else {
        insert(collect(s.drop_last()), s.last())
    }
}

/// Where a scan from the front has passed `i` smaller items and then met a
/// larger one, or the end, `x` is inserted at `i`.
pub proof fn lemma_insert_before<T: Ranked>(s: Seq<T>, x: T, i: int)
    requires
        0 <= i <= s.len(),
        forall|j: int| 0 <= j < i ==> compare_term(x.term(), (#[trigger] s[j]).term()) == Rank::Greater,
        i < s.len() ==> compare_term(x.term(), s[i].term()) == Rank::Less,
    ensures
        insert(s, x) == s.insert(i, x),
    decreases i,
{
    if i == 0 {
        assert(insert(s, x) =~= s.insert(0, x));
    } else {
        assert(compare_term(x.term(), s[0].term()) == Rank::Greater);
        let t = s.drop_first();
        assert forall|j: int| 0 <= j < i - 1 implies compare_term(x.term(), (#[trigger] t[j]).term())
            == Rank::Greater by {
            assert(t[j] == s[j + 1]);
        }
        lemma_insert_before(t, x, i - 1);
        assert(seq![s[0]] + t.insert(i - 1, x) =~= s.insert(i, x));
    }
}

/// Where a scan from the front has passed `i` smaller items and then met one of
/// equal rank, inserting `x` changes nothing.
pub proof fn lemma_insert_present<T: Ranked>(s: Seq<T>, x: T, i: int)
    requires
        0 <= i < s.len(),
        forall|j: int| 0 <= j < i ==> compare_term(x.term(), (#[trigger] s[j]).term()) == Rank::Greater,
        compare_term(x.term(), s[i].term()) == Rank::Equal,
    ensures
        insert(s, x) == s,
    decreases i,
{
    if i > 0 {
        assert(compare_term(x.term(), s[0].term()) == Rank::Greater);
        let t = s.drop_first();
        assert forall|j: int| 0 <= j < i - 1 implies compare_term(x.term(), (#[trigger] t[j]).term())
            == Rank::Greater by {
            assert(t[j] == s[j + 1]);
        }
        lemma_insert_present(t, x, i - 1);
        assert(seq![s[0]] + t =~= s);
    }
}

/// Every item of `insert(s, x)` is `x` or an item of `s`, and every item of
/// `s` stays.
pub proof fn lemma_insert_items<T: Ranked>(s: Seq<T>, x: T)
    ensures
        forall|e: T| #[trigger] insert(s, x).contains(e) ==> e == x || s.contains(e),
        forall|e: T| #[trigger] s.contains(e) ==> insert(s, x).contains(e),
        exists|e: T| #[trigger] insert(s, x).contains(e) && e.term() == x.term(),
    decreases s.len(),
{
    let r = insert(s, x);
    if s.len() == 0 {
        assert(r[0] == x);
        assert(r.contains(x));
    } else {
        let t = s.drop_first();
        lemma_insert_items(t, x);
        lemma_term_equal(x.term(), s[0].term());
        match compare_term(x.term(), s[0].term()) {
            Rank::Less => {
                assert(r[0] == x);
                assert(r.contains(x));
                assert forall|e: T| #[trigger] s.contains(e) implies r.contains(e) by {
                    let i = choose|i: int| 0 <= i < s.len() && s[i] == e;
                    assert(r[i + 1] == e);
                }
                assert forall|e: T| #[trigger] r.contains(e) implies e == x || s.contains(e) by {
                    let i = choose|i: int| 0 <= i < r.len() && r[i] == e;
                    if i > 0 {
                        assert(s[i - 1] == e);
                    }
                }
            },
            Rank::Equal => {
                assert(s.contains(s[0]));
            },
            Rank::Greater => {
                let u = insert(t, x);
                assert forall|e: T| #[trigger] s.contains(e) implies r.contains(e) by {
                    let i = choose|i: int| 0 <= i < s.len() && s[i] == e;
                    if i == 0 {
                        assert(r[0] == e);
                    } else {
                        assert(t[i - 1] == e);
                        assert(t.contains(e));
                        let k = choose|k: int| 0 <= k < u.len() && u[k] == e;
                        assert(r[k + 1] == e);
                    }
                }
                assert forall|e: T| #[trigger] r.contains(e) implies e == x || s.contains(e) by {
                    let i = choose|i: int| 0 <= i < r.len() && r[i] == e;
                    if i == 0 {
                        assert(s[0] == e);
                    } else {
                        assert(u[i - 1] == e);
                        assert(u.contains(e));
                        if e != x {
                            let k = choose|k: int| 0 <= k < t.len() && t[k] == e;
                            assert(s[k + 1] == e);
                        }
                    }
                }
                let w = choose|e: T| #[trigger] u.contains(e) && e.term() == x.term();
                let k = choose|k: int| 0 <= k < u.len() && u[k] == w;
                assert(r[k + 1] == w);
                assert(r.contains(w));
            },
        }
    }
}

/// Inserting into an ascending sequence leaves it ascending.
pub proof fn lemma_insert_ascending<T: Ranked>(s: Seq<T>, x: T)
    requires
        ascending(s),
    ensures
        ascending(insert(s, x)),
    decreases s.len(),
{
    let r = insert(s, x);
    if s.len() > 0 {
        let t = s.drop_first();
        assert forall|i: int, j: int| 0 <= i < j < t.len() implies compare_term(
            #[trigger] t[i].term(),
            #[trigger] t[j].term(),
        ) == Rank::Less by {
            assert(t[i] == s[i + 1] && t[j] == s[j + 1]);
        }
        match compare_term(x.term(), s[0].term()) {
            Rank::Less => {
                assert forall|i: int, j: int| 0 <= i < j < r.len() implies compare_term(
                    #[trigger] r[i].term(),
                    #[trigger] r[j].term(),
                ) == Rank::Less by {
                    if i == 0 {
                        if j > 1 {
                            assert(r[j] == s[j - 1]);
                            lemma_term_transitive(x.term(), s[0].term(), s[j - 1].term());
                        }
                    } else {
                        assert(r[i] == s[i - 1] && r[j] == s[j - 1]);
                    }
                }
            },
            Rank::Equal => {},
            Rank::Greater => {
                let u = insert(t, x);
                lemma_insert_ascending(t, x);
                lemma_insert_items(t, x);
                lemma_term_flip(x.term(), s[0].term());
                assert forall|i: int, j: int| 0 <= i < j < r.len() implies compare_term(
                    #[trigger] r[i].term(),
                    #[trigger] r[j].term(),
                ) == Rank::Less by {
                    if i == 0 {
                        assert(r[j] == u[j - 1]);
                        assert(u.contains(u[j - 1]));
                        if u[j - 1] != x {
                            let k = choose|k: int| 0 <= k < t.len() && t[k] == u[j - 1];
                            assert(s[k + 1] == u[j - 1]);
                        }
                    } else {
                        assert(r[i] == u[i - 1] && r[j] == u[j - 1]);
                    }
                }
            },
        }
    }
}

/// What `collect` gives is ascending, and its items are items of `s`.
pub proof fn lemma_collect<T: Ranked>(s: Seq<T>)
    ensures
        ascending(collect(s)),
        forall|e: T| #[trigger] collect(s).contains(e) ==> s.contains(e),
    decreases s.len(),
{
    if s.len() > 0 {
        let t = s.drop_last();
        let c = collect(t);
        let r = collect(s);
        lemma_collect(t);
        lemma_insert_ascending(c, s.last());
        lemma_insert_items(c, s.last());
        assert forall|e: T| #[trigger] r.contains(e) implies s.contains(e) by {
            if e == s.last() {
                assert(s[s.len() - 1] == e);
            } else {
                assert(c.contains(e));
                assert(t.contains(e));
                let k = choose|k: int| 0 <= k < t.len() && t[k] == e;
                assert(s[k] == e);
            }
        }
    }
}

/// Every item of `s` has an item of its rank in what `collect` gives.
pub proof fn lemma_collect_covers<T: Ranked>(s: Seq<T>, i: int)
    requires
        0 <= i < s.len(),
    ensures
        exists|d: T| #[trigger] collect(s).contains(d) && d.term() == s[i].term(),
    decreases s.len(),
{
    let t = s.drop_last();
    let c = collect(t);
    let r = collect(s);
    lemma_insert_items(c, s.last());
    if i < s.len() - 1 {
        lemma_collect_covers(t, i);
        assert(t[i] == s[i]);
        let d = choose|d: T| #[trigger] c.contains(d) && d.term() == s[i].term();
        assert(r.contains(d));
    }
}

/// What holds of every item of `s` holds of every item that `collect` gives.
pub proof fn lemma_collect_keeps<T: Ranked>(s: Seq<T>, p: spec_fn(T) -> bool)
    requires
        forall|i: int| 0 <= i < s.len() ==> p(#[trigger] s[i]),
    ensures
        ascending(collect(s)),
        forall|i: int| 0 <= i < collect(s).len() ==> p(#[trigger] collect(s)[i]),
{
    lemma_collect(s);
    let c = collect(s);
    assert forall|i: int| 0 <= i < c.len() implies p(#[trigger] c[i]) by {
        assert(c.contains(c[i]));
        let j = choose|j: int| 0 <= j < s.len() && s[j] == c[i];
        assert(p(s[j]));
    }
}

/// What holds of `x` and of every item of `s` holds of every item of
/// `insert(s, x)`, which ascends as `s` does.
pub proof fn lemma_insert_keeps<T: Ranked>(s: Seq<T>, x: T, p: spec_fn(T) -> bool)
    requires
        ascending(s),
        p(x),
        forall|i: int| 0 <= i < s.len() ==> p(#[trigger] s[i]),
    ensures
        ascending(insert(s, x)),
        forall|i: int| 0 <= i < insert(s, x).len() ==> p(#[trigger] insert(s, x)[i]),
{
    lemma_insert_ascending(s, x);
    lemma_insert_items(s, x);
    let r = insert(s, x);
    assert forall|i: int| 0 <= i < r.len() implies p(#[trigger] r[i]) by {
        assert(r.contains(r[i]));
        if r[i] != x {
            let j = choose|j: int| 0 <= j < s.len() && s[j] == r[i];
            assert(p(s[j]));
        }
    }
}

/// Collecting a sequence that already ascends changes nothing.
pub proof fn lemma_collect_ascending<T: Ranked>(s: Seq<T>)
    requires
        ascending(s),
    ensures
        collect(s) == s,
    decreases s.len(),
{
    if s.len() > 0 {
        let t = s.drop_last();
        assert forall|i: int, j: int| 0 <= i < j < t.len() implies compare_term(
            #[trigger] t[i].term(),
            #[trigger] t[j].term(),
        ) == Rank::Less by {
            assert(t[i] == s[i] && t[j] == s[j]);
        }
        lemma_collect_ascending(t);
        assert forall|j: int| 0 <= j < t.len() implies compare_term(s.last().term(), (#[trigger] t[j]).term())
            == Rank::Greater by {
            assert(t[j] == s[j]);
            lemma_term_flip(s[j].term(), s[s.len() - 1].term());
        }
        lemma_insert_before(t, s.last(), t.len() as int);
        assert(t.insert(t.len() as int, s.last()) =~= s);
    } else {
        assert(collect(s) =~= s);
    }
}

/// A node with one child ranks as its child does among nodes of the same tag.
pub proof fn lemma_rank_single(tag: nat, a: Term, b: Term)
    ensures
        compare_term(Term::Node(tag, seq![a]), Term::Node(tag, seq![b])) == compare_term(a, b),
{
    reveal_with_fuel(compare_terms, 3);
    reveal_with_fuel(compare_term, 3);
    assert(compare_terms(Seq::<Term>::empty(), Seq::<Term>::empty()) == Rank::Equal);
    assert(seq![a].drop_first() =~= Seq::<Term>::empty());
    assert(seq![b].drop_first() =~= Seq::<Term>::empty());
}

/// A node with two children ranks by the first child, then by the second.
pub proof fn lemma_rank_pair(tag: nat, a1: Term, a2: Term, b1: Term, b2: Term)
    ensures
        compare_term(Term::Node(tag, seq![a1, a2]), Term::Node(tag, seq![b1, b2])) == (
        match compare_term(a1, b1) {
            Rank::Equal => compare_term(a2, b2),
            r => r,
        }),
{
    reveal_with_fuel(compare_terms, 4);
    reveal_with_fuel(compare_term, 4);
    assert(compare_terms(Seq::<Term>::empty(), Seq::<Term>::empty()) == Rank::Equal);
    assert(seq![a1, a2].drop_first() =~= seq![a2]);
    assert(seq![b1, b2].drop_first() =~= seq![b2]);
    assert(seq![a2].drop_first() =~= Seq::<Term>::empty());
    assert(seq![b2].drop_first() =~= Seq::<Term>::empty());
}

/// Two lists that agree on their first `i` items rank as what follows them.
pub proof fn lemma_rank_after_prefix(a: Seq<Term>, b: Seq<Term>, i: int)
    requires
        0 <= i <= a.len(),
        i <= b.len(),
        forall|j: int| 0 <= j < i ==> compare_term(#[trigger] a[j], b[j]) == Rank::Equal,
    ensures
        compare_terms(a, b) == compare_terms(a.subrange(i, a.len() as int), b.subrange(i, b.len() as int)),
    decreases i,
{
    if i == 0 {
        assert(a.subrange(0, a.len() as int) =~= a);
        assert(b.subrange(0, b.len() as int) =~= b);
    } else {
        let x = a.drop_first();
        let y = b.drop_first();
        assert(compare_term(a[0], b[0]) == Rank::Equal);
        assert forall|j: int| 0 <= j < i - 1 implies compare_term(#[trigger] x[j], y[j]) == Rank::Equal by {
            assert(compare_term(a[j + 1], b[j + 1]) == Rank::Equal);
        }
        lemma_rank_after_prefix(x, y, i - 1);
        assert(x.subrange(i - 1, x.len() as int) =~= a.subrange(i, a.len() as int));
        assert(y.subrange(i - 1, y.len() as int) =~= b.subrange(i, b.len() as int));
    }
}

/// How two lists rank once a scan has found their first `i` items equal:
/// by the items at `i`, or by which list ends first.
pub open spec fn rank_at(a: Seq<Term>, b: Seq<Term>, i: int) -> Rank {
    if i >= a.len() {
        if i >= b.len() {
            Rank::Equal
        } else {
            Rank::Less
        }
    } else if i >= b.len() {
        Rank::Greater
    } else {
        compare_term(a[i], b[i])
    }
}

/// A scan that has found the first `i` items equal, and a difference at `i` or
/// the end of a list, has decided the comparison.
pub proof fn lemma_rank_decided(a: Seq<Term>, b: Seq<Term>, i: int)
    requires
        0 <= i <= a.len(),
        i <= b.len(),
        forall|j: int| 0 <= j < i ==> compare_term(#[trigger] a[j], b[j]) == Rank::Equal,
        i < a.len() && i < b.len() ==> compare_term(a[i], b[i]) != Rank::Equal,
    ensures
        compare_terms(a, b) == rank_at(a, b, i),
{
    lemma_rank_after_prefix(a, b, i);
    let x = a.subrange(i, a.len() as int);
    let y = b.subrange(i, b.len() as int);
    if i < a.len() && i < b.len() {
        assert(x[0] == a[i] && y[0] == b[i]);
    }
}

/// Whether the keys of `s` ascend strictly: `s` is then a map in its one
/// representation.
pub open spec fn keyed<V>(s: Seq<(Seq<char>, V)>) -> bool {
    forall|i: int, j: int|
        0 <= i < j < s.len() ==> compare_text((#[trigger] s[i]).0, (#[trigger] s[j]).0) == Rank::Less
}

/// The map `s` with `k` bound to `v`, in place of an earlier binding of `k`.
pub open spec fn put<V>(s: Seq<(Seq<char>, V)>, k: Seq<char>, v: V) -> Seq<(Seq<char>, V)>
    decreases s.len(),
{
    if s.len() == 0 {
        seq![(k, v)]
    } else {
        match compare_text(k, s[0].0) {
            Rank::Less => seq![(k, v)] + s,
            Rank::Equal => seq![(k, v)] + s.drop_first(),
            Rank::Greater => seq![s[0]] + put(s.drop_first(), k, v),
        }
    }
}

/// The map that binds each key of `s` to the last value that `s` gives it.
pub open spec fn gather<V>(s: Seq<(Seq<char>, V)>) -> Seq<(Seq<char>, V)>
    decreases s.len(),
{
    if s.len() == 0 {
        Seq::empty()
    } else {
        put(gather(s.drop_last()), s.last().0, s.last().1)
    }
}

/// The value of the first entry at or after `i` whose key is `k`.
pub open spec fn lookup_from<V>(s: Seq<(Seq<char>, V)>, k: Seq<char>, i: int) -> Option<V>
    decreases s.len() - i,
{
    if i < 0 || i >= s.len() {
        None
    } else if s[i].0 == k {
        Some(s[i].1)
    } else {
        lookup_from(s, k, i + 1)
    }
}

/// The value that `s` binds `k` to.
pub open spec fn lookup<V>(s: Seq<(Seq<char>, V)>, k: Seq<char>) -> Option<V> {
    lookup_from(s, k, 0)
}

/// Where a scan from the front has passed `i` smaller keys and then met a
/// larger one, or the end, the binding is inserted at `i`.
pub proof fn lemma_put_before<V>(s: Seq<(Seq<char>, V)>, k: Seq<char>, v: V, i: int)
    requires
        0 <= i <= s.len(),
        forall|j: int| 0 <= j < i ==> compare_text(k, (#[trigger] s[j]).0) == Rank::Greater,
        i < s.len() ==> compare_text(k, s[i].0) == Rank::Less,
    ensures
        put(s, k, v) == s.insert(i, (k, v)),
    decreases i,
{
    if i == 0 {
        assert(put(s, k, v) =~= s.insert(0, (k, v)));
    } else {
        assert(compare_text(k, s[0].0) == Rank::Greater);
        let t = s.drop_first();
        assert forall|j: int| 0 <= j < i - 1 implies compare_text(k, (#[trigger] t[j]).0)
            == Rank::Greater by {
            assert(t[j] == s[j + 1]);
        }
        lemma_put_before(t, k, v, i - 1);
        assert(seq![s[0]] + t.insert(i - 1, (k, v)) =~= s.insert(i, (k, v)));
    }
}

/// Where a scan from the front has passed `i` smaller keys and then met `k`
/// itself, the binding replaces the entry at `i`.
pub proof fn lemma_put_present<V>(s: Seq<(Seq<char>, V)>, k: Seq<char>, v: V, i: int)
    requires
        0 <= i < s.len(),
        forall|j: int| 0 <= j < i ==> compare_text(k, (#[trigger] s[j]).0) == Rank::Greater,
        compare_text(k, s[i].0) == Rank::Equal,
    ensures
        put(s, k, v) == s.update(i, (k, v)),
    decreases i,
{
    if i == 0 {
        assert(put(s, k, v) =~= s.update(0, (k, v)));
    } else {
        assert(compare_text(k, s[0].0) == Rank::Greater);
        let t = s.drop_first();
        assert forall|j: int| 0 <= j < i - 1 implies compare_text(k, (#[trigger] t[j]).0)
            == Rank::Greater by {
            assert(t[j] == s[j + 1]);
        }
        lemma_put_present(t, k, v, i - 1);
        assert(seq![s[0]] + t.update(i - 1, (k, v)) =~= s.update(i, (k, v)));
    }
}

/// Binding a key in a map leaves a map, whose keys are `k` and the keys it had.
pub proof fn lemma_put_keyed<V>(s: Seq<(Seq<char>, V)>, k: Seq<char>, v: V)
    requires
        keyed(s),
    ensures
        keyed(put(s, k, v)),
        forall|i: int| 0 <= i < put(s, k, v).len() ==> #[trigger] put(s, k, v)[i] == (k, v) || s.contains(put(s, k, v)[i]),
    decreases s.len(),
{
    let r = put(s, k, v);
    if s.len() > 0 {
        let t = s.drop_first();
        assert forall|i: int, j: int| 0 <= i < j < t.len() implies compare_text(
            (#[trigger] t[i]).0,
            (#[trigger] t[j]).0,
        ) == Rank::Less by {
            assert(t[i] == s[i + 1] && t[j] == s[j + 1]);
        }
        lemma_text_equal(k, s[0].0);
        match compare_text(k, s[0].0) {
            Rank::Less => {
                assert forall|i: int, j: int| 0 <= i < j < r.len() implies compare_text(
                    (#[trigger] r[i]).0,
                    (#[trigger] r[j]).0,
                ) == Rank::Less by {
                    if i == 0 {
                        if j > 1 {
                            assert(r[j] == s[j - 1]);
                            assert(compare_text(s[0].0, s[j - 1].0) == Rank::Less);
                            lemma_text_transitive(k, s[0].0, s[j - 1].0);
                        }
                    } else {
                        assert(r[i] == s[i - 1] && r[j] == s[j - 1]);
                    }
                }
                assert forall|i: int| 0 <= i < r.len() implies #[trigger] r[i] == (k, v) || s.contains(r[i]) by {
                    if i > 0 {
                        assert(s[i - 1] == r[i]);
                    }
                }
            },
            Rank::Equal => {
                assert forall|i: int, j: int| 0 <= i < j < r.len() implies compare_text(
                    (#[trigger] r[i]).0,
                    (#[trigger] r[j]).0,
                ) == Rank::Less by {
                    assert(r[j] == s[j]);
                    if i > 0 {
                        assert(r[i] == s[i]);
                    } else {
                        assert(compare_text(s[0].0, s[j].0) == Rank::Less);
                    }
                }
                assert forall|i: int| 0 <= i < r.len() implies #[trigger] r[i] == (k, v) || s.contains(r[i]) by {
                    if i > 0 {
                        assert(s[i] == r[i]);
                    }
                }
            },
            Rank::Greater => {
                let u = put(t, k, v);
                lemma_put_keyed(t, k, v);
                lemma_text_flip(k, s[0].0);
                assert forall|i: int, j: int| 0 <= i < j < r.len() implies compare_text(
                    (#[trigger] r[i]).0,
                    (#[trigger] r[j]).0,
                ) == Rank::Less by {
                    if i == 0 {
                        assert(r[j] == u[j - 1]);
                        if u[j - 1] != (k, v) {
                            let m = choose|m: int| 0 <= m < t.len() && t[m] == u[j - 1];
                            assert(s[m + 1] == u[j - 1]);
                            assert(compare_text(s[0].0, s[m + 1].0) == Rank::Less);
                        }
                    } else {
                        assert(r[i] == u[i - 1] && r[j] == u[j - 1]);
                    }
                }
                assert forall|i: int| 0 <= i < r.len() implies #[trigger] r[i] == (k, v) || s.contains(r[i]) by {
                    if i == 0 {
                        assert(s[0] == r[0]);
                    } else {
                        assert(r[i] == u[i - 1]);
                        if u[i - 1] != (k, v) {
                            let m = choose|m: int| 0 <= m < t.len() && t[m] == u[i - 1];
                            assert(s[m + 1] == u[i - 1]);
                        }
                    }
                }
            },
        }
    } else {
        assert(r[0] == (k, v));
    }
}

/// What `gather` gives is a map, and its values are values of `s`.
pub proof fn lemma_gather<V>(s: Seq<(Seq<char>, V)>)
    ensures
        keyed(gather(s)),
        forall|i: int| 0 <= i < gather(s).len() ==> s.contains(#[trigger] gather(s)[i]),
    decreases s.len(),
{
    if s.len() > 0 {
        let t = s.drop_last();
        let g = gather(t);
        let r = gather(s);
        lemma_gather(t);
        lemma_put_keyed(g, s.last().0, s.last().1);
        assert forall|i: int| 0 <= i < r.len() implies s.contains(#[trigger] r[i]) by {
            if r[i] == s.last() {
                assert(s[s.len() - 1] == r[i]);
            } else {
                assert(g.contains(r[i]));
                let m = choose|m: int| 0 <= m < g.len() && g[m] == r[i];
                assert(t.contains(g[m]));
                let n = choose|n: int| 0 <= n < t.len() && t[n] == r[i];
                assert(s[n] == r[i]);
            }
        }
    }
}

// ---- ascending sequences as sets ----

/// Whether different values have different ranks.
pub open spec fn tells_apart<T: Ranked>() -> bool {
    forall|a: T, b: T| #[trigger] a.term() == #[trigger] b.term() ==> a == b
}

/// An ascending sequence holds no item twice.
pub proof fn lemma_ascending_distinct<T: Ranked>(s: Seq<T>)
    requires
        ascending(s),
    ensures
        s.no_duplicates(),
{
    assert forall|i: int, j: int| 0 <= i < s.len() && 0 <= j < s.len() && i != j implies s[i]
        != s[j] by {
        lemma_term_equal(s[i].term(), s[j].term());
        if i < j {
            assert(compare_term(s[i].term(), s[j].term()) == Rank::Less);
        } else {
            assert(compare_term(s[j].term(), s[i].term()) == Rank::Less);
        }
    }
}

/// Inserting into a sequence adds the item to the set of its items.
pub proof fn lemma_insert_set<T: Ranked>(s: Seq<T>, x: T)
    requires
        tells_apart::<T>(),
    ensures
        insert(s, x).to_set() == s.to_set().insert(x),
{
    lemma_insert_items(s, x);
    let r = insert(s, x);
    let w = choose|e: T| #[trigger] r.contains(e) && e.term() == x.term();
    assert(w == x);
    assert forall|e: T| r.to_set().contains(e) <==> s.to_set().insert(x).contains(e) by {
        if r.to_set().contains(e) {
            assert(r.contains(e));
        }
        if s.to_set().insert(x).contains(e) {
            if e != x {
                assert(s.contains(e));
                assert(r.contains(e));
            }
        }
    }
    assert(r.to_set() =~= s.to_set().insert(x));
}

/// What `collect` gives holds exactly the items of `s`.
pub proof fn lemma_collect_set<T: Ranked>(s: Seq<T>)
    requires
        tells_apart::<T>(),
    ensures
        collect(s).to_set() == s.to_set(),
    decreases s.len(),
{
    if s.len() == 0 {
        assert(collect(s).to_set() =~= s.to_set());
    } else {
        let t = s.drop_last();
        lemma_collect_set(t);
        lemma_insert_set(collect(t), s.last());
        assert forall|e: T| t.to_set().insert(s.last()).contains(e) <==> s.to_set().contains(e) by {
            if t.to_set().insert(s.last()).contains(e) {
                if e == s.last() {
                    assert(s[s.len() - 1] == e);
                } else {
                    assert(t.contains(e));
                    let i = choose|i: int| 0 <= i < t.len() && t[i] == e;
                    assert(s[i] == e);
                }
                assert(s.contains(e));
            }
            if s.to_set().contains(e) {
                assert(s.contains(e));
                let i = choose|i: int| 0 <= i < s.len() && s[i] == e;
                if i < s.len() - 1 {
                    assert(t[i] == e);
                    assert(t.contains(e));
                }
            }
        }
        assert(t.to_set().insert(s.last()) =~= s.to_set());
    }
}

/// A set has one ascending sequence: two ascending sequences with the same
/// items are the same sequence.
pub proof fn lemma_ascending_unique<T: Ranked>(a: Seq<T>, b: Seq<T>)
    requires
        ascending(a),
        ascending(b),
        a.to_set() == b.to_set(),
    ensures
        a == b,
    decreases a.len(),
{
    if a.len() == 0 {
        if b.len() > 0 {
            assert(b.contains(b[0]));
            assert(b.to_set().contains(b[0]));
            assert(a.contains(b[0]));
        }
        assert(a =~= b);
    } else {
        assert(a.contains(a[0]));
        assert(a.to_set().contains(a[0]));
        assert(b.contains(a[0]));
        let j = choose|j: int| 0 <= j < b.len() && b[j] == a[0];
        assert(b.contains(b[0]));
        assert(b.to_set().contains(b[0]));
        assert(a.contains(b[0]));
        let i = choose|i: int| 0 <= i < a.len() && a[i] == b[0];
        lemma_term_equal(a[0].term(), a[0].term());
        if j > 0 {
            assert(compare_term(b[0].term(), b[j].term()) == Rank::Less);
            if i > 0 {
                assert(compare_term(a[0].term(), a[i].term()) == Rank::Less);
                lemma_term_transitive(a[0].term(), b[0].term(), a[0].term());
            }
        }
        assert(a[0] == b[0]);
        let x = a.drop_first();
        let y = b.drop_first();
        assert forall|m: int, n: int| 0 <= m < n < x.len() implies compare_term(
            #[trigger] x[m].term(),
            #[trigger] x[n].term(),
        ) == Rank::Less by {
            assert(x[m] == a[m + 1] && x[n] == a[n + 1]);
        }
        assert forall|m: int, n: int| 0 <= m < n < y.len() implies compare_term(
            #[trigger] y[m].term(),
            #[trigger] y[n].term(),
        ) == Rank::Less by {
            assert(y[m] == b[m + 1] && y[n] == b[n + 1]);
        }
        assert forall|e: T| x.to_set().contains(e) <==> y.to_set().contains(e) by {
            if x.to_set().contains(e) {
                assert(x.contains(e));
                let m = choose|m: int| 0 <= m < x.len() && x[m] == e;
                assert(a[m + 1] == e);
                assert(compare_term(a[0].term(), a[m + 1].term()) == Rank::Less);
                lemma_term_equal(a[0].term(), e.term());
                assert(a.contains(e));
                assert(a.to_set().contains(e));
                assert(b.contains(e));
                let n = choose|n: int| 0 <= n < b.len() && b[n] == e;
                assert(n > 0);
                assert(y[n - 1] == e);
                assert(y.contains(e));
            }
            if y.to_set().contains(e) {
                assert(y.contains(e));
                let m = choose|m: int| 0 <= m < y.len() && y[m] == e;
                assert(b[m + 1] == e);
                assert(compare_term(b[0].term(), b[m + 1].term()) == Rank::Less);
                lemma_term_equal(b[0].term(), e.term());
                assert(b.contains(e));
                assert(b.to_set().contains(e));
                assert(a.contains(e));
                let n = choose|n: int| 0 <= n < a.len() && a[n] == e;
                assert(n > 0);
                assert(x[n - 1] == e);
                assert(x.contains(e));
            }
        }
        assert(x.to_set() =~= y.to_set());
        lemma_ascending_unique(x, y);
        assert(a =~= seq![a[0]] + x);
        assert(b =~= seq![b[0]] + y);
    }
}

/// Collecting before a step that maps each item changes nothing in what is
/// collected after it: where `once` maps the items of `s` and `twice` maps
/// the items of `collect(s)`, item by item through `f`, both collect to the
/// same sequence.
pub proof fn lemma_collect_fusion<A: Ranked, B: Ranked>(
    s: Seq<A>,
    f: spec_fn(A) -> B,
    once: Seq<B>,
    twice: Seq<B>,
)
    requires
        tells_apart::<A>(),
        tells_apart::<B>(),
        once.len() == s.len(),
        forall|i: int| 0 <= i < s.len() ==> #[trigger] once[i] == f(s[i]),
        twice.len() == collect(s).len(),
        forall|i: int| 0 <= i < twice.len() ==> #[trigger] twice[i] == f(collect(s)[i]),
    ensures
        collect(once) == collect(twice),
{
    let c = collect(s);
    lemma_collect_set(s);
    assert forall|e: B| once.to_set().contains(e) <==> twice.to_set().contains(e) by {
        if once.to_set().contains(e) {
            assert(once.contains(e));
            let i = choose|i: int| 0 <= i < once.len() && once[i] == e;
            assert(s.contains(s[i]));
            assert(s.to_set().contains(s[i]));
            assert(c.to_set().contains(s[i]));
            assert(c.contains(s[i]));
            let j = choose|j: int| 0 <= j < c.len() && c[j] == s[i];
            assert(twice[j] == e);
            assert(twice.contains(e));
        }
        if twice.to_set().contains(e) {
            assert(twice.contains(e));
            let j = choose|j: int| 0 <= j < twice.len() && twice[j] == e;
            assert(c.contains(c[j]));
            assert(c.to_set().contains(c[j]));
            assert(s.to_set().contains(c[j]));
            assert(s.contains(c[j]));
            let i = choose|i: int| 0 <= i < s.len() && s[i] == c[j];
            assert(once[i] == e);
            assert(once.contains(e));
        }
    }
    assert(once.to_set() =~= twice.to_set());
    lemma_collect_set(once);
    lemma_collect_set(twice);
    lemma_collect(once);
    lemma_collect(twice);
    lemma_ascending_unique(collect(once), collect(twice));
}

} // verus!
