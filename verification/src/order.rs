//! Strict total orders on texts and on what is made of texts.
use crate::text::chars_of;
use vstd::prelude::*;

verus! {

/// `before` is a strict total order.
pub open spec fn strict_order<A>(before: spec_fn(A, A) -> bool) -> bool {
    &&& forall|a: A| !#[trigger] before(a, a)
    &&& forall|a: A, b: A, c: A| #[trigger] before(a, b) && #[trigger] before(b, c) ==> before(a, c)
    &&& forall|a: A, b: A| #[trigger] before(a, b) || a == b || before(b, a)
}

/// Lexicographic order: the first difference decides, and a proper prefix comes
/// first.
pub open spec fn lex<A>(a: Seq<A>, b: Seq<A>, before: spec_fn(A, A) -> bool) -> bool
    decreases a.len(),
{
    if b.len() == 0 {
        false
    } else if a.len() == 0 {
        true
    } else {
        before(a[0], b[0]) || (a[0] == b[0] && lex(a.skip(1), b.skip(1), before))
    }
}

proof fn lemma_lex_irreflexive<A>(a: Seq<A>, before: spec_fn(A, A) -> bool)
    requires
        strict_order(before),
    ensures
        !lex(a, a, before),
    decreases a.len(),
{
    if a.len() > 0 {
        lemma_lex_irreflexive(a.skip(1), before);
    }
}

proof fn lemma_lex_transitive<A>(a: Seq<A>, b: Seq<A>, c: Seq<A>, before: spec_fn(A, A) -> bool)
    requires
        strict_order(before),
        lex(a, b, before),
        lex(b, c, before),
    ensures
        lex(a, c, before),
    decreases a.len(),
{
    if a.len() > 0 {
        if a[0] == b[0] && b[0] == c[0] {
            assert(!before(a[0], a[0]));
            lemma_lex_transitive(a.skip(1), b.skip(1), c.skip(1), before);
        } else if before(a[0], b[0]) && before(b[0], c[0]) {
            assert(before(a[0], c[0]));
        }
    }
}

proof fn lemma_lex_connected<A>(a: Seq<A>, b: Seq<A>, before: spec_fn(A, A) -> bool)
    requires
        strict_order(before),
    ensures
        lex(a, b, before) || a == b || lex(b, a, before),
    decreases a.len(),
{
    if a.len() == 0 || b.len() == 0 {
        if a.len() == 0 && b.len() == 0 {
            assert(a =~= b);
        }
    } else {
        assert(before(a[0], b[0]) || a[0] == b[0] || before(b[0], a[0]));
        if a[0] == b[0] {
            lemma_lex_connected(a.skip(1), b.skip(1), before);
            if a.skip(1) == b.skip(1) {
                assert(a =~= seq![a[0]] + a.skip(1));
                assert(b =~= seq![b[0]] + b.skip(1));
            }
        }
    }
}

/// Lexicographic order is a strict total order where the order on the elements
/// is one.
pub proof fn lemma_lex_is_strict<A>(before: spec_fn(A, A) -> bool)
    requires
        strict_order(before),
    ensures
        strict_order(|a: Seq<A>, b: Seq<A>| lex(a, b, before)),
{
    let order = |a: Seq<A>, b: Seq<A>| lex(a, b, before);
    assert forall|a: Seq<A>| !#[trigger] order(a, a) by {
        lemma_lex_irreflexive(a, before);
    }
    assert forall|a: Seq<A>, b: Seq<A>, c: Seq<A>| #[trigger]
        order(a, b) && #[trigger] order(b, c) implies order(a, c) by {
        lemma_lex_transitive(a, b, c, before);
    }
    assert forall|a: Seq<A>, b: Seq<A>| #[trigger] order(a, b) || a == b || order(b, a) by {
        lemma_lex_connected(a, b, before);
    }
}

/// The order of texts: by the code points of their characters.
pub open spec fn text_before(a: Seq<char>, b: Seq<char>) -> bool {
    lex(a, b, |x: char, y: char| x < y)
}

/// The order of lists of texts.
pub open spec fn texts_before(a: Seq<Seq<char>>, b: Seq<Seq<char>>) -> bool {
    lex(a, b, |x: Seq<char>, y: Seq<char>| text_before(x, y))
}

/// The order of pairs of texts: the first text decides, then the second.
pub open spec fn pair_before(a: (Seq<char>, Seq<char>), b: (Seq<char>, Seq<char>)) -> bool {
    text_before(a.0, b.0) || (a.0 == b.0 && text_before(a.1, b.1))
}

pub proof fn lemma_text_before_is_strict()
    ensures
        strict_order(|a: Seq<char>, b: Seq<char>| text_before(a, b)),
{
    let chars = |x: char, y: char| x < y;
    assert(strict_order(chars));
    lemma_lex_is_strict(chars);
    assert((|a: Seq<char>, b: Seq<char>| text_before(a, b)) =~= (|a: Seq<char>, b: Seq<char>|
        lex(a, b, chars)));
}

pub proof fn lemma_texts_before_is_strict()
    ensures
        strict_order(|a: Seq<Seq<char>>, b: Seq<Seq<char>>| texts_before(a, b)),
{
    let texts = |x: Seq<char>, y: Seq<char>| text_before(x, y);
    lemma_text_before_is_strict();
    lemma_lex_is_strict(texts);
    assert((|a: Seq<Seq<char>>, b: Seq<Seq<char>>| texts_before(a, b)) =~= (|
        a: Seq<Seq<char>>,
        b: Seq<Seq<char>>,
    |
        lex(a, b, texts)));
}

/// Whether text `a` comes before text `b`.
pub fn is_before(a: &str, b: &str) -> (r: bool)
    ensures
        r == text_before(a@, b@),
{
    let x = chars_of(a);
    let y = chars_of(b);
    let mut i: usize = 0;
    assert(x@.skip(0) =~= x@ && y@.skip(0) =~= y@);
    while i < x.len() && i < y.len()
        invariant
            x@ == a@,
            y@ == b@,
            i <= x.len(),
            i <= y.len(),
            text_before(x@, y@) == text_before(x@.skip(i as int), y@.skip(i as int)),
        decreases x.len() - i,
    {
        let ghost p = x@.skip(i as int);
        let ghost q = y@.skip(i as int);
        if x[i] != y[i] {
            return x[i] < y[i];
        }
        assert(p.skip(1) =~= x@.skip(i + 1));
        assert(q.skip(1) =~= y@.skip(i + 1));
        i = i + 1;
    }
    i < y.len()
}

/// What a sorted collection can hold: values whose models are ordered by
/// `before`, a strict total order.
pub trait Ordered: DeepView {
    spec fn before(a: Self::V, b: Self::V) -> bool;

    proof fn irreflexive(a: Self::V)
        ensures
            !Self::before(a, a),
    ;

    proof fn transitive(a: Self::V, b: Self::V, c: Self::V)
        requires
            Self::before(a, b),
            Self::before(b, c),
        ensures
            Self::before(a, c),
    ;

    proof fn connected(a: Self::V, b: Self::V)
        ensures
            Self::before(a, b) || a == b || Self::before(b, a),
    ;

    fn precedes(&self, other: &Self) -> (r: bool)
        ensures
            r == Self::before(self.deep_view(), other.deep_view()),
    ;
}

impl Ordered for String {
    open spec fn before(a: Seq<char>, b: Seq<char>) -> bool {
        text_before(a, b)
    }

    proof fn irreflexive(a: Seq<char>) {
        let order = |x: Seq<char>, y: Seq<char>| text_before(x, y);
        lemma_text_before_is_strict();
        assert(!order(a, a));
    }

    proof fn transitive(a: Seq<char>, b: Seq<char>, c: Seq<char>) {
        let order = |x: Seq<char>, y: Seq<char>| text_before(x, y);
        lemma_text_before_is_strict();
        assert(order(a, b) && order(b, c));
    }

    proof fn connected(a: Seq<char>, b: Seq<char>) {
        let order = |x: Seq<char>, y: Seq<char>| text_before(x, y);
        lemma_text_before_is_strict();
        assert(order(a, b) || a == b || order(b, a));
    }

    fn precedes(&self, other: &Self) -> (r: bool) {
        is_before(self.as_str(), other.as_str())
    }
}

impl Ordered for (String, String) {
    open spec fn before(a: (Seq<char>, Seq<char>), b: (Seq<char>, Seq<char>)) -> bool {
        pair_before(a, b)
    }

    proof fn irreflexive(a: (Seq<char>, Seq<char>)) {
        String::irreflexive(a.0);
        String::irreflexive(a.1);
    }

    proof fn transitive(
        a: (Seq<char>, Seq<char>),
        b: (Seq<char>, Seq<char>),
        c: (Seq<char>, Seq<char>),
    ) {
        if text_before(a.0, b.0) && text_before(b.0, c.0) {
            String::transitive(a.0, b.0, c.0);
        } else if a.0 == b.0 && b.0 == c.0 {
            String::irreflexive(a.0);
            String::transitive(a.1, b.1, c.1);
        }
    }

    proof fn connected(a: (Seq<char>, Seq<char>), b: (Seq<char>, Seq<char>)) {
        String::connected(a.0, b.0);
        String::connected(a.1, b.1);
    }

    fn precedes(&self, other: &Self) -> (r: bool) {
        proof {
            String::connected(self.0@, other.0@);
            if text_before(other.0@, self.0@) {
                String::irreflexive(self.0@);
                if text_before(self.0@, other.0@) {
                    String::transitive(self.0@, other.0@, self.0@);
                }
            }
        }
        if is_before(self.0.as_str(), other.0.as_str()) {
            true
        } else if is_before(other.0.as_str(), self.0.as_str()) {
            false
        } else {
            is_before(self.1.as_str(), other.1.as_str())
        }
    }
}

} // verus!
