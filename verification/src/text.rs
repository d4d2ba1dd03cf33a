use vstd::prelude::*;
use vstd::std_specs::iter::IteratorSpec;

verus! {

/// The Unicode lowercase form of a string, as `str::to_lowercase` computes it.
pub uninterp spec fn lowercase(s: Seq<char>) -> Seq<char>;

/// `str::to_lowercase` of the standard library: the result is the lowercase
/// form of the argument, a function of the argument's characters alone.
pub assume_specification[ str::to_lowercase ](s: &str) -> (lower: String)
    ensures
        lower@ == lowercase(s@),
;

/// Two strings are the same up to letter case when their lowercase forms agree.
pub open spec fn same_ignoring_case(a: Seq<char>, b: Seq<char>) -> bool {
    lowercase(a) == lowercase(b)
}

/// Strict lexicographic order on strings, character by character in code
/// point order; a proper prefix comes before the longer string.
pub open spec fn lex_less(a: Seq<char>, b: Seq<char>) -> bool
    decreases a.len(),
{
    if b.len() == 0 {
        false
    } else if a.len() == 0 {
        true
    } else if a[0] != b[0] {
        a[0] < b[0]
    } else {
        lex_less(a.drop_first(), b.drop_first())
    }
}

/// No string comes before itself.
pub proof fn lemma_lex_less_irreflexive(a: Seq<char>)
    ensures
        !lex_less(a, a),
    decreases a.len(),
{
    if a.len() > 0 {
        lemma_lex_less_irreflexive(a.drop_first());
    }
}

/// Of two different strings one comes before the other.
pub proof fn lemma_lex_less_total(a: Seq<char>, b: Seq<char>)
    requires
        a != b,
    ensures
        lex_less(a, b) || lex_less(b, a),
    decreases a.len(),
{
    if a.len() > 0 && b.len() > 0 && a[0] == b[0] {
        if a.drop_first() == b.drop_first() {
            assert(a =~= seq![a[0]] + a.drop_first());
            assert(b =~= seq![b[0]] + b.drop_first());
        }
        lemma_lex_less_total(a.drop_first(), b.drop_first());
    } else if a.len() == 0 && b.len() == 0 {
        assert(a =~= b);
    }
}

/// The order is transitive.
pub proof fn lemma_lex_less_transitive(a: Seq<char>, b: Seq<char>, c: Seq<char>)
    requires
        lex_less(a, b),
        lex_less(b, c),
    ensures
        lex_less(a, c),
    decreases a.len(),
{
    if a.len() > 0 && a[0] == b[0] && b[0] == c[0] {
        lemma_lex_less_transitive(a.drop_first(), b.drop_first(), c.drop_first());
    }
}

/// Whether two strings hold the same characters.
pub fn same_text(a: &str, b: &str) -> (same: bool)
    ensures
        same == (a@ == b@),
{
    broadcast use vstd::string::group_string_axioms;

    let mut xs = a.chars();
    let mut ys = b.chars();
    loop
        invariant
            xs.obeys_prophetic_iter_laws(),
            ys.obeys_prophetic_iter_laws(),
            xs.decrease() is Some,
            (a@ == b@) == (xs.remaining() == ys.remaining()),
        decreases xs.decrease()->0,
    {
        let ghost (rest_a, rest_b) = (xs.remaining(), ys.remaining());
        let x = xs.next();
        let y = ys.next();
        match (x, y) {
            (Some(c), Some(d)) => {
                if c != d {
                    return false;
                }
                assert(rest_a =~= seq![c] + rest_a.drop_first());
                assert(rest_b =~= seq![d] + rest_b.drop_first());
            },
            (None, None) => {
                assert(rest_a =~= rest_b);
                return true;
            },
            _ => {
                return false;
            },
        }
    }
}

/// Whether `a` comes strictly before `b` in lexicographic order.
pub fn precedes(a: &str, b: &str) -> (r: bool)
    ensures
        r == lex_less(a@, b@),
{
    broadcast use vstd::string::group_string_axioms;

    let mut xs = a.chars();
    let mut ys = b.chars();
    loop
        invariant
            xs.obeys_prophetic_iter_laws(),
            ys.obeys_prophetic_iter_laws(),
            xs.decrease() is Some,
            lex_less(a@, b@) == lex_less(xs.remaining(), ys.remaining()),
        decreases xs.decrease()->0,
    {
        let x = xs.next();
        let y = ys.next();
        match (x, y) {
            (Some(c), Some(d)) => {
                if c != d {
                    return c < d;
                }
            },
            (_, None) => {
                return false;
            },
            (None, Some(_)) => {
                return true;
            },
        }
    }
}

} // verus!
