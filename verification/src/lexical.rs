//! Lexicographic ordering of strings by Unicode scalar value, with a
//! verified three-way comparator. This is the order in which every
//! key-sorted mapping of the library keeps its keys.

use vstd::prelude::*;
use vstd::string::StrSliceExecFns;

verus! {

/// Strict lexicographic order on character sequences: a proper prefix
/// comes first, otherwise the first differing character decides.
pub open spec fn lex_lt(a: Seq<char>, b: Seq<char>) -> bool
    decreases a.len(),
{
    if b.len() == 0 {
        false
    } else if a.len() == 0 {
        true
    } else if a[0] != b[0] {
        a[0] < b[0]
    } else {
        lex_lt(a.drop_first(), b.drop_first())
    }
}

/// Reflexive closure of `lex_lt`.
pub open spec fn lex_leq(a: Seq<char>, b: Seq<char>) -> bool {
    lex_lt(a, b) || a == b
}

pub proof fn lemma_lex_lt_irreflexive(a: Seq<char>)
    ensures
        !lex_lt(a, a),
    decreases a.len(),
{
    if a.len() > 0 {
        lemma_lex_lt_irreflexive(a.drop_first());
    }
}

pub proof fn lemma_lex_lt_asymmetric(a: Seq<char>, b: Seq<char>)
    requires
        lex_lt(a, b),
    ensures
        !lex_lt(b, a),
    decreases a.len(),
{
    if a.len() > 0 && b.len() > 0 && a[0] == b[0] {
        lemma_lex_lt_asymmetric(a.drop_first(), b.drop_first());
    }
}

pub proof fn lemma_lex_lt_transitive(a: Seq<char>, b: Seq<char>, c: Seq<char>)
    requires
        lex_lt(a, b),
        lex_lt(b, c),
    ensures
        lex_lt(a, c),
    decreases a.len(),
{
    if a.len() > 0 && b.len() > 0 && c.len() > 0 && a[0] == b[0] && b[0] == c[0] {
        lemma_lex_lt_transitive(a.drop_first(), b.drop_first(), c.drop_first());
    }
}

pub proof fn lemma_lex_trichotomy(a: Seq<char>, b: Seq<char>)
    ensures
        lex_lt(a, b) || lex_lt(b, a) || a == b,
    decreases a.len(),
{
    if a.len() == 0 && b.len() == 0 {
        assert(a =~= b);
    }
    if a.len() > 0 && b.len() > 0 && a[0] == b[0] {
        lemma_lex_trichotomy(a.drop_first(), b.drop_first());
        if a.drop_first() == b.drop_first() {
            assert(a.drop_first().len() == b.drop_first().len());
            assert(a.len() == b.len());
            assert forall|i: int| 0 <= i < a.len() implies a[i] == b[i] by {
                if i >= 1 {
                    assert(a[i] == a.drop_first()[i - 1]);
                    assert(b[i] == b.drop_first()[i - 1]);
                }
            }
            assert(a =~= b);
        }
    }
}

/// Result of a three-way string comparison.
#[derive(Clone, Copy, PartialEq, Eq, Structural, Debug)]
pub enum Cmp {
    Less,
    Equal,
    Greater,
}

/// Three-way comparison of two strings in the order `lex_lt`.
pub fn str_compare(a: &str, b: &str) -> (r: Cmp)
    ensures
        (r == Cmp::Less) == lex_lt(a@, b@),
        (r == Cmp::Equal) == (a@ == b@),
        (r == Cmp::Greater) == lex_lt(b@, a@),
    decreases a@.len(),
{
    proof {
        lemma_lex_lt_irreflexive(a@);
        lemma_lex_trichotomy(a@, b@);
        if lex_lt(a@, b@) {
            lemma_lex_lt_asymmetric(a@, b@);
        }
        if lex_lt(b@, a@) {
            lemma_lex_lt_asymmetric(b@, a@);
        }
    }
    let alen = a.unicode_len();
    let blen = b.unicode_len();
    if blen == 0 {
        if alen == 0 {
            Cmp::Equal
        } else {
            Cmp::Greater
        }
    } else if alen == 0 {
        Cmp::Less
    } else {
        let ca = a.get_char(0);
        let cb = b.get_char(0);
        if ca < cb {
            Cmp::Less
        } else if cb < ca {
            Cmp::Greater
        } else {
            let r = str_compare(a.substring_char(1, alen), b.substring_char(1, blen));
            proof {
                if a@.drop_first() == b@.drop_first() && a@[0] == b@[0] {
                    assert(a@.drop_first().len() == b@.drop_first().len());
                    assert(a@.len() == b@.len());
                    assert forall|i: int| 0 <= i < a@.len() implies a@[i] == b@[i] by {
                        if i >= 1 {
                            assert(a@[i] == a@.drop_first()[i - 1]);
                            assert(b@[i] == b@.drop_first()[i - 1]);
                        }
                    }
                    assert(a@ =~= b@);
                }
            }
            r
        }
    }
}

} // verus!
