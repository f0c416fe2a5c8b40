//! Lexicographic comparison of strings by Unicode code point, together with
//! the ordering facts the sorted indices are built on.

use vstd::prelude::*;

verus! {

/// Strict lexicographic order on character sequences: `a` comes before `b`.
pub open spec fn lex_lt(a: Seq<char>, b: Seq<char>) -> bool
    decreases a.len(),
{
    if b.len() == 0 {
        false
    } else if a.len() == 0 {
        true
    } else if (a[0] as int) < (b[0] as int) {
        true
    } else if a[0] == b[0] {
        lex_lt(a.drop_first(), b.drop_first())
    } else {
        false
    }
}

/// Outcome of a three-way string comparison.
#[derive(PartialEq, Eq, Structural, Clone, Copy, Debug)]
pub enum NameOrder {
    Before,
    Same,
    After,
}

/// Three-way comparison of two strings under `lex_lt`.
pub fn str_cmp(a: &str, b: &str) -> (o: NameOrder)
    ensures
        (o is Before) <==> lex_lt(a@, b@),
        (o is Same) <==> a@ == b@,
        (o is After) <==> lex_lt(b@, a@),
    decreases a@.len(),
{
    let la = a.unicode_len();
    let lb = b.unicode_len();
    if la == 0 && lb == 0 {
        proof {
            assert(a@ =~= b@);
        }
        NameOrder::Same
    } else if la == 0 {
        NameOrder::Before
    } else if lb == 0 {
        NameOrder::After
    } else {
        let ca = a.get_char(0);
        let cb = b.get_char(0);
        if (ca as u32) < (cb as u32) {
            NameOrder::Before
        } else if (cb as u32) < (ca as u32) {
            NameOrder::After
        } else {
            assert(ca == cb);
            let ta = a.substring_char(1, la);
            let tb = b.substring_char(1, lb);
            proof {
                assert(ta@ =~= a@.drop_first());
                assert(tb@ =~= b@.drop_first());
            }
            let o = str_cmp(ta, tb);
            proof {
                if o is Same {
                    assert forall|i: int| 0 <= i < a@.len() implies a@[i] == b@[i] by {
                        if i > 0 {
                            assert(a@[i] == a@.drop_first()[i - 1]);
                            assert(b@[i] == b@.drop_first()[i - 1]);
                        }
                    }
                    assert(a@ =~= b@);
                }
            }
            o
        }
    }
}

/// The strict order is irreflexive and asymmetric.
pub proof fn lemma_lex_asym(a: Seq<char>, b: Seq<char>)
    ensures
        lex_lt(a, b) ==> !lex_lt(b, a),
        lex_lt(a, b) ==> a != b,
    decreases a.len(),
{
    if a.len() > 0 && b.len() > 0 && a[0] == b[0] {
        lemma_lex_asym(a.drop_first(), b.drop_first());
        if lex_lt(a, b) {
            assert(a.drop_first() != b.drop_first());
            assert(a != b);
        }
    }
}

/// The strict order is transitive.
pub proof fn lemma_lex_trans(a: Seq<char>, b: Seq<char>, c: Seq<char>)
    requires
        lex_lt(a, b),
        lex_lt(b, c),
    ensures
        lex_lt(a, c),
    decreases a.len(),
{
    if a.len() > 0 && b.len() > 0 && c.len() > 0 {
        if a[0] == b[0] && b[0] == c[0] {
            lemma_lex_trans(a.drop_first(), b.drop_first(), c.drop_first());
        }
    }
}

/// Two sequences that neither precede one another are equal: the order is
/// total.
pub proof fn lemma_lex_total(a: Seq<char>, b: Seq<char>)
    requires
        !lex_lt(a, b),
        !lex_lt(b, a),
    ensures
        a == b,
    decreases a.len(),
{
    if a.len() > 0 && b.len() > 0 {
        if a[0] == b[0] {
            lemma_lex_total(a.drop_first(), b.drop_first());
            assert forall|i: int| 0 <= i < a.len() implies a[i] == b[i] by {
                if i > 0 {
                    assert(a[i] == a.drop_first()[i - 1]);
                    assert(b[i] == b.drop_first()[i - 1]);
                }
            }
            assert(a =~= b);
        } else {
            assert(a[0] as int == b[0] as int);
            assert(a[0] == b[0]);
        }
    } else {
        assert(a =~= b);
    }
}

} // verus!
