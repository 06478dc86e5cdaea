//! Sparse polynomials with integer exponents and integer coefficients.

use crate::integer::BigInteger;
use vstd::prelude::*;
use vstd::std_specs::cmp::{PartialEqSpec, PartialEqSpecImpl};

verus! {

/// Whether the terms, each an exponent and its coefficient, stand in
/// strictly rising order of their exponents.
pub open spec fn is_rising(terms: Seq<(int, int)>) -> bool {
    forall|i: int, j: int|
        0 <= i < j < terms.len() ==> (#[trigger] terms[i]).0 < (#[trigger] terms[j]).0
}

/// The mapping from exponent to coefficient that a list of terms stands for.
pub open spec fn terms_map(terms: Seq<(int, int)>) -> Map<int, int>
    decreases terms.len(),
{
    if terms.len() == 0 {
        Map::empty()
    } else {
        terms_map(terms.drop_last()).insert(terms.last().0, terms.last().1)
    }
}

/// The polynomial of one term, or of none where the coefficient is zero.
pub open spec fn monomial_map(exponent: int, coefficient: int) -> Map<int, int> {
    if coefficient == 0 {
        Map::empty()
    } else {
        map![exponent => coefficient]
    }
}

/// The beginning of a rising list is a rising list.
proof fn lemma_front_is_rising(terms: Seq<(int, int)>)
    requires
        is_rising(terms),
        terms.len() > 0,
    ensures
        is_rising(terms.drop_last()),
{
    let front = terms.drop_last();
    assert forall|i: int, j: int| 0 <= i < j < front.len() implies (#[trigger] front[i]).0 < (
    #[trigger] front[j]).0 by {
        assert(front[i] == terms[i] && front[j] == terms[j]);
    }
}

/// The mapping holds the exponents of the terms and no others, and gives
/// each exponent the coefficient that stands beside it.
pub proof fn lemma_terms_map(terms: Seq<(int, int)>)
    requires
        is_rising(terms),
    ensures
        forall|e: int|
            terms_map(terms).contains_key(e) <==> exists|i: int|
                0 <= i < terms.len() && (#[trigger] terms[i]).0 == e,
        forall|i: int|
            0 <= i < terms.len() ==> terms_map(terms).contains_key((#[trigger] terms[i]).0)
                && terms_map(terms)[terms[i].0] == terms[i].1,
    decreases terms.len(),
{
    if terms.len() > 0 {
        let front = terms.drop_last();
        lemma_front_is_rising(terms);
        lemma_terms_map(front);
        assert forall|e: int| terms_map(terms).contains_key(e) implies exists|i: int|
            0 <= i < terms.len() && (#[trigger] terms[i]).0 == e by {
            if e == terms.last().0 {
                assert(terms[terms.len() - 1].0 == e);
            } else {
                assert(terms_map(front).contains_key(e));
                let i = choose|i: int| 0 <= i < front.len() && (#[trigger] front[i]).0 == e;
                assert(terms[i].0 == e);
            }
        }
        assert forall|i: int| 0 <= i < terms.len() implies terms_map(terms).contains_key(
            (#[trigger] terms[i]).0,
        ) && terms_map(terms)[terms[i].0] == terms[i].1 by {
            if i < terms.len() - 1 {
                assert(front[i] == terms[i]);
            }
        }
    }
}

/// Without its last term, a rising list stands for the mapping without the
/// last exponent.
proof fn lemma_front_map(terms: Seq<(int, int)>)
    requires
        is_rising(terms),
        terms.len() > 0,
    ensures
        is_rising(terms.drop_last()),
        terms_map(terms.drop_last()) == terms_map(terms).remove(terms.last().0),
{
    let front = terms.drop_last();
    lemma_front_is_rising(terms);
    lemma_terms_map(front);
    if terms_map(front).contains_key(terms.last().0) {
        let i = choose|i: int| 0 <= i < front.len() && (#[trigger] front[i]).0 == terms.last().0;
        assert(front[i] == terms[i]);
    }
    assert(terms_map(front) =~= terms_map(terms).remove(terms.last().0));
}

/// Rising lists of terms that stand for the same mapping are the same list.
pub proof fn lemma_terms_unique(a: Seq<(int, int)>, b: Seq<(int, int)>)
    requires
        is_rising(a),
        is_rising(b),
        terms_map(a) == terms_map(b),
    ensures
        a == b,
    decreases a.len(),
{
    lemma_terms_map(a);
    lemma_terms_map(b);
    if a.len() == 0 || b.len() == 0 {
        // A list with a term stands for a mapping that is not empty.
        if a.len() > 0 {
            assert(terms_map(a).contains_key(a[0].0));
        }
        if b.len() > 0 {
            assert(terms_map(b).contains_key(b[0].0));
        }
        assert(a =~= b);
    } else {
        // The last term of each list has the highest exponent of the
        // mapping, so the two last terms are the same.
        let j = choose|j: int| 0 <= j < b.len() && (#[trigger] b[j]).0 == a.last().0;
        let i = choose|i: int| 0 <= i < a.len() && (#[trigger] a[i]).0 == b.last().0;
        assert(a.last() == b.last());
        lemma_front_map(a);
        lemma_front_map(b);
        lemma_terms_unique(a.drop_last(), b.drop_last());
        assert(a =~= a.drop_last().push(a.last()));
        assert(b =~= b.drop_last().push(b.last()));
    }
}

/// One term of a polynomial: an exponent and the coefficient that goes with
/// it.
#[derive(Debug)]
struct Term {
    exponent: BigInteger,
    coefficient: BigInteger,
}

impl View for Term {
    type V = (int, int);

    closed spec fn view(&self) -> (int, int) {
        (self.exponent@, self.coefficient@)
    }
}

impl PartialEq for Term {
    fn eq(&self, other: &Term) -> (equal: bool) {
        self.exponent == other.exponent && self.coefficient == other.coefficient
    }
}

impl PartialEqSpecImpl for Term {
    open spec fn obeys_eq_spec() -> bool {
        true
    }

    open spec fn eq_spec(&self, other: &Term) -> bool {
        self@ == other@
    }
}

impl Eq for Term {

}

/// The terms as pairs of integers.
spec fn views_of(terms: Seq<Term>) -> Seq<(int, int)> {
    terms.map_values(|term: Term| term@)
}

/// A polynomial, as a finite mapping from exponent to coefficient.
///
/// An exponent that the mapping does not hold has the coefficient zero, and
/// no exponent that it holds has. The terms are kept in rising order of
/// their exponents, so two values are the same polynomial exactly when
/// their terms are the same.
#[derive(Debug)]
pub struct PIPoly {
    terms: Vec<Term>,
}

impl View for PIPoly {
    type V = Map<int, int>;

    closed spec fn view(&self) -> Map<int, int> {
        terms_map(self.term_views())
    }
}

impl PIPoly {
    spec fn term_views(&self) -> Seq<(int, int)> {
        views_of(self.terms@)
    }

    #[verifier::type_invariant]
    spec fn well_formed(self) -> bool {
        &&& is_rising(self.term_views())
        &&& forall|i: int| 0 <= i < self.terms@.len() ==> (#[trigger] self.terms@[i])@.1 != 0
    }

    /// The polynomial of the one term `coefficient * x^exponent`. Where the
    /// coefficient is zero this is the zero polynomial, which has no term.
    pub fn monomial(exponent: BigInteger, coefficient: BigInteger) -> (poly: PIPoly)
        ensures
            poly@ == monomial_map(exponent@, coefficient@),
    {
        let mut terms: Vec<Term> = Vec::new();
        if !coefficient.is_zero() {
            terms.push(Term { exponent, coefficient });
        }
        let poly = PIPoly { terms };
        proof {
            let views = poly.term_views();
            if views.len() > 0 {
                assert(terms_map(views.drop_last()) =~= Map::<int, int>::empty());
            }
        }
        poly
    }

    /// The zero polynomial, which has no term.
    pub fn zero() -> (poly: PIPoly)
        ensures
            poly@ == Map::<int, int>::empty(),
    {
        PIPoly { terms: Vec::new() }
    }

    /// The polynomial with the term `coefficient * x^exponent` added, for a
    /// polynomial whose exponents are all lower.
    pub(crate) fn with_term(self, exponent: BigInteger, coefficient: BigInteger) -> (poly: PIPoly)
        requires
            coefficient@ != 0,
            forall|e: int| self@.contains_key(e) ==> e < exponent@,
        ensures
            poly@ == self@.insert(exponent@, coefficient@),
    {
        let ghost before = self.term_views();
        proof {
            use_type_invariant(&self);
            lemma_terms_map(before);
            assert(self@ == terms_map(before));
            assert(forall|i: int| 0 <= i < before.len() ==> (#[trigger] before[i]).0 < exponent@);
            assert(forall|i: int| 0 <= i < before.len() ==> (#[trigger] before[i]).1 != 0);
        }
        let mut terms = self.terms;
        terms.push(Term { exponent, coefficient });
        proof {
            let after = views_of(terms@);
            assert(after =~= before.push((exponent@, coefficient@)));
            assert(after.drop_last() =~= before);
            assert(is_rising(after));
            assert(forall|i: int| 0 <= i < terms@.len() ==> (#[trigger] terms@[i])@.1 != 0);
        }
        PIPoly { terms }
    }

    /// How many terms the polynomial has: none for the zero polynomial.
    pub fn term_count(&self) -> (count: usize)
        ensures
            count == self@.dom().len(),
            self@.dom().finite(),
            count == 0 <==> self@ == Map::<int, int>::empty(),
    {
        proof {
            use_type_invariant(self);
            lemma_terms_count(self.term_views());
            lemma_terms_map(self.term_views());
        }
        self.terms.len()
    }

    /// The coefficient that stands with `exponent`, if the polynomial has a
    /// term of that exponent.
    pub fn coefficient(&self, exponent: &BigInteger) -> (found: Option<&BigInteger>)
        ensures
            found is Some <==> self@.contains_key(exponent@),
            found matches Some(c) ==> c@ == self@[exponent@] && c@ != 0,
    {
        proof {
            use_type_invariant(self);
            lemma_terms_map(self.term_views());
        }
        let mut i: usize = 0;
        while i < self.terms.len()
            invariant
                i <= self.terms@.len(),
                forall|j: int| 0 <= j < self.terms@.len() ==> (#[trigger] self.terms@[j])@.1 != 0,
                forall|j: int| 0 <= j < i ==> (#[trigger] self.term_views()[j]).0 != exponent@,
                forall|e: int|
                    self@.contains_key(e) <==> exists|k: int|
                        0 <= k < self.term_views().len() && (#[trigger] self.term_views()[k]).0
                            == e,
                forall|k: int|
                    0 <= k < self.term_views().len() ==> self@.contains_key(
                        (#[trigger] self.term_views()[k]).0,
                    ) && self@[self.term_views()[k].0] == self.term_views()[k].1,
            decreases self.terms@.len() - i,
        {
            if self.terms[i].exponent == *exponent {
                assert(self.term_views()[i as int] == self.terms@[i as int]@);
                return Some(&self.terms[i].coefficient);
            }
            i += 1;
        }
        None
    }
}

/// A rising list of terms stands for a mapping of as many exponents.
proof fn lemma_terms_count(terms: Seq<(int, int)>)
    requires
        is_rising(terms),
    ensures
        terms_map(terms).dom().finite(),
        terms_map(terms).dom().len() == terms.len(),
    decreases terms.len(),
{
    if terms.len() > 0 {
        lemma_front_map(terms);
        lemma_terms_count(terms.drop_last());
        assert(terms_map(terms).dom() =~= terms_map(terms.drop_last()).dom().insert(
            terms.last().0,
        ));
    }
}

impl PartialEq for PIPoly {
    fn eq(&self, other: &PIPoly) -> (equal: bool) {
        let equal = self.terms == other.terms;
        proof {
            use_type_invariant(self);
            use_type_invariant(other);
            let a = self.term_views();
            let b = other.term_views();
            if equal {
                assert(a =~= b);
            }
            if self@ == other@ {
                lemma_terms_unique(a, b);
                assert forall|i: int| 0 <= i < self.terms@.len() implies PartialEqSpec::eq_spec(
                    #[trigger] &self.terms@[i],
                    &other.terms@[i],
                ) by {
                    assert(a[i] == self.terms@[i]@);
                }
            }
        }
        equal
    }
}

impl PartialEqSpecImpl for PIPoly {
    open spec fn obeys_eq_spec() -> bool {
        true
    }

    open spec fn eq_spec(&self, other: &PIPoly) -> bool {
        self@ == other@
    }
}

impl Eq for PIPoly {

}

} // verus!
