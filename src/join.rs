use crate::bitset::{and_bits, andnot_bits, not_bits, or_bits, BitSetVec, BITSET_SIZE};
use std::rc::Rc;
use vstd::prelude::*;

verus! {

/// How an operand is folded into the bitset built so far.
#[derive(Clone, Copy, Debug, PartialEq, Eq, Structural)]
pub enum Connective {
    /// Intersection.
    And,
    /// Union.
    Or,
}

/// One operand of a join after the first: its connective, whether it is
/// negated, and its presence or liveness bitset.
pub struct JoinTerm<'a> {
    pub connective: Connective,
    pub negated: bool,
    pub operand: &'a BitSetVec,
}

/// Folds one operand into `acc`: AND intersects, AND with negation removes
/// the operand's bits, OR unites, OR with negation unites with the
/// operand's complement.
pub open spec fn step_bits(acc: Seq<bool>, connective: Connective, negated: bool, operand: Seq<bool>) -> Seq<bool> {
    match connective {
        Connective::And => if negated {
            andnot_bits(acc, operand)
        } else {
            and_bits(acc, operand)
        },
        Connective::Or => if negated {
            or_bits(acc, not_bits(operand))
        } else {
            or_bits(acc, operand)
        },
    }
}

/// The composite bitset of a join: the first operand (complemented when
/// negated) with the other operands folded in from left to right, with no
/// grouping.
pub open spec fn eval_join(
    first: Seq<bool>,
    first_negated: bool,
    terms: Seq<(Connective, bool, Seq<bool>)>,
) -> Seq<bool>
    decreases terms.len(),
{
    if terms.len() == 0 {
        if first_negated {
            not_bits(first)
        } else {
            first
        }
    } else {
        let t = terms.last();
        step_bits(eval_join(first, first_negated, terms.drop_last()), t.0, t.1, t.2)
    }
}

/// A join expression: a flat, left-associative chain of operands.
/// Parenthesised sub-expressions are not supported.
pub struct Join<'a> {
    first: &'a BitSetVec,
    first_negated: bool,
    terms: Vec<JoinTerm<'a>>,
}

impl<'a> Join<'a> {
    /// The bitset of the first operand.
    pub closed spec fn first_view(&self) -> Seq<bool> {
        self.first@
    }

    /// Whether the first operand is negated.
    pub closed spec fn first_negated_view(&self) -> bool {
        self.first_negated
    }

    /// The other operands, in the order they were added.
    pub closed spec fn terms_view(&self) -> Seq<(Connective, bool, Seq<bool>)> {
        self.terms@.map_values(|t: JoinTerm<'a>| (t.connective, t.negated, t.operand@))
    }

    /// The composite bitset that the expression stands for.
    pub open spec fn spec_bitset(&self) -> Seq<bool> {
        eval_join(self.first_view(), self.first_negated_view(), self.terms_view())
    }

    /// Every operand has the size of the store's bitsets.
    pub closed spec fn wf(&self) -> bool {
        &&& self.first@.len() == BITSET_SIZE
        &&& forall|k: int| 0 <= k < self.terms@.len() ==> (#[trigger] self.terms@[k]).operand@.len() == BITSET_SIZE
    }

    /// An expression made of one operand, complemented when `negated`.
    pub fn new(first: &'a BitSetVec, negated: bool) -> (r: Join<'a>)
        requires
            first@.len() == BITSET_SIZE,
        ensures
            r.wf(),
            r.first_view() == first@,
            r.first_negated_view() == negated,
            r.terms_view() == Seq::<(Connective, bool, Seq<bool>)>::empty(),
    {
        let r = Join { first, first_negated: negated, terms: Vec::new() };
        assert(r.terms_view() =~= Seq::<(Connective, bool, Seq<bool>)>::empty());
        r
    }

    /// Appends an operand with its connective.
    pub fn push(&mut self, connective: Connective, negated: bool, operand: &'a BitSetVec)
        requires
            old(self).wf(),
            operand@.len() == BITSET_SIZE,
        ensures
            final(self).wf(),
            final(self).first_view() == old(self).first_view(),
            final(self).first_negated_view() == old(self).first_negated_view(),
            final(self).terms_view() == old(self).terms_view().push((connective, negated, operand@)),
    {
        self.terms.push(JoinTerm { connective, negated, operand });
        assert(self.terms_view() =~= old(self).terms_view().push((connective, negated, operand@)));
    }

    /// Appends an operand that must be present too (AND).
    pub fn and(&mut self, operand: &'a BitSetVec)
        requires
            old(self).wf(),
            operand@.len() == BITSET_SIZE,
        ensures
            final(self).wf(),
            final(self).first_view() == old(self).first_view(),
            final(self).first_negated_view() == old(self).first_negated_view(),
            final(self).terms_view() == old(self).terms_view().push((Connective::And, false, operand@)),
    {
        self.push(Connective::And, false, operand);
    }

    /// Appends an operand that must be absent (AND NOT).
    pub fn and_not(&mut self, operand: &'a BitSetVec)
        requires
            old(self).wf(),
            operand@.len() == BITSET_SIZE,
        ensures
            final(self).wf(),
            final(self).first_view() == old(self).first_view(),
            final(self).first_negated_view() == old(self).first_negated_view(),
            final(self).terms_view() == old(self).terms_view().push((Connective::And, true, operand@)),
    {
        self.push(Connective::And, true, operand);
    }

    /// Appends an operand as an alternative (OR).
    pub fn or(&mut self, operand: &'a BitSetVec)
        requires
            old(self).wf(),
            operand@.len() == BITSET_SIZE,
        ensures
            final(self).wf(),
            final(self).first_view() == old(self).first_view(),
            final(self).first_negated_view() == old(self).first_negated_view(),
            final(self).terms_view() == old(self).terms_view().push((Connective::Or, false, operand@)),
    {
        self.push(Connective::Or, false, operand);
    }

    /// Appends the absence of an operand as an alternative (OR NOT).
    pub fn or_not(&mut self, operand: &'a BitSetVec)
        requires
            old(self).wf(),
            operand@.len() == BITSET_SIZE,
        ensures
            final(self).wf(),
            final(self).first_view() == old(self).first_view(),
            final(self).first_negated_view() == old(self).first_negated_view(),
            final(self).terms_view() == old(self).terms_view().push((Connective::Or, true, operand@)),
    {
        self.push(Connective::Or, true, operand);
    }

    /// Evaluates the expression into one composite bitset, shared by the
    /// iterators of every operand.
    pub fn bitset(&self) -> (r: Rc<BitSetVec>)
        requires
            self.wf(),
        ensures
            r@ == self.spec_bitset(),
            r@.len() == BITSET_SIZE,
    {
        let mut acc = self.first.duplicate();
        if self.first_negated {
            acc.bit_not();
        }
        let ghost tv = self.terms_view();
        let mut k: usize = 0;
        while k < self.terms.len()
            invariant
                self.wf(),
                tv == self.terms_view(),
                k <= self.terms@.len(),
                acc@.len() == BITSET_SIZE,
                acc@ == eval_join(self.first@, self.first_negated, tv.subrange(0, k as int)),
            decreases self.terms@.len() - k,
        {
            let t = &self.terms[k];
            let ghost before = acc@;
            match t.connective {
                Connective::And => {
                    if t.negated {
                        acc.bit_andnot(t.operand);
                    } else {
                        acc.bit_and(t.operand);
                    }
                },
                Connective::Or => {
                    if t.negated {
                        let mut c = t.operand.duplicate();
                        c.bit_not();
                        acc.bit_or(&c);
                    } else {
                        acc.bit_or(t.operand);
                    }
                },
            }
            assert(tv.subrange(0, k + 1).drop_last() =~= tv.subrange(0, k as int));
            assert(tv[k as int] == (t.connective, t.negated, t.operand@));
            k = k + 1;
        }
        assert(tv.subrange(0, k as int) =~= tv);
        Rc::new(acc)
    }
}

} // verus!
