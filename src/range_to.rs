//! The half-open range `..end`.
use vstd::prelude::*;

use crate::value::{
    clone_value, partial_cmp_answer, partial_cmp_with, partial_eq_answer, partial_eq_with, Answer,
    Value, ValueError,
};
use crate::vm::ProtocolFn;

verus! {

/// The range of values below `end`.
pub struct RangeTo {
    pub end: Value,
}

/// An ordering answer narrowed to a total order: a missing order is no
/// answer of a total order, and stands as `None`.
pub open spec fn total_answer(a: Answer<Option<std::cmp::Ordering>>) -> Option<Answer<std::cmp::Ordering>> {
    match a {
        Answer::Done(Some(o)) => Some(Answer::Done(o)),
        Answer::Done(Option::None) => Option::None,
        Answer::Call { offset, receiver, other, index } => Some(Answer::Call { offset, receiver, other, index }),
    }
}

/// Whether the end answer `a` puts a value inside the range; a handler's
/// answer is passed on, to be read the same way.
pub open spec fn contains_answer(a: Answer<Option<std::cmp::Ordering>>) -> Answer<bool> {
    match a {
        Answer::Done(o) => Answer::Done(o == Some(std::cmp::Ordering::Greater)),
        Answer::Call { offset, receiver, other, index } => Answer::Call { offset, receiver, other, index },
    }
}

impl RangeTo {
    /// The range below `end`.
    pub fn new(end: Value) -> (r: Self)
        ensures
            r.end == end,
    {
        RangeTo { end }
    }

    /// Whether the two ranges have equal ends, through the protocol table.
    pub fn partial_eq(&self, other: &Self, protocols: &Vec<ProtocolFn>) -> (r: Result<Answer<bool>, ValueError>)
        ensures
            r == partial_eq_answer(self.end, other.end, protocols@),
    {
        partial_eq_with(&self.end, &other.end, protocols)
    }

    /// Whether the two ranges have equal ends, for kinds with total
    /// equality.
    pub fn eq(&self, other: &Self, protocols: &Vec<ProtocolFn>) -> (r: Result<Answer<bool>, ValueError>)
        ensures
            r == partial_eq_answer(self.end, other.end, protocols@),
    {
        partial_eq_with(&self.end, &other.end, protocols)
    }

    /// How the ends order, through the protocol table.
    pub fn partial_cmp(&self, other: &Self, protocols: &Vec<ProtocolFn>) -> (r: Result<Answer<Option<std::cmp::Ordering>>, ValueError>)
        ensures
            r == partial_cmp_answer(self.end, other.end, protocols@),
    {
        partial_cmp_with(&self.end, &other.end, protocols)
    }

    /// How the ends order, for kinds with a total order; `None` where the
    /// ends have no order.
    pub fn cmp(&self, other: &Self, protocols: &Vec<ProtocolFn>) -> (r: Result<Option<Answer<std::cmp::Ordering>>, ValueError>)
        ensures
            partial_cmp_answer(self.end, other.end, protocols@) matches Ok(a) ==> r == Ok::<Option<Answer<std::cmp::Ordering>>, ValueError>(total_answer(a)),
            partial_cmp_answer(self.end, other.end, protocols@) matches Err(e) ==> r == Err::<Option<Answer<std::cmp::Ordering>>, ValueError>(e),
    {
        match partial_cmp_with(&self.end, &other.end, protocols) {
            Ok(Answer::Done(Some(o))) => Ok(Some(Answer::Done(o))),
            Ok(Answer::Done(None)) => Ok(None),
            Ok(Answer::Call { offset, receiver, other, index }) => Ok(Some(Answer::Call { offset, receiver, other, index })),
            Err(e) => Err(e),
        }
    }

    /// Whether `value` lies in the range: the end orders after it.
    pub fn contains(&self, value: &Value, protocols: &Vec<ProtocolFn>) -> (r: Result<Answer<bool>, ValueError>)
        ensures
            partial_cmp_answer(self.end, *value, protocols@) matches Ok(a) ==> r == Ok::<Answer<bool>, ValueError>(contains_answer(a)),
            partial_cmp_answer(self.end, *value, protocols@) matches Err(e) ==> r == Err::<Answer<bool>, ValueError>(e),
    {
        match partial_cmp_with(&self.end, value, protocols) {
            Ok(Answer::Done(Some(std::cmp::Ordering::Greater))) => Ok(Answer::Done(true)),
            Ok(Answer::Done(_)) => Ok(Answer::Done(false)),
            Ok(Answer::Call { offset, receiver, other, index }) => Ok(Answer::Call { offset, receiver, other, index }),
            Err(e) => Err(e),
        }
    }

    /// A copy of the range.
    pub fn copy(&self) -> (r: Self)
        ensures
            r.end == self.end,
    {
        RangeTo { end: clone_value(&self.end) }
    }
}

/// A range equals its own copy: outright, or by the end's `Eq` handler on
/// the end and itself.
pub proof fn lemma_range_eq_reflexive(r: RangeTo, protocols: Seq<ProtocolFn>)
    ensures
        partial_eq_answer(r.end, r.end, protocols) matches Ok(Answer::Done(b)) ==> b,
        partial_eq_answer(r.end, r.end, protocols) matches Ok(Answer::Call { receiver, other, .. }) ==> other == Value::Any(receiver),
{
    crate::value::lemma_partial_eq_reflexive_with(r.end, protocols);
}

} // verus!
