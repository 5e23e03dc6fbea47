//! The runtime value model, including the closure value.

use vstd::prelude::*;

use crate::ast::Block;
use crate::ast::BlockView;
use crate::ast::block_view;

verus! {

/// A closure's captured environment: each free-variable name of the block
/// paired with the value it held when the block literal was evaluated.  A
/// later entry for the same name takes precedence on lookup.
pub type Captured = Vec<(String, Value)>;

/// A runtime result value.
#[derive(Debug, PartialEq)]
pub enum Value {
    Nothing,
    Int(i64),
    String(String),
    Block(Block, Captured),
}

/// The ways an evaluation can fail.
#[derive(Debug, Clone, Copy, PartialEq, Eq, Structural)]
pub enum EvalError {
    /// A variable, or a closure's free variable at capture time, is bound in
    /// no active record.
    UnboundVariable,
    /// An argument count did not match a closure's parameter count or a
    /// built-in's fixed arity.
    ArityMismatch,
    /// A built-in received an argument of the wrong runtime kind.
    TypeMismatch,
    /// A call's first element evaluated to a value that cannot be invoked.
    NotCallable,
    /// The evaluation nested calls deeper than the given fuel allows.
    RecursionLimit,
}

/// The mathematical abstraction of a [`Value`].
pub ghost enum ValView {
    Nothing,
    Int(i64),
    Str(Seq<char>),
    Closure(BlockView, Seq<(Seq<char>, ValView)>),
}

/// The view of a captured environment.
pub open spec fn cap_view(s: Seq<(String, Value)>) -> Seq<(Seq<char>, ValView)>
    decreases s,
{
    if s.len() == 0 {
        Seq::empty()
    } else {
        cap_view(s.drop_last()).push((s.last().0@, val_view(s.last().1)))
    }
}

pub open spec fn val_view(v: Value) -> ValView
    decreases v,
{
    match v {
        Value::Nothing => ValView::Nothing,
        Value::Int(i) => ValView::Int(i),
        Value::String(s) => ValView::Str(s@),
        Value::Block(b, cap) => ValView::Closure(block_view(b), cap_view(cap@)),
    }
}

/// The view of a vector of values, pointwise.
pub open spec fn vals_view(s: Seq<Value>) -> Seq<ValView> {
    Seq::new(s.len(), |i: int| val_view(s[i]))
}

/// The view of an evaluation result.
pub open spec fn res_view(r: Result<Value, EvalError>) -> Result<ValView, EvalError> {
    match r {
        Ok(v) => Ok(val_view(v)),
        Err(e) => Err(e),
    }
}

/// A copy of a value, with the same view as the original.
pub fn copy_value(v: &Value) -> (r: Value)
    ensures
        val_view(r) == val_view(*v),
    decreases *v,
{
    match v {
        Value::Nothing => Value::Nothing,
        Value::Int(i) => Value::Int(*i),
        Value::String(s) => Value::String(s.clone()),
        Value::Block(b, cap) => Value::Block(crate::ast::copy_block(b), copy_captured(cap)),
    }
}

/// A copy of a captured environment, with the same view as the original.
pub fn copy_captured(cap: &Captured) -> (r: Captured)
    ensures
        cap_view(r@) == cap_view(cap@),
    decreases *cap,
{
    let mut r: Captured = Vec::new();
    let mut i: usize = 0;
    while i < cap.len()
        invariant
            i <= cap.len(),
            r@.len() == i,
            forall|k: int|
                0 <= k < i ==> (#[trigger] r@[k]).0@ == cap@[k].0@ && val_view(r@[k].1)
                    == val_view(cap@[k].1),
        decreases cap.len() - i,
    {
        let pair = &cap[i];
        r.push((pair.0.clone(), copy_value(&pair.1)));
        i += 1;
    }
    proof {
        lemma_cap_view(r@);
        lemma_cap_view(cap@);
        assert(cap_view(r@) =~= cap_view(cap@));
    }
    r
}

/// `cap_view` maps the sequence pointwise.
pub proof fn lemma_cap_view(s: Seq<(String, Value)>)
    ensures
        cap_view(s).len() == s.len(),
        forall|i: int|
            0 <= i < s.len() ==> cap_view(s)[i] == (s[i].0@, val_view(s[i].1)),
    decreases s,
{
    if s.len() > 0 {
        lemma_cap_view(s.drop_last());
    }
}

} // verus!
