//! General properties of the semantics, stated and proved once for all
//! programs.

use vstd::prelude::*;

use crate::ast::BlockView;
use crate::ast::ElemView;
use crate::ast::FreeVars;
use crate::ast::fv_block;
use crate::ast::fv_elem;
use crate::ast::fv_elems;
use crate::eval::EvalOut;
use crate::eval::call_frame;
use crate::eval::lemma_resolve_unbound;
use crate::eval::resolve_captured;
use crate::eval::spec_add;
use crate::eval::spec_call;
use crate::eval::spec_capture;
use crate::eval::spec_eval;
use crate::eval::spec_eval_args;
use crate::eval::spec_eval_cmds;
use crate::scope::FrameView;
use crate::scope::bind_var;
use crate::scope::exit_frame;
use crate::scope::lookup;
use crate::scope::scope_var;
use crate::value::EvalError;
use crate::value::ValView;

verus! {

/// Call-frame isolation: evaluating any element leaves the number of
/// activation records unchanged and every record below the innermost one
/// untouched, on success and failure alike.  A call's record is pushed and
/// popped inside the call; only the innermost record of the caller can have
/// gained or changed bindings.
pub proof fn lemma_eval_preserves_outer_frames(e: ElemView, frames: Seq<FrameView>, fuel: nat)
    requires
        frames.len() >= 1,
    ensures
        ({
            let o = spec_eval(e, frames, fuel);
            o.frames.len() == frames.len() && forall|i: int|
                0 <= i < frames.len() - 1 ==> o.frames[i] == frames[i]
        }),
    decreases fuel, 0int,
{
    if fuel == 0 {
    } else {
        let fl = (fuel - 1) as nat;
        match e {
            ElemView::Assign(name, b) => {
                lemma_eval_preserves_outer_frames(*b, frames, fl);
                let inner = spec_eval(*b, frames, fl);
                if inner.res is Ok {
                    let v = inner.res->Ok_0;
                    assert forall|i: int|
                        0 <= i < frames.len() - 1 implies bind_var(
                        inner.frames,
                        name,
                        v,
                    )[i] == frames[i] by {
                        assert(bind_var(inner.frames, name, v)[i] == inner.frames[i]);
                    }
                }
            },
            ElemView::Call(elems) => {
                lemma_call_preserves_outer_frames(elems, frames, fl);
            },
            _ => {},
        }
    }
}

/// Call-frame isolation for call dispatch.
pub proof fn lemma_call_preserves_outer_frames(
    elems: Seq<ElemView>,
    frames: Seq<FrameView>,
    fuel: nat,
)
    requires
        frames.len() >= 1,
    ensures
        ({
            let o = spec_call(elems, frames, fuel);
            o.frames.len() == frames.len() && forall|i: int|
                0 <= i < frames.len() - 1 ==> o.frames[i] == frames[i]
        }),
    decreases fuel, 1int,
{
    if fuel == 0 || elems.len() == 0 {
    } else {
        let fl = (fuel - 1) as nat;
        lemma_eval_preserves_outer_frames(elems.first(), frames, fl);
        let callee = spec_eval(elems.first(), frames, fl);
        match callee.res {
            Err(_) => {},
            Ok(cv) => match cv {
                ValView::Closure(b, cap) => {
                    lemma_args_preserve_outer_frames(elems.drop_first(), callee.frames, fl);
                    let args = spec_eval_args(elems.drop_first(), callee.frames, fl);
                    match args.res {
                        Err(_) => {},
                        Ok(vals) => {
                            if vals.len() == b.params.len() {
                                let entered = args.frames.push(
                                    call_frame(b.params, vals, cap),
                                );
                                lemma_cmds_preserve_outer_frames(b.commands, entered, fl);
                                let body = spec_eval_cmds(b.commands, entered, fl);
                                assert(body.frames.len() == frames.len() + 1);
                                assert forall|i: int|
                                    0 <= i < frames.len() - 1 implies exit_frame(
                                    body.frames,
                                )[i] == frames[i] by {
                                    assert(body.frames[i] == entered[i]);
                                    assert(entered[i] == args.frames[i]);
                                }
                            }
                        },
                    }
                },
                ValView::Str(_) => {
                    lemma_args_preserve_outer_frames(elems.drop_first(), callee.frames, fl);
                },
                _ => {},
            },
        }
    }
}

/// The values a successful capture holds: exactly the block's free
/// variables, in order of occurrence, each paired with the value the scope
/// holds for it at capture time.
proof fn lemma_resolve_values(
    free: Seq<Seq<char>>,
    frames: Seq<FrameView>,
    cap: Seq<(Seq<char>, ValView)>,
)
    requires
        resolve_captured(free, frames) == Ok::<Seq<(Seq<char>, ValView)>, EvalError>(cap),
    ensures
        cap.len() == free.len(),
        forall|i: int|
            0 <= i < free.len() ==> (#[trigger] cap[i]).0 == free[i] && scope_var(
                frames,
                free[i],
            ) == Some(cap[i].1),
    decreases free,
{
    if free.len() > 0 {
        let rest = resolve_captured(free.drop_last(), frames)->Ok_0;
        lemma_resolve_values(free.drop_last(), frames, rest);
    }
}

/// Closure value-capture snapshot: a closure produced by evaluating a block
/// literal carries, for each free variable of the block in order, the value
/// the scope held at capture time — copied, not referenced.  Nothing of the
/// scope stack itself is retained in the closure.
pub proof fn lemma_capture_snapshot(
    b: BlockView,
    frames: Seq<FrameView>,
    cap: Seq<(Seq<char>, ValView)>,
)
    requires
        spec_capture(b, frames) == Ok::<ValView, EvalError>(ValView::Closure(b, cap)),
    ensures
        cap.len() == fv_block(b, Seq::empty()).len(),
        forall|i: int|
            0 <= i < cap.len() ==> (#[trigger] cap[i]).0 == fv_block(b, Seq::empty())[i]
                && scope_var(frames, cap[i].0) == Some(cap[i].1),
{
    lemma_resolve_values(fv_block(b, Seq::empty()), frames, cap);
}

/// Capture is a pure function of the values of the block's free variables:
/// two scope stacks that agree on every free variable of the block yield the
/// same closure.  In particular, reassigning any variable after a capture
/// cannot change what the closure observes.
pub proof fn lemma_capture_depends_on_free_values(
    b: BlockView,
    frames1: Seq<FrameView>,
    frames2: Seq<FrameView>,
)
    requires
        forall|i: int|
            0 <= i < fv_block(b, Seq::empty()).len() ==> scope_var(
                frames1,
                #[trigger] fv_block(b, Seq::empty())[i],
            ) == scope_var(frames2, fv_block(b, Seq::empty())[i]),
    ensures
        spec_capture(b, frames1) == spec_capture(b, frames2),
{
    lemma_resolve_depends_on_values(fv_block(b, Seq::empty()), frames1, frames2);
}

proof fn lemma_resolve_depends_on_values(
    free: Seq<Seq<char>>,
    frames1: Seq<FrameView>,
    frames2: Seq<FrameView>,
)
    requires
        forall|i: int|
            0 <= i < free.len() ==> scope_var(frames1, #[trigger] free[i]) == scope_var(
                frames2,
                free[i],
            ),
    ensures
        resolve_captured(free, frames1) == resolve_captured(free, frames2),
    decreases free,
{
    if free.len() > 0 {
        lemma_resolve_depends_on_values(free.drop_last(), frames1, frames2);
    }
}

/// Looking a name up in a concatenation of two binding lists finds the
/// binding of the later list first.
pub proof fn lemma_lookup_append<V>(
    a: Seq<(Seq<char>, V)>,
    b: Seq<(Seq<char>, V)>,
    n: Seq<char>,
)
    ensures
        lookup(a + b, n) == match lookup(b, n) {
            Some(v) => Some(v),
            None => lookup(a, n),
        },
    decreases b,
{
    if b.len() == 0 {
        assert(a + b =~= a);
    } else {
        assert((a + b).drop_last() =~= a + b.drop_last());
        assert((a + b).last() == b.last());
        lemma_lookup_append(a, b.drop_last(), n);
    }
}

/// The capture/parameter collision behaviour, made explicit: in the record a
/// closure call runs in, the captured bindings are applied after the
/// parameter bindings, so a name that is both captured and a parameter is
/// looked up as its captured value, not as the argument.
pub proof fn lemma_captured_shadows_parameter(
    params: Seq<Seq<char>>,
    args: Seq<ValView>,
    cap: Seq<(Seq<char>, ValView)>,
    n: Seq<char>,
)
    ensures
        lookup(call_frame(params, args, cap).vars, n) == match lookup(cap, n) {
            Some(v) => Some(v),
            None => lookup(
                Seq::new(params.len(), |i: int| (params[i], args[i])),
                n,
            ),
        },
{
    lemma_lookup_append(
        Seq::new(params.len(), |i: int| (params[i], args[i])),
        cap,
        n,
    );
}

/// A lookup in a binding list whose entries all reflect one scope agrees
/// with that scope on every name the list binds.
proof fn lemma_lookup_from_snapshot(
    cap: Seq<(Seq<char>, ValView)>,
    st: Seq<FrameView>,
    n: Seq<char>,
    i: int,
)
    requires
        forall|k: int|
            0 <= k < cap.len() ==> scope_var(st, (#[trigger] cap[k]).0) == Some(cap[k].1),
        0 <= i < cap.len(),
        cap[i].0 == n,
    ensures
        lookup(cap, n) == scope_var(st, n),
    decreases cap,
{
    if cap.last().0 == n {
    } else {
        lemma_lookup_from_snapshot(cap.drop_last(), st, n, i);
    }
}

/// Closure value-capture observation: the activation record of any call
/// through a captured closure binds each free variable of the block to the
/// value it had at capture time — whatever the arguments are and whatever
/// the stack holds when the call is made.  Reassigning the outer variable
/// between capture and call therefore cannot change what the body sees.
pub proof fn lemma_closure_call_observes_snapshot(
    b: BlockView,
    frames_capture: Seq<FrameView>,
    cap: Seq<(Seq<char>, ValView)>,
    args: Seq<ValView>,
    n: Seq<char>,
    i: int,
)
    requires
        spec_capture(b, frames_capture) == Ok::<ValView, EvalError>(ValView::Closure(b, cap)),
        0 <= i < cap.len(),
        cap[i].0 == n,
    ensures
        lookup(call_frame(b.params, args, cap).vars, n) == scope_var(frames_capture, n),
{
    lemma_capture_snapshot(b, frames_capture, cap);
    lemma_lookup_from_snapshot(cap, frames_capture, n, i);
    lemma_captured_shadows_parameter(b.params, args, cap, n);
}

/// Sequential binding visibility, in its general form: analysing a command
/// sequence is a fold, so the analysis of a concatenation is the analysis of
/// the first part followed by the analysis of the second against the known
/// set the first part left behind.  A binding made by an assignment is
/// visible exactly to the commands after it.
pub proof fn lemma_fv_elems_append(
    c1: Seq<ElemView>,
    c2: Seq<ElemView>,
    known: Seq<Seq<char>>,
)
    ensures
        ({
            let a = fv_elems(c1, known);
            let b2 = fv_elems(c2, a.known);
            fv_elems(c1 + c2, known) == FreeVars { free: a.free + b2.free, known: b2.known }
        }),
    decreases c1,
{
    let a = fv_elems(c1, known);
    let b2 = fv_elems(c2, a.known);
    if c1.len() == 0 {
        assert(c1 + c2 =~= c2);
        assert(a.free + b2.free =~= b2.free);
    } else {
        assert((c1 + c2).first() == c1.first());
        assert((c1 + c2).drop_first() =~= c1.drop_first() + c2);
        let first = fv_elem(c1.first(), known);
        lemma_fv_elems_append(c1.drop_first(), c2, first.known);
        let arest = fv_elems(c1.drop_first(), first.known);
        assert(first.free + (arest.free + b2.free) =~= (first.free + arest.free)
            + b2.free);
    }
}

/// Arity enforcement for closures: when the callee is a closure and the
/// arguments evaluate, an argument count different from the parameter count
/// fails the call with an arity error, and the closure body never runs.
pub proof fn lemma_closure_arity(
    elems: Seq<ElemView>,
    frames: Seq<FrameView>,
    fuel: nat,
    b: BlockView,
    cap: Seq<(Seq<char>, ValView)>,
    vals: Seq<ValView>,
)
    requires
        fuel >= 1,
        elems.len() >= 1,
        spec_eval(elems.first(), frames, (fuel - 1) as nat).res == Ok::<ValView, EvalError>(
            ValView::Closure(b, cap),
        ),
        spec_eval_args(
            elems.drop_first(),
            spec_eval(elems.first(), frames, (fuel - 1) as nat).frames,
            (fuel - 1) as nat,
        ).res == Ok::<Seq<ValView>, EvalError>(vals),
        vals.len() != b.params.len(),
    ensures
        spec_call(elems, frames, fuel).res == Err::<ValView, EvalError>(
            EvalError::ArityMismatch,
        ),
{
}

/// Arity and type enforcement for the `Add` built-in: exactly two integer
/// arguments give their wrapped sum; any other count is an arity error and
/// any non-integer argument a type error.
pub proof fn lemma_add_outcomes(vals: Seq<ValView>)
    ensures
        vals.len() != 2 ==> spec_add(vals) == Err::<ValView, EvalError>(
            EvalError::ArityMismatch,
        ),
        (vals.len() == 2 && vals[0] is Int && vals[1] is Int) ==> spec_add(vals) == Ok::<
            ValView,
            EvalError,
        >(ValView::Int((vals[0]->Int_0).wrapping_add(vals[1]->Int_0))),
        vals.len() == 2 && !(vals[0] is Int && vals[1] is Int) ==> spec_add(vals) == Err::<
            ValView,
            EvalError,
        >(EvalError::TypeMismatch),
{
}

/// An assignment forwards a failure of its right-hand side unchanged: the
/// original error kind is preserved, no binding is made, and the stack is
/// exactly what the failed evaluation left behind.
pub proof fn lemma_assign_propagates_error(
    name: Seq<char>,
    b: ElemView,
    frames: Seq<FrameView>,
    fuel: nat,
)
    requires
        fuel >= 1,
        spec_eval(b, frames, (fuel - 1) as nat).res is Err,
    ensures
        spec_eval(ElemView::Assign(name, Box::new(b)), frames, fuel) == (EvalOut {
            res: Err(spec_eval(b, frames, (fuel - 1) as nat).res->Err_0),
            frames: spec_eval(b, frames, (fuel - 1) as nat).frames,
        }),
{
}

/// Unbound variable: evaluating a variable reference with no binding in any
/// active record fails with an unbound-variable error and leaves the stack
/// unchanged.
pub proof fn lemma_unbound_variable(name: Seq<char>, frames: Seq<FrameView>, fuel: nat)
    requires
        fuel >= 1,
        scope_var(frames, name) is None,
    ensures
        spec_eval(ElemView::Variable(name), frames, fuel) == (EvalOut {
            res: Err(EvalError::UnboundVariable),
            frames,
        }),
{
}

/// Unbound free variable at capture time: a block literal whose free
/// variable is bound in no active record fails to capture with the same
/// unbound-variable error, and no partially-populated closure exists.
pub proof fn lemma_capture_unbound(b: BlockView, frames: Seq<FrameView>, i: int)
    requires
        0 <= i < fv_block(b, Seq::empty()).len(),
        scope_var(frames, fv_block(b, Seq::empty())[i]) is None,
    ensures
        spec_capture(b, frames) == Err::<ValView, EvalError>(EvalError::UnboundVariable),
{
    lemma_resolve_unbound(fv_block(b, Seq::empty()), frames, i);
}

/// Call-frame isolation for argument-list evaluation.
pub proof fn lemma_args_preserve_outer_frames(
    elems: Seq<ElemView>,
    frames: Seq<FrameView>,
    fuel: nat,
)
    requires
        frames.len() >= 1,
    ensures
        ({
            let o = spec_eval_args(elems, frames, fuel);
            o.frames.len() == frames.len() && forall|i: int|
                0 <= i < frames.len() - 1 ==> o.frames[i] == frames[i]
        }),
    decreases fuel, elems.len(),
{
    if elems.len() == 0 {
    } else {
        lemma_eval_preserves_outer_frames(elems.first(), frames, fuel);
        let first = spec_eval(elems.first(), frames, fuel);
        if first.res is Ok {
            lemma_args_preserve_outer_frames(elems.drop_first(), first.frames, fuel);
        }
    }
}

/// Call-frame isolation for command-sequence evaluation.
pub proof fn lemma_cmds_preserve_outer_frames(
    cmds: Seq<ElemView>,
    frames: Seq<FrameView>,
    fuel: nat,
)
    requires
        frames.len() >= 1,
    ensures
        ({
            let o = spec_eval_cmds(cmds, frames, fuel);
            o.frames.len() == frames.len() && forall|i: int|
                0 <= i < frames.len() - 1 ==> o.frames[i] == frames[i]
        }),
    decreases fuel, cmds.len(),
{
    if cmds.len() == 0 {
    } else {
        lemma_eval_preserves_outer_frames(cmds.first(), frames, fuel);
        let first = spec_eval(cmds.first(), frames, fuel);
        if first.res is Ok && cmds.len() > 1 {
            lemma_cmds_preserve_outer_frames(cmds.drop_first(), first.frames, fuel);
        }
    }
}

} // verus!

