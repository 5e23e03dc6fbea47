//! The tree-walking evaluator and its mathematical semantics.
//!
//! The spec-level interpreter `spec_eval` defines, for every element, fuel
//! and environment stack, both the result and the stack it leaves behind.
//! The executable evaluator is proved to return exactly that result and to
//! leave the stack in exactly that state.  The fuel bounds the nesting depth
//! of evaluation; an evaluation that would nest deeper fails with
//! [`EvalError::RecursionLimit`].

use vstd::prelude::*;

use crate::ast::Block;
use crate::ast::BlockView;
use crate::ast::Element;
use crate::ast::ElemView;
use crate::ast::Internal;
use crate::ast::block_view;
use crate::ast::copy_block;
use crate::ast::elem_view;
use crate::ast::elems_view;
use crate::ast::fv_block;
use crate::ast::lemma_elems_view;
use crate::ast::names_view;
use crate::scope::FrameView;
use crate::scope::Scope;
use crate::scope::bind_var;
use crate::scope::exit_frame;
use crate::scope::scope_cmd;
use crate::scope::scope_var;
use crate::value::Captured;
use crate::value::EvalError;
use crate::value::ValView;
use crate::value::Value;
use crate::value::cap_view;
use crate::value::copy_value;
use crate::value::lemma_cap_view;
use crate::value::res_view;
use crate::value::val_view;
use crate::value::vals_view;

verus! {

broadcast use vstd::string::group_string_axioms;

/// The outcome of evaluating one element: a result and the stack left
/// behind.
pub ghost struct EvalOut {
    pub res: Result<ValView, EvalError>,
    pub frames: Seq<FrameView>,
}

/// The outcome of evaluating an argument list left to right.
pub ghost struct ArgsOut {
    pub res: Result<Seq<ValView>, EvalError>,
    pub frames: Seq<FrameView>,
}

/// The placeholder value a call to an unmatched command name evaluates to.
pub open spec fn external_command_result() -> Seq<char> {
    "Ran an external command"@
}

/// The captured environment for a list of free-variable names: each name
/// paired with its current value, or an unbound-variable error if any name
/// is bound in no active record.
pub open spec fn resolve_captured(
    free: Seq<Seq<char>>,
    frames: Seq<FrameView>,
) -> Result<Seq<(Seq<char>, ValView)>, EvalError>
    decreases free,
{
    if free.len() == 0 {
        Ok(Seq::empty())
    } else {
        match resolve_captured(free.drop_last(), frames) {
            Err(e) => Err(e),
            Ok(rest) => match scope_var(frames, free.last()) {
                None => Err(EvalError::UnboundVariable),
                Some(v) => Ok(rest.push((free.last(), v))),
            },
        }
    }
}

/// The closure value a block literal evaluates to: the block together with a
/// by-value snapshot of its free variables, taken against an empty known
/// set.  No partial closure exists: one unresolvable free variable fails the
/// whole capture.
pub open spec fn spec_capture(b: BlockView, frames: Seq<FrameView>) -> Result<
    ValView,
    EvalError,
> {
    match resolve_captured(fv_block(b, Seq::empty()), frames) {
        Ok(cap) => Ok(ValView::Closure(b, cap)),
        Err(e) => Err(e),
    }
}

/// The activation record a closure call runs in: parameters bound to the
/// arguments in parameter order, then every captured name bound to its
/// captured value.  A captured name equal to a parameter name is added
/// later, so it shadows the parameter's argument value.
pub open spec fn call_frame(
    params: Seq<Seq<char>>,
    args: Seq<ValView>,
    cap: Seq<(Seq<char>, ValView)>,
) -> FrameView
    recommends
        params.len() == args.len(),
{
    FrameView {
        vars: Seq::new(params.len(), |i: int| (params[i], args[i])) + cap,
        cmds: Seq::empty(),
    }
}

/// The semantics of one element.
pub open spec fn spec_eval(e: ElemView, frames: Seq<FrameView>, fuel: nat) -> EvalOut
    decreases fuel, 0int,
{
    if fuel == 0 {
        EvalOut { res: Err(EvalError::RecursionLimit), frames }
    } else {
        let fl = (fuel - 1) as nat;
        match e {
            ElemView::Variable(name) => EvalOut {
                res: match scope_var(frames, name) {
                    Some(v) => Ok(v),
                    None => Err(EvalError::UnboundVariable),
                },
                frames,
            },
            ElemView::Number(n) => EvalOut { res: Ok(ValView::Int(n)), frames },
            ElemView::Bare(s) => EvalOut { res: Ok(ValView::Str(s)), frames },
            ElemView::Assign(name, b) => {
                let inner = spec_eval(*b, frames, fl);
                match inner.res {
                    Ok(v) => EvalOut {
                        res: Ok(ValView::Nothing),
                        frames: bind_var(inner.frames, name, v),
                    },
                    Err(err) => EvalOut { res: Err(err), frames: inner.frames },
                }
            },
            ElemView::Block(b) => EvalOut { res: spec_capture(b, frames), frames },
            ElemView::Call(elems) => spec_call(elems, frames, fl),
        }
    }
}

/// The semantics of a call: the first element yields the callee, then the
/// dispatch is on the callee's runtime kind.
pub open spec fn spec_call(elems: Seq<ElemView>, frames: Seq<FrameView>, fuel: nat) -> EvalOut
    decreases fuel, 1int,
{
    if fuel == 0 {
        EvalOut { res: Err(EvalError::RecursionLimit), frames }
    } else if elems.len() == 0 {
        EvalOut { res: Err(EvalError::NotCallable), frames }
    } else {
        let fl = (fuel - 1) as nat;
        let callee = spec_eval(elems.first(), frames, fl);
        match callee.res {
            Err(e) => EvalOut { res: Err(e), frames: callee.frames },
            Ok(cv) => match cv {
                ValView::Closure(b, cap) => {
                    let args = spec_eval_args(elems.drop_first(), callee.frames, fl);
                    match args.res {
                        Err(e) => EvalOut { res: Err(e), frames: args.frames },
                        Ok(vals) => if vals.len() != b.params.len() {
                            EvalOut { res: Err(EvalError::ArityMismatch), frames: args.frames }
                        } else {
                            let body = spec_eval_cmds(
                                b.commands,
                                args.frames.push(call_frame(b.params, vals, cap)),
                                fl,
                            );
                            EvalOut { res: body.res, frames: exit_frame(body.frames) }
                        },
                    }
                },
                ValView::Str(s) => match scope_cmd(callee.frames, s) {
                    Some(Internal::Add) => {
                        let args = spec_eval_args(elems.drop_first(), callee.frames, fl);
                        match args.res {
                            Err(e) => EvalOut { res: Err(e), frames: args.frames },
                            Ok(vals) => EvalOut {
                                res: spec_add(vals),
                                frames: args.frames,
                            },
                        }
                    },
                    None => {
                        let args = spec_eval_args(elems.drop_first(), callee.frames, fl);
                        match args.res {
                            Err(e) => EvalOut { res: Err(e), frames: args.frames },
                            Ok(_) => EvalOut {
                                res: Ok(ValView::Str(external_command_result())),
                                frames: args.frames,
                            },
                        }
                    },
                },
                _ => EvalOut { res: Err(EvalError::NotCallable), frames: callee.frames },
            },
        }
    }
}

/// The `Add` built-in: exactly two arguments, both integers; the sum wraps
/// on two's-complement overflow.
pub open spec fn spec_add(vals: Seq<ValView>) -> Result<ValView, EvalError> {
    if vals.len() != 2 {
        Err(EvalError::ArityMismatch)
    } else {
        match (vals[0], vals[1]) {
            (ValView::Int(a), ValView::Int(b)) => Ok(ValView::Int(a.wrapping_add(b))),
            _ => Err(EvalError::TypeMismatch),
        }
    }
}

/// The semantics of an argument list: each element evaluated left to right,
/// threading the stack; the first failure stops the list.
pub open spec fn spec_eval_args(
    elems: Seq<ElemView>,
    frames: Seq<FrameView>,
    fuel: nat,
) -> ArgsOut
    decreases fuel, elems.len(),
{
    if elems.len() == 0 {
        ArgsOut { res: Ok(Seq::empty()), frames }
    } else {
        let first = spec_eval(elems.first(), frames, fuel);
        match first.res {
            Err(e) => ArgsOut { res: Err(e), frames: first.frames },
            Ok(v) => {
                let rest = spec_eval_args(elems.drop_first(), first.frames, fuel);
                match rest.res {
                    Err(e) => ArgsOut { res: Err(e), frames: rest.frames },
                    Ok(vs) => ArgsOut { res: Ok(seq![v] + vs), frames: rest.frames },
                }
            },
        }
    }
}

/// The semantics of a command sequence: commands evaluated in order, the
/// value of the last one as the result, the unit value if there are none;
/// the first failure stops the sequence.
pub open spec fn spec_eval_cmds(
    cmds: Seq<ElemView>,
    frames: Seq<FrameView>,
    fuel: nat,
) -> EvalOut
    decreases fuel, cmds.len(),
{
    if cmds.len() == 0 {
        EvalOut { res: Ok(ValView::Nothing), frames }
    } else {
        let first = spec_eval(cmds.first(), frames, fuel);
        match first.res {
            Err(e) => EvalOut { res: Err(e), frames: first.frames },
            Ok(v) => if cmds.len() == 1 {
                EvalOut { res: Ok(v), frames: first.frames }
            } else {
                spec_eval_cmds(cmds.drop_first(), first.frames, fuel)
            },
        }
    }
}

/// An argument list with `pre` already evaluated in front of it.
pub open spec fn args_prepend(pre: Seq<ValView>, a: ArgsOut) -> ArgsOut {
    ArgsOut {
        res: match a.res {
            Ok(vs) => Ok(pre + vs),
            Err(e) => Err(e),
        },
        frames: a.frames,
    }
}

/// Any failure of `resolve_captured` is an unbound-variable failure.
pub proof fn lemma_resolve_err_is_unbound(free: Seq<Seq<char>>, frames: Seq<FrameView>)
    ensures
        resolve_captured(free, frames) is Err ==> resolve_captured(free, frames) == Err::<
            Seq<(Seq<char>, ValView)>,
            EvalError,
        >(EvalError::UnboundVariable),
    decreases free,
{
    if free.len() > 0 {
        lemma_resolve_err_is_unbound(free.drop_last(), frames);
    }
}

/// One unresolvable name fails the whole capture.
pub proof fn lemma_resolve_unbound(free: Seq<Seq<char>>, frames: Seq<FrameView>, i: int)
    requires
        0 <= i < free.len(),
        scope_var(frames, free[i]) is None,
    ensures
        resolve_captured(free, frames) == Err::<Seq<(Seq<char>, ValView)>, EvalError>(
            EvalError::UnboundVariable,
        ),
    decreases free,
{
    lemma_resolve_err_is_unbound(free, frames);
    if i == free.len() - 1 {
    } else {
        lemma_resolve_unbound(free.drop_last(), frames, i);
    }
}

/// Evaluates a block literal to a closure value: the block's free variables
/// are computed against an empty known set and each is looked up in the
/// scope and captured by value.  Fails with an unbound-variable error, and
/// produces no partial closure, if any free variable is unresolvable.
#[verifier::loop_isolation(false)]
pub fn capture_block(b: &Block, scope: &Scope) -> (r: Result<Value, EvalError>)
    ensures
        res_view(r) == spec_capture(block_view(*b), scope@),
{
    let mut known_variables: Vec<String> = Vec::new();
    proof {
        assert(names_view(known_variables@) =~= Seq::<Seq<char>>::empty());
    }
    let free = b.get_free_variables(&mut known_variables);
    let ghost fv = names_view(free@);
    let mut captured: Captured = Vec::new();
    proof {
        assert(fv.take(0) =~= Seq::<Seq<char>>::empty());
        assert(cap_view(captured@) =~= Seq::<(Seq<char>, ValView)>::empty());
        assert(forall|k: int| 0 <= k < free@.len() ==> fv[k] == free@[k]@);
    }
    let mut i: usize = 0;
    while i < free.len()
        invariant
            i <= free@.len(),
            resolve_captured(fv.take(i as int), scope@) == Ok::<
                Seq<(Seq<char>, ValView)>,
                EvalError,
            >(cap_view(captured@)),
        decreases free@.len() - i,
    {
        proof {
            assert(fv.take(i as int + 1).drop_last() =~= fv.take(i as int));
            assert(fv.take(i as int + 1).last() == fv[i as int]);
        }
        match scope.get_variable(free[i].as_str()) {
            Some(v) => {
                let ghost vv = val_view(v);
                let ghost cap_before = captured@;
                captured.push((free[i].clone(), v));
                proof {
                    assert(captured@.drop_last() =~= cap_before);
                    assert(cap_view(captured@) =~= cap_view(cap_before).push(
                        (fv[i as int], vv),
                    ));
                }
            },
            None => {
                proof {
                    lemma_resolve_unbound(fv, scope@, i as int);
                }
                return Err(EvalError::UnboundVariable);
            },
        }
        i += 1;
    }
    proof {
        assert(fv.take(free@.len() as int) =~= fv);
    }
    Ok(Value::Block(copy_block(b), captured))
}

/// Evaluates the argument elements of a call (everything after the callee)
/// left to right against the scope.  The first failure stops the list; the
/// side effects of arguments already evaluated stay.
#[verifier::loop_isolation(false)]
fn eval_arguments(elems: &Vec<Element>, scope: &mut Scope, fuel: u64) -> (r: Result<
    Vec<Value>,
    EvalError,
>)
    requires
        old(scope).wf(),
        elems@.len() >= 1,
    ensures
        final(scope).wf(),
        ({
            let a = spec_eval_args(
                elems_view(elems@).drop_first(),
                old(scope)@,
                fuel as nat,
            );
            final(scope)@ == a.frames && match r {
                Ok(vs) => a.res == Ok::<Seq<ValView>, EvalError>(vals_view(vs@)),
                Err(e) => a.res == Err::<Seq<ValView>, EvalError>(e),
            }
        }),
    decreases fuel as nat, 1int,
{
    proof {
        lemma_elems_view(elems@);
    }
    let ghost sv = elems_view(elems@);
    let ghost whole = spec_eval_args(sv.drop_first(), scope@, fuel as nat);
    let mut args: Vec<Value> = Vec::new();
    proof {
        assert(sv.drop_first() =~= sv.skip(1));
        assert(vals_view(args@) =~= Seq::<ValView>::empty());
        match spec_eval_args(sv.skip(1), scope@, fuel as nat).res {
            Ok(vs) => {
                assert(Seq::<ValView>::empty() + vs =~= vs);
            },
            Err(_) => {},
        }
    }
    let mut i: usize = 1;
    while i < elems.len()
        invariant
            1 <= i <= elems@.len(),
            scope.wf(),
            whole == args_prepend(
                vals_view(args@),
                spec_eval_args(sv.skip(i as int), scope@, fuel as nat),
            ),
        decreases elems@.len() - i,
    {
        proof {
            assert(sv.skip(i as int).first() == sv[i as int]);
            assert(sv.skip(i as int).drop_first() =~= sv.skip(i as int + 1));
        }
        match eval(&elems[i], scope, fuel) {
            Ok(v) => {
                let ghost vv = val_view(v);
                let ghost args_before = args@;
                args.push(v);
                proof {
                    assert(vals_view(args@) =~= vals_view(args_before).push(vv));
                    match spec_eval_args(sv.skip(i as int + 1), scope@, fuel as nat).res {
                        Ok(vs) => {
                            assert(vals_view(args_before) + (seq![vv] + vs) =~= vals_view(
                                args@,
                            ) + vs);
                        },
                        Err(_) => {},
                    }
                }
            },
            Err(e) => {
                return Err(e);
            },
        }
        i += 1;
    }
    proof {
        assert(sv.skip(elems@.len() as int) =~= Seq::<ElemView>::empty());
        assert(vals_view(args@) + Seq::<ValView>::empty() =~= vals_view(args@));
    }
    Ok(args)
}

/// Evaluates a command sequence in order inside the current scope; the
/// result is the value of the last command, or the unit value if the
/// sequence is empty.  The first failure stops the sequence.
#[verifier::loop_isolation(false)]
pub fn eval_block(elems: &Vec<Element>, scope: &mut Scope, fuel: u64) -> (r: Result<
    Value,
    EvalError,
>)
    requires
        old(scope).wf(),
    ensures
        final(scope).wf(),
        res_view(r) == spec_eval_cmds(elems_view(elems@), old(scope)@, fuel as nat).res,
        final(scope)@ == spec_eval_cmds(elems_view(elems@), old(scope)@, fuel as nat).frames,
    decreases fuel as nat, 1int,
{
    proof {
        lemma_elems_view(elems@);
    }
    let ghost sv = elems_view(elems@);
    let ghost whole = spec_eval_cmds(sv, scope@, fuel as nat);
    proof {
        assert(sv.skip(0) =~= sv);
    }
    let mut output = Value::Nothing;
    let mut i: usize = 0;
    while i < elems.len()
        invariant
            i <= elems@.len(),
            scope.wf(),
            i < elems@.len() ==> whole == spec_eval_cmds(
                sv.skip(i as int),
                scope@,
                fuel as nat,
            ),
            i == elems@.len() ==> whole.res == Ok::<ValView, EvalError>(val_view(output))
                && whole.frames == scope@,
        decreases elems@.len() - i,
    {
        proof {
            assert(sv.skip(i as int).first() == sv[i as int]);
            assert(sv.skip(i as int).drop_first() =~= sv.skip(i as int + 1));
        }
        match eval(&elems[i], scope, fuel) {
            Ok(v) => {
                output = v;
            },
            Err(e) => {
                return Err(e);
            },
        }
        i += 1;
    }
    if elems.len() == 0 {
        proof {
            assert(whole.res == Ok::<ValView, EvalError>(ValView::Nothing));
        }
    }
    Ok(output)
}

/// Call dispatch: the first element evaluates to the callee; a closure
/// callee runs its block in a fresh activation record, a string callee is
/// resolved as a command name (a registered built-in, else the external
/// command handoff), and anything else is not callable.  The activation
/// record of a closure call is popped on success and failure alike.
#[verifier::loop_isolation(false)]
pub fn eval_call(elems: &Vec<Element>, scope: &mut Scope, fuel: u64) -> (r: Result<
    Value,
    EvalError,
>)
    requires
        old(scope).wf(),
    ensures
        final(scope).wf(),
        res_view(r) == spec_call(elems_view(elems@), old(scope)@, fuel as nat).res,
        final(scope)@ == spec_call(elems_view(elems@), old(scope)@, fuel as nat).frames,
    decreases fuel as nat, 2int,
{
    proof {
        lemma_elems_view(elems@);
    }
    let ghost sv = elems_view(elems@);
    if fuel == 0 {
        return Err(EvalError::RecursionLimit);
    }
    if elems.len() == 0 {
        return Err(EvalError::NotCallable);
    }
    let fl = fuel - 1;
    proof {
        assert(sv.first() == sv[0]);
    }
    let callee = match eval(&elems[0], scope, fl) {
        Ok(v) => v,
        Err(e) => {
            return Err(e);
        },
    };
    match callee {
        Value::Block(b, captured) => {
            let ghost bv = block_view(b);
            let ghost capv = cap_view(captured@);
            let args = match eval_arguments(elems, scope, fl) {
                Ok(a) => a,
                Err(e) => {
                    return Err(e);
                },
            };
            let ghost argvals = vals_view(args@);
            let ghost frames_args = scope@;
            if args.len() != b.params.len() {
                return Err(EvalError::ArityMismatch);
            }
            scope.enter_record();
            proof {
                assert(Seq::new(0nat, |t: int| (bv.params[t], argvals[t])) =~= Seq::<
                    (Seq<char>, ValView),
                >::empty());
                assert(scope@ =~= frames_args.push(
                    FrameView {
                        vars: Seq::new(0nat, |t: int| (bv.params[t], argvals[t])),
                        cmds: Seq::empty(),
                    },
                ));
            }
            let mut k: usize = 0;
            while k < b.params.len()
                invariant
                    k <= b.params@.len(),
                    scope.wf(),
                    args@.len() == b.params@.len(),
                    vals_view(args@) == argvals,
                    scope@ == frames_args.push(
                        FrameView {
                            vars: Seq::new(
                                k as nat,
                                |t: int| (bv.params[t], argvals[t]),
                            ),
                            cmds: Seq::empty(),
                        },
                    ),
                decreases b.params@.len() - k,
            {
                let bound = copy_value(&args[k]);
                scope.add_variable(b.params[k].as_str(), bound);
                proof {
                    assert(vals_view(args@)[k as int] == val_view(args@[k as int]));
                    assert(Seq::new(k as nat, |t: int| (bv.params[t], argvals[t])).push(
                        (bv.params[k as int], argvals[k as int]),
                    ) =~= Seq::new((k + 1) as nat, |t: int| (bv.params[t], argvals[t])));
                    assert(scope@ =~= frames_args.push(
                        FrameView {
                            vars: Seq::new(
                                (k + 1) as nat,
                                |t: int| (bv.params[t], argvals[t]),
                            ),
                            cmds: Seq::empty(),
                        },
                    ));
                }
                k += 1;
            }
            let ghost zipfull = Seq::new(
                b.params@.len(),
                |t: int| (bv.params[t], argvals[t]),
            );
            proof {
                lemma_cap_view(captured@);
                assert(capv.take(0) =~= Seq::<(Seq<char>, ValView)>::empty());
                assert(zipfull + capv.take(0) =~= zipfull);
            }
            let mut j: usize = 0;
            while j < captured.len()
                invariant
                    j <= captured@.len(),
                    scope.wf(),
                    scope@ == frames_args.push(
                        FrameView {
                            vars: zipfull + capv.take(j as int),
                            cmds: Seq::empty(),
                        },
                    ),
                decreases captured@.len() - j,
            {
                let bound = copy_value(&captured[j].1);
                scope.add_variable(captured[j].0.as_str(), bound);
                proof {
                    assert(capv[j as int] == (captured@[j as int].0@, val_view(
                        captured@[j as int].1,
                    )));
                    assert((zipfull + capv.take(j as int)).push(capv[j as int]) =~= zipfull
                        + capv.take(j as int + 1));
                    assert(scope@ =~= frames_args.push(
                        FrameView {
                            vars: zipfull + capv.take(j as int + 1),
                            cmds: Seq::empty(),
                        },
                    ));
                }
                j += 1;
            }
            proof {
                assert(capv.take(captured@.len() as int) =~= capv);
                assert(call_frame(bv.params, argvals, capv).vars == zipfull + capv);
            }
            let output = eval_block(&b.commands, scope, fl);
            scope.exit_record();
            output
        },
        Value::String(s) => {
            match scope.get_command(s.as_str()) {
                Some(Internal::Add) => {
                    let args = match eval_arguments(elems, scope, fl) {
                        Ok(a) => a,
                        Err(e) => {
                            return Err(e);
                        },
                    };
                    if args.len() != 2 {
                        return Err(EvalError::ArityMismatch);
                    }
                    proof {
                        assert(vals_view(args@)[0] == val_view(args@[0]));
                        assert(vals_view(args@)[1] == val_view(args@[1]));
                    }
                    match (&args[0], &args[1]) {
                        (Value::Int(i1), Value::Int(i2)) => Ok(Value::Int(
                            i1.wrapping_add(*i2),
                        )),
                        _ => Err(EvalError::TypeMismatch),
                    }
                },
                None => {
                    match eval_arguments(elems, scope, fl) {
                        Ok(_) => {},
                        Err(e) => {
                            return Err(e);
                        },
                    }
                    Ok(Value::String("Ran an external command".to_string()))
                },
            }
        },
        Value::Nothing => Err(EvalError::NotCallable),
        Value::Int(_) => Err(EvalError::NotCallable),
    }
}

/// Evaluates one element against the scope: a variable reference looks up
/// its binding, a number and a bare token are themselves, an assignment
/// binds its evaluated right-hand side in the innermost record and yields
/// the unit value, a block literal is captured into a closure, and a call
/// dispatches on its callee.
pub fn eval(element: &Element, scope: &mut Scope, fuel: u64) -> (r: Result<Value, EvalError>)
    requires
        old(scope).wf(),
    ensures
        final(scope).wf(),
        res_view(r) == spec_eval(elem_view(*element), old(scope)@, fuel as nat).res,
        final(scope)@ == spec_eval(elem_view(*element), old(scope)@, fuel as nat).frames,
    decreases fuel as nat, 0int,
{
    if fuel == 0 {
        return Err(EvalError::RecursionLimit);
    }
    match element {
        Element::Variable(name) => match scope.get_variable(name.as_str()) {
            Some(v) => Ok(v),
            None => Err(EvalError::UnboundVariable),
        },
        Element::Number(n) => Ok(Value::Int(*n)),
        Element::Bare(s) => Ok(Value::String(s.clone())),
        Element::Assign(name, elem) => match eval(&**elem, scope, fuel - 1) {
            Ok(v) => {
                scope.add_variable(name.as_str(), v);
                Ok(Value::Nothing)
            },
            Err(e) => Err(e),
        },
        Element::Block(b) => capture_block(b, scope),
        Element::Call(elems) => eval_call(elems, scope, fuel - 1),
    }
}

} // verus!
