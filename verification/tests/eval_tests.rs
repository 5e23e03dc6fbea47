use blocklang::ast::Block;
use blocklang::ast::Element;
use blocklang::ast::Internal;
use blocklang::eval::capture_block;
use blocklang::eval::eval;
use blocklang::eval::eval_block;
use blocklang::eval::eval_call;
use blocklang::scope::Scope;
use blocklang::value::EvalError;
use blocklang::value::Value;

const FUEL: u64 = 100;

fn var(name: &str) -> Element {
    Element::Variable(name.to_string())
}

fn bare(text: &str) -> Element {
    Element::Bare(text.to_string())
}

fn assign(name: &str, e: Element) -> Element {
    Element::Assign(name.to_string(), Box::new(e))
}

fn host_scope() -> Scope {
    let mut scope = Scope::new();
    scope.add_variable("a", Value::Int(10));
    scope.add_command("add", Internal::Add);
    scope
}

fn add_call(lhs: Element, rhs: Element) -> Element {
    Element::Call(vec![bare("add"), lhs, rhs])
}

#[test]
fn number_evaluates_to_int() {
    let mut scope = host_scope();
    assert_eq!(eval(&Element::Number(3), &mut scope, FUEL), Ok(Value::Int(3)));
}

#[test]
fn bare_evaluates_to_string() {
    let mut scope = host_scope();
    assert_eq!(
        eval(&bare("hello"), &mut scope, FUEL),
        Ok(Value::String("hello".to_string()))
    );
}

#[test]
fn variable_reads_binding() {
    let mut scope = host_scope();
    assert_eq!(eval(&var("a"), &mut scope, FUEL), Ok(Value::Int(10)));
}

#[test]
fn assign_binds_and_returns_nothing() {
    let mut scope = host_scope();
    assert_eq!(
        eval(&assign("b", Element::Number(11)), &mut scope, FUEL),
        Ok(Value::Nothing)
    );
    assert_eq!(eval(&var("b"), &mut scope, FUEL), Ok(Value::Int(11)));
}

#[test]
fn assign_propagates_inner_error() {
    let mut scope = host_scope();
    assert_eq!(
        eval(&assign("b", var("missing")), &mut scope, FUEL),
        Err(EvalError::UnboundVariable)
    );
}

#[test]
fn closure_call_binds_parameter() {
    let mut scope = host_scope();
    let mut block = Block::new();
    block.params = vec!["c".to_string()];
    block.commands = vec![var("c")];
    let call = Element::Call(vec![Element::Block(block), Element::Number(12)]);
    assert_eq!(eval(&call, &mut scope, FUEL), Ok(Value::Int(12)));
}

#[test]
fn bare_as_command_dispatch() {
    // a registered built-in invoked by name: add(a, 100) with a = 10
    let mut scope = host_scope();
    let call = add_call(var("a"), Element::Number(100));
    assert_eq!(eval(&call, &mut scope, FUEL), Ok(Value::Int(110)));
}

#[test]
fn add_returns_sum() {
    let mut scope = host_scope();
    let call = add_call(Element::Number(3), Element::Number(4));
    assert_eq!(eval(&call, &mut scope, FUEL), Ok(Value::Int(7)));
}

#[test]
fn add_wraps_on_overflow() {
    let mut scope = host_scope();
    let call = add_call(Element::Number(i64::MAX), Element::Number(1));
    assert_eq!(eval(&call, &mut scope, FUEL), Ok(Value::Int(i64::MIN)));
}

#[test]
fn add_type_mismatch() {
    let mut scope = host_scope();
    let call = add_call(Element::Number(1), bare("a"));
    assert_eq!(eval(&call, &mut scope, FUEL), Err(EvalError::TypeMismatch));
}

#[test]
fn add_arity_mismatch_one_argument() {
    let mut scope = host_scope();
    let call = Element::Call(vec![bare("add"), Element::Number(1)]);
    assert_eq!(eval(&call, &mut scope, FUEL), Err(EvalError::ArityMismatch));
}

#[test]
fn add_arity_mismatch_three_arguments() {
    let mut scope = host_scope();
    let call = Element::Call(vec![
        bare("add"),
        Element::Number(1),
        Element::Number(2),
        Element::Number(3),
    ]);
    assert_eq!(eval(&call, &mut scope, FUEL), Err(EvalError::ArityMismatch));
}

#[test]
fn closure_arity_mismatch_zero_arguments() {
    let mut scope = host_scope();
    let mut block = Block::new();
    block.params = vec!["d".to_string()];
    block.commands = vec![var("d")];
    let call = Element::Call(vec![Element::Block(block)]);
    assert_eq!(eval(&call, &mut scope, FUEL), Err(EvalError::ArityMismatch));
}

#[test]
fn closure_arity_mismatch_two_arguments() {
    let mut scope = host_scope();
    let mut block = Block::new();
    block.params = vec!["d".to_string()];
    block.commands = vec![var("d")];
    let call = Element::Call(vec![
        Element::Block(block),
        Element::Number(1),
        Element::Number(2),
    ]);
    assert_eq!(eval(&call, &mut scope, FUEL), Err(EvalError::ArityMismatch));
}

#[test]
fn closure_captures_value_snapshot() {
    // bind a = 10; myblock(d) = add(d, a); calling it sees a = 10 even after
    // a is reassigned to 1100.
    let mut scope = host_scope();
    let mut block = Block::new();
    block.params = vec!["d".to_string()];
    block.commands = vec![add_call(var("d"), var("a"))];
    let bind = assign("myblock", Element::Block(block));
    assert_eq!(eval(&bind, &mut scope, FUEL), Ok(Value::Nothing));

    let call = Element::Call(vec![var("myblock"), Element::Number(12)]);
    assert_eq!(eval(&call, &mut scope, FUEL), Ok(Value::Int(22)));

    assert_eq!(
        eval(&assign("a", Element::Number(1100)), &mut scope, FUEL),
        Ok(Value::Nothing)
    );
    assert_eq!(eval(&var("a"), &mut scope, FUEL), Ok(Value::Int(1100)));

    let call_again = Element::Call(vec![var("myblock"), Element::Number(12)]);
    assert_eq!(eval(&call_again, &mut scope, FUEL), Ok(Value::Int(22)));
}

#[test]
fn call_frame_isolation_restores_outer_binding() {
    // a parameter shadows an outer variable of the same name only for the
    // duration of the call.
    let mut scope = host_scope();
    let mut block = Block::new();
    block.params = vec!["a".to_string()];
    block.commands = vec![var("a")];
    let call = Element::Call(vec![Element::Block(block), Element::Number(5)]);
    assert_eq!(eval(&call, &mut scope, FUEL), Ok(Value::Int(5)));
    assert_eq!(eval(&var("a"), &mut scope, FUEL), Ok(Value::Int(10)));
}

#[test]
fn unbound_variable_fails() {
    let mut scope = host_scope();
    assert_eq!(eval(&var("z"), &mut scope, FUEL), Err(EvalError::UnboundVariable));
}

#[test]
fn capture_of_unbound_free_variable_fails() {
    let mut scope = host_scope();
    let mut block = Block::new();
    block.commands = vec![var("nowhere")];
    assert_eq!(
        eval(&Element::Block(block), &mut scope, FUEL),
        Err(EvalError::UnboundVariable)
    );
}

#[test]
fn capture_block_holds_free_variable_values() {
    let scope = host_scope();
    let mut block = Block::new();
    block.params = vec!["d".to_string()];
    block.commands = vec![add_call(var("d"), var("a"))];
    match capture_block(&block, &scope) {
        Ok(Value::Block(_, captured)) => {
            assert_eq!(
                captured,
                vec![("a".to_string(), Value::Int(10))]
            );
        },
        other => panic!("expected a closure, got {:?}", other),
    }
}

#[test]
fn external_command_returns_placeholder() {
    let mut scope = host_scope();
    let call = Element::Call(vec![bare("launch"), Element::Number(1)]);
    assert_eq!(
        eval(&call, &mut scope, FUEL),
        Ok(Value::String("Ran an external command".to_string()))
    );
}

#[test]
fn external_command_still_evaluates_arguments() {
    // the assignment argument runs before the handoff, so its side effect
    // on the scope stays.
    let mut scope = host_scope();
    let call = Element::Call(vec![bare("launch"), assign("side", Element::Number(4))]);
    assert_eq!(
        eval(&call, &mut scope, FUEL),
        Ok(Value::String("Ran an external command".to_string()))
    );
    assert_eq!(eval(&var("side"), &mut scope, FUEL), Ok(Value::Int(4)));
}

#[test]
fn int_callee_is_not_callable() {
    let mut scope = host_scope();
    let call = Element::Call(vec![Element::Number(7), Element::Number(1)]);
    assert_eq!(eval(&call, &mut scope, FUEL), Err(EvalError::NotCallable));
}

#[test]
fn nothing_callee_is_not_callable() {
    let mut scope = host_scope();
    assert_eq!(
        eval(&assign("u", assign("w", Element::Number(0))), &mut scope, FUEL),
        Ok(Value::Nothing)
    );
    let call = Element::Call(vec![var("u")]);
    assert_eq!(eval(&call, &mut scope, FUEL), Err(EvalError::NotCallable));
}

#[test]
fn empty_call_is_not_callable() {
    let mut scope = host_scope();
    let call = Element::Call(vec![]);
    assert_eq!(eval(&call, &mut scope, FUEL), Err(EvalError::NotCallable));
}

#[test]
fn no_fuel_hits_recursion_limit() {
    let mut scope = host_scope();
    assert_eq!(
        eval(&Element::Number(3), &mut scope, 0),
        Err(EvalError::RecursionLimit)
    );
}

#[test]
fn captured_name_shadows_parameter() {
    // a host-built closure whose captured environment reuses a parameter
    // name: the captured binding is applied after the parameter binding, so
    // the call observes the captured value.
    let mut scope = host_scope();
    let mut block = Block::new();
    block.params = vec!["x".to_string()];
    block.commands = vec![var("x")];
    let closure = Value::Block(block, vec![("x".to_string(), Value::Int(99))]);
    scope.add_variable("f", closure);
    let call = Element::Call(vec![var("f"), Element::Number(5)]);
    assert_eq!(eval(&call, &mut scope, FUEL), Ok(Value::Int(99)));
}

#[test]
fn sequential_binding_inside_block_body() {
    // an assignment is visible to the commands after it; the block's value
    // is the value of its last command.
    let mut scope = host_scope();
    let mut block = Block::new();
    block.commands = vec![assign("t", Element::Number(8)), var("t")];
    let call = Element::Call(vec![Element::Block(block)]);
    assert_eq!(eval(&call, &mut scope, FUEL), Ok(Value::Int(8)));
}

#[test]
fn empty_block_call_returns_nothing() {
    let mut scope = host_scope();
    let call = Element::Call(vec![Element::Block(Block::new())]);
    assert_eq!(eval(&call, &mut scope, FUEL), Ok(Value::Nothing));
}

#[test]
fn nested_closure_calls() {
    // inner(e) = add(e, 1); outer(d) = inner(add(d, a)); outer(5) = 16
    let mut scope = host_scope();
    let mut inner = Block::new();
    inner.params = vec!["e".to_string()];
    inner.commands = vec![add_call(var("e"), Element::Number(1))];
    assert_eq!(
        eval(&assign("inner", Element::Block(inner)), &mut scope, FUEL),
        Ok(Value::Nothing)
    );
    let mut outer = Block::new();
    outer.params = vec!["d".to_string()];
    outer.commands = vec![Element::Call(vec![
        var("inner"),
        add_call(var("d"), var("a")),
    ])];
    assert_eq!(
        eval(&assign("outer", Element::Block(outer)), &mut scope, FUEL),
        Ok(Value::Nothing)
    );
    let call = Element::Call(vec![var("outer"), Element::Number(5)]);
    assert_eq!(eval(&call, &mut scope, FUEL), Ok(Value::Int(16)));
}

#[test]
fn eval_block_returns_last_command_value() {
    let mut scope = host_scope();
    let cmds = vec![Element::Number(1), Element::Number(2), Element::Number(3)];
    assert_eq!(eval_block(&cmds, &mut scope, FUEL), Ok(Value::Int(3)));
    let empty: Vec<Element> = vec![];
    assert_eq!(eval_block(&empty, &mut scope, FUEL), Ok(Value::Nothing));
}

#[test]
fn eval_call_dispatches_directly() {
    let mut scope = host_scope();
    let elems = vec![bare("add"), Element::Number(20), Element::Number(30)];
    assert_eq!(eval_call(&elems, &mut scope, FUEL), Ok(Value::Int(50)));
}
