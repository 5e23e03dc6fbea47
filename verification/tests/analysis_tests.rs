use blocklang::ast::Block;
use blocklang::ast::Element;
use blocklang::ast::Internal;
use blocklang::scope::Scope;
use blocklang::value::Value;

fn var(name: &str) -> Element {
    Element::Variable(name.to_string())
}

fn assign(name: &str, e: Element) -> Element {
    Element::Assign(name.to_string(), Box::new(e))
}

#[test]
fn assignment_binds_for_later_siblings() {
    // [Assign x 1, Variable x] has no free variables: the reference is
    // bound by the assignment before it.
    let mut block = Block::new();
    block.commands = vec![assign("x", Element::Number(1)), var("x")];
    let mut known: Vec<String> = Vec::new();
    let free = block.get_free_variables(&mut known);
    assert_eq!(free, Vec::<String>::new());
    assert_eq!(known, Vec::<String>::new());
}

#[test]
fn assignment_does_not_bind_earlier_siblings() {
    // [Variable x, Assign x 1] reports x free: the reference comes before
    // the binding.
    let mut block = Block::new();
    block.commands = vec![var("x"), assign("x", Element::Number(1))];
    let mut known: Vec<String> = Vec::new();
    let free = block.get_free_variables(&mut known);
    assert_eq!(free, vec!["x".to_string()]);
}

#[test]
fn assignment_right_hand_side_cannot_see_its_own_name() {
    // Assign x (Variable x): the right-hand side is analysed before x joins
    // the known set, so x is free in it.
    let elem = assign("x", var("x"));
    let mut known: Vec<String> = Vec::new();
    let free = elem.get_free_variables(&mut known);
    assert_eq!(free, vec!["x".to_string()]);
    assert_eq!(known, vec!["x".to_string()]);
}

#[test]
fn parameters_are_not_free() {
    let mut block = Block::new();
    block.params = vec!["p".to_string()];
    block.commands = vec![var("p"), var("q")];
    let mut known: Vec<String> = Vec::new();
    let free = block.get_free_variables(&mut known);
    assert_eq!(free, vec!["q".to_string()]);
    // the parameter extension is private to the block
    assert_eq!(known, Vec::<String>::new());
}

#[test]
fn nested_block_parameters_do_not_leak() {
    // a nested block's own parameter stays bound inside it, while a name
    // free in the nested block propagates outward.
    let mut inner = Block::new();
    inner.params = vec!["i".to_string()];
    inner.commands = vec![var("i"), var("outer_name")];
    let mut block = Block::new();
    block.commands = vec![Element::Block(inner), var("i")];
    let mut known: Vec<String> = Vec::new();
    let free = block.get_free_variables(&mut known);
    assert_eq!(free, vec!["outer_name".to_string(), "i".to_string()]);
}

#[test]
fn call_arguments_share_the_known_set() {
    // an assignment appearing as a call argument binds for later arguments
    let call = Element::Call(vec![assign("x", Element::Number(1)), var("x"), var("y")]);
    let mut known: Vec<String> = Vec::new();
    let free = call.get_free_variables(&mut known);
    assert_eq!(free, vec!["y".to_string()]);
    assert_eq!(known, vec!["x".to_string()]);
}

#[test]
fn numbers_and_bare_tokens_contribute_nothing() {
    let call = Element::Call(vec![
        Element::Bare("add".to_string()),
        Element::Number(1),
    ]);
    let mut known: Vec<String> = Vec::new();
    assert_eq!(call.get_free_variables(&mut known), Vec::<String>::new());
}

#[test]
fn duplicate_references_are_kept_in_order() {
    let mut block = Block::new();
    block.commands = vec![var("x"), var("x"), var("y")];
    let mut known: Vec<String> = Vec::new();
    let free = block.get_free_variables(&mut known);
    assert_eq!(
        free,
        vec!["x".to_string(), "x".to_string(), "y".to_string()]
    );
}

#[test]
fn scope_lookup_scans_innermost_first() {
    let mut scope = Scope::new();
    scope.add_variable("x", Value::Int(1));
    scope.enter_record();
    scope.add_variable("x", Value::Int(2));
    assert_eq!(scope.get_variable("x"), Some(Value::Int(2)));
    scope.exit_record();
    assert_eq!(scope.get_variable("x"), Some(Value::Int(1)));
}

#[test]
fn scope_later_binding_shadows_earlier() {
    let mut scope = Scope::new();
    scope.add_variable("x", Value::Int(1));
    scope.add_variable("x", Value::Int(5));
    assert_eq!(scope.get_variable("x"), Some(Value::Int(5)));
}

#[test]
fn scope_missing_name_is_none() {
    let scope = Scope::new();
    assert_eq!(scope.get_variable("x"), None);
    assert_eq!(scope.get_command("x"), None);
}

#[test]
fn scope_commands_visible_from_inner_records() {
    let mut scope = Scope::new();
    scope.add_command("add", Internal::Add);
    scope.enter_record();
    assert_eq!(scope.get_command("add"), Some(Internal::Add));
}

#[test]
fn exit_record_never_pops_the_root() {
    let mut scope = Scope::new();
    scope.add_variable("x", Value::Int(1));
    scope.exit_record();
    scope.exit_record();
    assert_eq!(scope.get_variable("x"), Some(Value::Int(1)));
}
