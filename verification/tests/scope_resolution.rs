use leo_asg::scope::{Arena, Circuit, Function, GlobalConst, Input, Variable};
use leo_asg::span::{Span, Symbol};

#[test]
fn shadowing_nearest_scope_wins() {
    let mut arena = Arena::new();
    let root = arena.make_root_scope();
    let n = Symbol(10);
    let f_outer = arena.alloc_function(Function { name: n });
    let f_inner = arena.alloc_function(Function { name: n });
    arena.insert_function(root, n, f_outer);
    let sub = arena.make_subscope(root);
    arena.insert_function(sub, n, f_inner);
    assert_eq!(arena.resolve_function(sub, n), Some(f_inner));
    assert_eq!(arena.resolve_function(root, n), Some(f_outer));
}

#[test]
fn chain_delegation_and_not_found() {
    let mut arena = Arena::new();
    let root = arena.make_root_scope();
    let mid = arena.make_subscope(root);
    let leaf = arena.make_subscope(mid);
    let n = Symbol(7);
    let v = arena.alloc_variable(Variable { name: n });
    arena.insert_variable(root, n, v);
    assert_eq!(arena.resolve_variable(leaf, n), Some(v));
    assert_eq!(arena.resolve_variable(mid, n), Some(v));
    assert_eq!(arena.resolve_variable(leaf, Symbol(8)), None);
}

#[test]
fn subscope_isolation() {
    let mut arena = Arena::new();
    let root = arena.make_root_scope();
    let sub = arena.make_subscope(root);
    let n = Symbol(3);
    let v = arena.alloc_variable(Variable { name: n });
    arena.insert_variable(sub, n, v);
    assert_eq!(arena.resolve_variable(sub, n), Some(v));
    assert_eq!(arena.resolve_variable(root, n), None);
}

#[test]
fn current_function_scenario() {
    // Root scope R defines function f; R creates subscope S; S binds its
    // function context to f; a third scope T with no parent knows nothing.
    let mut arena = Arena::new();
    let r = arena.make_root_scope();
    let f = arena.alloc_function(Function { name: Symbol(1) });
    arena.insert_function(r, Symbol(1), f);
    let s = arena.make_subscope(r);
    arena.set_function(s, f);
    assert_eq!(arena.resolve_current_function(s), Some(f));
    let deeper = arena.make_subscope(s);
    assert_eq!(arena.resolve_current_function(deeper), Some(f));
    let t = arena.make_root_scope();
    assert_eq!(arena.resolve_current_function(t), None);
}

#[test]
fn input_resolution_follows_chain() {
    let mut arena = Arena::new();
    let root = arena.make_root_scope();
    let sub = arena.make_subscope(root);
    assert_eq!(arena.resolve_input(sub), None);
    arena.set_input(root, Input { id: 42 });
    assert_eq!(arena.resolve_input(sub), Some(Input { id: 42 }));
    assert_eq!(arena.resolve_input(root), Some(Input { id: 42 }));
}

#[test]
fn get_functions_flattens_with_nearest_binding_winning() {
    let mut arena = Arena::new();
    let root = arena.make_root_scope();
    let child = arena.make_subscope(root);
    let n = Symbol(100);
    let m = Symbol(200);
    let f1 = arena.alloc_function(Function { name: n });
    let f2 = arena.alloc_function(Function { name: m });
    let f3 = arena.alloc_function(Function { name: n });
    arena.insert_function(root, n, f1);
    arena.insert_function(root, m, f2);
    arena.insert_function(child, n, f3);
    let flat = arena.get_functions(child);
    assert_eq!(flat.get(&n.0), Some(&f3));
    assert_eq!(flat.get(&m.0), Some(&f2));
    assert_eq!(flat.len(), 2);
    let flat_root = arena.get_functions(root);
    assert_eq!(flat_root.get(&n.0), Some(&f1));
}

#[test]
fn get_circuits_and_global_consts_flatten() {
    let mut arena = Arena::new();
    let root = arena.make_root_scope();
    let child = arena.make_subscope(root);
    let c_name = Symbol(5);
    let g_name = Symbol(6);
    let c = arena.alloc_circuit(Circuit { name: c_name });
    let g = arena.alloc_global_const(GlobalConst {
        names: vec![g_name],
        span: Span::new(0, 4),
    });
    arena.insert_circuit(root, c_name, c);
    arena.insert_global_const(root, g_name, g);
    let circuits = arena.get_circuits(child);
    assert_eq!(circuits.get(&c_name.0), Some(&c));
    let consts = arena.get_global_consts(child);
    assert_eq!(consts.get(&g_name.0), Some(&g));
    assert_eq!(consts.get(&c_name.0), None);
}

#[test]
fn resolve_kinds_are_independent() {
    let mut arena = Arena::new();
    let root = arena.make_root_scope();
    let n = Symbol(9);
    let c = arena.alloc_circuit(Circuit { name: n });
    arena.insert_circuit(root, n, c);
    assert_eq!(arena.resolve_circuit(root, n), Some(c));
    assert_eq!(arena.resolve_function(root, n), None);
    assert_eq!(arena.resolve_variable(root, n), None);
    assert_eq!(arena.resolve_alias(root, n), None);
    assert_eq!(arena.resolve_global_const(root, n), None);
}

#[test]
fn flattened_views_of_an_empty_chain_are_empty() {
    let mut arena = Arena::new();
    let root = arena.make_root_scope();
    let sub = arena.make_subscope(root);
    assert_eq!(arena.get_functions(sub).len(), 0);
    assert_eq!(arena.get_circuits(sub).len(), 0);
    assert_eq!(arena.get_global_consts(sub).len(), 0);
}
