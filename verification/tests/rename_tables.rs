use leo_asg::rename_table::RenameTable;
use leo_asg::span::Symbol;

#[test]
fn update_then_lookup_returns_new_name() {
    let mut table = RenameTable::default();
    assert_eq!(table.lookup(Symbol(1)), None);
    table.update(Symbol(1), Symbol(101));
    assert_eq!(table.lookup(Symbol(1)), Some(Symbol(101)));
}

#[test]
fn reassignment_overwrites_within_a_block() {
    let mut table = RenameTable::default();
    table.update(Symbol(1), Symbol(101));
    table.update(Symbol(1), Symbol(102));
    assert_eq!(table.lookup(Symbol(1)), Some(Symbol(102)));
    assert_eq!(table.get_local_names(), vec![Symbol(1)]);
}

#[test]
fn child_shadows_parent_and_parent_is_unaffected() {
    // Nested blocks: the child rebinds a name; lookup on the child sees
    // the child's name, lookup on the parent still sees its own.
    let mut parent = RenameTable::default();
    parent.update(Symbol(1), Symbol(101));
    let mut child = RenameTable::nested(parent);
    child.update(Symbol(1), Symbol(201));
    assert_eq!(child.lookup(Symbol(1)), Some(Symbol(201)));
    let parent_back = *child.parent.take().unwrap();
    assert_eq!(parent_back.lookup(Symbol(1)), Some(Symbol(101)));
}

#[test]
fn lookup_delegates_through_missing_blocks() {
    let mut root = RenameTable::default();
    root.update(Symbol(1), Symbol(101));
    let block1 = RenameTable::nested(root);
    let block2 = RenameTable::nested(block1);
    assert_eq!(block2.lookup(Symbol(1)), Some(Symbol(101)));
    assert_eq!(block2.lookup(Symbol(2)), None);
}

#[test]
fn rename_chain_scenario() {
    // Chain root -> block1 -> block2; block1 renames x to x$1, block2
    // renames x to x$2; lookup on block2 yields x$2; after discarding
    // block2, lookup on block1 still yields x$1.
    let x = Symbol(1);
    let x1 = Symbol(11);
    let x2 = Symbol(12);
    let root = RenameTable::default();
    let mut block1 = RenameTable::nested(root);
    block1.update(x, x1);
    let mut block2 = RenameTable::nested(block1);
    block2.update(x, x2);
    assert_eq!(block2.lookup(x), Some(x2));
    let block1_back = *block2.parent.take().unwrap();
    drop(block2);
    assert_eq!(block1_back.lookup(x), Some(x1));
}

#[test]
fn local_names_are_in_insertion_order() {
    let mut table = RenameTable::default();
    table.update(Symbol(3), Symbol(103));
    table.update(Symbol(1), Symbol(101));
    table.update(Symbol(2), Symbol(102));
    table.update(Symbol(1), Symbol(111));
    assert_eq!(
        table.get_local_names(),
        vec![Symbol(3), Symbol(1), Symbol(2)]
    );
}

#[test]
fn local_names_exclude_ancestors() {
    let mut root = RenameTable::default();
    root.update(Symbol(1), Symbol(101));
    let mut child = RenameTable::nested(root);
    child.update(Symbol(2), Symbol(102));
    assert_eq!(child.get_local_names(), vec![Symbol(2)]);
}
