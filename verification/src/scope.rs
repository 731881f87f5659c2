//! The graph arena and its scopes: a tree of lexical scopes, each with five
//! name tables, resolving names by the nearest-enclosing-scope rule and
//! converting surface type expressions into resolved types.

use vstd::prelude::*;
use crate::ast;
use crate::errors::AsgError;
use crate::span::{Span, Symbol};
use crate::table::{
    Table, lemma_seq_get_append_one, lemma_seq_get_index, lemma_seq_set_get,
    lemma_seq_set_unique, lemma_seq_set_values_lt, seq_get, seq_has_key, seq_set, table_entries,
    table_get, table_insert, table_new, table_pairs, unique_keys, values_lt,
};
use crate::ast::{parse_array_size, parse_u32_spec};
use crate::types::{Type, TypeView, lemma_types_view_index, types_view};

verus! {

/// A variable node of the semantic graph.
#[derive(Debug, PartialEq, Eq, Structural)]
pub struct Variable {
    pub name: Symbol,
}

/// A function node of the semantic graph.
#[derive(Debug, PartialEq, Eq, Structural)]
pub struct Function {
    pub name: Symbol,
}

/// A circuit node of the semantic graph.
#[derive(Debug, PartialEq, Eq, Structural)]
pub struct Circuit {
    pub name: Symbol,
}

/// An alias node: a named type definition, resolved eagerly when the alias
/// is defined, so alias resolution never recurses through unresolved
/// aliases.
#[derive(Debug, PartialEq, Eq)]
pub struct Alias {
    pub name: Symbol,
    /// The fully resolved type the alias stands for.
    pub represents: Type,
}

/// A global constant definition block referenced by scope tables.
#[derive(Debug, PartialEq, Eq)]
pub struct GlobalConst {
    /// The names the definition binds.
    pub names: Vec<Symbol>,
    pub span: Span,
}

/// The program's declared input context.
#[derive(Clone, Copy, Debug, PartialEq, Eq, Structural)]
pub struct Input {
    pub id: u64,
}

/// Which of the five name tables of a scope a lookup consults.
#[derive(Clone, Copy, Debug, PartialEq, Eq, Structural)]
pub enum TableKind {
    Variables,
    Aliases,
    Functions,
    Circuits,
    GlobalConsts,
}

/// A node in the tree of lexical scopes: the current bindings for
/// variables, aliases, functions, circuits and global constants, plus the
/// optional bound function and program input, delegating unresolved lookups
/// to its parent.
#[derive(Debug)]
pub struct Scope {
    /// The unique id of the scope: its index in the arena.
    pub id: u64,
    /// The scope this scope inherits, absent only for a root.
    pub parent_scope: Option<u64>,
    /// The function definition this scope's body belongs to, if any.
    pub function: Option<u64>,
    /// The main input to the program, if bound here.
    pub input: Option<Input>,
    /// Maps variable name to variable node.
    pub variables: Table,
    /// Maps alias name to alias node.
    pub aliases: Table,
    /// Maps function name to function node.
    pub functions: Table,
    /// Maps global constant name to its definition block.
    pub global_consts: Table,
    /// Maps circuit name to circuit node.
    pub circuits: Table,
}

impl Scope {
    /// The entries of the name table for `kind`, in insertion order.
    pub open spec fn table_spec(self, kind: TableKind) -> Seq<(u64, u64)> {
        match kind {
            TableKind::Variables => table_entries(self.variables),
            TableKind::Aliases => table_entries(self.aliases),
            TableKind::Functions => table_entries(self.functions),
            TableKind::Circuits => table_entries(self.circuits),
            TableKind::GlobalConsts => table_entries(self.global_consts),
        }
    }
}

/// The arena that owns every scope and semantic-graph node for the lifetime
/// of a compilation unit. Nodes reference each other by stable indices into
/// its vectors, so back-references and forward references never form
/// ownership cycles.
#[derive(Debug)]
pub struct Arena {
    pub scopes: Vec<Scope>,
    pub variables: Vec<Variable>,
    pub functions: Vec<Function>,
    pub circuits: Vec<Circuit>,
    pub aliases: Vec<Alias>,
    pub global_consts: Vec<GlobalConst>,
}

impl Arena {
    /// How many nodes of the kind a table of `kind` references exist.
    pub open spec fn node_count(self, kind: TableKind) -> int {
        match kind {
            TableKind::Variables => self.variables.len() as int,
            TableKind::Aliases => self.aliases.len() as int,
            TableKind::Functions => self.functions.len() as int,
            TableKind::Circuits => self.circuits.len() as int,
            TableKind::GlobalConsts => self.global_consts.len() as int,
        }
    }

    /// The entries of scope `s`'s table for `kind`.
    pub open spec fn scope_table(self, s: int, kind: TableKind) -> Seq<(u64, u64)> {
        self.scopes[s].table_spec(kind)
    }

    /// Scope `s`'s table for `kind` is sound: it references only nodes the
    /// arena has allocated, and binds each name at most once.
    pub open spec fn table_ok(self, s: int, kind: TableKind) -> bool {
        values_lt(self.scope_table(s, kind), self.node_count(kind)) && unique_keys(
            self.scope_table(s, kind),
        )
    }

    /// Well-formedness of scope `s`: its id is its index, its parent was
    /// allocated before it, its tables are sound, and the function it is
    /// bound to exists in the arena.
    pub open spec fn scope_wf(self, s: int) -> bool {
        &&& (self.scopes[s].id as int) == s
        &&& (match self.scopes[s].parent_scope {
            Option::Some(p) => (p as int) < s,
            Option::None => true,
        })
        &&& (forall|kind: TableKind| #[trigger] self.table_ok(s, kind))
        &&& (match self.scopes[s].function {
            Option::Some(f) => (f as int) < self.functions.len(),
            Option::None => true,
        })
    }

    /// Well-formedness of the arena: every scope is well-formed.
    pub open spec fn wf(self) -> bool {
        forall|s: int| 0 <= s < self.scopes.len() ==> #[trigger] self.scope_wf(s)
    }

    /// What resolving `name` in table `kind` from scope `s` yields: the
    /// binding in `s`'s own table when present, else the parent's answer,
    /// else nothing.
    pub open spec fn resolve_spec(self, s: int, kind: TableKind, name: u64) -> Option<u64>
        decreases s,
        when 0 <= s < self.scopes.len() && self.wf()
        via Self::resolve_spec_decreases
    {
        if seq_has_key(self.scope_table(s, kind), name) {
            seq_get(self.scope_table(s, kind), name)
        } else {
            match self.scopes[s].parent_scope {
                Option::Some(p) => self.resolve_spec(p as int, kind, name),
                Option::None => None,
            }
        }
    }

    #[via_fn]
    proof fn resolve_spec_decreases(self, s: int, kind: TableKind, name: u64) {
        assert(self.scope_wf(s));
    }

    /// Whether any scope on the chain from `s` to the root binds `name` in
    /// its table for `kind`.
    pub open spec fn chain_binds(self, s: int, kind: TableKind, name: u64) -> bool
        decreases s,
        when 0 <= s < self.scopes.len() && self.wf()
        via Self::chain_binds_decreases
    {
        seq_has_key(self.scope_table(s, kind), name) || (match self.scopes[s].parent_scope {
            Option::Some(p) => self.chain_binds(p as int, kind, name),
            Option::None => false,
        })
    }

    #[via_fn]
    proof fn chain_binds_decreases(self, s: int, kind: TableKind, name: u64) {
        assert(self.scope_wf(s));
    }

    /// The function the body around scope `s` belongs to: the nearest scope
    /// on the chain with a bound function.
    pub open spec fn current_function_spec(self, s: int) -> Option<u64>
        decreases s,
        when 0 <= s < self.scopes.len() && self.wf()
        via Self::current_function_spec_decreases
    {
        if self.scopes[s].function is Some {
            self.scopes[s].function
        } else {
            match self.scopes[s].parent_scope {
                Option::Some(p) => self.current_function_spec(p as int),
                Option::None => None,
            }
        }
    }

    #[via_fn]
    proof fn current_function_spec_decreases(self, s: int) {
        assert(self.scope_wf(s));
    }

    /// The program input visible from scope `s`: the nearest scope on the
    /// chain that bound one.
    pub open spec fn input_spec(self, s: int) -> Option<Input>
        decreases s,
        when 0 <= s < self.scopes.len() && self.wf()
        via Self::input_spec_decreases
    {
        if self.scopes[s].input is Some {
            self.scopes[s].input
        } else {
            match self.scopes[s].parent_scope {
                Option::Some(p) => self.input_spec(p as int),
                Option::None => None,
            }
        }
    }

    #[via_fn]
    proof fn input_spec_decreases(self, s: int) {
        assert(self.scope_wf(s));
    }

    /// A fresh arena with no scopes and no nodes.
    pub fn new() -> (r: Arena)
        ensures
            r.wf(),
            r.scopes@.len() == 0,
            r.variables@.len() == 0,
            r.functions@.len() == 0,
            r.circuits@.len() == 0,
            r.aliases@.len() == 0,
            r.global_consts@.len() == 0,
    {
        Arena {
            scopes: Vec::new(),
            variables: Vec::new(),
            functions: Vec::new(),
            circuits: Vec::new(),
            aliases: Vec::new(),
            global_consts: Vec::new(),
        }
    }

    /// The name table of `scope` for `kind`.
    fn table_of<'a>(scope: &'a Scope, kind: TableKind) -> (r: &'a Table)
        ensures
            table_entries(*r) == scope.table_spec(kind),
    {
        match kind {
            TableKind::Variables => &scope.variables,
            TableKind::Aliases => &scope.aliases,
            TableKind::Functions => &scope.functions,
            TableKind::Circuits => &scope.circuits,
            TableKind::GlobalConsts => &scope.global_consts,
        }
    }

    /// The shared resolution walk: consult scope `s`'s own table for
    /// `kind`; on a miss, walk up the parent chain; at a root, give up.
    /// Iterative on purpose, so deeply nested blocks cannot overflow the
    /// stack.
    fn resolve(&self, s: u64, kind: TableKind, name: Symbol) -> (r: Option<u64>)
        requires
            self.wf(),
            (s as int) < self.scopes@.len(),
        ensures
            r == self.resolve_spec(s as int, kind, name.0),
    {
        let n = self.scopes.len();
        let mut cur: usize = s as usize;
        loop
            invariant
                self.wf(),
                cur < self.scopes@.len(),
                self.resolve_spec(cur as int, kind, name.0) == self.resolve_spec(
                    s as int,
                    kind,
                    name.0,
                ),
            decreases cur,
        {
            proof {
                assert(self.scope_wf(cur as int));
            }
            let scope = &self.scopes[cur];
            match table_get(Self::table_of(scope, kind), name.0) {
                Some(v) => {
                    return Some(v);
                },
                None => {},
            }
            match scope.parent_scope {
                Some(p) => {
                    cur = p as usize;
                },
                None => {
                    return None;
                },
            }
        }
    }

    /// Returns the variable corresponding to the name, checking the parent
    /// scope on a miss; `None` if no scope in the chain binds it.
    pub fn resolve_variable(&self, s: u64, name: Symbol) -> (r: Option<u64>)
        requires
            self.wf(),
            (s as int) < self.scopes@.len(),
        ensures
            r == self.resolve_spec(s as int, TableKind::Variables, name.0),
    {
        self.resolve(s, TableKind::Variables, name)
    }

    /// Returns the alias corresponding to the name, checking the parent
    /// scope on a miss; `None` if no scope in the chain binds it.
    pub fn resolve_alias(&self, s: u64, name: Symbol) -> (r: Option<u64>)
        requires
            self.wf(),
            (s as int) < self.scopes@.len(),
        ensures
            r == self.resolve_spec(s as int, TableKind::Aliases, name.0),
    {
        self.resolve(s, TableKind::Aliases, name)
    }

    /// Returns the function corresponding to the name, checking the parent
    /// scope on a miss; `None` if no scope in the chain binds it.
    pub fn resolve_function(&self, s: u64, name: Symbol) -> (r: Option<u64>)
        requires
            self.wf(),
            (s as int) < self.scopes@.len(),
        ensures
            r == self.resolve_spec(s as int, TableKind::Functions, name.0),
    {
        self.resolve(s, TableKind::Functions, name)
    }

    /// Returns the circuit corresponding to the name, checking the parent
    /// scope on a miss; `None` if no scope in the chain binds it.
    pub fn resolve_circuit(&self, s: u64, name: Symbol) -> (r: Option<u64>)
        requires
            self.wf(),
            (s as int) < self.scopes@.len(),
        ensures
            r == self.resolve_spec(s as int, TableKind::Circuits, name.0),
    {
        self.resolve(s, TableKind::Circuits, name)
    }

    /// Returns the global constant definition corresponding to the name,
    /// checking the parent scope on a miss; `None` if no scope in the chain
    /// binds it.
    pub fn resolve_global_const(&self, s: u64, name: Symbol) -> (r: Option<u64>)
        requires
            self.wf(),
            (s as int) < self.scopes@.len(),
        ensures
            r == self.resolve_spec(s as int, TableKind::GlobalConsts, name.0),
    {
        self.resolve(s, TableKind::GlobalConsts, name)
    }

    /// Returns the current function: the one bound nearest on the chain
    /// from scope `s`, or `None` if no scope in the chain bound one.
    pub fn resolve_current_function(&self, s: u64) -> (r: Option<u64>)
        requires
            self.wf(),
            (s as int) < self.scopes@.len(),
        ensures
            r == self.current_function_spec(s as int),
    {
        let mut cur: usize = s as usize;
        loop
            invariant
                self.wf(),
                cur < self.scopes@.len(),
                self.current_function_spec(cur as int) == self.current_function_spec(s as int),
            decreases cur,
        {
            proof {
                assert(self.scope_wf(cur as int));
            }
            let scope = &self.scopes[cur];
            match scope.function {
                Some(f) => {
                    return Some(f);
                },
                None => {},
            }
            match scope.parent_scope {
                Some(p) => {
                    cur = p as usize;
                },
                None => {
                    return None;
                },
            }
        }
    }

    /// Returns the current input: the one bound nearest on the chain from
    /// scope `s`, or `None` if no scope in the chain bound one.
    pub fn resolve_input(&self, s: u64) -> (r: Option<Input>)
        requires
            self.wf(),
            (s as int) < self.scopes@.len(),
        ensures
            r == self.input_spec(s as int),
    {
        let mut cur: usize = s as usize;
        loop
            invariant
                self.wf(),
                cur < self.scopes@.len(),
                self.input_spec(cur as int) == self.input_spec(s as int),
            decreases cur,
        {
            proof {
                assert(self.scope_wf(cur as int));
            }
            let scope = &self.scopes[cur];
            match scope.input {
                Some(input) => {
                    return Some(input);
                },
                None => {},
            }
            match scope.parent_scope {
                Some(p) => {
                    cur = p as usize;
                },
                None => {
                    return None;
                },
            }
        }
    }

    /// Allocates a root scope: no parent, no bound function or input, all
    /// five name tables empty.
    pub fn make_root_scope(&mut self) -> (r: u64)
        requires
            old(self).wf(),
        ensures
            final(self).wf(),
            (r as int) == old(self).scopes@.len(),
            final(self).scopes@.len() == old(self).scopes@.len() + 1,
            forall|i: int|
                0 <= i < old(self).scopes@.len() ==> final(self).scopes@[i] == old(
                    self,
                ).scopes@[i],
            final(self).scopes@[r as int].parent_scope is None,
            final(self).scopes@[r as int].function is None,
            final(self).scopes@[r as int].input is None,
            (final(self).scopes@[r as int].id as int) == r as int,
            forall|kind: TableKind|
                #[trigger] final(self).scope_table(r as int, kind) == Seq::<(u64, u64)>::empty(),
            final(self).variables == old(self).variables,
            final(self).functions == old(self).functions,
            final(self).circuits == old(self).circuits,
            final(self).aliases == old(self).aliases,
            final(self).global_consts == old(self).global_consts,
    {
        let id = self.scopes.len() as u64;
        let scope = Scope {
            id,
            parent_scope: None,
            function: None,
            input: None,
            variables: table_new(),
            aliases: table_new(),
            functions: table_new(),
            circuits: table_new(),
            global_consts: table_new(),
        };
        self.scopes.push(scope);
        proof {
            assert forall|s: int| 0 <= s < self.scopes@.len() implies #[trigger] self.scope_wf(
                s,
            ) by {
                if s < self.scopes@.len() - 1 {
                    assert(old(self).scope_wf(s));
                    assert forall|kind: TableKind| #[trigger] self.table_ok(s, kind) by {
                        assert(old(self).table_ok(s, kind));
                        assert(self.scope_table(s, kind) == old(self).scope_table(s, kind));
                    }
                } else {
                    assert forall|kind: TableKind| #[trigger] self.table_ok(s, kind) by {
                        assert(self.scope_table(s, kind).len() == 0);
                    }
                }
            }
        }
        id
    }

    /// Returns a new scope given a parent scope: allocated in the arena,
    /// with its parent set to `s`, bound function and input unset, and all
    /// five name tables empty.
    pub fn make_subscope(&mut self, s: u64) -> (r: u64)
        requires
            old(self).wf(),
            (s as int) < old(self).scopes@.len(),
        ensures
            final(self).wf(),
            (r as int) == old(self).scopes@.len(),
            final(self).scopes@.len() == old(self).scopes@.len() + 1,
            forall|i: int|
                0 <= i < old(self).scopes@.len() ==> final(self).scopes@[i] == old(
                    self,
                ).scopes@[i],
            final(self).scopes@[r as int].parent_scope == Some(s),
            final(self).scopes@[r as int].function is None,
            final(self).scopes@[r as int].input is None,
            (final(self).scopes@[r as int].id as int) == r as int,
            forall|kind: TableKind|
                #[trigger] final(self).scope_table(r as int, kind) == Seq::<(u64, u64)>::empty(),
            final(self).variables == old(self).variables,
            final(self).functions == old(self).functions,
            final(self).circuits == old(self).circuits,
            final(self).aliases == old(self).aliases,
            final(self).global_consts == old(self).global_consts,
    {
        let id = self.scopes.len() as u64;
        let scope = Scope {
            id,
            parent_scope: Some(s),
            function: None,
            input: None,
            variables: table_new(),
            aliases: table_new(),
            functions: table_new(),
            circuits: table_new(),
            global_consts: table_new(),
        };
        self.scopes.push(scope);
        proof {
            assert forall|t: int| 0 <= t < self.scopes@.len() implies #[trigger] self.scope_wf(
                t,
            ) by {
                if t < self.scopes@.len() - 1 {
                    assert(old(self).scope_wf(t));
                    assert forall|kind: TableKind| #[trigger] self.table_ok(t, kind) by {
                        assert(old(self).table_ok(t, kind));
                        assert(self.scope_table(t, kind) == old(self).scope_table(t, kind));
                    }
                } else {
                    assert forall|kind: TableKind| #[trigger] self.table_ok(t, kind) by {
                        assert(self.scope_table(t, kind).len() == 0);
                    }
                }
            }
        }
        id
    }
}

/// `post` is `pre` with scope `s`'s table for `kind` holding `entries` and
/// everything else — the other tables and fields of `s`, every other scope,
/// and all node vectors — unchanged.
pub open spec fn updated_scope_table(
    pre: Arena,
    post: Arena,
    s: int,
    kind: TableKind,
    entries: Seq<(u64, u64)>,
) -> bool {
    &&& post.scopes.len() == pre.scopes.len()
    &&& (forall|i: int|
        0 <= i < pre.scopes.len() && i != s ==> post.scopes[i] == pre.scopes[i])
    &&& post.scope_table(s, kind) == entries
    &&& (forall|k2: TableKind|
        k2 != kind ==> #[trigger] post.scope_table(s, k2) == pre.scope_table(s, k2))
    &&& post.scopes[s].id == pre.scopes[s].id
    &&& post.scopes[s].parent_scope == pre.scopes[s].parent_scope
    &&& post.scopes[s].function == pre.scopes[s].function
    &&& post.scopes[s].input == pre.scopes[s].input
    &&& post.variables == pre.variables
    &&& post.functions == pre.functions
    &&& post.circuits == pre.circuits
    &&& post.aliases == pre.aliases
    &&& post.global_consts == pre.global_consts
}

impl Arena {
    /// Allocates a variable node, returning its identity.
    pub fn alloc_variable(&mut self, node: Variable) -> (r: u64)
        requires
            old(self).wf(),
        ensures
            final(self).wf(),
            (r as int) == old(self).variables@.len(),
            final(self).variables@ == old(self).variables@.push(node),
            final(self).scopes == old(self).scopes,
            final(self).functions == old(self).functions,
            final(self).circuits == old(self).circuits,
            final(self).aliases == old(self).aliases,
            final(self).global_consts == old(self).global_consts,
    {
        let id = self.variables.len() as u64;
        self.variables.push(node);
        proof {
            self.lemma_wf_after_growth(*old(self));
        }
        id
    }

    /// Allocates a function node, returning its identity.
    pub fn alloc_function(&mut self, node: Function) -> (r: u64)
        requires
            old(self).wf(),
        ensures
            final(self).wf(),
            (r as int) == old(self).functions@.len(),
            final(self).functions@ == old(self).functions@.push(node),
            final(self).scopes == old(self).scopes,
            final(self).variables == old(self).variables,
            final(self).circuits == old(self).circuits,
            final(self).aliases == old(self).aliases,
            final(self).global_consts == old(self).global_consts,
    {
        let id = self.functions.len() as u64;
        self.functions.push(node);
        proof {
            self.lemma_wf_after_growth(*old(self));
        }
        id
    }

    /// Allocates a circuit node, returning its identity.
    pub fn alloc_circuit(&mut self, node: Circuit) -> (r: u64)
        requires
            old(self).wf(),
        ensures
            final(self).wf(),
            (r as int) == old(self).circuits@.len(),
            final(self).circuits@ == old(self).circuits@.push(node),
            final(self).scopes == old(self).scopes,
            final(self).variables == old(self).variables,
            final(self).functions == old(self).functions,
            final(self).aliases == old(self).aliases,
            final(self).global_consts == old(self).global_consts,
    {
        let id = self.circuits.len() as u64;
        self.circuits.push(node);
        proof {
            self.lemma_wf_after_growth(*old(self));
        }
        id
    }

    /// Allocates an alias node, returning its identity.
    pub fn alloc_alias(&mut self, node: Alias) -> (r: u64)
        requires
            old(self).wf(),
        ensures
            final(self).wf(),
            (r as int) == old(self).aliases@.len(),
            final(self).aliases@ == old(self).aliases@.push(node),
            final(self).scopes == old(self).scopes,
            final(self).variables == old(self).variables,
            final(self).functions == old(self).functions,
            final(self).circuits == old(self).circuits,
            final(self).global_consts == old(self).global_consts,
    {
        let id = self.aliases.len() as u64;
        self.aliases.push(node);
        proof {
            self.lemma_wf_after_growth(*old(self));
        }
        id
    }

    /// Allocates a global constant definition node, returning its identity.
    pub fn alloc_global_const(&mut self, node: GlobalConst) -> (r: u64)
        requires
            old(self).wf(),
        ensures
            final(self).wf(),
            (r as int) == old(self).global_consts@.len(),
            final(self).global_consts@ == old(self).global_consts@.push(node),
            final(self).scopes == old(self).scopes,
            final(self).variables == old(self).variables,
            final(self).functions == old(self).functions,
            final(self).circuits == old(self).circuits,
            final(self).aliases == old(self).aliases,
    {
        let id = self.global_consts.len() as u64;
        self.global_consts.push(node);
        proof {
            self.lemma_wf_after_growth(*old(self));
        }
        id
    }

    /// Well-formedness survives any step that leaves the scopes unchanged
    /// and only grows the node vectors.
    proof fn lemma_wf_after_growth(self, pre: Arena)
        requires
            pre.wf(),
            self.scopes == pre.scopes,
            self.functions@.len() >= pre.functions@.len(),
            forall|kind: TableKind| self.node_count(kind) >= pre.node_count(kind),
        ensures
            self.wf(),
    {
        assert forall|t: int| 0 <= t < self.scopes@.len() implies #[trigger] self.scope_wf(t) by {
            assert(pre.scope_wf(t));
            assert forall|kind: TableKind| #[trigger] self.table_ok(t, kind) by {
                assert(pre.table_ok(t, kind));
                assert(self.scope_table(t, kind) == pre.scope_table(t, kind));
                assert(self.node_count(kind) >= pre.node_count(kind));
            }
        }
    }

    /// Binds `name` to node `node` in scope `s`'s table for `kind`.
    fn insert(&mut self, s: u64, kind: TableKind, name: Symbol, node: u64)
        requires
            old(self).wf(),
            (s as int) < old(self).scopes@.len(),
            (node as int) < old(self).node_count(kind),
        ensures
            final(self).wf(),
            updated_scope_table(
                *old(self),
                *final(self),
                s as int,
                kind,
                seq_set(old(self).scope_table(s as int, kind), name.0, node),
            ),
    {
        proof {
            assert(self.scopes.len() == self.scopes@.len());
        }
        let idx = s as usize;
        match kind {
            TableKind::Variables => table_insert(&mut self.scopes[idx].variables, name.0, node),
            TableKind::Aliases => table_insert(&mut self.scopes[idx].aliases, name.0, node),
            TableKind::Functions => table_insert(&mut self.scopes[idx].functions, name.0, node),
            TableKind::Circuits => table_insert(&mut self.scopes[idx].circuits, name.0, node),
            TableKind::GlobalConsts => table_insert(
                &mut self.scopes[idx].global_consts,
                name.0,
                node,
            ),
        }
        proof {
            assert forall|t: int| 0 <= t < self.scopes@.len() implies #[trigger] self.scope_wf(
                t,
            ) by {
                assert(old(self).scope_wf(t));
                assert forall|k2: TableKind| #[trigger] self.table_ok(t, k2) by {
                    assert(old(self).table_ok(t, k2));
                    if t == s as int && k2 == kind {
                        lemma_seq_set_values_lt(
                            old(self).scope_table(t, k2),
                            name.0,
                            node,
                            old(self).node_count(k2),
                        );
                        lemma_seq_set_unique(old(self).scope_table(t, k2), name.0, node);
                    } else {
                        assert(self.scope_table(t, k2) == old(self).scope_table(t, k2));
                    }
                }
            }
        }
    }

    /// Binds a variable name in scope `s`.
    pub fn insert_variable(&mut self, s: u64, name: Symbol, node: u64)
        requires
            old(self).wf(),
            (s as int) < old(self).scopes@.len(),
            (node as int) < old(self).variables@.len(),
        ensures
            final(self).wf(),
            updated_scope_table(
                *old(self),
                *final(self),
                s as int,
                TableKind::Variables,
                seq_set(old(self).scope_table(s as int, TableKind::Variables), name.0, node),
            ),
    {
        self.insert(s, TableKind::Variables, name, node)
    }

    /// Binds an alias name in scope `s`.
    pub fn insert_alias(&mut self, s: u64, name: Symbol, node: u64)
        requires
            old(self).wf(),
            (s as int) < old(self).scopes@.len(),
            (node as int) < old(self).aliases@.len(),
        ensures
            final(self).wf(),
            updated_scope_table(
                *old(self),
                *final(self),
                s as int,
                TableKind::Aliases,
                seq_set(old(self).scope_table(s as int, TableKind::Aliases), name.0, node),
            ),
    {
        self.insert(s, TableKind::Aliases, name, node)
    }

    /// Binds a function name in scope `s`.
    pub fn insert_function(&mut self, s: u64, name: Symbol, node: u64)
        requires
            old(self).wf(),
            (s as int) < old(self).scopes@.len(),
            (node as int) < old(self).functions@.len(),
        ensures
            final(self).wf(),
            updated_scope_table(
                *old(self),
                *final(self),
                s as int,
                TableKind::Functions,
                seq_set(old(self).scope_table(s as int, TableKind::Functions), name.0, node),
            ),
    {
        self.insert(s, TableKind::Functions, name, node)
    }

    /// Binds a circuit name in scope `s`.
    pub fn insert_circuit(&mut self, s: u64, name: Symbol, node: u64)
        requires
            old(self).wf(),
            (s as int) < old(self).scopes@.len(),
            (node as int) < old(self).circuits@.len(),
        ensures
            final(self).wf(),
            updated_scope_table(
                *old(self),
                *final(self),
                s as int,
                TableKind::Circuits,
                seq_set(old(self).scope_table(s as int, TableKind::Circuits), name.0, node),
            ),
    {
        self.insert(s, TableKind::Circuits, name, node)
    }

    /// Binds a global constant name in scope `s`.
    pub fn insert_global_const(&mut self, s: u64, name: Symbol, node: u64)
        requires
            old(self).wf(),
            (s as int) < old(self).scopes@.len(),
            (node as int) < old(self).global_consts@.len(),
        ensures
            final(self).wf(),
            updated_scope_table(
                *old(self),
                *final(self),
                s as int,
                TableKind::GlobalConsts,
                seq_set(old(self).scope_table(s as int, TableKind::GlobalConsts), name.0, node),
            ),
    {
        self.insert(s, TableKind::GlobalConsts, name, node)
    }

    /// Binds scope `s` to the function whose body it is.
    pub fn set_function(&mut self, s: u64, f: u64)
        requires
            old(self).wf(),
            (s as int) < old(self).scopes@.len(),
            (f as int) < old(self).functions@.len(),
        ensures
            final(self).wf(),
            final(self).scopes@.len() == old(self).scopes@.len(),
            forall|i: int|
                0 <= i < old(self).scopes@.len() && i != s as int ==> final(self).scopes@[i]
                    == old(self).scopes@[i],
            final(self).scopes@[s as int] == (Scope {
                function: Some(f),
                ..old(self).scopes@[s as int]
            }),
            final(self).variables == old(self).variables,
            final(self).functions == old(self).functions,
            final(self).circuits == old(self).circuits,
            final(self).aliases == old(self).aliases,
            final(self).global_consts == old(self).global_consts,
    {
        proof {
            assert(self.scopes.len() == self.scopes@.len());
        }
        let idx = s as usize;
        self.scopes[idx].function = Some(f);
        proof {
            assert forall|t: int| 0 <= t < self.scopes@.len() implies #[trigger] self.scope_wf(
                t,
            ) by {
                assert(old(self).scope_wf(t));
                assert forall|k2: TableKind| #[trigger] self.table_ok(t, k2) by {
                    assert(old(self).table_ok(t, k2));
                    assert(self.scope_table(t, k2) == old(self).scope_table(t, k2));
                }
            }
        }
    }

    /// Binds scope `s` to the program's declared input context.
    pub fn set_input(&mut self, s: u64, input: Input)
        requires
            old(self).wf(),
            (s as int) < old(self).scopes@.len(),
        ensures
            final(self).wf(),
            final(self).scopes@.len() == old(self).scopes@.len(),
            forall|i: int|
                0 <= i < old(self).scopes@.len() && i != s as int ==> final(self).scopes@[i]
                    == old(self).scopes@[i],
            final(self).scopes@[s as int] == (Scope {
                input: Some(input),
                ..old(self).scopes@[s as int]
            }),
            final(self).variables == old(self).variables,
            final(self).functions == old(self).functions,
            final(self).circuits == old(self).circuits,
            final(self).aliases == old(self).aliases,
            final(self).global_consts == old(self).global_consts,
    {
        proof {
            assert(self.scopes.len() == self.scopes@.len());
        }
        let idx = s as usize;
        self.scopes[idx].input = Some(input);
        proof {
            assert forall|t: int| 0 <= t < self.scopes@.len() implies #[trigger] self.scope_wf(
                t,
            ) by {
                assert(old(self).scope_wf(t));
                assert forall|k2: TableKind| #[trigger] self.table_ok(t, k2) by {
                    assert(old(self).table_ok(t, k2));
                    assert(self.scope_table(t, k2) == old(self).scope_table(t, k2));
                }
            }
        }
    }
}

/// A resolution result with the resolved type in its mathematical shape.
pub open spec fn type_result_view(r: Result<Type, AsgError>) -> Result<TypeView, AsgError> {
    match r {
        Result::Ok(t) => Ok(t.view_spec()),
        Result::Err(e) => Err(e),
    }
}

impl Arena {
    /// Whatever resolution yields, it is a node the arena has allocated.
    pub proof fn lemma_resolve_in_range(self, s: int, kind: TableKind, name: u64)
        requires
            self.wf(),
            0 <= s < self.scopes@.len(),
        ensures
            (match self.resolve_spec(s, kind, name) {
                Option::Some(v) => (v as int) < self.node_count(kind),
                Option::None => true,
            }),
        decreases s,
    {
        assert(self.scope_wf(s));
        assert(self.table_ok(s, kind));
        if seq_has_key(self.scope_table(s, kind), name) {
            let v = seq_get(self.scope_table(s, kind), name)->Some_0;
            lemma_seq_get_index(self.scope_table(s, kind), name, v);
            let i = choose|i: int|
                0 <= i < self.scope_table(s, kind).len() && self.scope_table(s, kind)[i] == (
                name,
                v,
                );
            assert((self.scope_table(s, kind)[i].1 as int) < self.node_count(kind));
        } else {
            match self.scopes@[s].parent_scope {
                Option::Some(p) => {
                    self.lemma_resolve_in_range(p as int, kind, name);
                },
                Option::None => {},
            }
        }
    }

    /// What converting the surface type `t` in scope `s` yields. Primitive
    /// kinds map one to one; an element's failure surfaces before its array
    /// dimensions are read; a tuple fails with its first failing element; a
    /// named type resolves as a circuit first, then as an alias, whose
    /// stored type it yields unchanged; the circuit-self marker, a
    /// malformed array size, an unresolvable name and the multi-dimensional
    /// marker each yield their error.
    pub open spec fn resolve_type_spec(self, s: int, t: ast::Type, span: Span) -> Result<
        TypeView,
        AsgError,
    >
        decreases t, 0int,
        via Self::resolve_type_spec_decreases
    {
        match t {
            ast::Type::Address => Ok(TypeView::Address),
            ast::Type::Boolean => Ok(TypeView::Boolean),
            ast::Type::Char => Ok(TypeView::Char),
            ast::Type::Field => Ok(TypeView::Field),
            ast::Type::Group => Ok(TypeView::Group),
            ast::Type::ErrType => Ok(TypeView::ErrType),
            ast::Type::IntegerType(it) => Ok(TypeView::Integer(it)),
            ast::Type::SelfType => Err(AsgError::InvalidSelfReference(span)),
            ast::Type::Array(sub, dims) => (match self.resolve_type_spec(s, *sub, span) {
                Result::Err(e) => Err(e),
                Result::Ok(item) => (match dims {
                    ast::ArrayDimensions::Unspecified => Ok(
                        TypeView::ArrayWithoutSize(Box::new(item)),
                    ),
                    ast::ArrayDimensions::Number(num) => (match parse_u32_spec(num.value@) {
                        Option::Some(n) => Ok(TypeView::Array(Box::new(item), n)),
                        Option::None => Err(AsgError::MalformedArraySize(span)),
                    }),
                    ast::ArrayDimensions::Multi(_) => Err(AsgError::InternalError(span)),
                }),
            }),
            ast::Type::Tuple(subs) => (match self.resolve_types_spec(s, subs@, span) {
                Result::Ok(items) => Ok(TypeView::Tuple(items)),
                Result::Err(e) => Err(e),
            }),
            ast::Type::Identifier(name) => (match self.resolve_spec(
                s,
                TableKind::Circuits,
                name.name.0,
            ) {
                Option::Some(c) => Ok(TypeView::Circuit(c)),
                Option::None => (match self.resolve_spec(s, TableKind::Aliases, name.name.0) {
                    Option::Some(a) => Ok(self.aliases@[a as int].represents.view_spec()),
                    Option::None => Err(AsgError::UnresolvedName(name.name, name.span)),
                }),
            }),
        }
    }

    #[via_fn]
    proof fn resolve_type_spec_decreases(self, s: int, t: ast::Type, span: Span) {
        match t {
            ast::Type::Array(sub, _) => {
                assert(decreases_to!(t => sub));
            },
            ast::Type::Tuple(subs) => {
                assert(decreases_to!(t => subs));
                assert(decreases_to!(subs => subs@));
            },
            _ => {},
        }
    }

    /// What converting each element of a tuple yields: the resolved
    /// elements in order, or the first element's failure.
    pub open spec fn resolve_types_spec(self, s: int, ts: Seq<ast::Type>, span: Span) -> Result<
        Seq<TypeView>,
        AsgError,
    >
        decreases ts, 1int,
        via Self::resolve_types_spec_decreases
    {
        if ts.len() == 0 {
            Ok(Seq::empty())
        } else {
            match self.resolve_type_spec(s, ts[0], span) {
                Result::Err(e) => Err(e),
                Result::Ok(v) => (match self.resolve_types_spec(
                    s,
                    ts.subrange(1, ts.len() as int),
                    span,
                ) {
                    Result::Err(e) => Err(e),
                    Result::Ok(rest) => Ok(seq![v] + rest),
                }),
            }
        }
    }

    #[via_fn]
    proof fn resolve_types_spec_decreases(self, s: int, ts: Seq<ast::Type>, span: Span) {
        if ts.len() > 0 {
            assert(decreases_to!(ts => ts[0]));
            assert(decreases_to!(ts => ts.subrange(1, ts.len() as int)));
        }
    }

    /// How a tuple's resolution follows from its elements': if the first
    /// `i` elements resolve to `vs` and `i` covers the whole tuple, the
    /// tuple resolves to `vs`; if element `i` fails instead, the tuple
    /// fails with that failure.
    pub proof fn lemma_resolve_types_spec_prefix(
        self,
        s: int,
        ts: Seq<ast::Type>,
        span: Span,
        vs: Seq<TypeView>,
        i: int,
    )
        requires
            0 <= i <= ts.len(),
            vs.len() == i,
            forall|j: int|
                0 <= j < i ==> self.resolve_type_spec(s, #[trigger] ts[j], span) == Ok::<
                    TypeView,
                    AsgError,
                >(vs[j]),
        ensures
            i == ts.len() ==> self.resolve_types_spec(s, ts, span) == Ok::<
                Seq<TypeView>,
                AsgError,
            >(vs),
            (i < ts.len() && self.resolve_type_spec(s, ts[i], span) is Err)
                ==> self.resolve_types_spec(s, ts, span) == Result::<Seq<TypeView>, AsgError>::Err(
                self.resolve_type_spec(s, ts[i], span)->Err_0,
            ),
        decreases ts.len(),
    {
        if ts.len() == 0 {
            assert(vs =~= Seq::<TypeView>::empty());
        } else if i == 0 {
        } else {
            let rest = ts.subrange(1, ts.len() as int);
            self.lemma_resolve_types_spec_prefix(s, rest, span, vs.subrange(1, i), i - 1);
            assert(self.resolve_type_spec(s, ts[0], span) == Ok::<TypeView, AsgError>(vs[0]));
            if i == ts.len() {
                assert(seq![vs[0]] + vs.subrange(1, i) =~= vs);
            }
        }
    }

    /// Converts a surface type expression into a resolved type, consulting
    /// the scope chain from `s` for circuit and alias names. Primitive
    /// kinds map one to one; array dimensions must be literals denoting an
    /// unsigned 32-bit count; the circuit-self marker and unresolvable
    /// names fail; a multi-dimensional array marker is an internal
    /// invariant violation, reported as such.
    pub fn resolve_ast_type(&self, s: u64, type_: &ast::Type, span: &Span) -> (r: Result<
        Type,
        AsgError,
    >)
        requires
            self.wf(),
            (s as int) < self.scopes@.len(),
        ensures
            type_result_view(r) == self.resolve_type_spec(s as int, *type_, *span),
        decreases *type_,
    {
        match type_ {
            ast::Type::Address => Ok(Type::Address),
            ast::Type::Boolean => Ok(Type::Boolean),
            ast::Type::Char => Ok(Type::Char),
            ast::Type::Field => Ok(Type::Field),
            ast::Type::Group => Ok(Type::Group),
            ast::Type::ErrType => Ok(Type::ErrType),
            ast::Type::IntegerType(it) => Ok(Type::Integer(*it)),
            ast::Type::SelfType => Err(AsgError::InvalidSelfReference(*span)),
            ast::Type::Array(sub_type, dimensions) => {
                proof {
                    assert(decreases_to!(*type_ => **sub_type));
                }
                let item = match self.resolve_ast_type(s, &**sub_type, span) {
                    Ok(t) => t,
                    Err(e) => {
                        return Err(e);
                    },
                };
                match dimensions {
                    ast::ArrayDimensions::Unspecified => Ok(
                        Type::ArrayWithoutSize(Box::new(item)),
                    ),
                    ast::ArrayDimensions::Number(num) => match parse_array_size(
                        num.value.as_str(),
                    ) {
                        Some(n) => Ok(Type::Array(Box::new(item), n)),
                        None => Err(AsgError::MalformedArraySize(*span)),
                    },
                    ast::ArrayDimensions::Multi(_) => Err(AsgError::InternalError(*span)),
                }
            },
            ast::Type::Tuple(sub_types) => {
                let mut out: Vec<Type> = Vec::new();
                let mut i: usize = 0;
                while i < sub_types.len()
                    invariant
                        self.wf(),
                        (s as int) < self.scopes@.len(),
                        0 <= i <= sub_types@.len(),
                        out@.len() == i,
                        forall|j: int|
                            0 <= j < i ==> self.resolve_type_spec(s as int, sub_types@[j], *span)
                                == Ok::<TypeView, AsgError>((#[trigger] out@[j]).view_spec()),
                        *type_ is Tuple,
                        sub_types == type_->Tuple_0,
                    decreases sub_types@.len() - i,
                {
                    proof {
                        assert(decreases_to!(*type_ => sub_types@[i as int]));
                    }
                    match self.resolve_ast_type(s, &sub_types[i], span) {
                        Ok(t) => {
                            out.push(t);
                        },
                        Err(e) => {
                            proof {
                                let gi = i as int;
                                lemma_types_view_index(out@);
                                assert forall|j: int| 0 <= j < gi implies self.resolve_type_spec(
                                    s as int,
                                    #[trigger] sub_types@[j],
                                    *span,
                                ) == Ok::<TypeView, AsgError>(types_view(out@)[j]) by {
                                    assert(types_view(out@)[j] == out@[j].view_spec());
                                }
                                self.lemma_resolve_types_spec_prefix(
                                    s as int,
                                    sub_types@,
                                    *span,
                                    types_view(out@),
                                    gi,
                                );
                            }
                            return Err(e);
                        },
                    }
                    i = i + 1;
                }
                let r = Type::Tuple(out);
                proof {
                    lemma_types_view_index(r->Tuple_0@);
                    assert forall|k: int| 0 <= k < sub_types@.len() implies self.resolve_type_spec(
                        s as int,
                        #[trigger] sub_types@[k],
                        *span,
                    ) == Ok::<TypeView, AsgError>(types_view(r->Tuple_0@)[k]) by {
                        assert(types_view(r->Tuple_0@)[k] == r->Tuple_0@[k].view_spec());
                    }
                    self.lemma_resolve_types_spec_prefix(
                        s as int,
                        sub_types@,
                        *span,
                        types_view(r->Tuple_0@),
                        sub_types@.len() as int,
                    );
                }
                Ok(r)
            },
            ast::Type::Identifier(name) => match self.resolve_circuit(s, name.name) {
                Some(circuit) => Ok(Type::Circuit(circuit)),
                None => match self.resolve_alias(s, name.name) {
                    Some(alias) => {
                        proof {
                            self.lemma_resolve_in_range(s as int, TableKind::Aliases, name.name.0);
                            assert(self.aliases.len() == self.aliases@.len());
                        }
                        let idx = alias as usize;
                        Ok(self.aliases[idx].represents.duplicate())
                    },
                    None => Err(AsgError::UnresolvedName(name.name, name.span)),
                },
            },
        }
    }

    /// The flattened view of table `kind` from scope `s`: a fresh table
    /// answering every name exactly as the chain resolution from `s` does,
    /// so a binding in a nearer scope wins over a same-named ancestor
    /// binding.
    fn flatten(&self, s: u64, kind: TableKind) -> (r: Table)
        requires
            self.wf(),
            (s as int) < self.scopes@.len(),
        ensures
            forall|k: u64|
                #[trigger] seq_get(table_entries(r), k) == self.resolve_spec(s as int, kind, k),
    {
        let n = self.scopes.len();
        let mut chain: Vec<u64> = Vec::new();
        let mut cur: usize = s as usize;
        chain.push(s);
        loop
            invariant
                self.wf(),
                n == self.scopes@.len(),
                cur < n,
                chain@.len() >= 1,
                chain@[0] == s,
                chain@[chain@.len() - 1] as int == cur as int,
                forall|i: int| 0 <= i < chain@.len() ==> (#[trigger] chain@[i] as int) < n as int,
                forall|i: int|
                    0 <= i < chain@.len() - 1 ==> self.scopes@[#[trigger] chain@[i] as int]
                        .parent_scope == Some(chain@[i + 1]),
            ensures
                chain@.len() >= 1,
                chain@[0] == s,
                forall|i: int| 0 <= i < chain@.len() ==> (#[trigger] chain@[i] as int) < n as int,
                forall|i: int|
                    0 <= i < chain@.len() - 1 ==> self.scopes@[#[trigger] chain@[i] as int]
                        .parent_scope == Some(chain@[i + 1]),
                self.scopes@[chain@[chain@.len() - 1] as int].parent_scope is None,
            decreases cur,
        {
            proof {
                assert(self.scope_wf(cur as int));
            }
            match self.scopes[cur].parent_scope {
                Some(p) => {
                    cur = p as usize;
                    chain.push(p);
                },
                None => {
                    break ;
                },
            }
        }
        let mut res = table_new();
        let mut i: usize = chain.len();
        while i > 0
            invariant
                self.wf(),
                n == self.scopes@.len(),
                chain@.len() >= 1,
                chain@[0] == s,
                (s as int) < n as int,
                self.scopes@[chain@[chain@.len() - 1] as int].parent_scope is None,
                forall|t: int| 0 <= t < chain@.len() ==> (#[trigger] chain@[t] as int) < n as int,
                forall|t: int|
                    0 <= t < chain@.len() - 1 ==> self.scopes@[#[trigger] chain@[t] as int]
                        .parent_scope == Some(chain@[t + 1]),
                0 <= i <= chain@.len(),
                forall|k: u64|
                    #[trigger] seq_get(table_entries(res), k) == (if i == chain@.len() {
                        None::<u64>
                    } else {
                        self.resolve_spec(chain@[i as int] as int, kind, k)
                    }),
            decreases i,
        {
            i = i - 1;
            let c = chain[i] as usize;
            proof {
                assert(self.scope_wf(c as int));
                assert(self.table_ok(c as int, kind));
            }
            let ghost prev_entries = table_entries(res);
            let ghost tab = self.scope_table(c as int, kind);
            let ps = table_pairs(Self::table_of(&self.scopes[c], kind));
            let mut j: usize = 0;
            while j < ps.len()
                invariant
                    self.wf(),
                    n == self.scopes@.len(),
                    (c as int) < n as int,
                    tab == self.scope_table(c as int, kind),
                    unique_keys(tab),
                    ps@ == tab,
                    0 <= j <= ps@.len(),
                    forall|k: u64|
                        #[trigger] seq_get(table_entries(res), k) == (match seq_get(
                            tab.take(j as int),
                            k,
                        ) {
                            Option::Some(v) => Some(v),
                            Option::None => seq_get(prev_entries, k),
                        }),
                decreases ps@.len() - j,
            {
                let p = ps[j];
                let ghost res_before = table_entries(res);
                table_insert(&mut res, p.0, p.1);
                proof {
                    assert(tab.take(j + 1) =~= tab.take(j as int).push(tab[j as int]));
                    assert forall|k: u64|
                        #[trigger] seq_get(table_entries(res), k) == (match seq_get(
                            tab.take(j + 1),
                            k,
                        ) {
                            Option::Some(v) => Some(v),
                            Option::None => seq_get(prev_entries, k),
                        }) by {
                        lemma_seq_set_get(res_before, p.0, p.1, k);
                        lemma_seq_get_append_one(tab.take(j as int), tab[j as int], k);
                        if k == p.0 {
                            if seq_get(tab.take(j as int), k) is Some {
                                let v = seq_get(tab.take(j as int), k)->Some_0;
                                lemma_seq_get_index(tab.take(j as int), k, v);
                                let idx = choose|idx: int|
                                    0 <= idx < tab.take(j as int).len() && tab.take(j as int)[idx]
                                        == (k, v);
                                assert(tab[idx] == (k, v));
                                assert(tab[idx].0 == tab[j as int].0);
                                assert(false);
                            }
                        }
                    }
                }
                j = j + 1;
            }
            proof {
                assert(tab.take(ps@.len() as int) =~= tab);
                assert forall|k: u64|
                    #[trigger] seq_get(table_entries(res), k) == self.resolve_spec(
                        chain@[i as int] as int,
                        kind,
                        k,
                    ) by {
                    if i as int == chain@.len() - 1 {
                        assert(self.scopes@[c as int].parent_scope is None);
                    } else {
                        assert(self.scopes@[c as int].parent_scope == Some(chain@[i + 1]));
                    }
                }
            }
        }
        res
    }

    /// The full map of functions visible from scope `s`: every name bound
    /// in `s` or an ancestor, each answering as chain resolution from `s`
    /// does, so `s`'s binding wins over a same-named ancestor binding.
    pub fn get_functions(&self, s: u64) -> (r: Table)
        requires
            self.wf(),
            (s as int) < self.scopes@.len(),
        ensures
            forall|k: u64|
                #[trigger] seq_get(table_entries(r), k) == self.resolve_spec(
                    s as int,
                    TableKind::Functions,
                    k,
                ),
    {
        self.flatten(s, TableKind::Functions)
    }

    /// The full map of circuits visible from scope `s`: every name bound
    /// in `s` or an ancestor, each answering as chain resolution from `s`
    /// does, so `s`'s binding wins over a same-named ancestor binding.
    pub fn get_circuits(&self, s: u64) -> (r: Table)
        requires
            self.wf(),
            (s as int) < self.scopes@.len(),
        ensures
            forall|k: u64|
                #[trigger] seq_get(table_entries(r), k) == self.resolve_spec(
                    s as int,
                    TableKind::Circuits,
                    k,
                ),
    {
        self.flatten(s, TableKind::Circuits)
    }

    /// The full map of global constants visible from scope `s`: every name
    /// bound in `s` or an ancestor, each answering as chain resolution from
    /// `s` does, so `s`'s binding wins over a same-named ancestor binding.
    pub fn get_global_consts(&self, s: u64) -> (r: Table)
        requires
            self.wf(),
            (s as int) < self.scopes@.len(),
        ensures
            forall|k: u64|
                #[trigger] seq_get(table_entries(r), k) == self.resolve_spec(
                    s as int,
                    TableKind::GlobalConsts,
                    k,
                ),
    {
        self.flatten(s, TableKind::GlobalConsts)
    }
}



impl Arena {
    /// Shadowing: a scope that binds a name in its own table answers
    /// resolution with its own binding — never an ancestor's, however many
    /// ancestors bind the same name.
    pub proof fn lemma_shadowing(self, s: int, kind: TableKind, name: u64)
        requires
            self.wf(),
            0 <= s < self.scopes@.len(),
            seq_has_key(self.scope_table(s, kind), name),
        ensures
            self.resolve_spec(s, kind, name) == seq_get(self.scope_table(s, kind), name),
    {
    }

    /// Chain delegation: a scope without a local binding for a name
    /// answers exactly as its parent does; a root without a local binding
    /// answers "not found".
    pub proof fn lemma_chain_delegation(self, s: int, kind: TableKind, name: u64)
        requires
            self.wf(),
            0 <= s < self.scopes@.len(),
            !seq_has_key(self.scope_table(s, kind), name),
        ensures
            (match self.scopes@[s].parent_scope {
                Option::Some(p) => self.resolve_spec(s, kind, name) == self.resolve_spec(
                    p as int,
                    kind,
                    name,
                ),
                Option::None => self.resolve_spec(s, kind, name) is None,
            }),
    {
        assert(self.scope_wf(s));
    }

    /// Resolution succeeds exactly when this scope or some ancestor binds
    /// the name; when no scope on the chain binds it, it is "not found".
    pub proof fn lemma_resolve_some_iff_chain_binds(self, s: int, kind: TableKind, name: u64)
        requires
            self.wf(),
            0 <= s < self.scopes@.len(),
        ensures
            self.resolve_spec(s, kind, name) is Some <==> self.chain_binds(s, kind, name),
        decreases s,
    {
        assert(self.scope_wf(s));
        if !seq_has_key(self.scope_table(s, kind), name) {
            match self.scopes@[s].parent_scope {
                Option::Some(p) => {
                    self.lemma_resolve_some_iff_chain_binds(p as int, kind, name);
                },
                Option::None => {},
            }
        }
    }

    /// Alias resolution yields exactly the alias's stored resolved type:
    /// the stored type is handed out unchanged, never re-resolved, so
    /// resolving the same named type any number of times yields the same
    /// result.
    pub proof fn lemma_alias_resolution(self, s: int, name: ast::Identifier, span: Span)
        requires
            self.wf(),
            0 <= s < self.scopes@.len(),
            self.resolve_spec(s, TableKind::Circuits, name.name.0) is None,
            self.resolve_spec(s, TableKind::Aliases, name.name.0) is Some,
        ensures
            self.resolve_type_spec(s, ast::Type::Identifier(name), span) == Ok::<
                TypeView,
                AsgError,
            >(
                self.aliases@[self.resolve_spec(s, TableKind::Aliases, name.name.0)->Some_0 as int]
                    .represents.view_spec(),
            ),
    {
    }
}

/// Subscope isolation: a change confined to scope `t` — such as a binding
/// inserted into a freshly made subscope — is invisible to resolution from
/// any scope `s` allocated before `t`; in particular, a binding inserted
/// into a subscope is not visible via lookup on its parent.
pub proof fn lemma_subscope_isolation(
    pre: Arena,
    post: Arena,
    t: int,
    s: int,
    kind: TableKind,
    name: u64,
)
    requires
        pre.wf(),
        post.wf(),
        pre.scopes@.len() <= post.scopes@.len(),
        forall|i: int| 0 <= i < pre.scopes@.len() && i != t ==> post.scopes@[i] == pre.scopes@[i],
        0 <= s < pre.scopes@.len(),
        s < t,
    ensures
        post.resolve_spec(s, kind, name) == pre.resolve_spec(s, kind, name),
    decreases s,
{
    assert(pre.scope_wf(s));
    assert(post.scope_wf(s));
    assert(post.scopes@[s] == pre.scopes@[s]);
    if !seq_has_key(pre.scope_table(s, kind), name) {
        match pre.scopes@[s].parent_scope {
            Option::Some(p) => {
                lemma_subscope_isolation(pre, post, t, p as int, kind, name);
            },
            Option::None => {},
        }
    }
}


} // verus!
