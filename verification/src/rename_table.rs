//! Per-block rename tables for the static-single-assignment pass: each
//! basic block tracks the current SSA name of every original name it
//! rebinds, and delegates other lookups to its enclosing block's table.

use vstd::prelude::*;
use crate::span::Symbol;
use crate::table::{
    Table, entry_keys, lemma_seq_set_get, seq_get, seq_has_key, seq_set, table_entries, table_get,
    table_insert, table_keys, table_new,
};

verus! {

/// Tracks the names assigned by static single assignment in a single block.
#[derive(Debug)]
pub struct RenameTable {
    /// The rename table of the parent block.
    pub parent: Option<Box<RenameTable>>,
    /// The mapping from names in the original program to their current SSA
    /// names.
    pub mapping: Table,
}

impl RenameTable {
    /// The renames recorded in this block alone, in insertion order.
    pub open spec fn local_entries(self) -> Seq<(u64, u64)> {
        table_entries(self.mapping)
    }

    /// The name `symbol` currently maps to: this block's binding when the
    /// block rebinds it, else the nearest enclosing block's.
    pub open spec fn lookup_spec(self, symbol: Symbol) -> Option<Symbol>
        decreases self,
    {
        match seq_get(self.local_entries(), symbol.0) {
            Option::Some(v) => Some(Symbol(v)),
            Option::None => match self.parent {
                Option::Some(p) => p.lookup_spec(symbol),
                Option::None => None,
            },
        }
    }

    /// A table for a block nested inside the block `parent` tracks, with no
    /// renames of its own yet.
    pub fn nested(parent: RenameTable) -> (r: RenameTable)
        ensures
            r.parent == Some(Box::new(parent)),
            r.local_entries() == Seq::<(u64, u64)>::empty(),
    {
        RenameTable { parent: Some(Box::new(parent)), mapping: table_new() }
    }

    /// The symbols that were renamed in the current basic block, in
    /// insertion order.
    pub fn get_local_names(&self) -> (r: Vec<Symbol>)
        ensures
            r@.len() == self.local_entries().len(),
            forall|i: int|
                0 <= i < r@.len() ==> r@[i] == Symbol(entry_keys(self.local_entries())[i]),
    {
        let ks = table_keys(&self.mapping);
        let mut out: Vec<Symbol> = Vec::new();
        let mut i: usize = 0;
        while i < ks.len()
            invariant
                ks@ == entry_keys(self.local_entries()),
                0 <= i <= ks@.len(),
                out@.len() == i,
                forall|j: int| 0 <= j < i ==> out@[j] == Symbol(ks@[j]),
            decreases ks@.len() - i,
        {
            out.push(Symbol(ks[i]));
            i = i + 1;
        }
        out
    }

    /// Records that `symbol` is now known as `new_symbol` in this block,
    /// creating the entry or overwriting this block's previous one.
    pub fn update(&mut self, symbol: Symbol, new_symbol: Symbol)
        ensures
            final(self).parent == old(self).parent,
            final(self).local_entries() == seq_set(
                old(self).local_entries(),
                symbol.0,
                new_symbol.0,
            ),
    {
        table_insert(&mut self.mapping, symbol.0, new_symbol.0);
    }

    /// Looks up the new name for `symbol`, recursively checking the parent
    /// if this block does not rebind it.
    pub fn lookup(&self, symbol: Symbol) -> (r: Option<Symbol>)
        ensures
            r == self.lookup_spec(symbol),
        decreases *self,
    {
        match table_get(&self.mapping, symbol.0) {
            Some(v) => Some(Symbol(v)),
            None => match &self.parent {
                Some(p) => p.lookup(symbol),
                None => None,
            },
        }
    }
}

impl Default for RenameTable {
    /// The table of an outermost block: no parent, no renames.
    fn default() -> (r: Self)
        ensures
            r.parent is None,
            r.local_entries() == Seq::<(u64, u64)>::empty(),
    {
        RenameTable { parent: None, mapping: table_new() }
    }
}

/// Rename shadowing: a block that rebinds a name answers lookups from its
/// own mapping, whatever any enclosing block maps the name to. The enclosing
/// block's own table is a separate value, so its lookups are untouched.
pub proof fn lemma_rename_shadowing(b: RenameTable, n: Symbol, v: u64)
    requires
        seq_get(b.local_entries(), n.0) == Some(v),
    ensures
        b.lookup_spec(n) == Some(Symbol(v)),
{
}

/// Rename delegation: a block that does not rebind a name answers exactly as
/// the enclosing block does.
pub proof fn lemma_rename_delegation(b: RenameTable, p: RenameTable, n: Symbol)
    requires
        !seq_has_key(b.local_entries(), n.0),
        b.parent == Some(Box::new(p)),
    ensures
        b.lookup_spec(n) == p.lookup_spec(n),
{
}

/// After a block records `n -> m`, looking `n` up on that block yields `m`,
/// whether or not the block had rebound `n` before.
pub proof fn lemma_rename_update(pre: RenameTable, post: RenameTable, n: Symbol, m: Symbol)
    requires
        post.local_entries() == seq_set(pre.local_entries(), n.0, m.0),
    ensures
        post.lookup_spec(n) == Some(m),
{
    lemma_seq_set_get(pre.local_entries(), n.0, m.0, n.0);
}

} // verus!
