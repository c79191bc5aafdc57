//! The constraint system: the configure-time registry of columns, selectors,
//! gates and lookup arguments. It is built once per circuit shape and is
//! immutable while witnesses are assigned and checked.

use vstd::prelude::*;
use crate::column::{Column, ColumnKind, Selector, TableColumn};
use crate::expression::Expr;

verus! {

/// A selector-gated set of polynomial identities.
///
/// On every row where the selector is active, each sub-constraint expression
/// must evaluate to zero; on other rows it is vacuously satisfied.
pub struct Gate {
    pub name: &'static str,
    pub selector: Selector,
    pub polys: Vec<(&'static str, Expr)>,
}

/// A lookup argument: on every row where the guarding selector is active, the
/// tuple of input-expression values must appear among the rows of the table
/// columns.
pub struct Lookup {
    pub name: &'static str,
    pub selector: Selector,
    pub inputs: Vec<Expr>,
    pub tables: Vec<TableColumn>,
}

/// The registry a single `configure` call builds.
pub struct ConstraintSystem {
    pub num_advice: usize,
    pub num_fixed: usize,
    pub num_instance: usize,
    pub num_tables: usize,
    pub num_selectors: usize,
    pub advice_eq: Vec<bool>,
    pub instance_eq: Vec<bool>,
    pub gates: Vec<Gate>,
    pub lookups: Vec<Lookup>,
}

impl ConstraintSystem {
    /// The structural invariant every sequence of configure calls preserves.
    pub open spec fn wf(self) -> bool {
        &&& self.advice_eq.len() == self.num_advice
        &&& self.instance_eq.len() == self.num_instance
        &&& forall|g: int|
            0 <= g < self.gates.len() ==> (#[trigger] self.gates[g]).selector.index
                < self.num_selectors
        &&& forall|l: int|
            0 <= l < self.lookups.len() ==> {
                let lk = #[trigger] self.lookups[l];
                &&& lk.selector.index < self.num_selectors
                &&& lk.inputs.len() == lk.tables.len()
                &&& forall|t: int|
                    0 <= t < lk.tables.len() ==> (#[trigger] lk.tables[t]).index
                        < self.num_tables
            }
    }

    /// Whether a column may take part in copy constraints.
    pub open spec fn eq_enabled(self, c: Column) -> bool {
        match c.kind {
            ColumnKind::Advice => c.index < self.advice_eq.len() && self.advice_eq[c.index as int],
            ColumnKind::Instance => c.index < self.instance_eq.len()
                && self.instance_eq[c.index as int],
            ColumnKind::Fixed => false,
        }
    }

    /// An empty registry: no columns, no selectors, no constraints.
    pub fn new() -> (cs: ConstraintSystem)
        ensures
            cs.wf(),
            cs.num_advice == 0,
            cs.num_fixed == 0,
            cs.num_instance == 0,
            cs.num_tables == 0,
            cs.num_selectors == 0,
            cs.gates@ =~= Seq::<Gate>::empty(),
            cs.lookups@ =~= Seq::<Lookup>::empty(),
    {
        ConstraintSystem {
            num_advice: 0,
            num_fixed: 0,
            num_instance: 0,
            num_tables: 0,
            num_selectors: 0,
            advice_eq: Vec::new(),
            instance_eq: Vec::new(),
            gates: Vec::new(),
            lookups: Vec::new(),
        }
    }

    /// Allocates a fresh advice (witness) column.
    pub fn advice_column(&mut self) -> (c: Column)
        requires
            old(self).wf(),
            old(self).num_advice < usize::MAX,
        ensures
            final(self).wf(),
            c == (Column { kind: ColumnKind::Advice, index: old(self).num_advice }),
            final(self).num_advice == old(self).num_advice + 1,
            final(self).advice_eq@ == old(self).advice_eq@.push(false),
            final(self).num_fixed == old(self).num_fixed,
            final(self).num_instance == old(self).num_instance,
            final(self).num_tables == old(self).num_tables,
            final(self).num_selectors == old(self).num_selectors,
            final(self).instance_eq == old(self).instance_eq,
            final(self).gates == old(self).gates,
            final(self).lookups == old(self).lookups,
            final(self).eq_unchanged_but_advice(*old(self)),
    {
        let index = self.num_advice;
        self.num_advice = self.num_advice + 1;
        self.advice_eq.push(false);
        Column { kind: ColumnKind::Advice, index }
    }

    /// Old and new registry agree on equality flags of instance columns.
    pub open spec fn eq_unchanged_but_advice(self, prev: ConstraintSystem) -> bool {
        forall|c: Column| c.kind == ColumnKind::Instance ==> self.eq_enabled(c) == prev.eq_enabled(c)
    }

    /// Allocates a fresh fixed (constant) column.
    pub fn fixed_column(&mut self) -> (c: Column)
        requires
            old(self).wf(),
            old(self).num_fixed < usize::MAX,
        ensures
            final(self).wf(),
            c == (Column { kind: ColumnKind::Fixed, index: old(self).num_fixed }),
            *final(self) == (ConstraintSystem { num_fixed: (old(self).num_fixed + 1) as usize, ..*old(self) }),
    {
        let index = self.num_fixed;
        self.num_fixed = self.num_fixed + 1;
        Column { kind: ColumnKind::Fixed, index }
    }

    /// Allocates a fresh instance (public-input) column.
    pub fn instance_column(&mut self) -> (c: Column)
        requires
            old(self).wf(),
            old(self).num_instance < usize::MAX,
        ensures
            final(self).wf(),
            c == (Column { kind: ColumnKind::Instance, index: old(self).num_instance }),
            final(self).num_instance == old(self).num_instance + 1,
            final(self).instance_eq@ == old(self).instance_eq@.push(false),
            final(self).num_advice == old(self).num_advice,
            final(self).num_fixed == old(self).num_fixed,
            final(self).num_tables == old(self).num_tables,
            final(self).num_selectors == old(self).num_selectors,
            final(self).advice_eq == old(self).advice_eq,
            final(self).gates == old(self).gates,
            final(self).lookups == old(self).lookups,
            forall|c2: Column|
                c2.kind == ColumnKind::Advice ==> final(self).eq_enabled(c2) == old(
                    self,
                ).eq_enabled(c2),
    {
        let index = self.num_instance;
        self.num_instance = self.num_instance + 1;
        self.instance_eq.push(false);
        Column { kind: ColumnKind::Instance, index }
    }

    /// Allocates a fresh lookup-table column.
    pub fn lookup_table_column(&mut self) -> (c: TableColumn)
        requires
            old(self).wf(),
            old(self).num_tables < usize::MAX,
        ensures
            final(self).wf(),
            c == (TableColumn { index: old(self).num_tables }),
            *final(self) == (ConstraintSystem { num_tables: (old(self).num_tables + 1) as usize, ..*old(self) }),
    {
        let index = self.num_tables;
        self.num_tables = self.num_tables + 1;
        TableColumn { index }
    }

    /// Allocates a fresh ordinary selector.
    pub fn selector(&mut self) -> (s: Selector)
        requires
            old(self).wf(),
            old(self).num_selectors < usize::MAX,
        ensures
            final(self).wf(),
            s == (Selector { index: old(self).num_selectors, complex: false }),
            *final(self) == (ConstraintSystem { num_selectors: (old(self).num_selectors + 1) as usize, ..*old(self) }),
    {
        let index = self.num_selectors;
        self.num_selectors = self.num_selectors + 1;
        Selector { index, complex: false }
    }

    /// Allocates a fresh complex selector, the kind a lookup argument may be
    /// guarded by.
    pub fn complex_selector(&mut self) -> (s: Selector)
        requires
            old(self).wf(),
            old(self).num_selectors < usize::MAX,
        ensures
            final(self).wf(),
            s == (Selector { index: old(self).num_selectors, complex: true }),
            *final(self) == (ConstraintSystem { num_selectors: (old(self).num_selectors + 1) as usize, ..*old(self) }),
    {
        let index = self.num_selectors;
        self.num_selectors = self.num_selectors + 1;
        Selector { index, complex: true }
    }

    /// Marks a column as eligible for copy constraints. Marking a column
    /// twice is a no-op, not an error.
    pub fn enable_equality(&mut self, c: Column)
        requires
            old(self).wf(),
            c.kind == ColumnKind::Advice ==> c.index < old(self).num_advice,
            c.kind == ColumnKind::Instance ==> c.index < old(self).num_instance,
            c.kind != ColumnKind::Fixed,
        ensures
            final(self).wf(),
            final(self).eq_enabled(c),
            forall|c2: Column| c2 != c ==> final(self).eq_enabled(c2) == old(self).eq_enabled(c2),
            c.kind == ColumnKind::Advice ==> final(self).advice_eq@ == old(self).advice_eq@.update(
                c.index as int,
                true,
            ) && final(self).instance_eq == old(self).instance_eq,
            c.kind == ColumnKind::Instance ==> final(self).instance_eq@ == old(
                self,
            ).instance_eq@.update(c.index as int, true) && final(self).advice_eq == old(
                self,
            ).advice_eq,
            final(self).num_advice == old(self).num_advice,
            final(self).num_fixed == old(self).num_fixed,
            final(self).num_instance == old(self).num_instance,
            final(self).num_tables == old(self).num_tables,
            final(self).num_selectors == old(self).num_selectors,
            final(self).gates == old(self).gates,
            final(self).lookups == old(self).lookups,
    {
        match c.kind {
            ColumnKind::Advice => {
                self.advice_eq.set(c.index, true);
            },
            ColumnKind::Instance => {
                self.instance_eq.set(c.index, true);
            },
            ColumnKind::Fixed => {
            },
        }
    }

    /// Registers a gate: a named list of sub-constraints, each implicitly
    /// multiplied by its guarding selector.
    pub fn create_gate(&mut self, name: &'static str, selector: Selector, polys: Vec<(&'static str, Expr)>)
        requires
            old(self).wf(),
            selector.index < old(self).num_selectors,
        ensures
            final(self).wf(),
            final(self).gates@ == old(self).gates@.push(Gate { name, selector, polys }),
            final(self).num_advice == old(self).num_advice,
            final(self).num_fixed == old(self).num_fixed,
            final(self).num_instance == old(self).num_instance,
            final(self).num_tables == old(self).num_tables,
            final(self).num_selectors == old(self).num_selectors,
            final(self).advice_eq == old(self).advice_eq,
            final(self).instance_eq == old(self).instance_eq,
            final(self).lookups == old(self).lookups,
    {
        self.gates.push(Gate { name, selector, polys });
    }

    /// Registers a lookup argument. Only a complex selector may guard one.
    pub fn lookup(
        &mut self,
        name: &'static str,
        selector: Selector,
        inputs: Vec<Expr>,
        tables: Vec<TableColumn>,
    )
        requires
            old(self).wf(),
            selector.index < old(self).num_selectors,
            selector.complex,
            inputs.len() == tables.len(),
            forall|t: int| 0 <= t < tables.len() ==> (#[trigger] tables[t]).index < old(self).num_tables,
        ensures
            final(self).wf(),
            final(self).lookups@ == old(self).lookups@.push(Lookup { name, selector, inputs, tables }),
            final(self).num_advice == old(self).num_advice,
            final(self).num_fixed == old(self).num_fixed,
            final(self).num_instance == old(self).num_instance,
            final(self).num_tables == old(self).num_tables,
            final(self).num_selectors == old(self).num_selectors,
            final(self).advice_eq == old(self).advice_eq,
            final(self).instance_eq == old(self).instance_eq,
            final(self).gates == old(self).gates,
    {
        self.lookups.push(Lookup { name, selector, inputs, tables });
    }
}

} // verus!
