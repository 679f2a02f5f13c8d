//! The descriptor tables of all traced processes.
//!
//! A process that was forked has a table of its own, copied from its
//! parent's. A thread-style clone shares the table of its parent: what
//! either does to it, the other sees.

use crate::fdtable::{FdTable, FdTableView};
use std::collections::HashMap;
use vstd::prelude::*;

verus! {

broadcast use vstd::std_specs::hash::group_hash_axioms;

/// Which table each process uses, and what the tables hold.
pub struct RegistryView {
    /// Process to the number of its table.
    pub slot_of: Map<i32, int>,
    /// The tables, by number.
    pub tables: Seq<FdTableView>,
}

impl RegistryView {
    /// Every process uses a table that exists.
    pub open spec fn valid(self) -> bool {
        forall|pid: i32| #[trigger]
            self.slot_of.contains_key(pid) ==> 0 <= self.slot_of[pid] < self.tables.len()
    }

    /// The process has a table.
    pub open spec fn knows(self, pid: i32) -> bool {
        self.slot_of.contains_key(pid)
    }

    /// The table of the process.
    pub open spec fn table_of(self, pid: i32) -> FdTableView {
        self.tables[self.slot_of[pid]]
    }

    /// A descriptor of some table stands for the file object `id`.
    pub open spec fn uses_file(self, id: u64) -> bool {
        exists|i: int| 0 <= i < self.tables.len() && (#[trigger] self.tables[i]).uses_file(id)
    }

    /// The registry after the table that `pid` uses was changed to `t`.
    pub open spec fn written(self, pid: i32, t: FdTableView) -> RegistryView {
        RegistryView { tables: self.tables.update(self.slot_of[pid], t), ..self }
    }

    /// `after` is this registry with the table that `pid` uses changed to
    /// `t`, said table by table.
    pub open spec fn becomes(self, pid: i32, t: FdTableView, after: RegistryView) -> bool {
        &&& after.slot_of == self.slot_of
        &&& after.tables.len() == self.tables.len()
        &&& forall|i: int|
            0 <= i < self.tables.len() ==> #[trigger] after.tables[i] == if i
                == self.slot_of[pid] {
                t
            } else {
                self.tables[i]
            }
    }

    /// The registry after `child` got a table of its own that holds `t`.
    pub open spec fn with_own(self, child: i32, t: FdTableView) -> RegistryView {
        RegistryView {
            slot_of: self.slot_of.insert(child, self.tables.len() as int),
            tables: self.tables.push(t),
        }
    }

    /// The registry after `child` got a copy of the table of `parent`.
    pub open spec fn forked(self, parent: i32, child: i32) -> RegistryView {
        self.with_own(child, self.table_of(parent))
    }

    /// The registry after `child` came to share the table of `parent`.
    pub open spec fn shared(self, parent: i32, child: i32) -> RegistryView {
        RegistryView { slot_of: self.slot_of.insert(child, self.slot_of[parent]), ..self }
    }
}

/// A registry that became another by a change to one table is the registry
/// with that table written.
pub proof fn lemma_becomes_written(r: RegistryView, pid: i32, t: FdTableView, after: RegistryView)
    requires
        r.valid(),
        r.knows(pid),
        r.becomes(pid, t, after),
    ensures
        after == r.written(pid, t),
{
    assert(after.tables =~= r.written(pid, t).tables);
}

/// A copy is independent. After `child` got a copy of the table of
/// `parent`, the two tables hold the same; and whatever one of the two
/// processes then makes of its table, the table of the other stays as it
/// was.
pub proof fn lemma_copy_is_independent(
    r: RegistryView,
    parent: i32,
    child: i32,
    t: FdTableView,
)
    requires
        r.valid(),
        r.knows(parent),
        parent != child,
    ensures
        r.forked(parent, child).valid(),
        r.forked(parent, child).table_of(child) == r.table_of(parent),
        r.forked(parent, child).table_of(parent) == r.table_of(parent),
        r.forked(parent, child).written(child, t).table_of(parent) == r.table_of(parent),
        r.forked(parent, child).written(child, t).table_of(child) == t,
        r.forked(parent, child).written(parent, t).table_of(child) == r.table_of(parent),
        r.forked(parent, child).written(parent, t).table_of(parent) == t,
{
}

/// A shared table is one table. After `child` came to share the table of
/// `parent`, whatever one of the two processes makes of the table, the
/// other sees.
pub proof fn lemma_shared_is_visible(r: RegistryView, parent: i32, child: i32, t: FdTableView)
    requires
        r.valid(),
        r.knows(parent),
    ensures
        r.shared(parent, child).valid(),
        r.shared(parent, child).table_of(child) == r.table_of(parent),
        r.shared(parent, child).written(child, t).table_of(parent) == t,
        r.shared(parent, child).written(child, t).table_of(child) == t,
        r.shared(parent, child).written(parent, t).table_of(child) == t,
        r.shared(parent, child).written(parent, t).table_of(parent) == t,
{
}

/// The tables of the traced processes.
#[derive(Debug)]
pub struct FdTables {
    slot_of: HashMap<i32, usize>,
    tables: Vec<FdTable>,
}

impl View for FdTables {
    type V = RegistryView;

    closed spec fn view(&self) -> RegistryView {
        RegistryView {
            slot_of: self.slot_of@.map_values(|s: usize| s as int),
            tables: self.tables@.map_values(|t: FdTable| t@),
        }
    }
}

impl FdTables {
    /// Every process uses a table that exists, and every table is sound.
    pub closed spec fn wf(&self) -> bool {
        &&& forall|pid: i32| #[trigger]
            self.slot_of@.contains_key(pid) ==> self.slot_of@[pid] < self.tables@.len()
        &&& forall|i: int| 0 <= i < self.tables@.len() ==> (#[trigger] self.tables@[i]).wf()
    }

    /// The view of a well-formed registry is valid.
    pub proof fn lemma_valid(&self)
        requires
            self.wf(),
        ensures
            self@.valid(),
    {
    }

    /// A registry without processes.
    pub fn new() -> (r: Self)
        ensures
            r.wf(),
            r@.slot_of == Map::<i32, int>::empty(),
            r@.tables == Seq::<FdTableView>::empty(),
    {
        let r = FdTables { slot_of: HashMap::new(), tables: Vec::new() };
        assert(r@.slot_of =~= Map::<i32, int>::empty());
        assert(r@.tables =~= Seq::<FdTableView>::empty());
        r
    }

    /// Whether a descriptor of some table stands for the file object `id`.
    pub fn uses_file(&self, id: u64) -> (r: bool)
        requires
            self.wf(),
        ensures
            r == self@.uses_file(id),
    {
        let mut i: usize = 0;
        while i < self.tables.len()
            invariant
                self.wf(),
                i <= self.tables@.len(),
                forall|j: int| 0 <= j < i ==> !(#[trigger] self@.tables[j]).uses_file(id),
            decreases self.tables.len() - i,
        {
            if self.tables[i].uses_file(id) {
                assert(self@.tables[i as int] == self.tables@[i as int]@);
                return true;
            }
            assert(self@.tables[i as int] == self.tables@[i as int]@);
            i += 1;
        }
        false
    }

    /// Whether the process has a table.
    pub fn knows(&self, pid: i32) -> (r: bool)
        ensures
            r == self@.knows(pid),
    {
        self.slot_of.contains_key(&pid)
    }

    /// Gives the process a fresh table, with the three standard streams, if
    /// it has none yet.
    pub fn get_fd_table(&mut self, pid: i32)
        requires
            old(self).wf(),
        ensures
            final(self).wf(),
            final(self)@.knows(pid),
            old(self)@.knows(pid) ==> final(self)@ == old(self)@,
            !old(self)@.knows(pid) ==> final(self)@ == old(self)@.with_own(
                pid,
                crate::fdtable::fresh_table(),
            ),
    {
        if !self.slot_of.contains_key(&pid) {
            self.insert_fd_table(pid, FdTable::new());
        }
    }

    /// Gives the process the table `table` as its own.
    pub fn insert_fd_table(&mut self, pid: i32, table: FdTable)
        requires
            old(self).wf(),
            table.wf(),
        ensures
            final(self).wf(),
            final(self)@ == old(self)@.with_own(pid, table@),
    {
        let slot = self.tables.len();
        self.tables.push(table);
        self.slot_of.insert(pid, slot);
        proof {
            assert(final(self)@.slot_of =~= old(self)@.slot_of.insert(pid, slot as int));
            assert(final(self)@.tables =~= old(self)@.tables.push(table@));
        }
    }

    /// Gives `child` a copy of the table of `parent`.
    pub fn fork(&mut self, parent: i32, child: i32)
        requires
            old(self).wf(),
            old(self)@.knows(parent),
        ensures
            final(self).wf(),
            final(self)@ == old(self)@.forked(parent, child),
    {
        let slot = *self.slot_of.get(&parent).unwrap();
        let copy = self.tables[slot].deep_clone();
        self.insert_fd_table(child, copy);
    }

    /// Lets `child` share the table of `parent`.
    pub fn share(&mut self, parent: i32, child: i32)
        requires
            old(self).wf(),
            old(self)@.knows(parent),
        ensures
            final(self).wf(),
            final(self)@ == old(self)@.shared(parent, child),
    {
        let slot = *self.slot_of.get(&parent).unwrap();
        self.slot_of.insert(child, slot);
        proof {
            assert(final(self)@.slot_of =~= old(self)@.slot_of.insert(
                child,
                old(self)@.slot_of[parent],
            ));
        }
    }

    /// The table of the process.
    pub fn table(&self, pid: i32) -> (r: &FdTable)
        requires
            self.wf(),
            self@.knows(pid),
        ensures
            r.wf(),
            r@ == self@.table_of(pid),
    {
        let slot = *self.slot_of.get(&pid).unwrap();
        &self.tables[slot]
    }

    /// The table of the process, to be changed in place. Every process that
    /// shares the table sees the change.
    pub fn table_mut(&mut self, pid: i32) -> (r: &mut FdTable)
        requires
            old(self).wf(),
            old(self)@.knows(pid),
        ensures
            r.wf(),
            r@ == old(self)@.table_of(pid),
            final(r).wf() ==> final(self).wf(),
            old(self)@.becomes(pid, final(r)@, final(self)@),
    {
        let slot = *self.slot_of.get(&pid).unwrap();
        &mut self.tables[slot]
    }
}

/// A registry without processes.
pub fn init_fd_tables() -> (r: FdTables)
    ensures
        r.wf(),
        r@.slot_of == Map::<i32, int>::empty(),
        r@.tables == Seq::<FdTableView>::empty(),
{
    FdTables::new()
}

} // verus!
