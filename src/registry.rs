use vstd::prelude::*;
use crate::table::{has_name, lemma_insert_binds, names_unique, index_of, insert_model, remove_model, NameTable};

verus! {

/// Live agent transports keyed by agent name. A later registration under a
/// name replaces the earlier one.
pub struct ConnectionRegistry<T> {
    table: NameTable<T>,
}

/// Registering a name twice leaves exactly one entry for it, bound to the
/// second transport.
pub proof fn lemma_reregister_replaces<T>(s: Seq<(Seq<char>, T)>, name: Seq<char>, t1: T, t2: T)
    requires
        names_unique(s),
    ensures
        ({
            let s2 = insert_model(insert_model(s, name, t1), name, t2);
            &&& names_unique(s2)
            &&& exists|i: int| 0 <= i < s2.len() && s2[i] == (name, t2)
            &&& forall|i: int| 0 <= i < s2.len() && s2[i].0 == name ==> s2[i].1 == t2
        }),
{
    let s1 = insert_model(s, name, t1);
    lemma_insert_binds(s, name, t1);
    lemma_insert_binds(s1, name, t2);
    let s2 = insert_model(s1, name, t2);
    let j = index_of(s2, name);
    assert(s2[j] == (name, t2));
    assert forall|i: int| 0 <= i < s2.len() && s2[i].0 == name implies s2[i].1 == t2 by {
        if i != j {
            assert(s2[i].0 != s2[j].0);
        }
    };
}

impl<T> View for ConnectionRegistry<T> {
    type V = Seq<(Seq<char>, T)>;

    closed spec fn view(&self) -> Seq<(Seq<char>, T)> {
        self.table@
    }
}

impl<T> ConnectionRegistry<T> {
    /// No two entries share a name.
    pub open spec fn wf(&self) -> bool {
        names_unique(self@)
    }

    /// An empty registry.
    pub fn new() -> (r: Self)
        ensures
            r.wf(),
            r@ == Seq::<(Seq<char>, T)>::empty(),
    {
        ConnectionRegistry { table: NameTable::new() }
    }

    /// Binds `name` to `transport`, returning the transport it replaced so
    /// that the caller may close it.
    pub fn register(&mut self, name: String, transport: T) -> (r: Option<T>)
        requires
            old(self).wf(),
        ensures
            final(self).wf(),
            final(self)@ == insert_model(old(self)@, name@, transport),
            r == (if has_name(old(self)@, name@) {
                Some(old(self)@[index_of(old(self)@, name@)].1)
            } else {
                None::<T>
            }),
    {
        self.table.insert(name, transport)
    }

    /// Removes the entry for `name` and hands back its transport; removing an
    /// absent name changes nothing.
    pub fn deregister(&mut self, name: &str) -> (r: Option<T>)
        requires
            old(self).wf(),
        ensures
            final(self).wf(),
            final(self)@ == remove_model(old(self)@, name@),
            r == (if has_name(old(self)@, name@) {
                Some(old(self)@[index_of(old(self)@, name@)].1)
            } else {
                None::<T>
            }),
    {
        self.table.remove(name)
    }

    /// Number of registered agents.
    pub fn count(&self) -> (r: usize)
        ensures
            r == self@.len(),
    {
        self.table.len()
    }

    /// Whether an agent is registered under `name`.
    pub fn contains(&self, name: &str) -> (r: bool)
        requires
            self.wf(),
        ensures
            r == has_name(self@, name@),
    {
        self.table.find(name).is_some()
    }

    /// The transport registered under `name`.
    pub fn get(&self, name: &str) -> (r: Option<&T>)
        requires
            self.wf(),
        ensures
            match r {
                Some(t) => has_name(self@, name@) && *t == self@[index_of(self@, name@)].1,
                None => !has_name(self@, name@),
            },
    {
        self.table.get(name)
    }

    /// The registered names, in registry order.
    pub fn names(&self) -> (r: Vec<String>)
        ensures
            r@.len() == self@.len(),
            forall|i: int| 0 <= i < r@.len() ==> #[trigger] r@[i]@ == self@[i].0,
    {
        self.table.names()
    }
}

impl<T: Clone> ConnectionRegistry<T> {
    /// A copy of the current membership: each name with a clone of its
    /// transport, in registry order.
    pub fn snapshot(&self) -> (r: Vec<(String, T)>)
        ensures
            r@.len() == self@.len(),
            forall|i: int|
                0 <= i < r@.len() ==> #[trigger] r@[i].0@ == self@[i].0 && cloned(
                    self@[i].1,
                    r@[i].1,
                ),
    {
        self.table.cloned_entries()
    }
}

} // verus!
