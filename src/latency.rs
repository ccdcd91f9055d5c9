use vstd::prelude::*;
use crate::codec::strings_view;
use crate::table::{
    has_name, index_of, insert_model, lemma_insert_binds, names_unique, remove_model, table_view,
    NameTable,
};

verus! {

/// Binds every name of `names` to `at`, in order.
pub open spec fn insert_all(s: Seq<(Seq<char>, u64)>, names: Seq<Seq<char>>, at: u64) -> Seq<
    (Seq<char>, u64),
>
    decreases names.len(),
{
    if names.len() == 0 {
        s
    } else {
        insert_model(insert_all(s, names.drop_last(), at), names.last(), at)
    }
}

/// Binding a round's names keeps names distinct, and adds exactly those names.
pub proof fn lemma_insert_all(s: Seq<(Seq<char>, u64)>, names: Seq<Seq<char>>, at: u64)
    requires
        names_unique(s),
    ensures
        names_unique(insert_all(s, names, at)),
        forall|n: Seq<char>| #[trigger] has_name(insert_all(s, names, at), n) <==> (has_name(s, n) || names.contains(n)),
    decreases names.len(),
{
    if names.len() > 0 {
        let d = names.drop_last();
        lemma_insert_all(s, d, at);
        lemma_insert_binds(insert_all(s, d, at), names.last(), at);
        assert forall|n: Seq<char>| #[trigger] has_name(insert_all(s, names, at), n) <==> (has_name(s, n) || names.contains(n)) by {
            if names.contains(n) && n != names.last() {
                let i = choose|i: int| 0 <= i < names.len() && names[i] == n;
                assert(d[i] == n);
            }
            if d.contains(n) {
                let i = choose|i: int| 0 <= i < d.len() && d[i] == n;
                assert(names[i] == n);
            }
            assert(names[names.len() - 1] == names.last());
            assert(insert_all(s, names, at) == insert_model(insert_all(s, d, at), names.last(), at));
            if n != names.last() {
                assert(has_name(insert_all(s, names, at), n) == has_name(insert_all(s, d, at), n));
            }
        };
    }
}

/// Milliseconds from `requested_at` to `observed_at`; zero where the clock
/// went backwards.
pub open spec fn elapsed(requested_at: u64, observed_at: u64) -> u64 {
    if observed_at >= requested_at {
        (observed_at - requested_at) as u64
    } else {
        0
    }
}

/// The samples after `name` replies at `observed_at`: where a ping to it is
/// pending, the elapsed time becomes its latest sample; otherwise unchanged.
pub open spec fn record_reply(
    pending: Seq<(Seq<char>, u64)>,
    samples: Seq<(Seq<char>, u64)>,
    name: Seq<char>,
    observed_at: u64,
) -> Seq<(Seq<char>, u64)> {
    if has_name(pending, name) {
        insert_model(samples, name, elapsed(pending[index_of(pending, name)].1, observed_at))
    } else {
        samples
    }
}

/// Outstanding ping requests and the latest measured round trips, both keyed
/// by agent name. Times are in milliseconds.
pub struct LatencyTracker {
    pending: NameTable<u64>,
    samples: NameTable<u64>,
}

impl LatencyTracker {
    /// Agents with an unanswered ping, with the time it was sent.
    pub closed spec fn pending(&self) -> Seq<(Seq<char>, u64)> {
        self.pending@
    }

    /// Agents with a completed round, with the latest round-trip time.
    pub closed spec fn samples(&self) -> Seq<(Seq<char>, u64)> {
        self.samples@
    }

    /// No name occurs twice in either table.
    pub open spec fn wf(&self) -> bool {
        names_unique(self.pending()) && names_unique(self.samples())
    }

    /// A tracker with nothing pending and nothing measured.
    pub fn new() -> (r: Self)
        ensures
            r.wf(),
            r.pending() == Seq::<(Seq<char>, u64)>::empty(),
            r.samples() == Seq::<(Seq<char>, u64)>::empty(),
    {
        LatencyTracker { pending: NameTable::new(), samples: NameTable::new() }
    }

    /// Marks a ping sent at `now` to each of `names`; a newer request
    /// replaces an unanswered one.
    pub fn begin_round(&mut self, names: &Vec<String>, now: u64)
        requires
            old(self).wf(),
        ensures
            final(self).wf(),
            final(self).pending() == insert_all(old(self).pending(), strings_view(names@), now),
            final(self).samples() == old(self).samples(),
    {
        let mut i: usize = 0;
        while i < names.len()
            invariant
                self.wf(),
                i <= names@.len(),
                self.pending() == insert_all(
                    old(self).pending(),
                    strings_view(names@).subrange(0, i as int),
                    now,
                ),
                self.samples() == old(self).samples(),
            decreases names@.len() - i,
        {
            let ghost sv = strings_view(names@);
            assert(sv.subrange(0, i as int + 1).drop_last() == sv.subrange(0, i as int));
            self.pending.insert(names[i].clone(), now);
            i = i + 1;
        }
        assert(strings_view(names@).subrange(0, names@.len() as int) == strings_view(names@));
    }

    /// Records the reply of `name` observed at `observed_at`: where a ping to
    /// it is pending, the elapsed time becomes its latest sample and the
    /// request is cleared; otherwise nothing changes.
    pub fn complete(&mut self, name: &str, observed_at: u64)
        requires
            old(self).wf(),
        ensures
            final(self).wf(),
            final(self).pending() == remove_model(old(self).pending(), name@),
            final(self).samples() == record_reply(
                old(self).pending(),
                old(self).samples(),
                name@,
                observed_at,
            ),
    {
        match self.pending.remove(name) {
            Some(requested_at) => {
                let rtt = if observed_at >= requested_at {
                    observed_at - requested_at
                } else {
                    0
                };
                self.samples.insert(name.to_owned(), rtt);
            },
            None => {},
        }
    }

    /// Drops every record of `name`.
    pub fn forget(&mut self, name: &str)
        requires
            old(self).wf(),
        ensures
            final(self).wf(),
            final(self).pending() == remove_model(old(self).pending(), name@),
            final(self).samples() == remove_model(old(self).samples(), name@),
    {
        self.pending.remove(name);
        self.samples.remove(name);
    }

    /// The latest round-trip time of every agent that completed a round.
    pub fn report(&self) -> (r: Vec<(String, u64)>)
        ensures
            table_view(r@) == self.samples(),
    {
        self.samples.copied_entries()
    }

    /// The send time of the unanswered ping to `name`, if any.
    pub fn pending_since(&self, name: &str) -> (r: Option<u64>)
        requires
            self.wf(),
        ensures
            match r {
                Some(t) => has_name(self.pending(), name@) && t == self.pending()[index_of(
                    self.pending(),
                    name@,
                )].1,
                None => !has_name(self.pending(), name@),
            },
    {
        match self.pending.get(name) {
            Some(t) => Some(*t),
            None => None,
        }
    }
}

} // verus!
