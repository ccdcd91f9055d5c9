use vstd::prelude::*;
use crate::auth::{is_alphanumeric, AuthError, AuthStore, TOKEN_LEN};
use crate::codec::{
    command_text, decimal, decimal_string, decode, decode_model, encode, encode_model, lookup,
    pairs_view, pointer_command, strings_view, Params,
};
use crate::latency::{insert_all, lemma_insert_all, record_reply, LatencyTracker};
use crate::registry::ConnectionRegistry;
use crate::table::{
    has_name, index_of, insert_model, lemma_insert_binds, lemma_remove_all, lemma_remove_drops,
    names_unique, remove_all, remove_model, table_view,
};

verus! {

/// `targets` is a copy of the registry membership `agents`: same names in
/// the same order, each transport a clone.
pub open spec fn is_snapshot<T: Clone>(targets: Seq<(String, T)>, agents: Seq<(Seq<char>, T)>) -> bool {
    &&& targets.len() == agents.len()
    &&& forall|i: int|
        0 <= i < targets.len() ==> #[trigger] targets[i].0@ == agents[i].0 && cloned(
            agents[i].1,
            targets[i].1,
        )
}

/// The names of the entries, in order.
pub open spec fn names_of<T>(s: Seq<(Seq<char>, T)>) -> Seq<Seq<char>> {
    s.map_values(|p: (Seq<char>, T)| p.0)
}

/// Marker that opens an agent's reply to a ping, followed by its name.
pub open spec fn ack_prefix() -> Seq<char> {
    "username="@
}

/// The name echoed in a ping reply, where `text` is one.
pub open spec fn ack_name(text: Seq<char>) -> Option<Seq<char>> {
    if text.len() >= ack_prefix().len() && text.subrange(0, ack_prefix().len() as int)
        == ack_prefix() {
        Some(text.subrange(ack_prefix().len() as int, text.len() as int))
    } else {
        None
    }
}

/// The status reply `conns=<count>;<name>=<rtt ms>;...`.
pub open spec fn status_model(count: nat, samples: Seq<(Seq<char>, u64)>) -> Seq<char> {
    encode_model(
        seq![("conns"@, decimal(count))] + samples.map_values(
            |p: (Seq<char>, u64)| (p.0, decimal(p.1 as nat)),
        ),
    )
}

/// The name echoed in a ping reply, where `text` is one.
pub fn ack_name_of(text: &str) -> (r: Option<String>)
    ensures
        match ack_name(text@) {
            Some(n) => r is Some && r->Some_0@ == n,
            None => r is None,
        },
{
    let prefix = "username=";
    proof {
        reveal_strlit("username=");
    }
    let n = text.unicode_len();
    let m = prefix.unicode_len();
    if n < m {
        return None;
    }
    let mut i: usize = 0;
    while i < m
        invariant
            m == prefix@.len(),
            n == text@.len(),
            m <= n,
            i <= m,
            prefix@ == ack_prefix(),
            forall|j: int| 0 <= j < i ==> text@[j] == prefix@[j],
        decreases m - i,
    {
        if text.get_char(i) != prefix.get_char(i) {
            assert(text@.subrange(0, m as int)[i as int] != ack_prefix()[i as int]);
            return None;
        }
        i = i + 1;
    }
    assert(text@.subrange(0, m as int) =~= ack_prefix());
    Some(text.substring_char(m, n).to_owned())
}

/// After a broadcast round, an agent whose send failed is gone from the
/// registry, the pending pings and the latency samples; every other agent
/// keeps its registration.
pub proof fn lemma_failed_agents_pruned<T>(
    agents: Seq<(Seq<char>, T)>,
    pending: Seq<(Seq<char>, u64)>,
    samples: Seq<(Seq<char>, u64)>,
    failed: Seq<Seq<char>>,
    name: Seq<char>,
)
    requires
        names_unique(agents),
        names_unique(pending),
        names_unique(samples),
    ensures
        failed.contains(name) ==> {
            &&& !has_name(remove_all(agents, failed), name)
            &&& !has_name(remove_all(pending, failed), name)
            &&& !has_name(remove_all(samples, failed), name)
        },
        !failed.contains(name) ==> (has_name(remove_all(agents, failed), name) <==> has_name(
            agents,
            name,
        )),
{
    lemma_remove_all(agents, failed);
    lemma_remove_all(pending, failed);
    lemma_remove_all(samples, failed);
}

/// An agent connection registered under `name`; `reply` answers it.
pub struct Registered {
    pub name: String,
    pub reply: String,
}

/// A message to be sent to each of `targets`.
pub struct Broadcast<T> {
    pub message: String,
    pub targets: Vec<(String, T)>,
}

/// The relay: token store, agent registry and latency tracker, and the steps
/// that tie them together. Sends happen outside: a broadcast is prepared
/// here, sent by the caller, and the names whose send failed are handed back
/// to `finish_broadcast`.
pub struct Hub<T> {
    auth: AuthStore,
    registry: ConnectionRegistry<T>,
    latency: LatencyTracker,
}

impl<T> Hub<T> {
    pub closed spec fn tokens(&self) -> AuthStore {
        self.auth
    }

    /// Registered agents with their transports.
    pub closed spec fn agents(&self) -> Seq<(Seq<char>, T)> {
        self.registry@
    }

    /// Agents with an unanswered ping, with its send time.
    pub closed spec fn pending(&self) -> Seq<(Seq<char>, u64)> {
        self.latency.pending()
    }

    /// Agents' latest round-trip times.
    pub closed spec fn samples(&self) -> Seq<(Seq<char>, u64)> {
        self.latency.samples()
    }

    /// Components are consistent, and latency state exists only for
    /// registered agents.
    pub open spec fn wf(&self) -> bool {
        &&& self.tokens().wf()
        &&& names_unique(self.agents())
        &&& names_unique(self.pending())
        &&& names_unique(self.samples())
        &&& forall|n: Seq<char>| #[trigger] has_name(self.pending(), n) ==> has_name(self.agents(), n)
        &&& forall|n: Seq<char>| #[trigger] has_name(self.samples(), n) ==> has_name(self.agents(), n)
    }

    /// A hub with the given token store, no agents and no latency state.
    pub fn new(auth: AuthStore) -> (r: Self)
        requires
            auth.wf(),
        ensures
            r.wf(),
            r.tokens() == auth,
            r.agents() == Seq::<(Seq<char>, T)>::empty(),
            r.pending() == Seq::<(Seq<char>, u64)>::empty(),
            r.samples() == Seq::<(Seq<char>, u64)>::empty(),
    {
        Hub { auth, registry: ConnectionRegistry::new(), latency: LatencyTracker::new() }
    }

    /// The token store.
    pub fn auth(&self) -> (r: &AuthStore)
        ensures
            *r == self.tokens(),
    {
        &self.auth
    }

    /// True iff `token` is stored and, where `require_admin` holds, is the
    /// admin token.
    pub fn authorize(&self, token: &str, require_admin: bool) -> (r: bool)
        requires
            self.wf(),
        ensures
            r == self.tokens().allows(token@, require_admin),
    {
        self.auth.authorize(token, require_admin)
    }

    /// Mints a fresh non-admin token on behalf of the admin token `requester`.
    /// `CodeInUse` comes only when a stored token could have been the draw.
    pub fn create_session(&mut self, requester: &str) -> (r: Result<String, AuthError>)
        requires
            old(self).wf(),
        ensures
            final(self).wf(),
            final(self).agents() == old(self).agents(),
            final(self).pending() == old(self).pending(),
            final(self).samples() == old(self).samples(),
            final(self).tokens().admin_code() == old(self).tokens().admin_code(),
            !old(self).tokens().allows(requester@, true) <==> r == Err::<String, AuthError>(
                AuthError::Unauthorized,
            ),
            match r {
                Ok(c) => {
                    &&& c@.len() == TOKEN_LEN
                    &&& forall|i: int| 0 <= i < c@.len() ==> is_alphanumeric(#[trigger] c@[i])
                    &&& !old(self).tokens()@.contains_key(c@)
                    &&& final(self).tokens()@ == old(self).tokens()@.insert(c@, false)
                },
                Err(_) => final(self).tokens()@ == old(self).tokens()@,
            },
            r == Err::<String, AuthError>(AuthError::CodeInUse) ==> exists|c: Seq<char>|
                c.len() == TOKEN_LEN && (forall|i: int|
                    0 <= i < c.len() ==> is_alphanumeric(#[trigger] c[i]))
                    && #[trigger] old(self).tokens()@.contains_key(c),
    {
        self.auth.mint_random(requester)
    }

    /// Removes every non-admin token on behalf of the admin token `requester`.
    pub fn remove_session(&mut self, requester: &str) -> (r: Result<(), AuthError>)
        requires
            old(self).wf(),
        ensures
            final(self).wf(),
            final(self).agents() == old(self).agents(),
            final(self).pending() == old(self).pending(),
            final(self).samples() == old(self).samples(),
            final(self).tokens().admin_code() == old(self).tokens().admin_code(),
            old(self).tokens().allows(requester@, true) ==> r is Ok && final(self).tokens()@
                == map![old(self).tokens().admin_code() => true],
            !old(self).tokens().allows(requester@, true) ==> r == Err::<(), AuthError>(
                AuthError::Unauthorized,
            ) && final(self).tokens()@ == old(self).tokens()@,
    {
        self.auth.revoke_non_admin(requester)
    }

    /// Registers `transport` under `name`, returning the transport it
    /// replaced.
    pub fn register_agent(&mut self, name: String, transport: T) -> (r: Option<T>)
        requires
            old(self).wf(),
        ensures
            final(self).wf(),
            final(self).tokens() == old(self).tokens(),
            final(self).agents() == insert_model(old(self).agents(), name@, transport),
            final(self).pending() == old(self).pending(),
            final(self).samples() == old(self).samples(),
            r == (if has_name(old(self).agents(), name@) {
                Some(old(self).agents()[index_of(old(self).agents(), name@)].1)
            } else {
                None::<T>
            }),
    {
        proof {
            lemma_insert_binds(self.registry@, name@, transport);
        }
        self.registry.register(name, transport)
    }

    /// Removes the agent `name` from the registry, then its latency state,
    /// and hands back its transport. Absent names change nothing.
    pub fn deregister(&mut self, name: &str) -> (r: Option<T>)
        requires
            old(self).wf(),
        ensures
            final(self).wf(),
            final(self).tokens() == old(self).tokens(),
            final(self).agents() == remove_model(old(self).agents(), name@),
            final(self).pending() == remove_model(old(self).pending(), name@),
            final(self).samples() == remove_model(old(self).samples(), name@),
            r == (if has_name(old(self).agents(), name@) {
                Some(old(self).agents()[index_of(old(self).agents(), name@)].1)
            } else {
                None::<T>
            }),
    {
        proof {
            lemma_remove_drops(self.registry@, name@);
            lemma_remove_drops(self.latency.pending(), name@);
            lemma_remove_drops(self.latency.samples(), name@);
        }
        let r = self.registry.deregister(name);
        self.latency.forget(name);
        proof {
            assert forall|n: Seq<char>| #[trigger] has_name(self.pending(), n) implies has_name(
                self.agents(),
                n,
            ) by {
                if n != name@ {
                    assert(has_name(old(self).pending(), n));
                }
            };
            assert forall|n: Seq<char>| #[trigger] has_name(self.samples(), n) implies has_name(
                self.agents(),
                n,
            ) by {
                if n != name@ {
                    assert(has_name(old(self).samples(), n));
                }
            };
        }
        r
    }

    /// Deregisters every agent named in `failed`: those whose send failed.
    pub fn finish_broadcast(&mut self, failed: &Vec<String>)
        requires
            old(self).wf(),
        ensures
            final(self).wf(),
            final(self).tokens() == old(self).tokens(),
            final(self).agents() == remove_all(old(self).agents(), strings_view(failed@)),
            final(self).pending() == remove_all(old(self).pending(), strings_view(failed@)),
            final(self).samples() == remove_all(old(self).samples(), strings_view(failed@)),
    {
        let mut i: usize = 0;
        while i < failed.len()
            invariant
                self.wf(),
                i <= failed@.len(),
                self.tokens() == old(self).tokens(),
                self.agents() == remove_all(old(self).agents(), strings_view(failed@).subrange(0, i as int)),
                self.pending() == remove_all(old(self).pending(), strings_view(failed@).subrange(0, i as int)),
                self.samples() == remove_all(old(self).samples(), strings_view(failed@).subrange(0, i as int)),
            decreases failed@.len() - i,
        {
            let ghost sv = strings_view(failed@);
            assert(sv.subrange(0, i as int + 1).drop_last() == sv.subrange(0, i as int));
            self.deregister(failed[i].as_str());
            i = i + 1;
        }
        assert(strings_view(failed@).subrange(0, failed@.len() as int) == strings_view(failed@));
    }

    /// Number of registered agents.
    pub fn count(&self) -> (r: usize)
        ensures
            r == self.agents().len(),
    {
        self.registry.count()
    }

    /// Whether an agent is registered under `name`.
    pub fn is_registered(&self, name: &str) -> (r: bool)
        requires
            self.wf(),
        ensures
            r == has_name(self.agents(), name@),
    {
        self.registry.contains(name)
    }

    /// The transport registered under `name`.
    pub fn transport_of(&self, name: &str) -> (r: Option<&T>)
        requires
            self.wf(),
        ensures
            match r {
                Some(t) => has_name(self.agents(), name@) && *t == self.agents()[index_of(
                    self.agents(),
                    name@,
                )].1,
                None => !has_name(self.agents(), name@),
            },
    {
        self.registry.get(name)
    }

    /// The send time of the unanswered ping to `name`, if any.
    pub fn pending_since(&self, name: &str) -> (r: Option<u64>)
        requires
            self.wf(),
        ensures
            match r {
                Some(t) => has_name(self.pending(), name@) && t == self.pending()[index_of(
                    self.pending(),
                    name@,
                )].1,
                None => !has_name(self.pending(), name@),
            },
    {
        self.latency.pending_since(name)
    }

    /// The latest round-trip time, in milliseconds, of every agent that
    /// completed a ping round.
    pub fn report(&self) -> (r: Vec<(String, u64)>)
        ensures
            table_view(r@) == self.samples(),
    {
        self.latency.report()
    }

    /// The status reply `conns=<count>;<name>=<rtt ms>;...` over the current
    /// membership size and latency samples.
    pub fn status_message(&self) -> (r: String)
        ensures
            r@ == status_model(self.agents().len() as nat, self.samples()),
    {
        let samples = self.latency.report();
        let mut entries: Vec<(String, String)> = Vec::new();
        entries.push((String::from_str("conns"), decimal_string(self.registry.count() as u64)));
        let ghost head = seq![("conns"@, decimal(self.agents().len() as nat))];
        let ghost body = self.samples().map_values(|p: (Seq<char>, u64)| (p.0, decimal(p.1 as nat)));
        assert(pairs_view(entries@) =~= head + body.subrange(0, 0));
        let mut i: usize = 0;
        while i < samples.len()
            invariant
                i <= samples@.len(),
                table_view(samples@) == self.samples(),
                body == self.samples().map_values(|p: (Seq<char>, u64)| (p.0, decimal(p.1 as nat))),
                pairs_view(entries@) == head + body.subrange(0, i as int),
            decreases samples@.len() - i,
        {
            let ghost before = entries@;
            entries.push((samples[i].0.clone(), decimal_string(samples[i].1)));
            assert(body[i as int] == (samples@[i as int].0@, decimal(samples@[i as int].1 as nat)));
            assert(pairs_view(entries@) =~= pairs_view(before).push(body[i as int]));
            assert(body.subrange(0, i as int + 1) =~= body.subrange(0, i as int).push(body[i as int]));
            assert(head + body.subrange(0, i as int + 1) =~= (head + body.subrange(0, i as int)).push(body[i as int]));
            i = i + 1;
        }
        assert(body.subrange(0, body.len() as int) =~= body);
        let params = Params { entries };
        encode(&params)
    }

    /// Handles a text message from an agent connection. A ping reply
    /// `username=<name>` completes that agent's pending ping at `now`; a
    /// message with a `name` field registers `transport` under that name and
    /// is answered `success=true`.
    pub fn handle_agent_message(&mut self, text: &str, transport: T, now: u64) -> (r: Option<
        Registered,
    >)
        requires
            old(self).wf(),
        ensures
            final(self).wf(),
            final(self).tokens() == old(self).tokens(),
            match ack_name(text@) {
                Some(n) => final(self).pending() == remove_model(old(self).pending(), n)
                    && final(self).samples() == record_reply(old(self).pending(), old(self).samples(), n, now),
                None => final(self).pending() == old(self).pending() && final(self).samples() == old(self).samples(),
            },
            match lookup(decode_model(text@).0, "name"@) {
                Some(n) => final(self).agents() == insert_model(old(self).agents(), n, transport)
                    && r is Some && r->Some_0.name@ == n && r->Some_0.reply@ == "success=true"@,
                None => final(self).agents() == old(self).agents() && r is None,
            },
    {
        match ack_name_of(text) {
            Some(name) => {
                proof {
                    lemma_remove_drops(self.latency.pending(), name@);
                    let p = self.latency.pending();
                    if has_name(p, name@) {
                        lemma_insert_binds(self.latency.samples(), name@, crate::latency::elapsed(p[index_of(p, name@)].1, now));
                    }
                }
                self.latency.complete(name.as_str(), now);
                proof {
                    assert forall|n: Seq<char>| #[trigger] has_name(self.pending(), n) implies has_name(
                        self.agents(),
                        n,
                    ) by {
                        if n != name@ {
                            assert(has_name(old(self).pending(), n));
                        }
                    };
                    assert forall|n: Seq<char>| #[trigger] has_name(self.samples(), n) implies has_name(
                        self.agents(),
                        n,
                    ) by {
                        if n != name@ {
                            if has_name(old(self).pending(), name@) {
                                assert(has_name(old(self).samples(), n));
                            }
                        } else {
                            if !has_name(old(self).pending(), name@) {
                                assert(has_name(old(self).samples(), n));
                            }
                        }
                    };
                }
            },
            None => {},
        }
        let decoded = decode(text);
        match decoded.params.get("name") {
            Some(n) => {
                proof {
                    lemma_insert_binds(self.registry@, n@, transport);
                }
                let ghost mid_agents = self.agents();
                let ghost mid_pending = self.pending();
                let ghost mid_samples = self.samples();
                self.registry.register(n.clone(), transport);
                proof {
                    assert(self.pending() == mid_pending);
                    assert(self.samples() == mid_samples);
                    assert forall|m: Seq<char>| #[trigger] has_name(self.pending(), m) implies has_name(
                        self.agents(),
                        m,
                    ) by {
                        assert(has_name(mid_agents, m));
                    };
                    assert forall|m: Seq<char>| #[trigger] has_name(self.samples(), m) implies has_name(
                        self.agents(),
                        m,
                    ) by {
                        assert(has_name(mid_agents, m));
                    };
                    reveal_strlit("success=true");
                }
                Some(Registered { name: n.clone(), reply: String::from_str("success=true") })
            },
            None => None,
        }
    }
}

impl<T: Clone> Hub<T> {
    /// Prepares the command `action=..;param=..;value=..` for every
    /// registered agent, on behalf of any stored token.
    pub fn prepare_command(&self, token: &str, action: &str, param: &str, value: &str) -> (r: Result<
        Broadcast<T>,
        AuthError,
    >)
        requires
            self.wf(),
        ensures
            !self.tokens().allows(token@, false) ==> r is Err && r->Err_0 == AuthError::Unauthorized,
            self.tokens().allows(token@, false) ==> r is Ok,
            match r {
                Ok(b) => b.message@ == encode_model(
                    seq![("action"@, action@), ("param"@, param@), ("value"@, value@)],
                ) && is_snapshot(b.targets@, self.agents()),
                Err(_) => true,
            },
    {
        if !self.auth.authorize(token, false) {
            return Err(AuthError::Unauthorized);
        }
        let message = command_text(action, param, value);
        let targets = self.registry.snapshot();
        Ok(Broadcast { message, targets })
    }

    /// Prepares the relayed pointer event `param=<type>;value=<pos>` for
    /// every registered agent, on behalf of any stored token. `Ok(None)`
    /// when the event lacks `pos` or `type`.
    pub fn prepare_pointer_event(&self, token: &str, text: &str) -> (r: Result<
        Option<Broadcast<T>>,
        AuthError,
    >)
        requires
            self.wf(),
        ensures
            !self.tokens().allows(token@, false) ==> r is Err && r->Err_0 == AuthError::Unauthorized,
            self.tokens().allows(token@, false) ==> r is Ok,
            match r {
                Ok(Some(b)) => {
                    &&& lookup(decode_model(text@).0, "type"@) is Some
                    &&& lookup(decode_model(text@).0, "pos"@) is Some
                    &&& b.message@ == encode_model(
                        seq![
                            ("param"@, lookup(decode_model(text@).0, "type"@)->Some_0),
                            ("value"@, lookup(decode_model(text@).0, "pos"@)->Some_0),
                        ],
                    )
                    &&& is_snapshot(b.targets@, self.agents())
                },
                Ok(None) => lookup(decode_model(text@).0, "type"@) is None || lookup(
                    decode_model(text@).0,
                    "pos"@,
                ) is None,
                Err(_) => true,
            },
    {
        if !self.auth.authorize(token, false) {
            return Err(AuthError::Unauthorized);
        }
        match pointer_command(text) {
            Some(message) => {
                let targets = self.registry.snapshot();
                Ok(Some(Broadcast { message, targets }))
            },
            None => Ok(None),
        }
    }

    /// Starts a ping round at `now`: every registered agent gets a pending
    /// ping, replacing an unanswered one, and the agents to send `ping` to
    /// are returned.
    pub fn begin_ping_round(&mut self, now: u64) -> (r: Vec<(String, T)>)
        requires
            old(self).wf(),
        ensures
            final(self).wf(),
            final(self).tokens() == old(self).tokens(),
            final(self).agents() == old(self).agents(),
            final(self).pending() == insert_all(old(self).pending(), names_of(old(self).agents()), now),
            final(self).samples() == old(self).samples(),
            is_snapshot(r@, old(self).agents()),
    {
        let targets = self.registry.snapshot();
        let names = self.registry.names();
        assert(strings_view(names@) =~= names_of(self.agents()));
        proof {
            lemma_insert_all(self.latency.pending(), strings_view(names@), now);
            assert forall|n: Seq<char>| names_of(self.agents()).contains(n) implies has_name(self.agents(), n) by {
                let i = choose|i: int| 0 <= i < names_of(self.agents()).len() && names_of(self.agents())[i] == n;
                assert(self.agents()[i].0 == n);
            };
        }
        self.latency.begin_round(&names, now);
        targets
    }
}

} // verus!
