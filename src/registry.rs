use vstd::prelude::*;

use crate::error::TunnelError;
use tokio::sync::mpsc::Sender;

verus! {

/// tokio's `mpsc::Sender`, the sending half of a tunnel's stop channel. It is
/// carried as an opaque value: nothing here calls into it or reads it.
#[verifier::external_type_specification]
#[verifier::external_body]
#[verifier::reject_recursive_types(T)]
pub struct ExSender<T>(tokio::sync::mpsc::Sender<T>);

/// What identifies a tunnel: the service name and the remote port.
pub type TunnelKey = (Seq<char>, u16);

/// A live tunnel: the service and remote port it forwards, and the sending
/// half of the channel that asks its listener to shut down.
pub struct ForwardedPort {
    pub service: String,
    pub port: u16,
    pub sender: Sender<()>,
}

impl ForwardedPort {
    pub open spec fn key(&self) -> TunnelKey {
        (self.service@, self.port)
    }
}

/// No key occurs twice.
pub open spec fn keys_unique(keys: Seq<TunnelKey>) -> bool {
    forall|i: int, j: int| 0 <= i < j < keys.len() ==> keys[i] != keys[j]
}

/// The keys with every occurrence of `k` left out, in their order.
pub open spec fn without_key(keys: Seq<TunnelKey>, k: TunnelKey) -> Seq<TunnelKey> {
    keys.filter(|x: TunnelKey| x != k)
}

/// The keys that belong to `service`, in their order.
pub open spec fn keys_of_service(keys: Seq<TunnelKey>, service: Seq<char>) -> Seq<TunnelKey> {
    keys.filter(|x: TunnelKey| x.0 == service)
}

proof fn lemma_without_absent(v: Seq<TunnelKey>, k: TunnelKey)
    requires
        !v.contains(k),
    ensures
        without_key(v, k) == v,
    decreases v.len(),
{
    reveal(Seq::filter);
    if v.len() > 0 {
        let d = v.drop_last();
        assert forall|x: TunnelKey| d.contains(x) implies v.contains(x) by {
            let j = choose|j: int| 0 <= j < d.len() && d[j] == x;
            assert(v[j] == x);
        }
        lemma_without_absent(d, k);
        assert(d.push(v.last()) =~= v);
    }
}

proof fn lemma_remove_is_without(v: Seq<TunnelKey>, i: int)
    requires
        keys_unique(v),
        0 <= i < v.len(),
    ensures
        v.remove(i) == without_key(v, v[i]),
    decreases v.len(),
{
    reveal(Seq::filter);
    let k = v[i];
    let d = v.drop_last();
    if i == v.len() - 1 {
        assert(v.remove(i) =~= d);
        assert(!d.contains(k)) by {
            if d.contains(k) {
                let j = choose|j: int| 0 <= j < d.len() && d[j] == k;
                assert(v[j] == v[i]);
            }
        }
        lemma_without_absent(d, k);
    } else {
        assert(keys_unique(d));
        lemma_remove_is_without(d, i);
        assert(v.remove(i) =~= d.remove(i).push(v.last()));
        assert(v.last() != k);
    }
}

pub(crate) proof fn lemma_filter_step<A>(v: Seq<A>, i: int, pred: spec_fn(A) -> bool)
    requires
        0 <= i < v.len(),
    ensures
        v.take(i + 1).filter(pred) == (if pred(v[i]) {
            v.take(i).filter(pred).push(v[i])
        } else {
            v.take(i).filter(pred)
        }),
{
    reveal(Seq::filter);
    assert(v.take(i + 1).drop_last() =~= v.take(i));
}

/// The keys after a start of the tunnel `k` came back: a tunnel that
/// started is registered unless one for `k` already is.
pub open spec fn after_start(keys: Seq<TunnelKey>, k: TunnelKey, started: bool) -> Seq<TunnelKey> {
    if started && !keys.contains(k) {
        keys.push(k)
    } else {
        keys
    }
}

/// The keys after a stop of the tunnel `k` came back: only a stop that was
/// acknowledged unregisters the tunnel.
pub open spec fn after_stop(keys: Seq<TunnelKey>, k: TunnelKey, stopped: bool) -> Seq<TunnelKey> {
    if stopped {
        without_key(keys, k)
    } else {
        keys
    }
}

/// One toggle of `k` whose start or stop succeeded.
pub open spec fn toggled(keys: Seq<TunnelKey>, k: TunnelKey) -> Seq<TunnelKey> {
    if keys.contains(k) {
        after_stop(keys, k, true)
    } else {
        after_start(keys, k, true)
    }
}

/// The keys after the starts of a bulk toggle of `service` came back, one
/// (port, started) outcome after another, in the order of completion.
pub open spec fn after_starts(
    keys: Seq<TunnelKey>,
    service: Seq<char>,
    outcomes: Seq<(u16, bool)>,
) -> Seq<TunnelKey>
    decreases outcomes.len(),
{
    if outcomes.len() == 0 {
        keys
    } else {
        after_start(
            after_starts(keys, service, outcomes.drop_last()),
            (service, outcomes.last().0),
            outcomes.last().1,
        )
    }
}

/// The keys after the stops of a bulk toggle of `service` came back, one
/// (port, stopped) outcome after another, in the order of completion.
pub open spec fn after_stops(
    keys: Seq<TunnelKey>,
    service: Seq<char>,
    outcomes: Seq<(u16, bool)>,
) -> Seq<TunnelKey>
    decreases outcomes.len(),
{
    if outcomes.len() == 0 {
        keys
    } else {
        after_stop(
            after_stops(keys, service, outcomes.drop_last()),
            (service, outcomes.last().0),
            outcomes.last().1,
        )
    }
}

/// Whether some outcome reports `port` with result `ok`.
pub open spec fn reported(outcomes: Seq<(u16, bool)>, port: u16, ok: bool) -> bool {
    exists|i: int| 0 <= i < outcomes.len() && outcomes[i] == (port, ok)
}

/// Leaving out one key keeps every other key and only those.
pub proof fn lemma_without_key_contains(v: Seq<TunnelKey>, k: TunnelKey, x: TunnelKey)
    ensures
        without_key(v, k).contains(x) <==> v.contains(x) && x != k,
    decreases v.len(),
{
    reveal(Seq::filter);
    if v.len() > 0 {
        let d = v.drop_last();
        lemma_without_key_contains(d, k, x);
        assert(v =~= d.push(v.last()));
        if without_key(v, k).contains(x) && !without_key(d, k).contains(x) {
            assert(x == v.last());
        }
        if v.contains(x) && x != k && !d.contains(x) {
            let j = choose|j: int| 0 <= j < v.len() && v[j] == x;
            if j < d.len() {
                assert(d[j] == x);
            }
            assert(without_key(d, k).push(v.last()).last() == x);
        }
    }
}

/// Leaving out a key keeps the others unique.
pub proof fn lemma_without_key_unique(v: Seq<TunnelKey>, k: TunnelKey)
    requires
        keys_unique(v),
    ensures
        keys_unique(without_key(v, k)),
    decreases v.len(),
{
    reveal(Seq::filter);
    if v.len() > 0 {
        let d = v.drop_last();
        assert(keys_unique(d));
        lemma_without_key_unique(d, k);
        if v.last() != k {
            let w = without_key(d, k);
            assert forall|i: int| 0 <= i < w.len() implies w[i] != v.last() by {
                assert(w.contains(w[i]));
                lemma_without_key_contains(d, k, w[i]);
                if w[i] == v.last() {
                    let j = choose|j: int| 0 <= j < d.len() && d[j] == v.last();
                    assert(v[j] == v[v.len() - 1]);
                }
            }
        }
    }
}

/// The invariant is kept by every start and every stop.
pub proof fn lemma_outcomes_keep_unique(v: Seq<TunnelKey>, k: TunnelKey, ok: bool)
    requires
        keys_unique(v),
    ensures
        keys_unique(after_start(v, k, ok)),
        keys_unique(after_stop(v, k, ok)),
{
    lemma_without_key_unique(v, k);
    if ok && !v.contains(k) {
        let w = v.push(k);
        assert forall|i: int, j: int| 0 <= i < j < w.len() implies w[i] != w[j] by {
            if j == v.len() {
                assert(v.contains(v[i]));
            }
        }
    }
}

/// Toggling a port twice in a row, with both the start and the stop
/// succeeding, gives the port back the membership it had, leaves every other
/// tunnel as it was, and keeps the registry free of duplicates.
pub proof fn lemma_toggle_twice(v: Seq<TunnelKey>, k: TunnelKey)
    requires
        keys_unique(v),
    ensures
        toggled(toggled(v, k), k).contains(k) == v.contains(k),
        forall|x: TunnelKey| x != k ==> (toggled(toggled(v, k), k).contains(x) == v.contains(x)),
        keys_unique(toggled(toggled(v, k), k)),
{
    let once = toggled(v, k);
    lemma_outcomes_keep_unique(v, k, true);
    lemma_outcomes_keep_unique(once, k, true);
    lemma_without_key_contains(v, k, k);
    assert forall|x: TunnelKey| #[trigger] once.contains(x) == (if x == k {
        !v.contains(k)
    } else {
        v.contains(x)
    }) by {
        lemma_without_key_contains(v, k, x);
        if !v.contains(k) && x != k && v.push(k).contains(x) {
            let j = choose|j: int| 0 <= j < v.len() + 1 && v.push(k)[j] == x;
            assert(v[j] == x);
        }
        if !v.contains(k) && x == k {
            assert(v.push(k)[v.len() as int] == k);
        }
        if !v.contains(k) && v.contains(x) {
            let j = choose|j: int| 0 <= j < v.len() && v[j] == x;
            assert(v.push(k)[j] == x);
        }
    }
    assert forall|x: TunnelKey| #[trigger] toggled(once, k).contains(x) == (if x == k {
        !once.contains(k)
    } else {
        once.contains(x)
    }) by {
        lemma_without_key_contains(once, k, x);
        if !once.contains(k) && x != k && once.push(k).contains(x) {
            let j = choose|j: int| 0 <= j < once.len() + 1 && once.push(k)[j] == x;
            assert(once[j] == x);
        }
        if !once.contains(k) && x == k {
            assert(once.push(k)[once.len() as int] == k);
        }
        if !once.contains(k) && once.contains(x) {
            let j = choose|j: int| 0 <= j < once.len() && once[j] == x;
            assert(once.push(k)[j] == x);
        }
    }
}

/// A bulk start registers exactly the ports whose start succeeded, besides
/// the tunnels already registered: a failed start of one port takes nothing
/// from the others. Tunnels of other services stay as they were, and the
/// registry stays free of duplicates.
pub proof fn lemma_bulk_start(v: Seq<TunnelKey>, service: Seq<char>, outcomes: Seq<(u16, bool)>)
    requires
        keys_unique(v),
    ensures
        keys_unique(after_starts(v, service, outcomes)),
        forall|p: u16|
            #![trigger after_starts(v, service, outcomes).contains((service, p))]
            after_starts(v, service, outcomes).contains((service, p)) <==> (v.contains(
                (service, p),
            ) || reported(outcomes, p, true)),
        forall|x: TunnelKey|
            x.0 != service ==> (after_starts(v, service, outcomes).contains(x) == v.contains(x)),
    decreases outcomes.len(),
{
    if outcomes.len() > 0 {
        let d = outcomes.drop_last();
        let last = outcomes.last();
        lemma_bulk_start(v, service, d);
        let w = after_starts(v, service, d);
        let k = (service, last.0);
        lemma_outcomes_keep_unique(w, k, last.1);
        assert forall|x: TunnelKey| #[trigger] after_start(w, k, last.1).contains(x) == (w.contains(x) || (
        last.1 && x == k)) by {
            if last.1 && !w.contains(k) {
                if w.push(k).contains(x) {
                    let j = choose|j: int| 0 <= j < w.len() + 1 && w.push(k)[j] == x;
                    if j < w.len() {
                        assert(w[j] == x);
                    }
                }
                if w.contains(x) {
                    let j = choose|j: int| 0 <= j < w.len() && w[j] == x;
                    assert(w.push(k)[j] == x);
                }
                assert(w.push(k)[w.len() as int] == k);
            }
        }
        assert forall|p: u16| reported(outcomes, p, true) <==> (reported(d, p, true) || (last.1 && last.0 == p)) by {
            if reported(outcomes, p, true) {
                let i = choose|i: int| 0 <= i < outcomes.len() && outcomes[i] == (p, true);
                if i < d.len() {
                    assert(d[i] == (p, true));
                }
            }
            if reported(d, p, true) {
                let i = choose|i: int| 0 <= i < d.len() && d[i] == (p, true);
                assert(outcomes[i] == (p, true));
            }
            if last.1 && last.0 == p {
                assert(outcomes[outcomes.len() - 1] == (p, true));
            }
        }
    }
}

/// A bulk stop unregisters exactly the ports whose stop succeeded: a failed
/// stop of one port leaves that tunnel registered and does not keep the others
/// from stopping. Tunnels of other services stay as they were, and the
/// registry stays free of duplicates.
pub proof fn lemma_bulk_stop(v: Seq<TunnelKey>, service: Seq<char>, outcomes: Seq<(u16, bool)>)
    requires
        keys_unique(v),
    ensures
        keys_unique(after_stops(v, service, outcomes)),
        forall|p: u16|
            #![trigger after_stops(v, service, outcomes).contains((service, p))]
            after_stops(v, service, outcomes).contains((service, p)) <==> (v.contains(
                (service, p),
            ) && !reported(outcomes, p, true)),
        forall|x: TunnelKey|
            x.0 != service ==> (after_stops(v, service, outcomes).contains(x) == v.contains(x)),
    decreases outcomes.len(),
{
    if outcomes.len() > 0 {
        let d = outcomes.drop_last();
        let last = outcomes.last();
        lemma_bulk_stop(v, service, d);
        let w = after_stops(v, service, d);
        let k = (service, last.0);
        lemma_outcomes_keep_unique(w, k, last.1);
        assert forall|x: TunnelKey| #[trigger] after_stop(w, k, last.1).contains(x) == (w.contains(x) && !(
        last.1 && x == k)) by {
            lemma_without_key_contains(w, k, x);
        }
        assert forall|p: u16| reported(outcomes, p, true) <==> (reported(d, p, true) || (last.1 && last.0 == p)) by {
            if reported(outcomes, p, true) {
                let i = choose|i: int| 0 <= i < outcomes.len() && outcomes[i] == (p, true);
                if i < d.len() {
                    assert(d[i] == (p, true));
                }
            }
            if reported(d, p, true) {
                let i = choose|i: int| 0 <= i < d.len() && d[i] == (p, true);
                assert(outcomes[i] == (p, true));
            }
            if last.1 && last.0 == p {
                assert(outcomes[outcomes.len() - 1] == (p, true));
            }
        }
    }
}

/// The set of tunnels that are currently active. At most one tunnel is held
/// for each (service, port) pair.
pub struct Registry {
    tunnels: Vec<ForwardedPort>,
}

impl View for Registry {
    type V = Seq<TunnelKey>;

    closed spec fn view(&self) -> Seq<TunnelKey> {
        self.tunnels@.map_values(|t: ForwardedPort| t.key())
    }
}

impl Registry {
    /// Well-formed: at most one tunnel for each (service, port) pair.
    pub open spec fn wf(&self) -> bool {
        keys_unique(self@)
    }

    /// Whether a tunnel for `service` and `port` is registered.
    pub open spec fn holds(&self, service: Seq<char>, port: u16) -> bool {
        self@.contains((service, port))
    }

    pub fn new() -> (r: Registry)
        ensures
            r@ == Seq::<TunnelKey>::empty(),
            r.wf(),
    {
        let r = Registry { tunnels: Vec::new() };
        assert(r@ =~= Seq::<TunnelKey>::empty());
        r
    }

    pub fn len(&self) -> (r: usize)
        ensures
            r == self@.len(),
    {
        self.tunnels.len()
    }

    fn index_of(&self, service: &String, port: u16) -> (r: Option<usize>)
        ensures
            r is None <==> !self@.contains((service@, port)),
            r is Some ==> r->0 < self@.len() && self@[r->0 as int] == (service@, port),
    {
        let mut i: usize = 0;
        while i < self.tunnels.len()
            invariant
                i <= self.tunnels@.len(),
                forall|j: int| 0 <= j < i ==> self@[j] != (service@, port),
            decreases self.tunnels@.len() - i,
        {
            if self.tunnels[i].port == port && self.tunnels[i].service == *service {
                assert(self@[i as int] == (service@, port));
                return Some(i);
            }
            i += 1;
        }
        proof {
            if self@.contains((service@, port)) {
                let j = choose|j: int| 0 <= j < self@.len() && self@[j] == (service@, port);
                assert(self@[j] != (service@, port));
            }
        }
        None
    }

    /// The tunnel registered for `service` and `port`, if any.
    pub fn find(&self, service: &String, port: u16) -> (r: Option<&ForwardedPort>)
        ensures
            r is Some <==> self.holds(service@, port),
            r is Some ==> r->0.key() == (service@, port),
    {
        match self.index_of(service, port) {
            Some(i) => Some(&self.tunnels[i]),
            None => None,
        }
    }

    /// Registers a tunnel. Fails, and drops the tunnel, when one for the same
    /// service and port is already registered.
    pub fn add(&mut self, tunnel: ForwardedPort) -> (r: Result<(), TunnelError>)
        requires
            old(self).wf(),
        ensures
            old(self).holds(tunnel.service@, tunnel.port) ==> r == Err::<(), TunnelError>(
                TunnelError::DuplicateTunnel,
            ) && final(self)@ == old(self)@,
            !old(self).holds(tunnel.service@, tunnel.port) ==> r is Ok && final(self)@ == old(
                self,
            )@.push(tunnel.key()),
            final(self).wf(),
    {
        if self.index_of(&tunnel.service, tunnel.port).is_some() {
            return Err(TunnelError::DuplicateTunnel);
        }
        let ghost k = tunnel.key();
        self.tunnels.push(tunnel);
        assert(self@ =~= old(self)@.push(k));
        Ok(())
    }

    /// Unregisters the tunnel for `service` and `port` and hands it back.
    pub fn remove(&mut self, service: &String, port: u16) -> (r: Option<ForwardedPort>)
        requires
            old(self).wf(),
        ensures
            final(self)@ == without_key(old(self)@, (service@, port)),
            r is Some <==> old(self).holds(service@, port),
            r is Some ==> r->0.key() == (service@, port),
            final(self).wf(),
    {
        match self.index_of(service, port) {
            Some(i) => {
                proof {
                    lemma_remove_is_without(self@, i as int);
                }
                let t = self.tunnels.remove(i);
                assert(self@ =~= old(self)@.remove(i as int));
                Some(t)
            },
            None => {
                proof {
                    lemma_without_absent(self@, (service@, port));
                }
                None
            },
        }
    }

    /// The tunnels of `service`, in the order in which they were registered.
    pub fn list_for_service(&self, service: &String) -> (r: Vec<&ForwardedPort>)
        ensures
            r@.map_values(|t: &ForwardedPort| t.key()) == keys_of_service(self@, service@),
    {
        let ghost pred = |x: TunnelKey| x.0 == service@;
        let mut r: Vec<&ForwardedPort> = Vec::new();
        let mut i: usize = 0;
        while i < self.tunnels.len()
            invariant
                i <= self.tunnels@.len(),
                pred == (|x: TunnelKey| x.0 == service@),
                r@.map_values(|t: &ForwardedPort| t.key()) == self@.take(i as int).filter(pred),
            decreases self.tunnels@.len() - i,
        {
            proof {
                lemma_filter_step(self@, i as int, pred);
            }
            let t = &self.tunnels[i];
            if t.service == *service {
                r.push(t);
                assert(r@.map_values(|t: &ForwardedPort| t.key()) =~= self@.take(i as int).filter(
                    pred,
                ).push(self@[i as int]));
            }
            i += 1;
        }
        assert(self@.take(i as int) =~= self@);
        r
    }
}

} // verus!
