use vstd::prelude::*;

use crate::error::TunnelError;
use crate::names::{
    lemma_name_lt_irreflexive,
    lemma_name_lt_total,
    lemma_name_lt_transitive,
    name_less,
    name_lt,
};
use crate::registry::{
    after_start,
    after_stop,
    keys_of_service,
    ForwardedPort,
    Registry,
    TunnelKey,
};
use tokio::sync::mpsc::Sender;

verus! {

/// A service and its remote ports, as the dashboard lists them.
pub type ServiceEntry = (Seq<char>, Seq<i32>);

/// Names strictly ascending: the order of a map keyed by name.
pub open spec fn sorted_by_name(entries: Seq<ServiceEntry>) -> bool {
    forall|i: int, j: int| 0 <= i < j < entries.len() ==> name_lt(entries[i].0, entries[j].0)
}

/// The ports that `input` gives last for `name`, if it names it at all.
pub open spec fn last_ports_of(input: Seq<ServiceEntry>, name: Seq<char>) -> Option<Seq<i32>>
    decreases input.len(),
{
    if input.len() == 0 {
        None
    } else if input.last().0 == name {
        Some(input.last().1)
    } else {
        last_ports_of(input.drop_last(), name)
    }
}

/// `entries` lists each service that `input` names once, by ascending name,
/// with the ports that `input` gives last for it.
pub open spec fn listing_of(input: Seq<ServiceEntry>, entries: Seq<ServiceEntry>) -> bool {
    &&& sorted_by_name(entries)
    &&& forall|i: int|
        0 <= i < entries.len() ==> last_ports_of(input, #[trigger] entries[i].0) == Some(
            entries[i].1,
        )
    &&& forall|name: Seq<char>| #[trigger]
        last_ports_of(input, name) is Some ==> exists|i: int|
            0 <= i < entries.len() && entries[i].0 == name
}

pub open spec fn names_of(entries: Seq<ServiceEntry>) -> Seq<Seq<char>> {
    entries.map_values(|e: ServiceEntry| e.0)
}

/// The remote port as the local listener uses it.
pub open spec fn local_port(p: i32) -> u16 {
    p as u16
}

/// The cursor after moving down in a list of `len` entries.
pub open spec fn step_next(i: usize, len: nat) -> usize {
    ((i + 1) % (len as int)) as usize
}

/// The cursor after moving up in a list of `len` entries.
pub open spec fn step_previous(i: usize, len: nat) -> usize {
    if i == 0 {
        (len - 1) as usize
    } else {
        (i - 1) as usize
    }
}

/// The ports of a service that a bulk start takes on: those with no active
/// tunnel, in the service's order.
pub open spec fn ports_to_start(ports: Seq<i32>, keys: Seq<TunnelKey>, service: Seq<char>) -> Seq<u16> {
    ports.map_values(|p: i32| local_port(p)).filter(|p: u16| !keys.contains((service, p)))
}

/// The ports of the active tunnels of a service, in the order of registration.
pub open spec fn active_ports(keys: Seq<TunnelKey>, service: Seq<char>) -> Seq<u16> {
    keys_of_service(keys, service).map_values(|k: TunnelKey| k.1)
}

/// What the outside must do for a toggle of the selection.
pub enum ToggleAction {
    /// Nothing is selected.
    Nothing,
    /// Send a stop signal to the tunnel of this port.
    StopPort { service: String, port: u16 },
    /// Start a tunnel for this port.
    StartPort { service: String, port: u16 },
    /// Every port of the service is forwarded: stop each of these tunnels.
    StopAll { service: String, ports: Vec<u16> },
    /// Start a tunnel for each of these ports, none of which is forwarded yet.
    StartAll { service: String, ports: Vec<u16> },
}

/// The dashboard's state: the services that were discovered, the cursor,
/// and the registry of active tunnels.
pub struct AppState {
    namespace_opt: Option<String>,
    ports_by_service: Vec<(String, Vec<i32>)>,
    service_selection: Option<usize>,
    port_selection: Option<usize>,
    forwarded_ports: Registry,
}

impl AppState {
    /// The services with their ports, in the order in which they are listed.
    pub closed spec fn entries(&self) -> Seq<ServiceEntry> {
        self.ports_by_service@.map_values(|e: (String, Vec<i32>)| (e.0@, e.1@))
    }

    /// The namespace that was asked for; none for the default one.
    pub closed spec fn namespace(&self) -> Option<String> {
        self.namespace_opt
    }

    /// The keys of the active tunnels.
    pub closed spec fn tunnels(&self) -> Seq<TunnelKey> {
        self.forwarded_ports@
    }

    /// The index of the selected service.
    pub closed spec fn service_cursor(&self) -> Option<usize> {
        self.service_selection
    }

    /// The index of the selected port within the selected service.
    pub closed spec fn port_cursor(&self) -> Option<usize> {
        self.port_selection
    }

    /// The ports of the selected service; none when no service is selected.
    pub open spec fn selected_ports(&self) -> Seq<i32> {
        match self.service_cursor() {
            Some(i) => self.entries()[i as int].1,
            None => Seq::empty(),
        }
    }

    /// Services are listed once each by ascending name, the cursor points into
    /// the listing, a port is selected only within a selected service, and no
    /// tunnel is held twice.
    pub open spec fn wf(&self) -> bool {
        &&& sorted_by_name(self.entries())
        &&& match self.service_cursor() {
            Some(i) => i < self.entries().len(),
            None => true,
        }
        &&& match self.port_cursor() {
            Some(j) => self.service_cursor() is Some && j < self.selected_ports().len(),
            None => true,
        }
        &&& crate::registry::keys_unique(self.tunnels())
    }
}

impl AppState {
    /// Only the registry may differ between the two states.
    pub open spec fn same_listing(&self, other: &AppState) -> bool {
        &&& self.namespace() == other.namespace()
        &&& self.entries() == other.entries()
        &&& self.service_cursor() == other.service_cursor()
        &&& self.port_cursor() == other.port_cursor()
    }

    /// Only the cursor may differ between the two states.
    pub open spec fn same_data(&self, other: &AppState) -> bool {
        &&& self.namespace() == other.namespace()
        &&& self.entries() == other.entries()
        &&& self.tunnels() == other.tunnels()
    }

    /// Builds the state from the services that were discovered, each with its
    /// ports. They are listed by ascending name; where a name occurs again, its
    /// later ports replace the earlier ones. Nothing is selected and no tunnel
    /// is active.
    pub fn new(namespace_opt: Option<String>, services: Vec<(String, Vec<i32>)>) -> (r: AppState)
        ensures
            r.wf(),
            r.namespace() == namespace_opt,
            listing_of(services@.map_values(|e: (String, Vec<i32>)| (e.0@, e.1@)), r.entries()),
            r.service_cursor() is None,
            r.port_cursor() is None,
            r.tunnels() == Seq::<TunnelKey>::empty(),
    {
        let ghost model = services@.map_values(|e: (String, Vec<i32>)| (e.0@, e.1@));
        let mut kept: Vec<(String, Vec<i32>)> = Vec::new();
        let mut i: usize = 0;
        while i < services.len()
            invariant
                i <= services@.len(),
                model == services@.map_values(|e: (String, Vec<i32>)| (e.0@, e.1@)),
                listing_of(
                    model.take(i as int),
                    kept@.map_values(|e: (String, Vec<i32>)| (e.0@, e.1@)),
                ),
            decreases services@.len() - i,
        {
            let ghost m = kept@.map_values(|e: (String, Vec<i32>)| (e.0@, e.1@));
            let ghost before = model.take(i as int);
            let ghost after = model.take(i as int + 1);
            let ghost e = model[i as int];
            assert(after =~= before.push(e));
            let name = &services[i].0;
            let mut p: usize = 0;
            while p < kept.len() && name_less(&kept[p].0, name)
                invariant
                    p <= kept@.len(),
                    m == kept@.map_values(|e: (String, Vec<i32>)| (e.0@, e.1@)),
                    forall|j: int| 0 <= j < p ==> name_lt(#[trigger] m[j].0, name@),
                decreases kept@.len() - p,
            {
                p += 1;
            }
            let entry = (name.clone(), copy_ports(&services[i].1));
            assert(e == (entry.0@, entry.1@));
            if p < kept.len() && kept[p].0 == *name {
                kept.remove(p);
                kept.insert(p, entry);
                proof {
                    let m2 = kept@.map_values(|e: (String, Vec<i32>)| (e.0@, e.1@));
                    assert(m2 =~= m.update(p as int, e));
                    lemma_listing_replace(before, m, p as int, e);
                }
            } else {
                kept.insert(p, entry);
                proof {
                    let m2 = kept@.map_values(|e: (String, Vec<i32>)| (e.0@, e.1@));
                    assert(m2 =~= m.insert(p as int, e));
                    lemma_listing_insert(before, m, p as int, e);
                }
            }
            i += 1;
        }
        assert(model.take(i as int) =~= model);
        let r = AppState {
            namespace_opt,
            ports_by_service: kept,
            service_selection: None,
            port_selection: None,
            forwarded_ports: Registry::new(),
        };
        r
    }
}

impl AppState {
    pub fn namespace_opt(&self) -> (r: &Option<String>)
        ensures
            *r == self.namespace(),
    {
        &self.namespace_opt
    }

    /// The namespace as the dashboard shows it: "default" when none was asked for.
    pub fn namespace_label(&self) -> (r: String)
        ensures
            r@ == (match self.namespace() {
                Some(ns) => ns@,
                None => "default"@,
            }),
    {
        match &self.namespace_opt {
            Some(ns) => ns.clone(),
            None => String::from_str("default"),
        }
    }

    pub fn service_selection(&self) -> (r: Option<usize>)
        ensures
            r == self.service_cursor(),
    {
        self.service_selection
    }

    pub fn port_selection(&self) -> (r: Option<usize>)
        ensures
            r == self.port_cursor(),
    {
        self.port_selection
    }

    /// The names of the services, in the order in which they are listed.
    pub fn service_list(&self) -> (r: Vec<String>)
        ensures
            r@.map_values(|s: String| s@) == names_of(self.entries()),
    {
        let mut r: Vec<String> = Vec::new();
        let mut i: usize = 0;
        while i < self.ports_by_service.len()
            invariant
                i <= self.ports_by_service@.len(),
                r@.map_values(|s: String| s@) == names_of(self.entries()).take(i as int),
            decreases self.ports_by_service@.len() - i,
        {
            assert(names_of(self.entries())[i as int] == self.ports_by_service@[i as int].0@);
            let c = self.ports_by_service[i].0.clone();
            let ghost prev = r@;
            r.push(c);
            assert(r@.map_values(|s: String| s@) =~= prev.map_values(|s: String| s@).push(c@));
            assert(r@.map_values(|s: String| s@) =~= names_of(self.entries()).take(i as int + 1));
            i += 1;
        }
        assert(names_of(self.entries()).take(i as int) =~= names_of(self.entries()));
        r
    }

    /// The name of the selected service.
    pub fn service(&self) -> (r: Option<String>)
        requires
            self.wf(),
        ensures
            r is Some <==> self.service_cursor() is Some,
            r is Some ==> r->0@ == self.entries()[self.service_cursor()->0 as int].0,
    {
        match self.service_selection {
            Some(i) => Some(self.ports_by_service[i].0.clone()),
            None => None,
        }
    }

    /// The ports of the selected service; empty when no service is selected.
    pub fn port_list(&self) -> (r: Vec<i32>)
        requires
            self.wf(),
        ensures
            r@ == self.selected_ports(),
    {
        match self.service_selection {
            Some(i) => copy_ports(&self.ports_by_service[i].1),
            None => Vec::new(),
        }
    }

    fn port_count(&self) -> (r: usize)
        requires
            self.wf(),
        ensures
            r == self.selected_ports().len(),
    {
        match self.service_selection {
            Some(i) => self.ports_by_service[i].1.len(),
            None => 0,
        }
    }

    /// The active tunnels of `service`, in the order in which they were registered.
    pub fn forwarded_ports_for_service(&self, service: &String) -> (r: Vec<&ForwardedPort>)
        ensures
            r@.map_values(|t: &ForwardedPort| t.key()) == keys_of_service(self.tunnels(), service@),
    {
        self.forwarded_ports.list_for_service(service)
    }

    /// The active tunnels of the selected service; none when no service is selected.
    pub fn forwarded_ports_for_selected_service(&self) -> (r: Vec<&ForwardedPort>)
        requires
            self.wf(),
        ensures
            r@.map_values(|t: &ForwardedPort| t.key()) == (match self.service_cursor() {
                Some(i) => keys_of_service(self.tunnels(), self.entries()[i as int].0),
                None => Seq::empty(),
            }),
    {
        match self.service_selection {
            Some(i) => self.forwarded_ports.list_for_service(&self.ports_by_service[i].0),
            None => {
                let r: Vec<&ForwardedPort> = Vec::new();
                assert(r@.map_values(|t: &ForwardedPort| t.key()) =~= Seq::<TunnelKey>::empty());
                r
            },
        }
    }

    /// The active tunnel for `service` and `port`, if any.
    pub fn find_tunnel(&self, service: &String, port: u16) -> (r: Option<&ForwardedPort>)
        ensures
            r is Some <==> self.tunnels().contains((service@, port)),
            r is Some ==> r->0.key() == (service@, port),
    {
        self.forwarded_ports.find(service, port)
    }

    /// Enters the port list of the selected service, at its first port.
    pub fn select(&mut self)
        requires
            old(self).wf(),
        ensures
            final(self).wf(),
            final(self).same_data(old(self)),
            final(self).service_cursor() == old(self).service_cursor(),
            final(self).port_cursor() == (if old(self).port_cursor() is None
                && old(self).selected_ports().len() > 0 {
                Some(0usize)
            } else {
                old(self).port_cursor()
            }),
    {
        if self.port_selection.is_none() {
            if self.port_count() > 0 {
                self.port_selection = Some(0);
            }
        }
    }

    /// Leaves the port list; the service stays selected.
    pub fn deselect(&mut self)
        requires
            old(self).wf(),
        ensures
            final(self).wf(),
            final(self).same_data(old(self)),
            final(self).service_cursor() == old(self).service_cursor(),
            final(self).port_cursor() is None,
    {
        self.port_selection = None;
    }

    /// Moves the cursor down, wrapping round at the end: within the ports when
    /// a port is selected, else within the services; with nothing selected it
    /// goes to the first service.
    pub fn next(&mut self)
        requires
            old(self).wf(),
        ensures
            final(self).wf(),
            final(self).same_data(old(self)),
            ({
                let n = old(self).entries().len();
                match (old(self).port_cursor(), old(self).service_cursor()) {
                    (Some(j), _) => final(self).port_cursor() == Some(
                        step_next(j, old(self).selected_ports().len()),
                    ) && final(self).service_cursor() == old(self).service_cursor(),
                    (None, Some(i)) => final(self).service_cursor() == Some(step_next(i, n))
                        && final(self).port_cursor() is None,
                    (None, None) => final(self).port_cursor() is None
                        && final(self).service_cursor() == (if n > 0 {
                        Some(0usize)
                    } else {
                        None
                    }),
                }
            }),
    {
        if let Some(j) = self.port_selection {
            let len = self.port_count();
            self.port_selection = Some((j + 1) % len);
        } else if let Some(i) = self.service_selection {
            let n = self.ports_by_service.len();
            self.service_selection = Some((i + 1) % n);
        } else if self.ports_by_service.len() > 0 {
            self.service_selection = Some(0);
        }
    }

    /// Moves the cursor up, wrapping round at the start: within the ports when
    /// a port is selected; else within the services, leaving the port list;
    /// with nothing selected it goes to the last service.
    pub fn previous(&mut self)
        requires
            old(self).wf(),
        ensures
            final(self).wf(),
            final(self).same_data(old(self)),
            ({
                let n = old(self).entries().len();
                match (old(self).port_cursor(), old(self).service_cursor()) {
                    (Some(j), _) => final(self).port_cursor() == Some(
                        step_previous(j, old(self).selected_ports().len()),
                    ) && final(self).service_cursor() == old(self).service_cursor(),
                    (None, Some(i)) => final(self).service_cursor() == Some(step_previous(i, n))
                        && final(self).port_cursor() is None,
                    (None, None) => final(self).port_cursor() is None
                        && final(self).service_cursor() == (if n > 0 {
                        Some((n - 1) as usize)
                    } else {
                        None
                    }),
                }
            }),
    {
        if let Some(j) = self.port_selection {
            let len = self.port_count();
            self.port_selection = Some(if j == 0 { len - 1 } else { j - 1 });
        } else if let Some(i) = self.service_selection {
            let n = self.ports_by_service.len();
            self.service_selection = Some(if i == 0 { n - 1 } else { i - 1 });
            self.port_selection = None;
        } else if self.ports_by_service.len() > 0 {
            self.service_selection = Some(self.ports_by_service.len() - 1);
        }
    }
}

impl AppState {
    /// Decides what a toggle of the selection does. With a port selected: stop
    /// its tunnel when one is active, else start one. With only a service
    /// selected: when as many of its tunnels are active as it has ports, stop
    /// them all; else start every port that has no active tunnel.
    pub fn toggle_port_forwarding(&self) -> (r: ToggleAction)
        requires
            self.wf(),
        ensures
            match (self.service_cursor(), self.port_cursor()) {
                (Some(i), Some(j)) => {
                    let s = self.entries()[i as int].0;
                    let p = local_port(self.entries()[i as int].1[j as int]);
                    if self.tunnels().contains((s, p)) {
                        (r matches ToggleAction::StopPort { service, port } && service@ == s
                            && port == p)
                    } else {
                        (r matches ToggleAction::StartPort { service, port } && service@ == s
                            && port == p)
                    }
                },
                (Some(i), None) => {
                    let s = self.entries()[i as int].0;
                    if keys_of_service(self.tunnels(), s).len() == self.entries()[i as int].1.len() {
                        (r matches ToggleAction::StopAll { service, ports } && service@ == s
                            && ports@ == active_ports(self.tunnels(), s))
                    } else {
                        (r matches ToggleAction::StartAll { service, ports } && service@ == s
                            && ports@ == ports_to_start(
                            self.entries()[i as int].1,
                            self.tunnels(),
                            s,
                        ))
                    }
                },
                (None, _) => r is Nothing,
            },
    {
        let i = match self.service_selection {
            Some(i) => i,
            None => {
                return ToggleAction::Nothing;
            },
        };
        let name = &self.ports_by_service[i].0;
        let ports = &self.ports_by_service[i].1;
        if let Some(j) = self.port_selection {
            let port = ports[j] as u16;
            if self.forwarded_ports.find(name, port).is_some() {
                ToggleAction::StopPort { service: name.clone(), port }
            } else {
                ToggleAction::StartPort { service: name.clone(), port }
            }
        } else {
            let active = self.forwarded_ports.list_for_service(name);
            if active.len() == ports.len() {
                let mut out: Vec<u16> = Vec::new();
                let mut k: usize = 0;
                while k < active.len()
                    invariant
                        k <= active@.len(),
                        out@ == active@.map_values(|t: &ForwardedPort| t.key()).map_values(
                            |x: TunnelKey| x.1,
                        ).take(k as int),
                    decreases active@.len() - k,
                {
                    out.push(active[k].port);
                    assert(out@ =~= active@.map_values(|t: &ForwardedPort| t.key()).map_values(
                        |x: TunnelKey| x.1,
                    ).take(k as int + 1));
                    k += 1;
                }
                assert(out@ =~= active@.map_values(|t: &ForwardedPort| t.key()).map_values(
                    |x: TunnelKey| x.1,
                ));
                ToggleAction::StopAll { service: name.clone(), ports: out }
            } else {
                let ghost mapped = ports@.map_values(|p: i32| local_port(p));
                let ghost pred = |p: u16| !self.tunnels().contains((name@, p));
                let mut out: Vec<u16> = Vec::new();
                let mut k: usize = 0;
                while k < ports.len()
                    invariant
                        k <= ports@.len(),
                        mapped == ports@.map_values(|p: i32| local_port(p)),
                        pred == (|p: u16| !self.tunnels().contains((name@, p))),
                        out@ == mapped.take(k as int).filter(pred),
                    decreases ports@.len() - k,
                {
                    proof {
                        crate::registry::lemma_filter_step(mapped, k as int, pred);
                    }
                    let port = ports[k] as u16;
                    if self.forwarded_ports.find(name, port).is_none() {
                        out.push(port);
                    }
                    k += 1;
                }
                assert(mapped.take(k as int) =~= mapped);
                ToggleAction::StartAll { service: name.clone(), ports: out }
            }
        }
    }

    /// Takes the outcome of a start of the tunnel for `service` and `port`.
    /// A tunnel that started is registered at once, unless one for the same
    /// pair already is; a failure is handed back.
    pub fn finish_start(
        &mut self,
        service: String,
        port: u16,
        outcome: Result<Sender<()>, TunnelError>,
    ) -> (r: Result<(), TunnelError>)
        requires
            old(self).wf(),
        ensures
            final(self).wf(),
            final(self).same_listing(old(self)),
            final(self).tunnels() == after_start(old(self).tunnels(), (service@, port), outcome is Ok),
            r is Ok <==> (outcome is Ok && !old(self).tunnels().contains((service@, port))),
            outcome is Ok && old(self).tunnels().contains((service@, port)) ==> r == Err::<
                (),
                TunnelError,
            >(TunnelError::DuplicateTunnel),
            outcome is Err ==> r == Err::<(), TunnelError>(outcome->Err_0),
    {
        let r = match outcome {
            Ok(sender) => self.forwarded_ports.add(ForwardedPort { service, port, sender }),
            Err(e) => Err(e),
        };
        assert(self.entries() == old(self).entries());
        r
    }

    /// Takes the outcome of a stop signal sent to the tunnel for `service` and
    /// `port`: only an acknowledged stop unregisters the tunnel, which is then
    /// handed back.
    pub fn finish_stop(&mut self, service: &String, port: u16, stopped: bool) -> (r: Option<
        ForwardedPort,
    >)
        requires
            old(self).wf(),
        ensures
            final(self).wf(),
            final(self).same_listing(old(self)),
            final(self).tunnels() == after_stop(old(self).tunnels(), (service@, port), stopped),
            r is Some <==> (stopped && old(self).tunnels().contains((service@, port))),
            r is Some ==> r->0.key() == (service@, port),
    {
        let r = if stopped {
            self.forwarded_ports.remove(service, port)
        } else {
            None
        };
        assert(self.entries() == old(self).entries());
        r
    }
}

proof fn lemma_last_ports_step(before: Seq<ServiceEntry>, e: ServiceEntry, name: Seq<char>)
    ensures
        last_ports_of(before.push(e), name) == (if e.0 == name {
            Some(e.1)
        } else {
            last_ports_of(before, name)
        }),
{
    assert(before.push(e).drop_last() =~= before);
}

proof fn lemma_listing_replace(before: Seq<ServiceEntry>, m: Seq<ServiceEntry>, p: int, e: ServiceEntry)
    requires
        listing_of(before, m),
        0 <= p < m.len(),
        m[p].0 == e.0,
    ensures
        listing_of(before.push(e), m.update(p, e)),
{
    let m2 = m.update(p, e);
    let after = before.push(e);
    assert forall|i: int| 0 <= i < m2.len() implies last_ports_of(after, #[trigger] m2[i].0) == Some(
        m2[i].1,
    ) by {
        lemma_last_ports_step(before, e, m2[i].0);
        if i != p {
            if i < p {
                assert(name_lt(m[i].0, m[p].0));
            } else {
                assert(name_lt(m[p].0, m[i].0));
            }
            lemma_name_lt_irreflexive(m[i].0);
        }
    }
    assert forall|name: Seq<char>| #[trigger]
        last_ports_of(after, name) is Some implies exists|i: int|
            0 <= i < m2.len() && m2[i].0 == name by {
        lemma_last_ports_step(before, e, name);
        if name != e.0 {
            let i = choose|i: int| 0 <= i < m.len() && m[i].0 == name;
            assert(m2[i].0 == name);
        } else {
            assert(m2[p].0 == name);
        }
    }
}

proof fn lemma_listing_insert(before: Seq<ServiceEntry>, m: Seq<ServiceEntry>, p: int, e: ServiceEntry)
    requires
        listing_of(before, m),
        0 <= p <= m.len(),
        forall|j: int| 0 <= j < p ==> name_lt(#[trigger] m[j].0, e.0),
        p < m.len() ==> !name_lt(m[p].0, e.0) && m[p].0 != e.0,
    ensures
        listing_of(before.push(e), m.insert(p, e)),
{
    let m2 = m.insert(p, e);
    let after = before.push(e);
    if p < m.len() {
        lemma_name_lt_total(m[p].0, e.0);
    }
    assert forall|j: int| p <= j < m.len() implies name_lt(e.0, #[trigger] m[j].0) by {
        if j > p {
            lemma_name_lt_transitive(e.0, m[p].0, m[j].0);
        }
    }
    assert forall|j: int| 0 <= j < m.len() implies #[trigger] m[j].0 != e.0 by {
        if j < p {
            lemma_name_lt_irreflexive(e.0);
        } else {
            lemma_name_lt_irreflexive(e.0);
        }
    }
    assert forall|i: int, j: int| 0 <= i < j < m2.len() implies name_lt(m2[i].0, m2[j].0) by {
        if j == p {
            assert(m2[i] == m[i]);
        } else if i == p {
            assert(m2[j] == m[j - 1]);
        } else if i < p && j > p {
            assert(name_lt(m[i].0, m[j - 1].0));
        } else if i > p {
            assert(name_lt(m[i - 1].0, m[j - 1].0));
        }
    }
    assert forall|i: int| 0 <= i < m2.len() implies last_ports_of(after, #[trigger] m2[i].0) == Some(
        m2[i].1,
    ) by {
        lemma_last_ports_step(before, e, m2[i].0);
        if i < p {
            assert(m2[i] == m[i]);
        } else if i > p {
            assert(m2[i] == m[i - 1]);
        }
    }
    assert forall|name: Seq<char>| #[trigger]
        last_ports_of(after, name) is Some implies exists|i: int|
            0 <= i < m2.len() && m2[i].0 == name by {
        lemma_last_ports_step(before, e, name);
        if name != e.0 {
            let i = choose|i: int| 0 <= i < m.len() && m[i].0 == name;
            if i < p {
                assert(m2[i].0 == name);
            } else {
                assert(m2[i + 1].0 == name);
            }
        } else {
            assert(m2[p].0 == name);
        }
    }
}

fn copy_ports(v: &Vec<i32>) -> (r: Vec<i32>)
    ensures
        r@ == v@,
{
    let mut r: Vec<i32> = Vec::new();
    let mut i: usize = 0;
    while i < v.len()
        invariant
            i <= v@.len(),
            r@ == v@.take(i as int),
        decreases v@.len() - i,
    {
        r.push(v[i]);
        assert(r@ =~= v@.take(i as int + 1));
        i += 1;
    }
    assert(v@.take(i as int) =~= v@);
    r
}

} // verus!
