//! The service bus: allocates proxy ports, wires a proxy to its endpoint,
//! and resolves each issued command to the frame its owner receives.

use vstd::prelude::*;

use crate::assoc::{key_at, lookup};
use crate::bus_node::{registered, BusNode};
use crate::port_pool::PortPool;
use crate::proxy::{host_of_id, BaseQueryProxy, MessageData};
use crate::text::{dec_str, str_concat, u64_to_string};

verus! {

/// Whether ownership of `cmd` may be set to `owner`: the command is
/// registered and is unowned or already owned by `owner`.
pub open spec fn set_ok(b: Seq<(Seq<char>, Seq<char>)>, cmd: Seq<char>, owner: Seq<char>) -> bool {
    lookup(b, cmd) matches Some(o) && (o.len() == 0 || o == owner)
}

/// The registry after setting ownership of `cmd` to `owner`.
pub open spec fn set_apply(b: Seq<(Seq<char>, Seq<char>)>, cmd: Seq<char>, owner: Seq<char>) -> Seq<
    (Seq<char>, Seq<char>),
> {
    b.update(key_at(b, cmd), (cmd, owner))
}

/// Whether every entry of a discovery service list can be absorbed in
/// order.
pub open spec fn absorb_ok(b: Seq<(Seq<char>, Seq<char>)>, entries: Seq<(Seq<char>, Seq<char>)>) -> bool
    decreases entries.len(),
{
    if entries.len() == 0 {
        true
    } else {
        set_ok(b, entries[0].0, entries[0].1) && absorb_ok(
            set_apply(b, entries[0].0, entries[0].1),
            entries.drop_first(),
        )
    }
}

/// The registry after absorbing a discovery service list in order.
pub open spec fn absorb_fold(
    b: Seq<(Seq<char>, Seq<char>)>,
    entries: Seq<(Seq<char>, Seq<char>)>,
) -> Seq<(Seq<char>, Seq<char>)>
    decreases entries.len(),
{
    if entries.len() == 0 {
        b
    } else {
        absorb_fold(set_apply(b, entries[0].0, entries[0].1), entries.drop_first())
    }
}

/// Whether every command of `cmds` has a non-empty owner in `b`.
pub open spec fn all_owned(b: Seq<(Seq<char>, Seq<char>)>, cmds: Seq<Seq<char>>) -> bool {
    forall|i: int|
        0 <= i < cmds.len() ==> ((#[trigger] lookup(b, cmds[i])) matches Some(o) && o.len() > 0)
}

/// The process-wide router: the commands it serves, its bus node, the
/// serial of the next request, and the pool of proxy ports.
#[derive(Debug)]
pub struct ServiceBus {
    pub service_list: Vec<String>,
    pub bus_node: BusNode,
    pub next_request_serial: u64,
    pub port_pool: PortPool,
}

impl ServiceBus {
    /// A bus for `commands`: the port pool covers `[port_lower,
    /// port_upper]`, the bus node takes the first leased port for its own
    /// identity, and no request has been issued.  An error reports an empty
    /// port range.
    #[verifier::loop_isolation(false)]
    pub fn new(
        host_id: String,
        known_peer: String,
        commands: Vec<String>,
        port_lower: u16,
        port_upper: u16,
    ) -> (r: Result<ServiceBus, String>)
        ensures
            r is Ok <==> port_lower <= port_upper,
            r matches Ok(sb) ==> {
                &&& sb.service_list.deep_view() == commands.deep_view()
                &&& sb.bus_node.host_id@ == host_id@ + seq![':'] + dec_str(port_lower as nat)
                &&& sb.bus_node.peer_id@ == known_peer@
                &&& sb.bus_node.bus@ == registered(commands@)
                &&& sb.bus_node.bus.wf()
                &&& sb.next_request_serial == 0
                &&& sb.port_pool.wf()
                &&& sb.port_pool.lower() == port_lower
                &&& sb.port_pool.upper() == port_upper
                &&& sb.port_pool@.len() == port_upper - port_lower
                &&& forall|i: int|
                    0 <= i < sb.port_pool@.len() ==> #[trigger] sb.port_pool@[i] == port_lower + 1
                        + i
            },
    {
        let mut pool = match PortPool::init(port_lower, port_upper) {
            Ok(p) => p,
            Err(_) => {
                return Err(String::from_str("port pool range is empty"));
            },
        };
        let first = match pool.get_port() {
            Ok(p) => p,
            Err(_) => {
                return Err(String::from_str("no port available for the bus node"));
            },
        };
        let with_colon = str_concat(host_id.as_str(), ":");
        let full_id = with_colon.concat(u64_to_string(first as u64).as_str());
        proof {
            reveal_strlit(":");
            assert(":"@ =~~= seq![':']);
            assert(full_id@ =~~= host_id@ + seq![':'] + dec_str(port_lower as nat));
        }
        let mut service_list: Vec<String> = Vec::new();
        let mut i: usize = 0;
        proof {
            assert(service_list.deep_view() =~~= commands.deep_view().take(0));
        }
        while i < commands.len()
            invariant
                i <= commands@.len(),
                service_list.deep_view() == commands.deep_view().take(i as int),
            decreases commands@.len() - i,
        {
            let ghost before = service_list.deep_view();
            let c = commands[i].clone();
            let ghost cv = c@;
            proof {
                assert(cv == commands.deep_view()[i as int]);
            }
            service_list.push(c);
            proof {
                assert(service_list.deep_view() =~~= before.push(cv));
                assert(service_list.deep_view() =~~= commands.deep_view().take(i + 1));
            }
            i += 1;
        }
        proof {
            assert(commands.deep_view().take(i as int) =~~= commands.deep_view());
        }
        let bus_node = match BusNode::new(full_id, commands, known_peer) {
            Ok(n) => n,
            Err(e) => {
                return Err(e);
            },
        };
        Ok(ServiceBus { service_list, bus_node, next_request_serial: 0, port_pool: pool })
    }

    /// The commands this bus serves.
    #[verifier::loop_isolation(false)]
    pub fn service(&self) -> (r: Vec<String>)
        ensures
            r.deep_view() == self.service_list.deep_view(),
    {
        let mut r: Vec<String> = Vec::new();
        let mut i: usize = 0;
        proof {
            assert(r.deep_view() =~~= self.service_list.deep_view().take(0));
        }
        while i < self.service_list.len()
            invariant
                i <= self.service_list@.len(),
                r.deep_view() == self.service_list.deep_view().take(i as int),
            decreases self.service_list@.len() - i,
        {
            let ghost before = r.deep_view();
            let c = self.service_list[i].clone();
            let ghost cv = c@;
            proof {
                assert(cv == self.service_list.deep_view()[i as int]);
            }
            r.push(c);
            proof {
                assert(r.deep_view() =~~= before.push(cv));
                assert(r.deep_view() =~~= self.service_list.deep_view().take(i + 1));
            }
            i += 1;
        }
        proof {
            assert(self.service_list.deep_view().take(i as int) =~~= self.service_list.deep_view());
        }
        r
    }

    /// Issues the proxy's command: leases a fresh port, stamps the proxy
    /// with the requestor identity, a fresh serial and the port, wires its
    /// endpoint on the requestor side, and resolves the frame
    /// `[requestor, serial, proxy endpoint, proxy args...]` to the
    /// command's owner.  `Ok(None)` reports a command without an owner; the
    /// proxy's stream is then marked finished so its drain loop exits.  An
    /// error reports an exhausted port pool and changes nothing.
    #[verifier::rlimit(30)]
    #[verifier::loop_isolation(false)]
    pub fn issue_bus_command(&mut self, proxy: &mut BaseQueryProxy) -> (r: Result<
        Option<(String, MessageData)>,
        String,
    >)
        requires
            old(self).next_request_serial < u64::MAX,
            old(self).port_pool.wf(),
            old(self).port_pool.lower() >= 1,
        ensures
            r is Err <==> old(self).port_pool@.len() == 0,
            r is Err ==> *final(self) == *old(self) && *final(proxy) == *old(proxy),
            r is Ok ==> {
                &&& final(self).port_pool@ == old(self).port_pool@.drop_first()
                &&& final(self).port_pool.wf()
                &&& final(self).next_request_serial == old(self).next_request_serial + 1
                &&& final(self).bus_node == old(self).bus_node
                &&& final(self).service_list == old(self).service_list
                &&& final(proxy).requestor_id@ == old(self).bus_node.host_id@
                &&& final(proxy).serial == old(self).next_request_serial + 1
                &&& final(proxy).proxy_port == old(self).port_pool@[0]
                &&& final(proxy).proxy_node.node_id@ == host_of_id(old(self).bus_node.host_id@)
                    + seq![':'] + dec_str(old(self).port_pool@[0] as nat)
                &&& final(proxy).proxy_node.peer_id@ == Seq::<char>::empty()
                &&& *final(proxy) == (BaseQueryProxy {
                    requestor_id: final(proxy).requestor_id,
                    serial: final(proxy).serial,
                    proxy_port: final(proxy).proxy_port,
                    proxy_node: final(proxy).proxy_node,
                    answer_flow_finished: final(proxy).answer_flow_finished,
                    ..*old(proxy)
                })
            },
            r matches Ok(Some((target, frame))) ==> {
                &&& lookup(old(self).bus_node.bus@, old(proxy).command@) == Some(target@)
                &&& target@.len() > 0
                &&& frame.command@ == old(proxy).command@
                &&& frame.args.deep_view() == seq![
                    old(self).bus_node.host_id@,
                    dec_str((old(self).next_request_serial + 1) as nat),
                    host_of_id(old(self).bus_node.host_id@) + seq![':'] + dec_str(
                        old(self).port_pool@[0] as nat,
                    ),
                ] + old(proxy).args.deep_view()
                &&& frame.sender@ == old(self).bus_node.host_id@
                &&& !frame.is_broadcast
                &&& final(proxy).answer_flow_finished == old(proxy).answer_flow_finished
            },
            r matches Ok(None) ==> {
                &&& !(lookup(old(self).bus_node.bus@, old(proxy).command@) matches Some(o)
                    && o.len() > 0)
                &&& final(proxy).answer_flow_finished
            },
            old(proxy).wf() ==> final(proxy).wf(),
    {
        let port = match self.port_pool.get_port() {
            Ok(p) => p,
            Err(_) => {
                return Err(String::from_str("No port is available to start bus command proxy"));
            },
        };
        self.next_request_serial = self.next_request_serial + 1;
        proxy.requestor_id = self.bus_node.node_id();
        proxy.serial = self.next_request_serial;
        proxy.proxy_port = port;
        match proxy.setup_proxy_node(None, None) {
            Ok(_) => {},
            Err(_) => {
                proof {
                    // Unreachable: the leased port lies in the pool's range,
                    // whose lower bound is at least one.
                    assert(false);
                }
            },
        }
        let mut args: Vec<String> = Vec::new();
        args.push(proxy.requestor_id.clone());
        args.push(u64_to_string(proxy.serial));
        args.push(proxy.proxy_node.node_id());
        let mut i: usize = 0;
        let ghost head = args.deep_view();
        while i < proxy.args.len()
            invariant
                i <= proxy.args@.len(),
                args.deep_view() == head + proxy.args.deep_view().take(i as int),
            decreases proxy.args@.len() - i,
        {
            let ghost before = args.deep_view();
            let a = proxy.args[i].clone();
            let ghost av = a@;
            proof {
                assert(av == proxy.args.deep_view()[i as int]);
            }
            args.push(a);
            proof {
                assert(args.deep_view() =~~= before.push(av));
                assert(args.deep_view() =~~= head + proxy.args.deep_view().take(i + 1));
            }
            i += 1;
        }
        proof {
            assert(proxy.args.deep_view().take(i as int) =~~= proxy.args.deep_view());
            assert(head =~~= seq![
                proxy.requestor_id@,
                dec_str(proxy.serial as nat),
                proxy.proxy_node.node_id@,
            ]);
        }
        match self.bus_node.send_bus_command(proxy.command.clone(), args) {
            Ok((target, frame)) => Ok(Some((target, frame))),
            Err(_) => {
                proxy.answer_flow_finished = true;
                Ok(None)
            },
        }
    }

    /// Absorbs a discovery proxy's accumulated service list into the bus,
    /// in order.  An error reports the first pair naming an unregistered
    /// command or a command already owned elsewhere; the pairs before it
    /// stay absorbed.
    #[verifier::loop_isolation(false)]
    pub fn absorb_service_list(&mut self, entries: &Vec<(String, String)>) -> (r: Result<
        (),
        String,
    >)
        ensures
            r is Ok <==> absorb_ok(old(self).bus_node.bus@, crate::codec::pairs_view(entries@)),
            r is Ok ==> final(self).bus_node.bus@ == absorb_fold(
                old(self).bus_node.bus@,
                crate::codec::pairs_view(entries@),
            ),
            old(self).bus_node.bus.wf() ==> final(self).bus_node.bus.wf(),
            final(self).service_list == old(self).service_list,
            final(self).next_request_serial == old(self).next_request_serial,
            final(self).port_pool == old(self).port_pool,
            final(self).bus_node.host_id == old(self).bus_node.host_id,
            final(self).bus_node.peer_id == old(self).bus_node.peer_id,
    {
        let ghost ev = crate::codec::pairs_view(entries@);
        let ghost b0 = self.bus_node.bus@;
        let mut i: usize = 0;
        proof {
            assert(ev.skip(0) =~~= ev);
        }
        while i < entries.len()
            invariant
                i <= entries@.len(),
                ev == crate::codec::pairs_view(entries@),
                ev.len() == entries@.len(),
                absorb_ok(b0, ev) == absorb_ok(self.bus_node.bus@, ev.skip(i as int)),
                absorb_fold(b0, ev) == absorb_fold(self.bus_node.bus@, ev.skip(i as int)),
                old(self).bus_node.bus.wf() ==> self.bus_node.bus.wf(),
                self.service_list == old(self).service_list,
                self.next_request_serial == old(self).next_request_serial,
                self.port_pool == old(self).port_pool,
                self.bus_node.host_id == old(self).bus_node.host_id,
                self.bus_node.peer_id == old(self).bus_node.peer_id,
                self.bus_node.send_join_network == old(self).bus_node.send_join_network,
            decreases entries@.len() - i,
        {
            proof {
                assert(ev[i as int] == (entries@[i as int].0@, entries@[i as int].1@));
                assert(ev.skip(i as int)[0] == ev[i as int]);
                assert(ev.skip(i as int).drop_first() =~~= ev.skip(i + 1));
            }
            let command = entries[i].0.clone();
            let owner = &entries[i].1;
            match self.bus_node.bus.set_ownership(command, owner.as_str()) {
                Ok(_) => {},
                Err(e) => {
                    return Err(e);
                },
            }
            i += 1;
        }
        proof {
            assert(ev.skip(i as int).len() == 0);
        }
        Ok(())
    }

    /// Whether every served command has found an owner, which ends the
    /// join-network polling.
    #[verifier::loop_isolation(false)]
    pub fn all_commands_owned(&self) -> (r: bool)
        ensures
            r == all_owned(self.bus_node.bus@, self.service_list.deep_view()),
    {
        let ghost cmds = self.service_list.deep_view();
        let mut i: usize = 0;
        while i < self.service_list.len()
            invariant
                i <= self.service_list@.len(),
                cmds == self.service_list.deep_view(),
                forall|j: int|
                    0 <= j < i ==> ((#[trigger] lookup(self.bus_node.bus@, cmds[j])) matches Some(
                        o,
                    ) && o.len() > 0),
            decreases self.service_list@.len() - i,
        {
            proof {
                assert(cmds[i as int] == self.service_list@[i as int]@);
            }
            match self.bus_node.bus.get_ownership(self.service_list[i].as_str()) {
                Ok(owner) => {
                    if owner.as_str().unicode_len() == 0 {
                        return false;
                    }
                },
                Err(_) => {
                    return false;
                },
            }
            i += 1;
        }
        true
    }
}

} // verus!
