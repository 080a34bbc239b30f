//! The bus node: joins the network and routes outbound command frames to
//! the peers that own them.

use vstd::prelude::*;

use crate::assoc::lookup;
use crate::bus::Bus;
use crate::proxy::MessageData;
use crate::star_node::NODE_JOINED_NETWORK;
use crate::text::str_concat;

verus! {

/// This process's identity on the bus, the known peer it joins through,
/// and the registry of command owners.
#[derive(Debug)]
pub struct BusNode {
    pub host_id: String,
    pub peer_id: String,
    pub bus: Bus,
    pub send_join_network: bool,
}

/// The registry holding each of `commands`, in order, with no owner.
pub open spec fn registered(commands: Seq<String>) -> Seq<(Seq<char>, Seq<char>)>
    decreases commands.len(),
{
    if commands.len() == 0 {
        Seq::empty()
    } else {
        let rest = registered(commands.drop_last());
        if lookup(rest, commands.last()@) is Some {
            rest
        } else {
            rest.push((commands.last()@, Seq::<char>::empty()))
        }
    }
}

impl BusNode {
    /// A node identified as `host_id`, joining through `target_id`, with
    /// each of `commands` registered and unowned.
    pub fn new(host_id: String, commands: Vec<String>, target_id: String) -> (r: Result<
        BusNode,
        String,
    >)
        ensures
            r is Ok,
            r matches Ok(n) ==> {
                &&& n.host_id@ == host_id@
                &&& n.peer_id@ == target_id@
                &&& n.bus@ == registered(commands@)
                &&& n.bus.wf()
                &&& n.send_join_network
            },
    {
        let mut bus = Bus::new();
        let mut i: usize = 0;
        proof {
            assert(commands@.take(0) =~~= Seq::<String>::empty());
            assert(bus@ =~~= registered(commands@.take(0)));
        }
        while i < commands.len()
            invariant
                i <= commands@.len(),
                bus@ == registered(commands@.take(i as int)),
                bus.wf(),
            decreases commands@.len() - i,
        {
            let ghost pre = bus@;
            let command = commands[i].clone();
            let r = bus.add(command);
            proof {
                crate::assoc::lemma_key_at(pre, commands@[i as int]@);
                assert(commands@.take(i + 1).drop_last() =~~= commands@.take(i as int));
                assert(commands@.take(i + 1).last() == commands@[i as int]);
                if lookup(pre, commands@[i as int]@) is Some {
                    let k = crate::assoc::key_at(pre, commands@[i as int]@);
                    lemma_registered_owner_empty(commands@.take(i as int), k);
                }
            }
            i += 1;
        }
        proof {
            assert(commands@.take(i as int) =~~= commands@);
        }
        Ok(BusNode { host_id, peer_id: target_id, bus, send_join_network: true })
    }

    /// This node's identity.
    pub fn node_id(&self) -> (r: String)
        ensures
            r@ == self.host_id@,
    {
        self.host_id.clone()
    }

    /// The frame that carries `command` with `args` to its owner, and that
    /// owner's identity.  An error reports an unregistered command or one
    /// with no owner yet.
    pub fn send_bus_command(&self, command: String, args: Vec<String>) -> (r: Result<
        (String, MessageData),
        String,
    >)
        ensures
            r is Ok <==> (lookup(self.bus@, command@) matches Some(o) && o.len() > 0),
            r matches Ok((target, frame)) ==> {
                &&& lookup(self.bus@, command@) == Some(target@)
                &&& frame.command@ == command@
                &&& frame.args@ == args@
                &&& frame.sender@ == self.host_id@
                &&& !frame.is_broadcast
                &&& frame.visited_recipients@.len() == 0
            },
    {
        let target = match self.bus.get_ownership(command.as_str()) {
            Ok(t) => t,
            Err(e) => {
                return Err(e);
            },
        };
        if target.as_str().unicode_len() == 0 {
            return Err(str_concat("Bus: no owner is defined for command ", command.as_str()));
        }
        let frame = MessageData {
            command,
            args,
            sender: self.host_id.clone(),
            is_broadcast: false,
            visited_recipients: Vec::new(),
        };
        Ok((target, frame))
    }

    /// The broadcast frame that announces this node to the network, and the
    /// known peer it goes to.
    pub fn join_frame(&self) -> (r: (String, MessageData))
        ensures
            r.0@ == self.peer_id@,
            r.1.command@ == NODE_JOINED_NETWORK@,
            r.1.args.deep_view() == seq![self.host_id@],
            r.1.sender@ == self.host_id@,
            r.1.is_broadcast,
    {
        let mut args: Vec<String> = Vec::new();
        args.push(self.host_id.clone());
        proof {
            assert(args.deep_view() =~~= seq![self.host_id@]);
        }
        let frame = MessageData {
            command: String::from_str(NODE_JOINED_NETWORK),
            args,
            sender: self.host_id.clone(),
            is_broadcast: true,
            visited_recipients: Vec::new(),
        };
        (self.peer_id.clone(), frame)
    }
}

/// Every owner in a freshly registered bus is empty.
pub proof fn lemma_registered_owner_empty(commands: Seq<String>, k: int)
    requires
        0 <= k < registered(commands).len(),
    ensures
        registered(commands)[k].1 == Seq::<char>::empty(),
    decreases commands.len(),
{
    if commands.len() > 0 {
        let pre = registered(commands.drop_last());
        if lookup(pre, commands.last()@) is Some {
            lemma_registered_owner_empty(commands.drop_last(), k);
        } else {
            if k < pre.len() {
                lemma_registered_owner_empty(commands.drop_last(), k);
            } else {
                assert(registered(commands)[k] == (commands.last()@, Seq::<char>::empty()));
            }
        }
    }
}

} // verus!
