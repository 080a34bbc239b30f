//! The process-wide service bus: one shared instance, initialized
//! idempotently (the last initialization wins) and replaceable at runtime.

use vstd::prelude::*;

use crate::bus::{
    CONTEXT_CMD, INFERENCE_CMD, LINK_CREATION_CMD, PATTERN_MATCHING_QUERY_CMD, QUERY_EVOLUTION_CMD,
};
use crate::bus_node::registered;
use crate::service_bus::ServiceBus;
use crate::text::dec_str;

verus! {

/// Holds the process's one service bus, once initialized.
pub struct ServiceBusSingleton {
    instance: Option<ServiceBus>,
}

impl ServiceBusSingleton {
    /// The held instance, if any.
    pub closed spec fn instance_view(&self) -> Option<ServiceBus> {
        self.instance
    }

    /// An empty holder.
    pub fn new() -> (r: ServiceBusSingleton)
        ensures
            r.instance_view() is None,
    {
        ServiceBusSingleton { instance: None }
    }

    /// Builds a service bus for the standard commands and installs it,
    /// replacing any instance already held: the last initialization wins.
    /// An error reports an empty port range and leaves the holder as it
    /// was.
    pub fn init(
        &mut self,
        host_id: String,
        known_peer: String,
        port_lower: u16,
        port_upper: u16,
    ) -> (r: Result<(), String>)
        ensures
            r is Ok <==> port_lower <= port_upper,
            r is Ok ==> (final(self).instance_view() matches Some(sb) && standard_bus(
                sb,
                host_id@,
                known_peer@,
                port_lower,
                port_upper,
            )),
            r is Err ==> *final(self) == *old(self),
    {
        let sb = match Self::internal_init(host_id, known_peer, port_lower, port_upper) {
            Ok(sb) => sb,
            Err(e) => {
                return Err(e);
            },
        };
        self.instance = Some(sb);
        Ok(())
    }

    /// Replaces the held instance with one built for new networking
    /// parameters.  An error reports an empty port range and leaves the
    /// holder as it was.
    pub fn provide(
        &mut self,
        host_id: String,
        known_peer: String,
        port_lower: u16,
        port_upper: u16,
    ) -> (r: Result<(), String>)
        ensures
            r is Ok <==> port_lower <= port_upper,
            r is Ok ==> (final(self).instance_view() matches Some(sb) && standard_bus(
                sb,
                host_id@,
                known_peer@,
                port_lower,
                port_upper,
            )),
            r is Err ==> *final(self) == *old(self),
    {
        let sb = match Self::internal_init(host_id, known_peer, port_lower, port_upper) {
            Ok(sb) => sb,
            Err(e) => {
                return Err(e);
            },
        };
        self.instance = Some(sb);
        Ok(())
    }

    /// The held instance; an error when `init` never succeeded.
    pub fn get_instance(&self) -> (r: Result<&ServiceBus, String>)
        ensures
            r is Ok <==> self.instance_view() is Some,
            r matches Ok(sb) ==> self.instance_view() == Some(*sb),
    {
        match &self.instance {
            Some(sb) => Ok(sb),
            None => Err(String::from_str("ServiceBusSingleton not initialized!")),
        }
    }

    /// The held instance, mutably; an error when `init` never succeeded.
    pub fn get_instance_mut(&mut self) -> (r: Result<&mut ServiceBus, String>)
        ensures
            r is Ok <==> old(self).instance_view() is Some,
            r matches Ok(sb) ==> {
                &&& old(self).instance_view() == Some(*sb)
                &&& final(self).instance_view() == Some(*final(sb))
            },
            r is Err ==> *final(self) == *old(self),
    {
        match &mut self.instance {
            Some(sb) => Ok(sb),
            None => Err(String::from_str("ServiceBusSingleton not initialized!")),
        }
    }

    /// A service bus serving the five standard commands.
    fn internal_init(
        host_id: String,
        known_peer: String,
        port_lower: u16,
        port_upper: u16,
    ) -> (r: Result<ServiceBus, String>)
        ensures
            r is Ok <==> port_lower <= port_upper,
            r matches Ok(sb) ==> standard_bus(sb, host_id@, known_peer@, port_lower, port_upper),
    {
        let mut commands: Vec<String> = Vec::new();
        commands.push(String::from_str(PATTERN_MATCHING_QUERY_CMD));
        commands.push(String::from_str(QUERY_EVOLUTION_CMD));
        commands.push(String::from_str(LINK_CREATION_CMD));
        commands.push(String::from_str(INFERENCE_CMD));
        commands.push(String::from_str(CONTEXT_CMD));
        proof {
            assert(commands.deep_view() =~~= standard_commands());
        }
        let ghost cmds = commands@;
        let r = ServiceBus::new(host_id, known_peer, commands, port_lower, port_upper);
        proof {
            if r is Ok {
                let sb = r->Ok_0;
                assert(sb.service_list.deep_view() =~~= standard_commands());
                lemma_registered_standard(cmds);
            }
        }
        r
    }
}

/// The names of the five standard commands.
pub open spec fn standard_commands() -> Seq<Seq<char>> {
    seq![
        PATTERN_MATCHING_QUERY_CMD@,
        QUERY_EVOLUTION_CMD@,
        LINK_CREATION_CMD@,
        INFERENCE_CMD@,
        CONTEXT_CMD@,
    ]
}

/// What a freshly initialized standard service bus looks like.
pub open spec fn standard_bus(
    sb: ServiceBus,
    host: Seq<char>,
    known_peer: Seq<char>,
    port_lower: u16,
    port_upper: u16,
) -> bool {
    &&& sb.service_list.deep_view() == standard_commands()
    &&& sb.bus_node.host_id@ == host + seq![':'] + dec_str(port_lower as nat)
    &&& sb.bus_node.peer_id@ == known_peer
    &&& sb.bus_node.bus@ == standard_commands().map_values(
        |c: Seq<char>| (c, Seq::<char>::empty()),
    )
    &&& sb.bus_node.bus.wf()
    &&& sb.next_request_serial == 0
    &&& sb.port_pool.wf()
    &&& sb.port_pool.lower() == port_lower
    &&& sb.port_pool.upper() == port_upper
    &&& sb.port_pool@.len() == port_upper - port_lower
}

/// The five standard commands register as five unowned entries: the names
/// are pairwise distinct, so each add appends.
proof fn lemma_registered_standard(cmds: Seq<String>)
    requires
        cmds.len() == 5,
        cmds[0]@ == PATTERN_MATCHING_QUERY_CMD@,
        cmds[1]@ == QUERY_EVOLUTION_CMD@,
        cmds[2]@ == LINK_CREATION_CMD@,
        cmds[3]@ == INFERENCE_CMD@,
        cmds[4]@ == CONTEXT_CMD@,
    ensures
        registered(cmds) == standard_commands().map_values(
            |c: Seq<char>| (c, Seq::<char>::empty()),
        ),
{
    reveal_strlit("pattern_matching_query");
    reveal_strlit("query_evolution");
    reveal_strlit("link_creation");
    reveal_strlit("inference");
    reveal_strlit("context");
    assert(PATTERN_MATCHING_QUERY_CMD@.len() == 22);
    assert(QUERY_EVOLUTION_CMD@.len() == 15);
    assert(LINK_CREATION_CMD@.len() == 13);
    assert(INFERENCE_CMD@.len() == 9);
    assert(CONTEXT_CMD@.len() == 7);
    let c0 = cmds.take(1);
    let c1 = cmds.take(2);
    let c2 = cmds.take(3);
    let c3 = cmds.take(4);
    assert(cmds.take(0) =~~= Seq::<String>::empty());
    assert(c0.drop_last() =~~= cmds.take(0));
    assert(c1.drop_last() =~~= c0);
    assert(c2.drop_last() =~~= c1);
    assert(c3.drop_last() =~~= c2);
    assert(cmds.drop_last() =~~= c3);
    assert(registered(cmds.take(0)) =~~= Seq::<(Seq<char>, Seq<char>)>::empty());
    assert(registered(c0) =~~= seq![(cmds[0]@, Seq::<char>::empty())]);
    crate::assoc::lemma_key_at(registered(c0), cmds[1]@);
    assert(registered(c0)[0].0 != cmds[1]@);
    assert(registered(c1) =~~= registered(c0).push((cmds[1]@, Seq::<char>::empty())));
    crate::assoc::lemma_key_at(registered(c1), cmds[2]@);
    assert(registered(c1)[0].0 != cmds[2]@ && registered(c1)[1].0 != cmds[2]@);
    assert(registered(c2) =~~= registered(c1).push((cmds[2]@, Seq::<char>::empty())));
    crate::assoc::lemma_key_at(registered(c2), cmds[3]@);
    assert(registered(c2)[0].0 != cmds[3]@ && registered(c2)[1].0 != cmds[3]@ && registered(
        c2,
    )[2].0 != cmds[3]@);
    assert(registered(c3) =~~= registered(c2).push((cmds[3]@, Seq::<char>::empty())));
    crate::assoc::lemma_key_at(registered(c3), cmds[4]@);
    assert(registered(c3)[0].0 != cmds[4]@ && registered(c3)[1].0 != cmds[4]@ && registered(
        c3,
    )[2].0 != cmds[4]@ && registered(c3)[3].0 != cmds[4]@);
    assert(registered(cmds) =~~= registered(c3).push((cmds[4]@, Seq::<char>::empty())));
    assert(registered(cmds) =~~= standard_commands().map_values(
        |c: Seq<char>| (c, Seq::<char>::empty()),
    ));
}

} // verus!
