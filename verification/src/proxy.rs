//! The per-query proxy: the outbound endpoint identity, the frame type the
//! bus exchanges, and the shared state of one in-flight query.

use vstd::prelude::*;

use crate::assoc::lookup;
use crate::properties::{PropView, COUNT_FLAG};
use crate::QueryParams;
use crate::text::{
    chars_of, dec_str, is_u64_text, parse_u64, str_concat, u64_text_val, u64_to_string,
};
use std::collections::VecDeque;

verus! {

pub const ABORT: &'static str = "abort";

pub const ANSWER_BUNDLE: &'static str = "answer_bundle";

pub const COUNT: &'static str = "count";

pub const FINISHED: &'static str = "finished";

pub const PEER_ERROR: &'static str = "peer_error";

pub const BUS_COMMAND_PROXY: &'static str = "bus_command_proxy";

/// One message of the bus protocol.
#[derive(Debug)]
pub struct MessageData {
    pub command: String,
    pub args: Vec<String>,
    pub sender: String,
    pub is_broadcast: bool,
    pub visited_recipients: Vec<String>,
}

/// The reply to a ping.
#[derive(Debug)]
pub struct Ack {
    pub error: bool,
    pub msg: String,
}

/// Answers a ping.
pub fn ping_ack() -> (r: Ack)
    ensures
        !r.error,
        r.msg@ == "ack"@,
{
    Ack { error: false, msg: String::from_str("ack") }
}

/// The first position at or after `from` holding `c`, or the end.
pub open spec fn idx_of(s: Seq<char>, c: char, from: int) -> int
    decreases s.len() - from,
{
    if from < 0 {
        0
    } else if from >= s.len() || s[from] == c {
        from
    } else {
        idx_of(s, c, from + 1)
    }
}

/// The port embedded in a `host:port` identifier: present when the
/// identifier holds exactly one `:` and what follows it is a number no
/// greater than the largest port.
pub open spec fn port_of_id(s: Seq<char>) -> Option<int> {
    let i = idx_of(s, ':', 0);
    if i < s.len() && idx_of(s, ':', i + 1) == s.len() && is_u64_text(s.subrange(i + 1, s.len() as int))
        && u64_text_val(s.subrange(i + 1, s.len() as int)) <= u16::MAX {
        Some(u64_text_val(s.subrange(i + 1, s.len() as int)))
    } else {
        None
    }
}

/// The host part of a `host:port` identifier: everything before the first
/// `:`, or the whole identifier when there is none.
pub open spec fn host_of_id(s: Seq<char>) -> Seq<char> {
    s.take(idx_of(s, ':', 0))
}

/// Scans for `c` from `from`.
#[verifier::loop_isolation(false)]
pub fn find_char(cs: &Vec<char>, c: char, from: usize) -> (r: usize)
    requires
        from <= cs@.len(),
    ensures
        r == idx_of(cs@, c, from as int),
        from <= r <= cs@.len(),
{
    let mut i: usize = from;
    while i < cs.len() && cs[i] != c
        invariant
            from <= i <= cs@.len(),
            idx_of(cs@, c, from as int) == idx_of(cs@, c, i as int),
        decreases cs@.len() - i,
    {
        i += 1;
    }
    i
}

/// The outbound endpoint of one query: this node's identity and the remote
/// peer the query talks to.
#[derive(Debug)]
pub struct ProxyNode {
    pub node_id: String,
    pub peer_id: String,
}

impl ProxyNode {
    /// An endpoint with empty identities, for a proxy not yet wired.
    pub fn empty() -> (r: ProxyNode)
        ensures
            r.node_id@ == Seq::<char>::empty(),
            r.peer_id@ == Seq::<char>::empty(),
    {
        ProxyNode { node_id: String::new(), peer_id: String::new() }
    }

    /// An endpoint listening as `node_id` and speaking to `peer_id`.
    pub fn new(node_id: String, peer_id: String) -> (r: ProxyNode)
        ensures
            r.node_id@ == node_id@,
            r.peer_id@ == peer_id@,
    {
        ProxyNode { node_id, peer_id }
    }

    /// This endpoint's own identity.
    pub fn node_id(&self) -> (r: String)
        ensures
            r@ == self.node_id@,
    {
        self.node_id.clone()
    }

    /// The frame that carries `command` to the remote peer: a
    /// `bus_command_proxy` frame whose args are `args` with `command`
    /// appended, sent from this node.
    pub fn to_remote_peer(&self, command: String, args: Vec<String>) -> (r: MessageData)
        ensures
            r.command@ == BUS_COMMAND_PROXY@,
            r.args.deep_view() == args.deep_view().push(command@),
            r.sender@ == self.node_id@,
            !r.is_broadcast,
            r.visited_recipients.deep_view() == Seq::<Seq<char>>::empty(),
    {
        let ghost dv = args.deep_view();
        let ghost cv = command@;
        let mut new_args = args;
        new_args.push(command);
        proof {
            assert(new_args.deep_view() =~~= dv.push(cv));
        }
        let r = MessageData {
            command: String::from_str(BUS_COMMAND_PROXY),
            args: new_args,
            sender: self.node_id.clone(),
            is_broadcast: false,
            visited_recipients: Vec::new(),
        };
        proof {
            assert(r.visited_recipients.deep_view() =~~= Seq::<Seq<char>>::empty());
        }
        r
    }

    /// The port this endpoint's identity embeds, to be returned to the
    /// pool on teardown.  `None` when the identity is empty or malformed,
    /// where the teardown logs and keeps going.
    pub fn take_port(&self) -> (r: Option<u16>)
        ensures
            r matches Some(p) ==> port_of_id(self.node_id@) == Some(p as int),
            r is None ==> port_of_id(self.node_id@) is None,
    {
        let cs = chars_of(self.node_id.as_str());
        let i = find_char(&cs, ':', 0);
        if i >= cs.len() {
            return None;
        }
        let j = find_char(&cs, ':', i + 1);
        if j < cs.len() {
            return None;
        }
        let mut rest: Vec<char> = Vec::new();
        let mut k: usize = i + 1;
        proof {
            assert(rest@ =~~= cs@.subrange(i + 1, i + 1));
        }
        while k < cs.len()
            invariant
                i + 1 <= k <= cs@.len(),
                rest@ == cs@.subrange(i + 1, k as int),
            decreases cs@.len() - k,
        {
            rest.push(cs[k]);
            proof {
                assert(rest@ =~~= cs@.subrange(i + 1, k + 1));
            }
            k += 1;
        }
        match parse_u64(&rest) {
            Some(v) => if v <= u16::MAX as u64 {
                Some(v as u16)
            } else {
                None
            },
            None => None,
        }
    }
}

/// The shared state of one in-flight query.
pub struct BaseQueryProxy {
    /// Answers not yet drained, oldest first.
    pub answer_queue: VecDeque<String>,
    /// The number of answers pushed, or the count a count-only query
    /// received.
    pub answer_count: u64,
    /// Set when the remote peer announced the end of the stream.
    pub answer_flow_finished: bool,
    /// Set for count-only queries, which forbid `pop`.
    pub count_flag: bool,
    /// Set on local abort or a peer-signalled error.
    pub abort_flag: bool,
    /// The tokenized query.
    pub query_tokens: Vec<String>,
    /// Command-to-owner pairs a discovery proxy accumulated.
    pub service_list: Vec<(String, String)>,
    /// The outbound command payload.
    pub command: String,
    /// The context key the query runs under.
    pub context: String,
    pub args: Vec<String>,
    pub requestor_id: String,
    pub serial: u64,
    pub proxy_port: u16,
    pub proxy_node: ProxyNode,
    /// Set when a context proxy's remote context was created.
    pub context_created: bool,
    /// Candidate-assignment frames for evolutionary queries.
    pub eval_fitness_queue: VecDeque<String>,
    /// The number of `push` calls, counted for the accounting law.
    pub pushes: Ghost<nat>,
    /// The number of `pop` calls that yielded a value.
    pub popped: Ghost<nat>,
}

/// What a freshly built proxy looks like, short of its argument list: empty
/// queues, zero count, cleared flags, the query tokens and context key taken
/// from the parameters, and the count-only flag read from the properties.
pub open spec fn fresh_base(p: BaseQueryProxy, command: Seq<char>, params: QueryParams) -> bool {
    &&& p.answer_queue@.len() == 0
    &&& p.answer_count == 0
    &&& !p.answer_flow_finished
    &&& Some(PropView::Bool(p.count_flag)) == lookup(params.properties@, COUNT_FLAG@)
    &&& !p.abort_flag
    &&& p.query_tokens.deep_view() == params.tokens.deep_view()
    &&& p.service_list@.len() == 0
    &&& p.command@ == command
    &&& p.context@ == params.context_key@
    &&& p.requestor_id@ == Seq::<char>::empty()
    &&& p.serial == 0
    &&& p.proxy_port == 0
    &&& !p.context_created
    &&& p.eval_fitness_queue@.len() == 0
    &&& p.proxy_node.node_id@ == Seq::<char>::empty()
    &&& p.proxy_node.peer_id@ == Seq::<char>::empty()
    &&& p.pushes@ == 0
    &&& p.popped@ == 0
    &&& p.wf()
}

impl BaseQueryProxy {
    /// The accounting invariant: the queue holds exactly the pushed and not
    /// yet popped answers, and for a query that is not count-only the
    /// answer count is the number of pushes.
    pub open spec fn wf(&self) -> bool {
        &&& self.answer_queue@.len() + self.popped@ == self.pushes@
        &&& !self.count_flag ==> self.answer_count == self.pushes@
    }

    /// Whether `finished` holds: aborted, or the stream ended and (for a
    /// query that is not count-only) the queue is drained.
    pub open spec fn spec_finished(&self) -> bool {
        self.abort_flag || (self.answer_flow_finished && (self.count_flag
            || self.answer_queue@.len() == 0))
    }

    /// A proxy for `command` with the given parameters: empty queues, zero
    /// count, cleared flags, and the count-only flag read from the
    /// properties.  An error reports a missing or non-boolean count flag.
    pub fn new(command: String, params: &QueryParams) -> (r: Result<BaseQueryProxy, String>)
        ensures
            r is Ok <==> lookup(params.properties@, COUNT_FLAG@) matches Some(PropView::Bool(_)),
            r matches Ok(p) ==> fresh_base(p, command@, *params) && p.args@.len() == 0,
    {
        let count_flag = match params.properties.get_bool(COUNT_FLAG) {
            Ok(b) => b,
            Err(e) => {
                return Err(e);
            },
        };
        let mut query_tokens: Vec<String> = Vec::new();
        let mut i: usize = 0;
        proof {
            assert(query_tokens.deep_view() =~~= params.tokens.deep_view().take(0));
        }
        while i < params.tokens.len()
            invariant
                i <= params.tokens@.len(),
                query_tokens.deep_view() == params.tokens.deep_view().take(i as int),
            decreases params.tokens@.len() - i,
        {
            let ghost before = query_tokens.deep_view();
            let t = params.tokens[i].clone();
            let ghost tv = t@;
            proof {
                assert(tv == params.tokens.deep_view()[i as int]);
            }
            query_tokens.push(t);
            proof {
                assert(query_tokens.deep_view() =~~= before.push(tv));
                assert(query_tokens.deep_view() =~~= params.tokens.deep_view().take(i + 1));
            }
            i += 1;
        }
        proof {
            assert(params.tokens.deep_view().take(i as int) =~~= params.tokens.deep_view());
        }
        Ok(
            BaseQueryProxy {
                answer_queue: VecDeque::new(),
                answer_count: 0,
                answer_flow_finished: false,
                count_flag,
                abort_flag: false,
                query_tokens,
                service_list: Vec::new(),
                command,
                context: params.context_key.clone(),
                args: Vec::new(),
                requestor_id: String::new(),
                serial: 0,
                proxy_port: 0,
                proxy_node: ProxyNode::empty(),
                context_created: false,
                eval_fitness_queue: VecDeque::new(),
                pushes: Ghost(0),
                popped: Ghost(0),
            },
        )
    }

    /// Whether the query is finished: aborted, or the stream ended and (for
    /// a query that is not count-only) the queue is drained.
    pub fn finished(&self) -> (r: bool)
        ensures
            r == self.spec_finished(),
    {
        self.abort_flag || (self.answer_flow_finished && (self.count_flag
            || self.answer_queue.len() == 0))
    }

    /// Appends one answer and counts it.
    pub fn push(&mut self, query_answer: String) -> (r: Result<(), String>)
        requires
            old(self).answer_count < u64::MAX,
        ensures
            r is Ok,
            final(self).answer_queue@ == old(self).answer_queue@.push(query_answer),
            final(self).answer_count == old(self).answer_count + 1,
            final(self).pushes@ == old(self).pushes@ + 1,
            final(self).popped@ == old(self).popped@,
            old(self).wf() ==> final(self).wf(),
            final(self).answer_flow_finished == old(self).answer_flow_finished,
            final(self).count_flag == old(self).count_flag,
            final(self).abort_flag == old(self).abort_flag,
            final(self).eval_fitness_queue@ == old(self).eval_fitness_queue@,
            final(self).service_list@ == old(self).service_list@,
    {
        self.answer_queue.push_back(query_answer);
        self.answer_count = self.answer_count + 1;
        proof {
            self.pushes@ = self.pushes@ + 1;
        }
        Ok(())
    }

    /// Takes the oldest answer.  A count-only or aborted query yields
    /// nothing and is left unchanged.
    pub fn pop(&mut self) -> (r: Option<String>)
        ensures
            old(self).count_flag || old(self).abort_flag ==> r is None && *final(self) == *old(
                self,
            ),
            !old(self).count_flag && !old(self).abort_flag && old(self).answer_queue@.len() == 0
                ==> r is None && *final(self) == *old(self),
            !old(self).count_flag && !old(self).abort_flag && old(self).answer_queue@.len() > 0
                ==> {
                &&& r == Some(old(self).answer_queue@[0])
                &&& final(self).answer_queue@ == old(self).answer_queue@.drop_first()
                &&& final(self).popped@ == old(self).popped@ + 1
                &&& final(self).pushes@ == old(self).pushes@
                &&& final(self).answer_count == old(self).answer_count
                &&& final(self).abort_flag == old(self).abort_flag
                &&& final(self).count_flag == old(self).count_flag
                &&& final(self).answer_flow_finished == old(self).answer_flow_finished
            },
            old(self).wf() ==> final(self).wf(),
    {
        if self.count_flag {
            return None;
        }
        if self.abort_flag {
            return None;
        }
        if self.answer_queue.len() == 0 {
            return None;
        }
        let r = self.answer_queue.pop_front();
        proof {
            if old(self).answer_queue@.len() > 0 {
                self.popped@ = self.popped@ + 1;
            }
        }
        r
    }

    /// The number of answers counted.
    pub fn get_count(&self) -> (r: u64)
        ensures
            r == self.answer_count,
    {
        self.answer_count
    }

    /// Marks the query aborted.
    pub fn abort(&mut self)
        ensures
            final(self).abort_flag,
            *final(self) == (BaseQueryProxy { abort_flag: true, ..*old(self) }),
    {
        self.abort_flag = true;
    }

    /// Marks the answer stream ended, as the transport does when a send
    /// fails, so that the drain loop exits with what it has.
    pub fn mark_flow_finished(&mut self)
        ensures
            *final(self) == (BaseQueryProxy { answer_flow_finished: true, ..*old(self) }),
    {
        self.answer_flow_finished = true;
    }

    /// The frame that carries `command` to this query's remote peer.
    pub fn to_remote_peer(&self, command: String, args: Vec<String>) -> (r: MessageData)
        ensures
            r.command@ == BUS_COMMAND_PROXY@,
            r.args.deep_view() == args.deep_view().push(command@),
            r.sender@ == self.proxy_node.node_id@,
            !r.is_broadcast,
    {
        self.proxy_node.to_remote_peer(command, args)
    }

    /// Wires the proxy's endpoint.  On the processor side (`client_id`
    /// given) the endpoint listens as the client identity; on the requestor
    /// side it listens as the requestor host joined with the leased proxy
    /// port.  Either way the remote peer is `server_id`, or empty when
    /// absent.  An error reports an unassigned proxy port.
    pub fn setup_proxy_node(&mut self, client_id: Option<String>, server_id: Option<String>) -> (r:
        Result<(), String>)
        ensures
            r is Ok <==> old(self).proxy_port != 0,
            r matches Ok(_) ==> {
                &&& final(self).proxy_node.peer_id@ == (match server_id {
                    Some(sid) => sid@,
                    None => Seq::<char>::empty(),
                })
                &&& final(self).proxy_node.node_id@ == (match client_id {
                    Some(cid) => cid@,
                    None => host_of_id(old(self).requestor_id@) + seq![':'] + dec_str(
                        old(self).proxy_port as nat,
                    ),
                })
                &&& *final(self) == (BaseQueryProxy {
                    proxy_node: final(self).proxy_node,
                    ..*old(self)
                })
            },
            r is Err ==> *final(self) == *old(self),
    {
        let server = match server_id {
            Some(sid) => sid,
            None => String::new(),
        };
        if self.proxy_port == 0 {
            proof {
                assert(server@ == (match server_id {
                    Some(sid) => sid@,
                    None => Seq::<char>::empty(),
                }));
            }
            return Err(String::from_str("Proxy node can't be set up"));
        }
        match client_id {
            Some(cid) => {
                self.proxy_node = ProxyNode::new(cid, server);
            },
            None => {
                let cs = chars_of(self.requestor_id.as_str());
                let i = find_char(&cs, ':', 0);
                let mut host: Vec<char> = Vec::new();
                let mut k: usize = 0;
                proof {
                    assert(host@ =~~= cs@.take(0));
                }
                while k < i
                    invariant
                        k <= i <= cs@.len(),
                        host@ == cs@.take(k as int),
                    decreases i - k,
                {
                    host.push(cs[k]);
                    proof {
                        assert(host@ =~~= cs@.take(k + 1));
                    }
                    k += 1;
                }
                let host_s = crate::text::string_of_chars(&host);
                let with_colon = str_concat(host_s.as_str(), ":");
                let port_s = u64_to_string(self.proxy_port as u64);
                let node_id = with_colon.concat(port_s.as_str());
                proof {
                    reveal_strlit(":");
                    assert(":"@ =~~= seq![':']);
                    assert(node_id@ =~~= host_of_id(self.requestor_id@) + seq![':'] + dec_str(
                        self.proxy_port as nat,
                    ));
                }
                self.proxy_node = ProxyNode::new(node_id, server);
            },
        }
        Ok(())
    }
}

/// Law: the answers a proxy will still yield.  For a query that is not
/// count-only and not aborted, the queue holds exactly the pushed and not
/// yet popped answers, so `pop` yields `pushes - popped` more values; for a
/// count-only query every push is skipped and `pop` yields none.
pub proof fn lemma_pending_yield(p: BaseQueryProxy)
    requires
        p.wf(),
    ensures
        !p.count_flag ==> p.answer_queue@.len() == p.pushes@ - p.popped@,
        !p.count_flag ==> p.answer_count == p.pushes@,
        p.count_flag || p.abort_flag ==> (forall|q: BaseQueryProxy, r: Option<String>|
            pop_spec(p, q, r) ==> r is None),
{
}

/// The transition `pop` makes: what it may return and how the state moves.
pub open spec fn pop_spec(p: BaseQueryProxy, q: BaseQueryProxy, r: Option<String>) -> bool {
    if p.count_flag || p.abort_flag {
        q == p && r is None
    } else if p.answer_queue@.len() == 0 {
        q == p && r is None
    } else {
        &&& (match r {
            Some(s) => s == p.answer_queue@[0],
            None => false,
        })
        &&& q.answer_queue@ == p.answer_queue@.drop_first()
        &&& q.abort_flag == p.abort_flag
        &&& q.count_flag == p.count_flag
    }
}

/// Law: once `abort` is set, every later `pop` yields nothing, and leaves
/// the flag set, so no sequence of `pop`s after an abort returns a value.
pub proof fn lemma_abort_stops_pop(p: BaseQueryProxy, q: BaseQueryProxy, r: Option<String>)
    requires
        p.abort_flag,
        pop_spec(p, q, r),
    ensures
        r is None,
        q.abort_flag,
{
}

} // verus!
