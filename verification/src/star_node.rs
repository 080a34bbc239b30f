//! The star-node dispatcher: how one inbound frame moves a proxy's state.
//!
//! Each proxy's RPC endpoint hands every received frame to
//! `process_message`.  Answer-bearing frames stream tokens into the answer
//! queue; a trailing `peer_error` aborts the query; a trailing
//! `eval_fitness` routes the frame into the evolution candidate queue; a
//! `set_command_ownership` frame feeds the discovery service list.

use vstd::prelude::*;

use crate::assoc::assoc_insert;
use crate::codec::pairs_view;
use crate::proxy::{BaseQueryProxy, MessageData, ProxyNode, ABORT, ANSWER_BUNDLE, COUNT, FINISHED,
    PEER_ERROR};
use crate::query_evolution::EVAL_FITNESS;
use crate::text::{chars_of, is_u64_text, parse_u64, str_eq, u64_text_val};

verus! {

pub const NODE_JOINED_NETWORK: &'static str = "node_joined_network";

pub const QUERY_ANSWER_TOKENS_FLOW: &'static str = "query_answer_tokens_flow";

pub const SET_COMMAND_OWNERSHIP: &'static str = "set_command_ownership";

/// The part of a proxy the token stream touches.
pub struct TokenState {
    pub queue: Seq<String>,
    pub count: int,
    pub pushes: nat,
    pub flow: bool,
    pub abort: bool,
}

/// Runs the answer tokens of one frame, in order: `finished` and `abort`
/// set their flag and end the frame; `answer_bundle` and `eval_fitness` are
/// skipped framing markers; `count` on a count-only query stores the
/// following numeric token as the count; every other token is pushed onto
/// the queue and counted, the count saturating at its machine limit.
pub open spec fn run_args(st: TokenState, args: Seq<String>, count_flag: bool) -> TokenState
    decreases args.len(),
{
    if args.len() == 0 {
        st
    } else {
        let a = args[0]@;
        if a == FINISHED@ {
            TokenState { flow: true, ..st }
        } else if a == ABORT@ {
            TokenState { abort: true, ..st }
        } else if a == ANSWER_BUNDLE@ || a == EVAL_FITNESS@ {
            run_args(st, args.drop_first(), count_flag)
        } else if a == COUNT@ {
            if count_flag && args.len() >= 2 && is_u64_text(args[1]@) {
                run_args(
                    TokenState { count: u64_text_val(args[1]@), ..st },
                    args.skip(2),
                    count_flag,
                )
            } else {
                run_args(st, args.drop_first(), count_flag)
            }
        } else {
            run_args(
                TokenState {
                    queue: st.queue.push(args[0]),
                    count: if st.count >= u64::MAX {
                        st.count
                    } else {
                        st.count + 1
                    },
                    pushes: st.pushes + 1,
                    ..st
                },
                args.drop_first(),
                count_flag,
            )
        }
    }
}

/// Accounting over one frame's token run: pushes grow with the queue, at
/// most one per token; without the count-only flag and within the count's
/// machine limit, the count grows exactly with the pushes; the count never
/// leaves its machine range.
pub proof fn lemma_run_args(st: TokenState, args: Seq<String>, count_flag: bool)
    ensures
        run_args(st, args, count_flag).pushes - st.pushes == run_args(
            st,
            args,
            count_flag,
        ).queue.len() - st.queue.len(),
        run_args(st, args, count_flag).queue.len() - st.queue.len() <= args.len(),
        st.queue.len() <= run_args(st, args, count_flag).queue.len(),
        !count_flag && st.count + args.len() <= u64::MAX ==> run_args(st, args, count_flag).count
            == st.count + (run_args(st, args, count_flag).pushes - st.pushes),
        0 <= st.count <= u64::MAX ==> 0 <= run_args(st, args, count_flag).count <= u64::MAX,
    decreases args.len(),
{
    if args.len() > 0 {
        let a = args[0]@;
        if a == FINISHED@ || a == ABORT@ {
        } else if a == ANSWER_BUNDLE@ || a == EVAL_FITNESS@ {
            lemma_run_args(st, args.drop_first(), count_flag);
        } else if a == COUNT@ {
            if count_flag && args.len() >= 2 && is_u64_text(args[1]@) {
                crate::text::lemma_u64_text_val_bounds(args[1]@);
                lemma_run_args(
                    TokenState { count: u64_text_val(args[1]@), ..st },
                    args.skip(2),
                    count_flag,
                );
            } else {
                lemma_run_args(st, args.drop_first(), count_flag);
            }
        } else {
            lemma_run_args(
                TokenState {
                    queue: st.queue.push(args[0]),
                    count: if st.count >= u64::MAX {
                        st.count
                    } else {
                        st.count + 1
                    },
                    pushes: st.pushes + 1,
                    ..st
                },
                args.drop_first(),
                count_flag,
            );
        }
    }
}

/// The token-stream projection of a proxy.
pub open spec fn tok_of(p: BaseQueryProxy) -> TokenState {
    TokenState {
        queue: p.answer_queue@,
        count: p.answer_count as int,
        pushes: p.pushes@,
        flow: p.answer_flow_finished,
        abort: p.abort_flag,
    }
}

/// What one frame does to a proxy.
pub open spec fn dispatch_spec(p: BaseQueryProxy, msg: MessageData, q: BaseQueryProxy) -> bool {
    let cmd = msg.command@;
    let args = msg.args@;
    if cmd == QUERY_ANSWER_TOKENS_FLOW@ || cmd == crate::proxy::BUS_COMMAND_PROXY@ {
        if args.len() > 0 && args.last()@ == PEER_ERROR@ {
            // A peer-signalled error: the query aborts and the frame's
            // tokens are dropped.
            q == (BaseQueryProxy { abort_flag: true, ..p })
        } else if args.len() > 0 && args.last()@ == EVAL_FITNESS@ {
            // A candidate frame: the sender becomes the remote peer and the
            // args short of the trailing marker queue for evaluation.
            &&& q.eval_fitness_queue@ == p.eval_fitness_queue@ + args.take(args.len() - 1)
            &&& q.proxy_node.node_id == p.proxy_node.node_id
            &&& q.proxy_node.peer_id == msg.sender
            &&& q == (BaseQueryProxy {
                eval_fitness_queue: q.eval_fitness_queue,
                proxy_node: q.proxy_node,
                ..p
            })
        } else {
            // An answer stream.
            let r = run_args(tok_of(p), args, p.count_flag);
            &&& q.answer_queue@ == r.queue
            &&& q.answer_count == r.count
            &&& q.pushes@ == r.pushes
            &&& q.answer_flow_finished == r.flow
            &&& q.abort_flag == r.abort
            &&& q == (BaseQueryProxy {
                answer_queue: q.answer_queue,
                answer_count: q.answer_count,
                answer_flow_finished: q.answer_flow_finished,
                abort_flag: q.abort_flag,
                pushes: q.pushes,
                ..p
            })
        }
    } else if cmd == SET_COMMAND_OWNERSHIP@ {
        // args = [owner, command]: record the pair in the service list.
        &&& args.len() >= 2
        &&& pairs_view(q.service_list@) == assoc_insert(
            pairs_view(p.service_list@),
            args[1]@,
            args[0]@,
        )
        &&& q == (BaseQueryProxy { service_list: q.service_list, ..p })
    } else {
        // Control frames and unknown commands are ignored.
        q == p
    }
}

/// Dispatches one inbound frame onto the proxy.  An error reports a
/// `set_command_ownership` frame too short to hold its owner and command,
/// and leaves the proxy unchanged.
#[verifier::loop_isolation(false)]
#[verifier::rlimit(60)]
pub fn process_message(proxy: &mut BaseQueryProxy, msg: MessageData) -> (r: Result<(), String>)
    requires
        !old(proxy).count_flag ==> old(proxy).answer_count + msg.args@.len() <= u64::MAX,
    ensures
        r is Ok <==> !(msg.command@ == SET_COMMAND_OWNERSHIP@ && msg.args@.len() < 2),
        r is Ok ==> dispatch_spec(*old(proxy), msg, *final(proxy)),
        r is Err ==> *final(proxy) == *old(proxy),
        old(proxy).wf() ==> final(proxy).wf(),
{
    proof {
        reveal_strlit("query_answer_tokens_flow");
        reveal_strlit("bus_command_proxy");
        reveal_strlit("set_command_ownership");
        assert(QUERY_ANSWER_TOKENS_FLOW@.len() == 24);
        assert(crate::proxy::BUS_COMMAND_PROXY@.len() == 17);
        assert(SET_COMMAND_OWNERSHIP@.len() == 21);
    }
    let is_flow = str_eq(msg.command.as_str(), QUERY_ANSWER_TOKENS_FLOW) || str_eq(
        msg.command.as_str(),
        crate::proxy::BUS_COMMAND_PROXY,
    );
    if is_flow {
        let n = msg.args.len();
        if n > 0 && str_eq(msg.args[n - 1].as_str(), PEER_ERROR) {
            proof {
                assert(msg.args@.last()@ == PEER_ERROR@);
            }
            proxy.abort_flag = true;
            return Ok(());
        }
        if n > 0 && str_eq(msg.args[n - 1].as_str(), EVAL_FITNESS) {
            let kept = proxy.proxy_node.node_id.clone();
            proxy.proxy_node = ProxyNode { node_id: kept, peer_id: msg.sender };
            let mut i: usize = 0;
            let ghost pre_eval = proxy.eval_fitness_queue@;
            while i < n - 1
                invariant
                    i <= n - 1,
                    n == msg.args@.len(),
                    proxy.eval_fitness_queue@ == pre_eval + msg.args@.take(i as int),
                    *proxy == (BaseQueryProxy {
                        eval_fitness_queue: proxy.eval_fitness_queue,
                        proxy_node: proxy.proxy_node,
                        ..*old(proxy)
                    }),
                    proxy.proxy_node.node_id == old(proxy).proxy_node.node_id,
                    proxy.proxy_node.peer_id == msg.sender,
                decreases n - 1 - i,
            {
                let a = msg.args[i].clone();
                proxy.eval_fitness_queue.push_back(a);
                proof {
                    assert(proxy.eval_fitness_queue@ =~~= pre_eval + msg.args@.take(i + 1));
                }
                i += 1;
            }
            return Ok(());
        }
        // Answer tokens, in frame order.
        let ghost st0 = tok_of(*proxy);
        let ghost args = msg.args@;
        let mut i: usize = 0;
        let mut stopped = false;
        proof {
            assert(args.skip(0) =~~= args);
            lemma_run_args(st0, args, proxy.count_flag);
        }
        while i < n && !stopped
            invariant
                i <= n,
                n == args.len(),
                msg.args@ == args,
                proxy.count_flag == old(proxy).count_flag,
                !old(proxy).count_flag ==> old(proxy).answer_count + args.len() <= u64::MAX,
                proxy.answer_queue@.len() - old(proxy).answer_queue@.len() == proxy.pushes@ - old(
                    proxy,
                ).pushes@,
                old(proxy).pushes@ <= proxy.pushes@,
                run_args(st0, args, old(proxy).count_flag) == (if stopped {
                    tok_of(*proxy)
                } else {
                    run_args(tok_of(*proxy), args.skip(i as int), old(proxy).count_flag)
                }),
                *proxy == (BaseQueryProxy {
                    answer_queue: proxy.answer_queue,
                    answer_count: proxy.answer_count,
                    answer_flow_finished: proxy.answer_flow_finished,
                    abort_flag: proxy.abort_flag,
                    pushes: proxy.pushes,
                    ..*old(proxy)
                }),
                !old(proxy).count_flag ==> proxy.answer_count == proxy.pushes@ - old(
                    proxy,
                ).pushes@ + old(proxy).answer_count,
                proxy.pushes@ - old(proxy).pushes@ <= i,
            decreases n - i + (if stopped { 0int } else { 1 }),
        {
            proof {
                assert(args.skip(i as int)[0] == args[i as int]);
                assert(args.skip(i as int).drop_first() =~~= args.skip(i + 1));
            }
            let arg = &msg.args[i];
            if str_eq(arg.as_str(), FINISHED) {
                proxy.answer_flow_finished = true;
                stopped = true;
            } else if str_eq(arg.as_str(), ABORT) {
                proxy.abort_flag = true;
                stopped = true;
            } else if str_eq(arg.as_str(), ANSWER_BUNDLE) || str_eq(arg.as_str(), EVAL_FITNESS) {
                i += 1;
            } else if str_eq(arg.as_str(), COUNT) {
                proof {
                    if i + 1 < n {
                        assert(args.skip(i as int)[1] == args[i + 1]);
                    }
                }
                let mut took_value = false;
                if proxy.count_flag && i + 1 < n {
                    match parse_u64(&chars_of(msg.args[i + 1].as_str())) {
                        Some(v) => {
                            proxy.answer_count = v;
                            took_value = true;
                            proof {
                                assert(args.skip(i as int).skip(2) =~~= args.skip(i + 2));
                            }
                            i += 2;
                        },
                        None => {},
                    }
                }
                if !took_value {
                    i += 1;
                }
            } else {
                let a = msg.args[i].clone();
                proxy.answer_queue.push_back(a);
                if proxy.answer_count < u64::MAX {
                    proxy.answer_count = proxy.answer_count + 1;
                }
                proof {
                    proxy.pushes@ = proxy.pushes@ + 1;
                    assert(proxy.answer_queue@ =~~= tok_of(*proxy).queue);
                }
                i += 1;
            }
        }
        proof {
            if !stopped {
                assert(args.skip(i as int).len() == 0);
            }
        }
        return Ok(());
    }
    if str_eq(msg.command.as_str(), SET_COMMAND_OWNERSHIP) {
        if msg.args.len() < 2 {
            return Err(String::from_str("set_command_ownership frame too short"));
        }
        let owner = msg.args[0].clone();
        let command = msg.args[1].clone();
        let ghost pre = pairs_view(proxy.service_list@);
        proof {
            crate::assoc::lemma_key_at(pre, command@);
        }
        let mut idx: usize = 0;
        let mut found = false;
        while idx < proxy.service_list.len() && !found
            invariant
                idx <= proxy.service_list@.len(),
                pre == pairs_view(proxy.service_list@),
                found ==> idx < proxy.service_list@.len() && pre[idx as int].0 == command@ && idx
                    == crate::assoc::key_at(pre, command@),
                !found ==> forall|j: int| 0 <= j < idx ==> (#[trigger] pre[j]).0 != command@,
                *proxy == *old(proxy),
            decreases proxy.service_list@.len() - idx + (if found { 0int } else { 1 }),
        {
            proof {
                assert(pre[idx as int] == (proxy.service_list@[idx as int].0@,
                proxy.service_list@[idx as int].1@));
            }
            if str_eq(proxy.service_list[idx].0.as_str(), command.as_str()) {
                found = true;
                proof {
                    crate::assoc::lemma_key_at_skip(pre, command@, idx as int);
                    assert(pre.skip(idx as int)[0] == pre[idx as int]);
                }
            } else {
                idx += 1;
            }
        }
        if found {
            proxy.service_list.remove(idx);
            proxy.service_list.insert(idx, (command, owner));
            proof {
                assert(pairs_view(proxy.service_list@) =~~= pre.update(
                    crate::assoc::key_at(pre, command@),
                    (command@, owner@),
                ));
            }
        } else {
            proof {
                crate::assoc::lemma_key_at_skip(pre, command@, proxy.service_list@.len() as int);
                assert(pre.skip(pre.len() as int).len() == 0);
            }
            proxy.service_list.push((command, owner));
            proof {
                assert(pairs_view(proxy.service_list@) =~~= pre.push((command@, owner@)));
            }
        }
        return Ok(());
    }
    // node_joined_network, query_answer_flow, pattern_matching_query,
    // query_answers_finished and unknown commands are ignored.
    Ok(())
}

} // verus!
