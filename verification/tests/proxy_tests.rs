use metta_bus_client::codec::QueryAnswer;
use metta_bus_client::bindings::BindingsSet;
use metta_bus_client::pattern_matching::PatternMatchingQueryProxy;
use metta_bus_client::properties::{Properties, PropertyValue};
use metta_bus_client::proxy::{BaseQueryProxy, MessageData};
use metta_bus_client::star_node::process_message;
use metta_bus_client::context_broker::hash_context;
use metta_bus_client::{pattern_matching_step, DrainStep, QueryParams};

fn params(count_flag: bool) -> QueryParams {
    let mut properties = Properties::default();
    properties.insert(String::from("count_flag"), PropertyValue::Bool(count_flag));
    QueryParams {
        tokens: vec![String::from("(Similarity \"human\" $S)")],
        variables: vec![String::from("S")],
        context_name: String::from("context"),
        context_key: hash_context("context"),
        properties,
    }
}

fn base(count_flag: bool) -> BaseQueryProxy {
    BaseQueryProxy::new(String::from("pattern_matching_query"), &params(count_flag)).unwrap()
}

fn frame(command: &str, args: Vec<&str>, sender: &str) -> MessageData {
    MessageData {
        command: String::from(command),
        args: args.into_iter().map(String::from).collect(),
        sender: String::from(sender),
        is_broadcast: false,
        visited_recipients: Vec::new(),
    }
}

fn answer_wire(var: &str, value_handle: char) -> String {
    let mut qa = QueryAnswer::new();
    qa.strength = String::from("0.50000000000");
    qa.importance = String::from("0.25000000000");
    qa.assignment
        .push((String::from(var), std::iter::repeat(value_handle).take(32).collect()));
    qa.tokenize()
}

#[test]
fn push_pop_accounting() {
    let mut p = base(false);
    p.push(String::from("a")).unwrap();
    p.push(String::from("b")).unwrap();
    p.push(String::from("c")).unwrap();
    assert_eq!(p.get_count(), 3);
    assert_eq!(p.pop().unwrap(), "a");
    assert_eq!(p.pop().unwrap(), "b");
    assert_eq!(p.get_count(), 3);
    assert_eq!(p.pop().unwrap(), "c");
    assert!(p.pop().is_none());
}

#[test]
fn count_only_queries_forbid_pop() {
    let mut p = base(true);
    p.push(String::from("a")).unwrap();
    assert!(p.pop().is_none());
    assert_eq!(p.get_count(), 1);
}

#[test]
fn finished_disjuncts() {
    let mut p = base(false);
    assert!(!p.finished());
    p.abort();
    assert!(p.finished());

    let mut p = base(false);
    p.mark_flow_finished();
    assert!(p.finished());
    p.push(String::from("a")).unwrap();
    assert!(!p.finished());

    let mut p = base(true);
    p.push(String::from("a")).unwrap();
    p.mark_flow_finished();
    assert!(p.finished());
}

#[test]
fn abort_stops_every_later_pop() {
    let mut p = base(false);
    p.push(String::from("a")).unwrap();
    p.push(String::from("b")).unwrap();
    p.abort();
    assert!(p.pop().is_none());
    assert!(p.pop().is_none());
    assert!(p.finished());
}

#[test]
fn dispatch_streams_answer_tokens_in_order() {
    let mut p = base(false);
    process_message(
        &mut p,
        frame("query_answer_tokens_flow", vec!["answer_bundle", "t1", "t2"], "peer:1"),
    )
    .unwrap();
    assert_eq!(p.get_count(), 2);
    assert_eq!(p.pop().unwrap(), "t1");
    assert_eq!(p.pop().unwrap(), "t2");
}

#[test]
fn dispatch_finished_ends_the_frame() {
    let mut p = base(false);
    process_message(
        &mut p,
        frame("query_answer_tokens_flow", vec!["t1", "finished", "t2"], "peer:1"),
    )
    .unwrap();
    assert!(p.answer_flow_finished);
    assert_eq!(p.get_count(), 1);
    assert_eq!(p.pop().unwrap(), "t1");
    assert!(p.pop().is_none());
}

#[test]
fn dispatch_peer_error_aborts_and_drops_tokens() {
    let mut p = base(false);
    process_message(
        &mut p,
        frame("query_answer_tokens_flow", vec!["t1", "t2", "peer_error"], "peer:1"),
    )
    .unwrap();
    assert!(p.abort_flag);
    assert_eq!(p.get_count(), 0);
    assert!(p.pop().is_none());
}

#[test]
fn dispatch_eval_fitness_queues_candidates_in_order() {
    let mut p = base(false);
    process_message(
        &mut p,
        frame("bus_command_proxy", vec!["cand1", "cand2", "eval_fitness"], "peer:9"),
    )
    .unwrap();
    assert_eq!(p.eval_fitness_queue.len(), 2);
    assert_eq!(p.eval_fitness_queue[0], "cand1");
    assert_eq!(p.eval_fitness_queue[1], "cand2");
    assert_eq!(p.proxy_node.peer_id, "peer:9");
    assert_eq!(p.get_count(), 0);
}

#[test]
fn dispatch_count_frame_sets_the_count() {
    let mut p = base(true);
    process_message(&mut p, frame("query_answer_tokens_flow", vec!["count", "42", "finished"], "peer:1"))
        .unwrap();
    assert_eq!(p.get_count(), 42);
    assert!(p.pop().is_none());
    assert!(p.finished());
}

#[test]
fn dispatch_records_command_ownership() {
    let mut p = base(false);
    process_message(&mut p, frame("set_command_ownership", vec!["peer:1", "context"], "peer:1"))
        .unwrap();
    assert_eq!(p.service_list.len(), 1);
    assert_eq!(p.service_list[0].0, "context");
    assert_eq!(p.service_list[0].1, "peer:1");
    assert!(process_message(&mut p, frame("set_command_ownership", vec!["only-one"], "peer:1"))
        .is_err());
}

#[test]
fn dispatch_ignores_control_frames() {
    let mut p = base(false);
    process_message(&mut p, frame("node_joined_network", vec!["x"], "peer:1")).unwrap();
    process_message(&mut p, frame("query_answers_finished", vec!["x"], "peer:1")).unwrap();
    assert_eq!(p.get_count(), 0);
    assert!(!p.answer_flow_finished);
}

#[test]
fn pattern_matching_drain_collects_two_answers() {
    let mut proxy = PatternMatchingQueryProxy::new(&params(false)).unwrap();
    let a1 = answer_wire("S", 'a');
    let a2 = answer_wire("S", 'b');
    process_message(
        &mut proxy.base,
        frame("query_answer_tokens_flow", vec![&a1, &a2, "finished"], "peer:1"),
    )
    .unwrap();
    let vars = vec![String::from("S")];
    let mut set = BindingsSet::empty();
    loop {
        match pattern_matching_step(&mut proxy.base, &vars, false, 1000, &mut set).unwrap() {
            DrainStep::Finished | DrainStep::LimitReached => break,
            DrainStep::Collected => {},
            DrainStep::Empty => panic!("queue unexpectedly empty"),
        }
    }
    assert_eq!(set.len(), 2);
    assert!(set.get(0).get("S").is_some());
    assert!(set.get(1).get("S").is_some());
}

#[test]
fn abort_mid_stream_yields_no_bindings() {
    let mut proxy = PatternMatchingQueryProxy::new(&params(false)).unwrap();
    let a1 = answer_wire("S", 'a');
    let a2 = answer_wire("S", 'b');
    let a3 = answer_wire("S", 'c');
    process_message(
        &mut proxy.base,
        frame("query_answer_tokens_flow", vec![&a1, &a2, &a3], "peer:1"),
    )
    .unwrap();
    process_message(&mut proxy.base, frame("query_answer_tokens_flow", vec!["peer_error"], "peer:1"))
        .unwrap();
    assert!(proxy.base.abort_flag);
    assert!(proxy.base.pop().is_none());
    let vars = vec![String::from("S")];
    let mut set = BindingsSet::empty();
    let step = pattern_matching_step(&mut proxy.base, &vars, false, 1000, &mut set).unwrap();
    assert_eq!(step, DrainStep::Finished);
    assert_eq!(set.len(), 0);
}

#[test]
fn drain_respects_the_answer_cap() {
    let mut proxy = PatternMatchingQueryProxy::new(&params(false)).unwrap();
    let a1 = answer_wire("S", 'a');
    let a2 = answer_wire("S", 'b');
    process_message(
        &mut proxy.base,
        frame("query_answer_tokens_flow", vec![&a1, &a2, "finished"], "peer:1"),
    )
    .unwrap();
    let vars = vec![String::from("S")];
    let mut set = BindingsSet::empty();
    let step = pattern_matching_step(&mut proxy.base, &vars, false, 1, &mut set).unwrap();
    assert_eq!(step, DrainStep::LimitReached);
    assert_eq!(set.len(), 1);
}
