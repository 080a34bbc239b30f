use metta_bus_client::atoms::Atom;
use metta_bus_client::context_broker::hash_context;
use metta_bus_client::properties::Properties;
use metta_bus_client::proxy::{BaseQueryProxy, MessageData, ProxyNode};
use metta_bus_client::service_bus::ServiceBus;
use metta_bus_client::service_bus_singleton::ServiceBusSingleton;
use metta_bus_client::star_node::process_message;
use metta_bus_client::{
    extract_query_params, host_id_from_atom, init_service_bus, QueryParams, QueryType,
};

fn commands() -> Vec<String> {
    vec![String::from("pattern_matching_query"), String::from("context")]
}

fn params() -> QueryParams {
    QueryParams {
        tokens: vec![String::from("(Similarity \"human\" $S)")],
        variables: vec![String::from("S")],
        context_name: String::from("context"),
        context_key: hash_context("context"),
        properties: Properties::default(),
    }
}

#[test]
fn service_bus_takes_the_first_port_for_its_node() {
    let sb = ServiceBus::new(
        String::from("localhost"),
        String::from("peer:35700"),
        commands(),
        42000,
        42005,
    )
    .unwrap();
    assert_eq!(sb.bus_node.host_id, "localhost:42000");
    assert_eq!(sb.bus_node.peer_id, "peer:35700");
    assert_eq!(sb.service(), commands());
    assert!(ServiceBus::new(
        String::from("localhost"),
        String::from("peer:35700"),
        commands(),
        42001,
        42000,
    )
    .is_err());
}

#[test]
fn discovery_feeds_the_bus_through_the_service_list() {
    let mut sb = ServiceBus::new(
        String::from("localhost"),
        String::from("peer:35700"),
        commands(),
        42000,
        42005,
    )
    .unwrap();
    assert!(!sb.all_commands_owned());
    let mut discovery =
        BaseQueryProxy::new(String::from("pattern_matching_query"), &params()).unwrap();
    process_message(
        &mut discovery,
        MessageData {
            command: String::from("set_command_ownership"),
            args: vec![String::from("peer:35700"), String::from("pattern_matching_query")],
            sender: String::from("peer:35700"),
            is_broadcast: false,
            visited_recipients: Vec::new(),
        },
    )
    .unwrap();
    process_message(
        &mut discovery,
        MessageData {
            command: String::from("set_command_ownership"),
            args: vec![String::from("peer:35700"), String::from("context")],
            sender: String::from("peer:35700"),
            is_broadcast: false,
            visited_recipients: Vec::new(),
        },
    )
    .unwrap();
    sb.absorb_service_list(&discovery.service_list).unwrap();
    assert_eq!(
        sb.bus_node.bus.get_ownership("pattern_matching_query").unwrap(),
        "peer:35700"
    );
    assert!(sb.all_commands_owned());
}

#[test]
fn issue_bus_command_builds_the_outgoing_frame() {
    let mut sb = ServiceBus::new(
        String::from("localhost"),
        String::from("peer:35700"),
        commands(),
        42000,
        42005,
    )
    .unwrap();
    sb.bus_node
        .bus
        .set_ownership(String::from("pattern_matching_query"), "peer:35700")
        .unwrap();
    let mut proxy =
        BaseQueryProxy::new(String::from("pattern_matching_query"), &params()).unwrap();
    proxy.args = vec![String::from("argA"), String::from("argB")];
    let (target, frame) = sb.issue_bus_command(&mut proxy).unwrap().unwrap();
    assert_eq!(target, "peer:35700");
    assert_eq!(frame.command, "pattern_matching_query");
    assert_eq!(frame.sender, "localhost:42000");
    assert_eq!(
        frame.args,
        vec![
            String::from("localhost:42000"),
            String::from("1"),
            String::from("localhost:42001"),
            String::from("argA"),
            String::from("argB"),
        ]
    );
    assert_eq!(proxy.serial, 1);
    assert_eq!(proxy.proxy_port, 42001);
    assert_eq!(proxy.proxy_node.node_id, "localhost:42001");
}

#[test]
fn issue_without_owner_marks_the_flow_finished() {
    let mut sb = ServiceBus::new(
        String::from("localhost"),
        String::from("peer:35700"),
        commands(),
        42000,
        42005,
    )
    .unwrap();
    let mut proxy =
        BaseQueryProxy::new(String::from("pattern_matching_query"), &params()).unwrap();
    let sent = sb.issue_bus_command(&mut proxy).unwrap();
    assert!(sent.is_none());
    assert!(proxy.answer_flow_finished);
}

#[test]
fn singleton_initializes_last_wins_and_provides() {
    let mut holder = ServiceBusSingleton::new();
    assert!(holder.get_instance().is_err());
    assert!(holder.init(String::from("h"), String::from("p:1"), 42001, 42000).is_err());
    init_service_bus(&mut holder, String::from("hostA"), String::from("p:1"), 42000, 42005)
        .unwrap();
    assert_eq!(holder.get_instance().unwrap().bus_node.host_id, "hostA:42000");
    holder
        .init(String::from("hostB"), String::from("p:2"), 43000, 43005)
        .unwrap();
    assert_eq!(holder.get_instance().unwrap().bus_node.host_id, "hostB:43000");
    holder
        .provide(String::from("hostC"), String::from("p:3"), 44000, 44005)
        .unwrap();
    let sb = holder.get_instance().unwrap();
    assert_eq!(sb.bus_node.host_id, "hostC:44000");
    assert_eq!(sb.service().len(), 5);
}

#[test]
fn proxy_node_wraps_commands_and_embeds_its_port() {
    let node = ProxyNode::new(String::from("localhost:42007"), String::from("peer:35700"));
    let frame = node.to_remote_peer(
        String::from("eval_fitness_response"),
        vec![String::from("0.5")],
    );
    assert_eq!(frame.command, "bus_command_proxy");
    assert_eq!(frame.args, vec![String::from("0.5"), String::from("eval_fitness_response")]);
    assert_eq!(frame.sender, "localhost:42007");
    assert_eq!(node.take_port(), Some(42007));
    assert_eq!(ProxyNode::new(String::from("noport"), String::new()).take_port(), None);
    assert_eq!(ProxyNode::new(String::from("a:b:1"), String::new()).take_port(), None);
    assert_eq!(ProxyNode::empty().take_port(), None);
}

#[test]
fn setup_proxy_node_requires_a_port_and_derives_the_local_id() {
    let mut proxy =
        BaseQueryProxy::new(String::from("pattern_matching_query"), &params()).unwrap();
    assert!(proxy.setup_proxy_node(None, None).is_err());
    proxy.requestor_id = String::from("localhost:42000");
    proxy.proxy_port = 42003;
    proxy.setup_proxy_node(None, Some(String::from("peer:35700"))).unwrap();
    assert_eq!(proxy.proxy_node.node_id, "localhost:42003");
    assert_eq!(proxy.proxy_node.peer_id, "peer:35700");
    proxy
        .setup_proxy_node(Some(String::from("client:9")), Some(String::from("server:8")))
        .unwrap();
    assert_eq!(proxy.proxy_node.node_id, "client:9");
    assert_eq!(proxy.proxy_node.peer_id, "server:8");
}

#[test]
fn host_id_from_atom_reads_both_endpoint_forms() {
    let range = Atom::sym(String::from("localhost:42000-42999"));
    assert_eq!(
        host_id_from_atom(&range).unwrap(),
        (String::from("localhost"), 42000, 42999)
    );
    let single = Atom::sym(String::from("localhost:35700"));
    assert_eq!(
        host_id_from_atom(&single).unwrap(),
        (String::from("localhost:35700"), 35700, 35700)
    );
    assert!(host_id_from_atom(&Atom::sym(String::from("nocolon"))).is_err());
    assert!(host_id_from_atom(&Atom::sym(String::from("h:notaport"))).is_err());
}

#[test]
fn extract_query_params_splits_link_templates_only() {
    let q = QueryType::Text(String::from("LINK_TEMPLATE Expression 3 VARIABLE V1 VARIABLE V2"));
    let p = extract_query_params(&q, Properties::default()).unwrap();
    assert_eq!(p.tokens.len(), 7);
    assert_eq!(p.tokens[0], "LINK_TEMPLATE");
    assert_eq!(p.properties.get_bool("use_metta_as_query_tokens").unwrap(), false);
    assert!(p.variables.contains(&String::from("V1")));
    assert!(p.variables.contains(&String::from("V2")));
    assert_eq!(p.context_name, "context");
    assert_eq!(p.context_key, hash_context("context"));

    let q = QueryType::Atom(Atom::expr(vec![
        Atom::sym(String::from("Similarity")),
        Atom::sym(String::from("\"human\"")),
        Atom::var(String::from("S")),
    ]));
    let p = extract_query_params(&q, Properties::default()).unwrap();
    assert_eq!(p.tokens, vec![String::from("(Similarity \"human\" $S)")]);
    assert_eq!(p.properties.get_bool("use_metta_as_query_tokens").unwrap(), true);
    assert_eq!(p.variables, vec![String::from("S")]);
}
