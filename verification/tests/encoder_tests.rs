use metta_bus_client::atoms::Atom;
use metta_bus_client::context_broker::{
    hash_context, parse_context_broker_parameters, ContextBrokerParams, ContextBrokerProxy,
};
use metta_bus_client::inference::{parse_inference_parameters, InferenceParams, InferenceProxy};
use metta_bus_client::link_creation::{
    parse_link_creation_parameters, LinkCreationParams, LinkCreationProxy,
};
use metta_bus_client::pattern_matching::PatternMatchingQueryProxy;
use metta_bus_client::properties::Properties;
use metta_bus_client::proxy_trait::BaseQueryProxyT;
use metta_bus_client::query_element::QueryElement;
use metta_bus_client::query_evolution::{QueryEvolutionParams, QueryEvolutionProxy};
use metta_bus_client::QueryParams;

fn params() -> QueryParams {
    QueryParams {
        tokens: vec![String::from("(Similarity \"human\" $S)")],
        variables: vec![String::from("S")],
        context_name: String::from("context"),
        context_key: hash_context("context"),
        properties: Properties::default(),
    }
}

#[test]
fn pattern_matching_args_follow_the_wire_order() {
    let p = PatternMatchingQueryProxy::new(&params()).unwrap();
    let props_len = Properties::default().to_vec().len();
    let args = &p.base.args;
    assert_eq!(args.len(), props_len + 3);
    assert_eq!(args[props_len], hash_context("context"));
    assert_eq!(args[props_len + 1], "1");
    assert_eq!(args[props_len + 2], "(Similarity \"human\" $S)");
    assert_eq!(p.base.command, "pattern_matching_query");
    assert_eq!(p.base.get_count(), 0);
    assert!(!p.base.finished());
}

#[test]
fn inference_args_keep_the_literal_zero_and_repeat_the_context() {
    let ip = InferenceParams {
        request_type: String::from("PROOF_OF_IMPLICATION"),
        handle1: String::from("h1"),
        handle2: String::from("h2"),
        max_proof_length: 3,
    };
    let p = InferenceProxy::new(&params(), &ip).unwrap();
    let props_len = Properties::default().to_vec().len();
    let tail = &p.base.args[props_len..];
    assert_eq!(
        tail,
        &[
            hash_context("context"),
            String::from("0"),
            String::from("PROOF_OF_IMPLICATION"),
            String::from("h1"),
            String::from("h2"),
            String::from("3"),
            hash_context("context"),
        ]
    );
    assert_eq!(InferenceProxy::request_types().len(), 3);
}

#[test]
fn parse_inference_parameters_reads_the_request() {
    let atom = Atom::expr(vec![
        Atom::sym(String::from("INFERENCE")),
        Atom::expr(vec![
            Atom::sym(String::from("PROOF_OF_EQUIVALENCE")),
            Atom::sym(String::from("h1")),
            Atom::sym(String::from("h2")),
            Atom::sym(String::from("4")),
        ]),
    ]);
    let ip = parse_inference_parameters(&atom).unwrap().unwrap();
    assert_eq!(ip.request_type, "PROOF_OF_EQUIVALENCE");
    assert_eq!(ip.handle1, "h1");
    assert_eq!(ip.handle2, "h2");
    assert_eq!(ip.max_proof_length, 4);
    let other = Atom::expr(vec![Atom::sym(String::from("OTHER"))]);
    assert!(parse_inference_parameters(&other).unwrap().is_none());
    let broken = Atom::expr(vec![Atom::sym(String::from("INFERENCE"))]);
    assert!(parse_inference_parameters(&broken).is_err());
}

#[test]
fn link_creation_args_rewrite_the_context_to_its_hash() {
    let lp = LinkCreationParams {
        query: Atom::expr(vec![Atom::sym(String::from("PREDICATE")), Atom::var(String::from("P"))]),
        templates: vec![Atom::expr(vec![
            Atom::sym(String::from("IMPLICATION")),
            Atom::var(String::from("P")),
        ])],
    };
    let p = LinkCreationProxy::new(&params(), &lp).unwrap();
    let wire = &p.base.args;
    let key_at = wire.iter().position(|s| s == "context").unwrap();
    assert_eq!(wire[key_at + 1], "string");
    assert_eq!(wire[key_at + 2], hash_context("context"));
    assert_eq!(wire[wire.len() - 2], "(PREDICATE $P)");
    assert_eq!(wire[wire.len() - 1], "(IMPLICATION $P)");
    assert_eq!(p.id.len(), 32);
    assert_eq!(p.id, hash_context("0"));
}

#[test]
fn parse_link_creation_parameters_splits_query_and_templates() {
    let atom = Atom::expr(vec![
        Atom::sym(String::from("q")),
        Atom::sym(String::from("t1")),
        Atom::sym(String::from("t2")),
    ]);
    let lp = parse_link_creation_parameters(&atom).unwrap();
    assert_eq!(lp.query.to_text(), "q");
    assert_eq!(lp.templates.len(), 2);
    assert!(parse_link_creation_parameters(&Atom::sym(String::from("q"))).is_err());
}

#[test]
fn context_args_end_with_key_and_name() {
    let cb = ContextBrokerParams {
        query_atom: Atom::sym(String::from("q")),
        determiner_schema: vec![(QueryElement::new_handle(0), QueryElement::new_variable("S"))],
        stimulus_schema: vec![QueryElement::new_variable("S"), QueryElement::new_variable("V")],
    };
    let p = ContextBrokerProxy::new(&params(), &cb).unwrap();
    assert_eq!(p.get_name(), "context");
    assert_eq!(p.get_key(), hash_context("context"));
    assert!(!p.is_context_created());
    let wire = &p.base.args;
    let n = wire.len();
    assert_eq!(wire[n - 1], "context");
    assert_eq!(wire[n - 2], hash_context("context"));
    assert_eq!(wire[n - 5], "1");
    assert_eq!(wire[n - 4], "_0");
    assert_eq!(wire[n - 3], "$S");
    assert_eq!(wire[n - 8], "2");
    assert_eq!(wire[n - 7], "$S");
    assert_eq!(wire[n - 6], "$V");
}

#[test]
fn parse_context_broker_parameters_reads_the_three_sections() {
    let atom = Atom::expr(vec![
        Atom::expr(vec![Atom::sym(String::from("Similarity")), Atom::var(String::from("S"))]),
        Atom::expr(vec![Atom::expr(vec![
            Atom::sym(String::from("0")),
            Atom::var(String::from("S")),
        ])]),
        Atom::expr(vec![Atom::var(String::from("S")), Atom::var(String::from("V"))]),
    ]);
    let cb = parse_context_broker_parameters(&atom).unwrap();
    assert_eq!(cb.query_atom.to_text(), "(Similarity $S)");
    assert_eq!(cb.determiner_schema.len(), 1);
    assert_eq!(cb.determiner_schema[0].0.to_text(), "_0");
    assert_eq!(cb.determiner_schema[0].1.to_text(), "$S");
    assert_eq!(cb.stimulus_schema.len(), 2);
    assert!(parse_context_broker_parameters(&Atom::sym(String::from("x"))).is_err());
}

#[test]
fn evolution_args_carry_the_remote_function_marker() {
    let ep = QueryEvolutionParams {
        query_atom: Atom::sym(String::from("q")),
        correlation_queries: vec![vec![String::from("(Similarity $S1 $S2)")]],
        correlation_replacements: vec![vec![(
            String::from("string"),
            QueryElement::new_variable("QE"),
        )]],
        correlation_mappings: vec![(
            QueryElement::new_variable("QE"),
            QueryElement::new_variable("QE"),
        )],
        fitness_function: String::from("(f $S1)"),
    };
    let p = QueryEvolutionProxy::new(&params(), &ep).unwrap();
    assert_eq!(p.population_size, 50);
    assert_eq!(p.num_generations, 0);
    assert!(!p.ongoing_remote_fitness_evaluation);
    let props_len = Properties::default().to_vec().len();
    let tail = &p.base.args[props_len..];
    assert_eq!(
        tail,
        &[
            hash_context("context"),
            String::from("1"),
            String::from("q"),
            String::from("remote_fitness_function"),
            String::from("1"),
            String::from("1"),
            String::from("(Similarity $S1 $S2)"),
            String::from("1"),
            String::from("1"),
            String::from("string"),
            String::from("$QE"),
            String::from("1"),
            String::from("$QE"),
            String::from("$QE"),
        ]
    );
}

#[test]
fn proxies_share_one_operation_surface() {
    let mut p = PatternMatchingQueryProxy::new(&params()).unwrap();
    assert!(!p.finished());
    p.push(String::from("a")).unwrap();
    assert_eq!(p.get_count(), 1);
    assert_eq!(p.pop().unwrap(), "a");
    let frame = p.to_remote_peer(String::from("abort"), vec![]);
    assert_eq!(frame.command, "bus_command_proxy");
    assert_eq!(frame.args, vec![String::from("abort")]);
    p.abort();
    assert!(p.finished());
}
