use metta_bus_client::atoms::Atom;
use metta_bus_client::bindings::Bindings;
use metta_bus_client::codec::QueryAnswer;
use metta_bus_client::context_broker::hash_context;
use metta_bus_client::properties::Properties;
use metta_bus_client::proxy::MessageData;
use metta_bus_client::query_evolution::{
    eval_fitness_candidates, eval_fitness_response, parse_evolution_parameters, substitute_bindings,
    QueryEvolutionParams, QueryEvolutionProxy,
};
use metta_bus_client::star_node::process_message;
use metta_bus_client::QueryParams;

fn params() -> QueryParams {
    QueryParams {
        tokens: vec![String::from("(Similarity \"human\" $S)")],
        variables: vec![String::from("S")],
        context_name: String::from("context"),
        context_key: hash_context("context"),
        properties: Properties::default(),
    }
}

fn evolution_params() -> QueryEvolutionParams {
    QueryEvolutionParams {
        query_atom: Atom::expr(vec![
            Atom::sym(String::from("Similarity")),
            Atom::sym(String::from("\"human\"")),
            Atom::var(String::from("S")),
        ]),
        correlation_queries: Vec::new(),
        correlation_replacements: Vec::new(),
        correlation_mappings: Vec::new(),
        fitness_function: String::from("(my-func \"monkey\" $S)"),
    }
}

fn frame(args: Vec<String>, sender: &str) -> MessageData {
    MessageData {
        command: String::from("bus_command_proxy"),
        args,
        sender: String::from(sender),
        is_broadcast: false,
        visited_recipients: Vec::new(),
    }
}

fn candidate(value: &str) -> String {
    let mut qa = QueryAnswer::new();
    qa.strength = String::from("0.50000000000");
    qa.importance = String::from("0.25000000000");
    let handle: String = std::iter::repeat('b').take(32).collect();
    qa.assignment.push((String::from("S"), handle.clone()));
    qa.metta_expression.push((handle, String::from(value)));
    qa.tokenize()
}

#[test]
fn substitution_replaces_variable_sigils() {
    let mut b = Bindings::new();
    b.add_var_binding(String::from("S"), Atom::sym(String::from("\"sentence one\"")));
    let out = substitute_bindings("(my-func \"monkey\" $S)", &b);
    assert_eq!(out, "(my-func \"monkey\" \"sentence one\")");
    let none = substitute_bindings("(no vars here)", &b);
    assert_eq!(none, "(no vars here)");
}

#[test]
fn evolution_round_produces_scores_for_the_original_sender() {
    let mut proxy = QueryEvolutionProxy::new(&params(), &evolution_params()).unwrap();
    process_message(
        &mut proxy.base,
        frame(
            vec![candidate("\"sentence one\""), String::from("eval_fitness")],
            "peer:35700",
        ),
    )
    .unwrap();
    process_message(
        &mut proxy.base,
        frame(
            vec![candidate("\"sentence two\""), String::from("eval_fitness")],
            "peer:35700",
        ),
    )
    .unwrap();
    assert_eq!(proxy.base.proxy_node.peer_id, "peer:35700");
    let exprs = eval_fitness_candidates(&mut proxy).unwrap();
    assert_eq!(exprs.len(), 2);
    assert_eq!(exprs[0], "!(my-func \"monkey\" \"sentence one\")");
    assert_eq!(exprs[1], "!(my-func \"monkey\" \"sentence two\")");
    assert_eq!(proxy.base.eval_fitness_queue.len(), 0);

    // The host's interpreter scores each candidate; here the scores stand in
    // for callbacks returning [0.5] and [0.7].
    let scores: Vec<f64> = vec![0.5, 0.7];
    let bundle: Vec<String> = scores.iter().map(|s| s.to_string()).collect();
    let response = eval_fitness_response(&proxy.base, bundle).unwrap();
    assert_eq!(response.command, "bus_command_proxy");
    assert_eq!(
        response.args,
        vec![
            String::from("0.5"),
            String::from("0.7"),
            String::from("eval_fitness_response"),
        ]
    );
    assert!(eval_fitness_response(&proxy.base, Vec::new()).is_none());
}

#[test]
fn unparsable_candidate_is_an_error() {
    let mut proxy = QueryEvolutionProxy::new(&params(), &evolution_params()).unwrap();
    process_message(
        &mut proxy.base,
        frame(
            vec![String::from("not an answer at all x"), String::from("eval_fitness")],
            "peer:35700",
        ),
    )
    .unwrap();
    assert!(eval_fitness_candidates(&mut proxy).is_err());
}

#[test]
fn parse_evolution_parameters_reads_the_five_sections() {
    let atom = Atom::expr(vec![
        Atom::expr(vec![Atom::sym(String::from("Similarity")), Atom::var(String::from("S1"))]),
        Atom::expr(vec![Atom::sym(String::from("my-func")), Atom::var(String::from("S1"))]),
        Atom::expr(vec![Atom::expr(vec![
            Atom::sym(String::from("Similarity")),
            Atom::var(String::from("S1")),
            Atom::var(String::from("S2")),
        ])]),
        Atom::expr(vec![Atom::expr(vec![
            Atom::sym(String::from("string")),
            Atom::sym(String::from("QE")),
        ])]),
        Atom::expr(vec![Atom::expr(vec![
            Atom::sym(String::from("QE")),
            Atom::sym(String::from("QE")),
        ])]),
    ]);
    let p = parse_evolution_parameters(&atom).unwrap();
    assert_eq!(p.query_atom.to_text(), "(Similarity $S1)");
    assert_eq!(p.fitness_function, "(my-func $S1)");
    assert_eq!(p.correlation_queries, vec![vec![String::from("(Similarity $S1 $S2)")]]);
    assert_eq!(p.correlation_replacements.len(), 1);
    assert_eq!(p.correlation_replacements[0][0].0, "string");
    assert_eq!(p.correlation_replacements[0][0].1.to_text(), "$QE");
    assert_eq!(p.correlation_mappings.len(), 1);
    assert_eq!(p.correlation_mappings[0].0.to_text(), "$QE");
    assert!(parse_evolution_parameters(&Atom::sym(String::from("x"))).is_err());
    assert!(parse_evolution_parameters(&Atom::expr(vec![Atom::sym(String::from("short"))]))
        .is_err());
}
