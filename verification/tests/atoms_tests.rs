use metta_bus_client::atoms::Atom;
use metta_bus_client::bindings::Bindings;
use metta_bus_client::context_broker::hash_context;
use metta_bus_client::helpers::{map_variables, output_variable_clean_up, split_ignore_quoted};
use metta_bus_client::query_element::QueryElement;

fn similarity_query() -> Atom {
    Atom::expr(vec![
        Atom::sym(String::from("Similarity")),
        Atom::sym(String::from("\"human\"")),
        Atom::var(String::from("S")),
    ])
}

#[test]
fn atom_text_forms() {
    assert_eq!(similarity_query().to_text(), "(Similarity \"human\" $S)");
    assert_eq!(Atom::var(String::from("X")).to_text(), "$X");
    assert_eq!(Atom::expr(vec![]).to_text(), "()");
}

#[test]
fn query_element_texts_and_conversion() {
    assert_eq!(QueryElement::new_handle(7).to_text(), "_7");
    assert_eq!(QueryElement::new_variable("V").to_text(), "$V");
    let e = QueryElement::try_from_atom(&Atom::sym(String::from("42"))).unwrap();
    assert_eq!(e.to_text(), "_42");
    let v = QueryElement::try_from_atom(&Atom::var(String::from("S"))).unwrap();
    assert_eq!(v.to_text(), "$S");
    assert!(QueryElement::try_from_atom(&Atom::sym(String::from("abc"))).is_err());
    assert!(QueryElement::try_from_atom(&similarity_query()).is_err());
}

#[test]
fn split_ignore_quoted_keeps_quoted_runs() {
    assert_eq!(
        split_ignore_quoted("a \"b c\" d"),
        vec![String::from("a"), String::from("\"b c\""), String::from("d")]
    );
    assert_eq!(
        split_ignore_quoted("x 'one two' y"),
        vec![String::from("x"), String::from("'one two'"), String::from("y")]
    );
    assert_eq!(split_ignore_quoted("  spaced\tout\nnow "), vec![
        String::from("spaced"),
        String::from("out"),
        String::from("now"),
    ]);
}

#[test]
fn map_variables_finds_sigils_and_markers() {
    let vars = map_variables("(Similarity \"human\" $S)");
    assert_eq!(vars, vec![String::from("S")]);
    let vars = map_variables("LINK_TEMPLATE Expression 3 VARIABLE V1 VARIABLE V2");
    assert_eq!(vars, vec![String::from("V1"), String::from("V2")]);
    let vars = map_variables("($S $S)");
    assert_eq!(vars, vec![String::from("S")]);
}

#[test]
fn output_variable_clean_up_strips_generated_suffixes() {
    let a = Atom::expr(vec![Atom::var(String::from("S#17")), Atom::sym(String::from("k"))]);
    assert_eq!(output_variable_clean_up(&a).to_text(), "($S k)");
    let plain = Atom::var(String::from("S"));
    assert_eq!(output_variable_clean_up(&plain).to_text(), "$S");
}

#[test]
fn bindings_insert_lookup_and_narrow() {
    let mut b = Bindings::new();
    b.add_var_binding(String::from("S"), Atom::sym(String::from("human")));
    b.add_var_binding(String::from("T"), Atom::sym(String::from("monkey")));
    b.add_var_binding(String::from("S"), Atom::sym(String::from("chimp")));
    assert_eq!(b.len(), 2);
    assert_eq!(b.get("S").unwrap().to_text(), "chimp");
    assert!(b.get("missing").is_none());
    let narrowed = b.narrow_vars(&vec![String::from("T")]);
    assert_eq!(narrowed.len(), 1);
    assert_eq!(narrowed.get("T").unwrap().to_text(), "monkey");
    assert!(narrowed.get("S").is_none());
}

#[test]
fn context_hash_is_md5_lower_hex() {
    assert_eq!(hash_context(""), "d41d8cd98f00b204e9800998ecf8427e");
    let h = hash_context("context");
    assert_eq!(h.len(), 32);
    assert_ne!(h, "context");
    assert_ne!(h, hash_context("Context"));
    assert_eq!(h, hash_context("context"));
}
