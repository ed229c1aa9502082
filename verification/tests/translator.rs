use typst_mathjax::{
    analysis_field_access, analysis_func_call, analysis_math, analysis_math_attach,
    analysis_math_delimited, analysis_math_frac, analysis_math_indent, load_dict,
    typst_to_mathjax, CallArg, MathNode, SymbolDictionary,
};

fn ident(name: &str) -> MathNode {
    MathNode::Identifier(name.to_string())
}

fn atom(text: &str) -> MathNode {
    MathNode::TextAtom(text.to_string())
}

fn field(target: MathNode, name: &str) -> MathNode {
    let description = format!("{:?}.{}", target, name);
    MathNode::FieldAccess { target: Box::new(target), field: name.to_string(), description }
}

fn call(callee: MathNode, args: Vec<CallArg>) -> MathNode {
    MathNode::FunctionCall {
        callee: Box::new(callee),
        callee_description: "the callee".to_string(),
        args,
        args_description: "the arguments".to_string(),
    }
}

fn greek() -> SymbolDictionary {
    load_dict(
        r#"{
            "alpha": "\\alpha",
            "sum": "\\sum",
            "sqrt": "\\sqrt",
            "binom": "\\binom",
            "mid": "\\middle",
            "vec": {"arrow": "\\vec", "main": "\\mathbf"},
            "arrow": {"r.long": "\\longrightarrow", "l": "\\leftarrow"},
            "nomain": {"other": "x"},
            "count": 3
        }"#,
    )
}

#[test]
fn literal_identifier_yields_its_text() {
    let dict = greek();
    assert_eq!(typst_to_mathjax(&ident("alpha"), &dict), "\\alpha");
    assert_eq!(analysis_math_indent("sum", &dict), "\\sum");
}

#[test]
fn object_identifier_yields_main_variant() {
    let dict = greek();
    assert_eq!(typst_to_mathjax(&ident("vec"), &dict), "\\mathbf");
}

#[test]
fn object_identifier_without_main_is_diagnosed() {
    let dict = greek();
    assert_eq!(typst_to_mathjax(&ident("nomain"), &dict), "<!-- no command: nomain -->");
}

#[test]
fn identifier_bound_to_a_number_is_diagnosed() {
    let dict = greek();
    assert_eq!(typst_to_mathjax(&ident("count"), &dict), "<!-- no command: count -->");
}

#[test]
fn unknown_identifier_is_diagnosed() {
    let dict = SymbolDictionary::empty();
    assert_eq!(typst_to_mathjax(&ident("foo"), &dict), "<!-- no command: foo -->");
}

#[test]
fn unknown_identifier_leaves_siblings_alone() {
    let dict = greek();
    let nodes = vec![atom("1"), MathNode::Whitespace, ident("foo"), MathNode::Whitespace, ident("alpha")];
    assert_eq!(
        typst_to_mathjax(&MathNode::Sequence(nodes), &dict),
        "1 <!-- no command: foo --> \\alpha"
    );
}

#[test]
fn sequence_keeps_the_order_of_its_children() {
    let dict = greek();
    let nodes = vec![atom("a"), MathNode::AlignPoint, atom("b"), MathNode::LineBreak, atom("c")];
    assert_eq!(analysis_math(&nodes, &dict), "a&b\\\\c");
    assert_eq!(analysis_math(&Vec::new(), &dict), "");
}

#[test]
fn leaves_translate_to_their_own_text() {
    let dict = SymbolDictionary::empty();
    assert_eq!(typst_to_mathjax(&atom("x"), &dict), "x");
    assert_eq!(typst_to_mathjax(&atom("3.14"), &dict), "3.14");
    assert_eq!(typst_to_mathjax(&MathNode::Shorthand("\u{2264}".to_string()), &dict), "\u{2264}");
    assert_eq!(typst_to_mathjax(&MathNode::AlignPoint, &dict), "&");
    assert_eq!(typst_to_mathjax(&MathNode::Whitespace, &dict), " ");
    assert_eq!(typst_to_mathjax(&MathNode::LineBreak, &dict), "\\\\");
    assert_eq!(
        typst_to_mathjax(&MathNode::StringLiteral("if".to_string()), &dict),
        "\\rm{if}"
    );
}

#[test]
fn unsupported_node_is_diagnosed_with_its_description() {
    let dict = SymbolDictionary::empty();
    let node = MathNode::Unsupported { description: "MathRoot(..)".to_string() };
    assert_eq!(typst_to_mathjax(&node, &dict), "<!-- parse error: MathRoot(..) -->");
    let nodes = vec![atom("a"), node, atom("b")];
    assert_eq!(analysis_math(&nodes, &dict), "a<!-- parse error: MathRoot(..) -->b");
}

#[test]
fn field_chain_resolves_single_field() {
    let dict = greek();
    assert_eq!(typst_to_mathjax(&field(ident("vec"), "arrow"), &dict), "\\vec");
    assert_eq!(typst_to_mathjax(&field(ident("arrow"), "l"), &dict), "\\leftarrow");
}

#[test]
fn field_chain_resolves_in_either_order() {
    let dict = greek();
    let as_written = field(field(ident("arrow"), "r"), "long");
    let reversed = field(field(ident("arrow"), "long"), "r");
    assert_eq!(typst_to_mathjax(&as_written, &dict), "\\longrightarrow");
    assert_eq!(typst_to_mathjax(&reversed, &dict), "\\longrightarrow");
}

#[test]
fn field_chain_of_three_names_finds_any_ordering() {
    let dict = load_dict(r#"{"arrow": {"b.c.a": "hit"}}"#);
    let chain = field(field(field(ident("arrow"), "a"), "b"), "c");
    assert_eq!(typst_to_mathjax(&chain, &dict), "hit");
    let other = field(field(field(ident("arrow"), "c"), "a"), "b");
    assert_eq!(typst_to_mathjax(&other, &dict), "hit");
}

#[test]
fn field_chain_without_match_is_diagnosed() {
    let dict = greek();
    let inner = MathNode::FieldAccess {
        target: Box::new(ident("arrow")),
        field: "r".to_string(),
        description: "inner access".to_string(),
    };
    let outer = MathNode::FieldAccess {
        target: Box::new(inner),
        field: "short".to_string(),
        description: "outer access".to_string(),
    };
    assert_eq!(
        typst_to_mathjax(&outer, &dict),
        "<!-- unsupported field target: inner access -->"
    );
}

#[test]
fn field_chain_on_a_literal_is_diagnosed() {
    let dict = greek();
    assert_eq!(
        analysis_field_access(&ident("alpha"), "up", "alpha.up", &dict),
        "<!-- unsupported field target: alpha.up -->"
    );
    assert_eq!(
        analysis_field_access(&ident("missing"), "up", "missing.up", &dict),
        "<!-- unsupported field target: missing.up -->"
    );
}

#[test]
fn field_chain_without_identifier_root_lists_its_fields() {
    let dict = greek();
    let chain = field(field(atom("x"), "a"), "b\"c");
    assert_eq!(typst_to_mathjax(&chain, &dict), "<!-- fields: [\"b\\\"c\", \"a\"] -->");
}

#[test]
fn call_wraps_each_argument_in_braces() {
    let dict = greek();
    let node = call(
        ident("binom"),
        vec![CallArg::Positional(atom("n")), CallArg::Positional(ident("alpha"))],
    );
    assert_eq!(typst_to_mathjax(&node, &dict), "\\binom{n}{\\alpha}");
    assert_eq!(typst_to_mathjax(&call(ident("sqrt"), Vec::new()), &dict), "\\sqrt");
}

#[test]
fn call_keeps_other_arguments_beside_a_diagnostic() {
    let dict = greek();
    let args = vec![
        CallArg::Positional(atom("a")),
        CallArg::Other { description: "Named(..)".to_string() },
        CallArg::Positional(atom("b")),
    ];
    assert_eq!(
        analysis_func_call(&ident("binom"), "callee", &args, "args", &dict),
        "\\binom{a}<!-- unsupported argument: Named(..) -->{b}"
    );
}

#[test]
fn call_with_unknown_callee_is_diagnosed() {
    let dict = greek();
    let node = call(ident("foo"), vec![CallArg::Positional(atom("x"))]);
    assert_eq!(typst_to_mathjax(&node, &dict), "<!-- no command: foo -->");
}

#[test]
fn call_on_an_object_entry_is_diagnosed() {
    let dict = greek();
    let node = call(ident("vec"), vec![CallArg::Positional(atom("x"))]);
    assert_eq!(typst_to_mathjax(&node, &dict), "<!-- no command: vec -->");
}

#[test]
fn call_with_other_callee_is_diagnosed() {
    let dict = greek();
    let node = call(field(ident("vec"), "arrow"), vec![CallArg::Positional(atom("x"))]);
    assert_eq!(typst_to_mathjax(&node, &dict), "<!-- unsupported function call: the callee -->");
}

#[test]
fn middle_takes_exactly_one_positional_argument() {
    let dict = greek();
    let one = call(ident("mid"), vec![CallArg::Positional(atom("|"))]);
    assert_eq!(typst_to_mathjax(&one, &dict), "\\,\\middle|\\,");
    let none = call(ident("mid"), Vec::new());
    assert_eq!(typst_to_mathjax(&none, &dict), "<!-- unsupported mid arguments: the arguments -->");
    let two = call(
        ident("mid"),
        vec![CallArg::Positional(atom("|")), CallArg::Positional(atom("|"))],
    );
    assert_eq!(typst_to_mathjax(&two, &dict), "<!-- unsupported mid arguments: the arguments -->");
    let named = call(ident("mid"), vec![CallArg::Other { description: "Spread(..)".to_string() }]);
    assert_eq!(typst_to_mathjax(&named, &dict), "<!-- unsupported mid argument: Spread(..) -->");
}

#[test]
fn attachment_orders_base_primes_top_bottom() {
    let top = "2".to_string();
    let bottom = "i".to_string();
    assert_eq!(analysis_math_attach("x", Some(2), Some(&top), Some(&bottom)), "x''^{2}_{i}");
    assert_eq!(analysis_math_attach("x", None, None, Some(&bottom)), "x_{i}");
    assert_eq!(analysis_math_attach("x", Some(0), Some(&top), None), "x^{2}");
    assert_eq!(analysis_math_attach("x", Some(3), None, None), "x'''");
    assert_eq!(analysis_math_attach("x", None, None, None), "x");
}

#[test]
fn attachment_node_translates_its_parts() {
    let dict = greek();
    let node = MathNode::Attachment {
        base: Box::new(ident("alpha")),
        top: Some(Box::new(atom("2"))),
        bottom: Some(Box::new(ident("foo"))),
        primes: Some(1),
    };
    assert_eq!(typst_to_mathjax(&node, &dict), "\\alpha'^{2}_{<!-- no command: foo -->}");
}

#[test]
fn fraction_takes_numerator_then_denominator() {
    let dict = greek();
    assert_eq!(analysis_math_frac("a", "b"), "\\frac{a}{b}");
    let node = MathNode::Fraction { num: Box::new(atom("1")), denom: Box::new(ident("alpha")) };
    assert_eq!(typst_to_mathjax(&node, &dict), "\\frac{1}{\\alpha}");
}

#[test]
fn delimited_group_scales_its_delimiters() {
    let dict = greek();
    assert_eq!(analysis_math_delimited("(", "x", ")"), "{\\left(x\\right)}");
    assert_eq!(analysis_math_delimited("[", "", ")"), "{\\left[\\right)}");
    let node = MathNode::Delimited {
        open: Box::new(atom("(")),
        body: vec![ident("alpha"), atom("+"), atom("1")],
        close: Box::new(atom(")")),
    };
    assert_eq!(typst_to_mathjax(&node, &dict), "{\\left(\\alpha+1\\right)}");
}

#[test]
fn delimited_group_escapes_braces() {
    let dict = greek();
    assert_eq!(analysis_math_delimited("{", "x", "}"), "{\\left\\{x\\right\\}}");
    let node = MathNode::Delimited {
        open: Box::new(atom("{")),
        body: vec![atom("x")],
        close: Box::new(atom("}")),
    };
    assert_eq!(typst_to_mathjax(&node, &dict), "{\\left\\{x\\right\\}}");
    assert_eq!(analysis_math_delimited("}", "x", "{"), "{\\left\\}x\\right\\{}");
    assert_eq!(analysis_math_delimited("{{", "x", "|"), "{\\left{{x\\right|}");
}

#[test]
fn field_chain_with_two_bound_orderings_takes_the_first_probed() {
    let dict = load_dict(r#"{"x": {"a.b": "first", "b.a": "second"}}"#);
    let a_then_b = field(field(ident("x"), "a"), "b");
    let b_then_a = field(field(ident("x"), "b"), "a");
    assert_eq!(typst_to_mathjax(&a_then_b, &dict), "second");
    assert_eq!(typst_to_mathjax(&b_then_a, &dict), "first");
}

#[test]
fn field_chain_with_repeated_names() {
    let dict = load_dict(r#"{"x": {"a.a": "twice", "a": "once"}}"#);
    assert_eq!(typst_to_mathjax(&field(field(ident("x"), "a"), "a"), &dict), "twice");
    assert_eq!(typst_to_mathjax(&field(ident("x"), "a"), &dict), "once");
}

#[test]
fn nested_structures_translate_inside_out() {
    let dict = greek();
    let inner = MathNode::Fraction { num: Box::new(atom("1")), denom: Box::new(atom("2")) };
    let node = MathNode::Attachment {
        base: Box::new(MathNode::Delimited {
            open: Box::new(atom("(")),
            body: vec![inner],
            close: Box::new(atom(")")),
        }),
        top: Some(Box::new(call(ident("sqrt"), vec![CallArg::Positional(ident("alpha"))]))),
        bottom: None,
        primes: None,
    };
    assert_eq!(
        typst_to_mathjax(&node, &dict),
        "{\\left(\\frac{1}{2}\\right)}^{\\sqrt{\\alpha}}"
    );
}
