use meml::parser::element::{Attribute, Element};
use meml::parser::error::Error;
use meml::parser::function::Arguments;
use meml::parser::scope::{find_element, find_function, find_string, Trail};
use meml::parser::string::parse_string;
use meml::parser::table::Table;
use meml::parser::tree::{Node, Rule, Span};
use meml::parser::{get_content, get_definitions, Definition, DefinitionMap, MemlParser};

fn node(rule: Rule, text: &str, children: Vec<Node>) -> Node {
    Node::new(rule, text.to_string(), Span { start: 0, end: text.len() }, children)
}

fn at(start: usize, end: usize, mut node: Node) -> Node {
    node.span = Span { start, end };
    node
}

fn name(text: &str) -> Node {
    node(Rule::Name, text, vec![])
}

fn literal(text: &str) -> Node {
    node(Rule::Literal, text, vec![])
}

fn reference(text: &str) -> Node {
    node(Rule::Reference, text, vec![name(text)])
}

fn string(segments: Vec<Node>) -> Node {
    node(Rule::String, "", segments)
}

fn attribute(key: &str, value: Node) -> Node {
    node(Rule::Attribute, key, vec![name(key), value])
}

fn element(tag: &str, mut parts: Vec<Node>) -> Node {
    let mut children = vec![name(tag)];
    children.append(&mut parts);
    node(Rule::Element, tag, children)
}

fn body(items: Vec<Node>) -> Node {
    node(Rule::Body, "", items)
}

fn string_def(key: &str, value: Node) -> Node {
    node(Rule::StringConstDef, key, vec![name(key), value])
}

fn element_def(key: &str, items: Vec<Node>) -> Node {
    node(Rule::ElementConstDef, key, vec![name(key), body(items)])
}

fn func_def(key: &str, parameters: Vec<&str>, items: Vec<Node>) -> Node {
    let list = node(Rule::Parameters, "", parameters.into_iter().map(name).collect());
    node(Rule::FuncDef, key, vec![name(key), list, body(items)])
}

fn const_use(key: &str) -> Node {
    node(Rule::ConstUse, key, vec![name(key)])
}

fn func_use(key: &str, arguments: Vec<Node>) -> Node {
    node(Rule::FuncUse, key, vec![name(key), node(Rule::Arguments, "", arguments)])
}

fn end() -> Node {
    node(Rule::EOI, "", vec![])
}

fn tags(elements: &[Element]) -> Vec<String> {
    elements.iter().map(|element| element.tag.clone()).collect()
}

fn plain(tag: &str) -> Element {
    Element { tag: tag.to_string(), attributes: vec![], text: String::new(), children: vec![] }
}

fn compile(document: &Vec<Node>) -> Result<Vec<Element>, Error> {
    MemlParser::compile(Ok(document), &DefinitionMap::new())
}

#[test]
fn string_constant_reaches_attribute_through_template() {
    let document = vec![
        string_def("name", string(vec![literal("Card")])),
        element_def(
            "tag",
            vec![element("Label", vec![attribute("text", string(vec![reference("name")]))])],
        ),
        const_use("tag"),
        end(),
    ];
    let output = compile(&document).unwrap();
    let expected = Element {
        tag: "Label".to_string(),
        attributes: vec![Attribute { name: "text".to_string(), value: "Card".to_string() }],
        text: String::new(),
        children: vec![],
    };
    assert_eq!(output, vec![expected]);
}

#[test]
fn template_with_two_elements_is_spliced_before_literal() {
    let document = vec![
        element_def("pair", vec![element("a", vec![]), element("b", vec![])]),
        const_use("pair"),
        element("c", vec![]),
    ];
    let external = DefinitionMap::new();
    let (local, exports, remaining) = get_definitions(&document, &external).unwrap();
    assert_eq!(remaining.len(), 2);
    assert_eq!(exports, DefinitionMap::new());
    let output = get_content(remaining, &local, &external).unwrap();
    assert_eq!(output, vec![plain("a"), plain("b"), plain("c")]);
}

#[test]
fn grammar_error_is_handed_on_verbatim() {
    let external = DefinitionMap::new();
    let result = MemlParser::compile(Err("expected element at 1:1".to_string()), &external);
    assert_eq!(
        result,
        Err(Error::GrammarError { message: "expected element at 1:1".to_string() })
    );
}

#[test]
fn empty_document_compiles_to_nothing() {
    let document: Vec<Node> = vec![];
    assert_eq!(compile(&document), Ok(vec![]));
    let external = DefinitionMap::new();
    let (local, exports, remaining) = get_definitions(&document, &external).unwrap();
    assert_eq!(local, DefinitionMap::new());
    assert_eq!(exports, DefinitionMap::new());
    assert!(remaining.is_empty());
}

#[test]
fn first_pass_sorts_nodes_and_keeps_order() {
    let document = vec![
        element("first", vec![]),
        string_def("s", string(vec![literal("x")])),
        const_use("e"),
        element_def("e", vec![element("inner", vec![])]),
        func_use("f", vec![]),
        func_def("f", vec!["p", "q"], vec![element("made", vec![])]),
        literal("stray"),
        end(),
    ];
    let external = DefinitionMap::new();
    let (local, exports, remaining) = get_definitions(&document, &external).unwrap();
    let kept: Vec<Rule> = remaining.iter().map(|node| node.rule).collect();
    assert_eq!(kept, vec![Rule::Element, Rule::ConstUse, Rule::FuncUse, Rule::Literal]);
    assert_eq!(remaining[0], &document[0]);
    assert_eq!(remaining[3], &document[6]);
    assert_eq!(local.strings.get(&"s".to_string()), Some(&"x".to_string()));
    let template = local.elements.get(&"e".to_string()).unwrap();
    assert_eq!(template.body, &document[3].children[1]);
    let function = local.functions.get(&"f".to_string()).unwrap();
    assert_eq!(function.parameters, vec!["p".to_string(), "q".to_string()]);
    assert_eq!(function.body, &document[5].children[2]);
    assert_eq!(local.strings.entries.len(), 1);
    assert_eq!(local.elements.entries.len(), 1);
    assert_eq!(local.functions.entries.len(), 1);
    assert_eq!(exports, DefinitionMap::new());
}

#[test]
fn string_segments_are_joined_without_separator() {
    let document = vec![
        string_def("a", string(vec![literal("x"), literal("y z")])),
        string_def("b", string(vec![literal("<"), reference("a"), literal("|"), reference("a"), literal(">")])),
        string_def("empty", string(vec![])),
    ];
    let external = DefinitionMap::new();
    let (local, _, _) = get_definitions(&document, &external).unwrap();
    assert_eq!(local.strings.get(&"a".to_string()), Some(&"xy z".to_string()));
    assert_eq!(local.strings.get(&"b".to_string()), Some(&"<xy z|xy z>".to_string()));
    assert_eq!(local.strings.get(&"empty".to_string()), Some(&String::new()));
}

#[test]
fn string_constant_may_refer_to_earlier_one() {
    let document = vec![
        string_def("first", string(vec![literal("one")])),
        string_def("second", string(vec![reference("first"), literal(" two")])),
    ];
    let external = DefinitionMap::new();
    let (local, _, _) = get_definitions(&document, &external).unwrap();
    assert_eq!(local.strings.get(&"second".to_string()), Some(&"one two".to_string()));
}

#[test]
fn string_constant_cannot_refer_to_later_one() {
    let document = vec![
        string_def("second", string(vec![at(7, 14, reference("first")), literal(" two")])),
        string_def("first", string(vec![literal("one")])),
    ];
    let external = DefinitionMap::new();
    assert_eq!(
        get_definitions(&document, &external),
        Err(Error::UndefinedReference {
            name: "first".to_string(),
            span: Span { start: 7, end: 14 }
        })
    );
}

#[test]
fn string_constant_may_refer_to_external_one() {
    let mut external = DefinitionMap::new();
    external.insert("first".to_string(), Definition::String("outside".to_string()));
    let document = vec![
        string_def("second", string(vec![reference("first")])),
        string_def("first", string(vec![literal("one")])),
        string_def("third", string(vec![reference("first")])),
    ];
    let (local, _, _) = get_definitions(&document, &external).unwrap();
    assert_eq!(local.strings.get(&"second".to_string()), Some(&"outside".to_string()));
    assert_eq!(local.strings.get(&"third".to_string()), Some(&"one".to_string()));
    assert_eq!(external.strings.entries.len(), 1);
}

#[test]
fn later_definition_replaces_earlier_one() {
    let document = vec![
        string_def("s", string(vec![literal("old")])),
        string_def("s", string(vec![reference("s"), literal("+new")])),
        element_def("e", vec![element("old", vec![])]),
        element_def("e", vec![element("new", vec![])]),
        const_use("e"),
        const_use("s"),
    ];
    let output = compile(&document).unwrap();
    assert_eq!(output, vec![plain("new"), Element::text("old+new".to_string())]);
}

#[test]
fn local_definition_shadows_external_one() {
    let outside_body = body(vec![element("outside", vec![])]);
    let mut external = DefinitionMap::new();
    external.insert("s".to_string(), Definition::String("outside".to_string()));
    external.insert("only".to_string(), Definition::String("kept".to_string()));
    external.insert("e".to_string(), Definition::Element(Element::factory(&outside_body)));
    external.insert("far".to_string(), Definition::Element(Element::factory(&outside_body)));
    external.insert(
        "f".to_string(),
        Definition::Function(Element::function(&outside_body, vec![])),
    );
    let document = vec![
        string_def("s", string(vec![literal("inside")])),
        element_def("e", vec![element("inside", vec![])]),
        func_def("f", vec![], vec![element("inside", vec![])]),
        element(
            "x",
            vec![
                attribute("a", string(vec![reference("s"), literal("/"), reference("only")])),
                const_use("e"),
                const_use("far"),
                func_use("f", vec![]),
            ],
        ),
    ];
    let (local, _, remaining) = get_definitions(&document, &external).unwrap();
    let key = "s".to_string();
    assert_eq!(find_string(&key, None, &local, &external), Some(&"inside".to_string()));
    assert_eq!(
        find_string(&"only".to_string(), None, &local, &external),
        Some(&"kept".to_string())
    );
    assert_eq!(find_string(&"none".to_string(), None, &local, &external), None);
    assert_eq!(
        find_element(&"e".to_string(), &local, &external).unwrap().body,
        &document[1].children[1]
    );
    assert_eq!(find_element(&"far".to_string(), &local, &external).unwrap().body, &outside_body);
    assert!(find_element(&"s".to_string(), &local, &external).is_none());
    assert_eq!(
        find_function(&"f".to_string(), &local, &external).unwrap().body,
        &document[2].children[2]
    );
    assert!(find_function(&"e".to_string(), &local, &external).is_none());
    let output = get_content(remaining, &local, &external).unwrap();
    assert_eq!(output.len(), 1);
    assert_eq!(output[0].attributes[0].value, "inside/kept");
    assert_eq!(tags(&output[0].children), vec!["inside", "outside", "inside"]);
}

#[test]
fn argument_shadows_string_constants() {
    let mut local = DefinitionMap::new();
    local.insert("p".to_string(), Definition::String("local".to_string()));
    let mut external = DefinitionMap::new();
    external.insert("p".to_string(), Definition::String("external".to_string()));
    let mut arguments: Arguments = Table::new();
    arguments.insert("p".to_string(), "argument".to_string());
    let key = "p".to_string();
    assert_eq!(
        find_string(&key, Some(&arguments), &local, &external),
        Some(&"argument".to_string())
    );
    assert_eq!(find_string(&key, None, &local, &external), Some(&"local".to_string()));
    let expression = string(vec![reference("p")]);
    assert_eq!(
        parse_string(&expression, &local, &external, Some(&arguments)),
        Ok("argument".to_string())
    );
    assert_eq!(
        parse_string(&expression, &DefinitionMap::new(), &external, None),
        Ok("external".to_string())
    );
}

#[test]
fn template_with_three_elements_is_spliced_in_place() {
    let document = vec![
        element_def(
            "three",
            vec![element("x", vec![]), element("y", vec![]), element("z", vec![])],
        ),
        element("before", vec![]),
        const_use("three"),
        element("between", vec![]),
        const_use("three"),
    ];
    let output = compile(&document).unwrap();
    assert_eq!(tags(&output), vec!["before", "x", "y", "z", "between", "x", "y", "z"]);
    assert!(output.iter().all(|element| element.children.is_empty()));
}

#[test]
fn template_used_inside_element_adds_its_elements_as_children() {
    let document = vec![
        element_def("pair", vec![element("a", vec![]), element("b", vec![])]),
        element("outer", vec![element("first", vec![]), const_use("pair"), element("last", vec![])]),
    ];
    let output = compile(&document).unwrap();
    assert_eq!(output.len(), 1);
    assert_eq!(tags(&output[0].children), vec!["first", "a", "b", "last"]);
}

#[test]
fn mutual_templates_fail_as_cyclic() {
    let document = vec![
        element_def("a", vec![element("in_a", vec![]), at(10, 20, const_use("b"))]),
        element_def("b", vec![at(30, 40, const_use("a"))]),
        at(50, 60, const_use("a")),
    ];
    assert_eq!(
        compile(&document),
        Err(Error::CyclicDefinition { name: "a".to_string(), span: Span { start: 30, end: 40 } })
    );
}

#[test]
fn template_that_uses_itself_fails_as_cyclic() {
    let document = vec![
        element_def("a", vec![element("wrap", vec![at(3, 9, const_use("a"))])]),
        const_use("a"),
    ];
    assert_eq!(
        compile(&document),
        Err(Error::CyclicDefinition { name: "a".to_string(), span: Span { start: 3, end: 9 } })
    );
    let external = DefinitionMap::new();
    let (local, _, _) = get_definitions(&document, &external).unwrap();
    let template = local.elements.get(&"a".to_string()).unwrap();
    assert_eq!(
        template.instantiate(&local, &external, None),
        Err(Error::CyclicDefinition { name: "a".to_string(), span: Span { start: 3, end: 9 } })
    );
}

#[test]
fn function_that_calls_itself_fails_as_cyclic() {
    let document = vec![
        func_def("f", vec![], vec![at(5, 8, func_use("f", vec![]))]),
        element("x", vec![func_use("f", vec![])]),
    ];
    assert_eq!(
        compile(&document),
        Err(Error::CyclicDefinition { name: "f".to_string(), span: Span { start: 5, end: 8 } })
    );
}

#[test]
fn template_may_be_used_twice_without_cycle() {
    let document = vec![
        element_def("leaf", vec![element("l", vec![])]),
        element_def("twice", vec![const_use("leaf"), const_use("leaf")]),
        const_use("twice"),
        const_use("twice"),
    ];
    assert_eq!(compile(&document), Ok(vec![plain("l"), plain("l"), plain("l"), plain("l")]));
}

#[test]
fn instantiation_is_repeatable_and_leaves_template_alone() {
    let document = vec![
        string_def("s", string(vec![literal("v")])),
        element_def(
            "e",
            vec![
                element("a", vec![attribute("k", string(vec![reference("s"), reference("p")]))]),
                string(vec![literal("text "), reference("p")]),
            ],
        ),
    ];
    let external = DefinitionMap::new();
    let (local, _, _) = get_definitions(&document, &external).unwrap();
    let template = *local.elements.get(&"e".to_string()).unwrap();
    let copy = template.body.clone();
    let mut arguments: Arguments = Table::new();
    arguments.insert("p".to_string(), "!".to_string());
    let first = template.instantiate(&local, &external, Some(&arguments)).unwrap();
    let second = template.instantiate(&local, &external, Some(&arguments)).unwrap();
    assert_eq!(first, second);
    assert_eq!(first.len(), 2);
    assert_eq!(first[0].attributes[0].value, "v!");
    assert_eq!(first[1], Element::text("text !".to_string()));
    assert_eq!(*template.body, copy);
    let other = Element::factory(&copy);
    assert_eq!(other.instantiate(&local, &external, Some(&arguments)).unwrap(), first);
}

#[test]
fn function_binds_arguments_by_position() {
    let document = vec![
        string_def("who", string(vec![literal("constant")])),
        func_def(
            "greet",
            vec!["greeting", "who"],
            vec![element(
                "p",
                vec![
                    attribute("to", string(vec![reference("who")])),
                    string(vec![reference("greeting"), literal(", "), reference("who")]),
                ],
            )],
        ),
        element(
            "div",
            vec![func_use(
                "greet",
                vec![string(vec![literal("Hello")]), string(vec![reference("who"), literal("!")])],
            )],
        ),
    ];
    let output = compile(&document).unwrap();
    assert_eq!(output.len(), 1);
    let made = &output[0].children;
    assert_eq!(made.len(), 1);
    assert_eq!(made[0].tag, "p");
    assert_eq!(made[0].attributes[0].value, "constant!");
    assert_eq!(made[0].children, vec![Element::text("Hello, constant!".to_string())]);
}

#[test]
fn function_call_drops_surplus_arguments_and_leaves_missing_ones_unbound() {
    let able = body(vec![string(vec![reference("a")])]);
    let function = Element::function(&able, vec!["a".to_string()]);
    let local = DefinitionMap::new();
    let external = DefinitionMap::new();
    let values = vec!["one".to_string(), "two".to_string()];
    assert_eq!(function.bind(&values).entries.len(), 1);
    assert_eq!(
        function.call(&values, &local, &external),
        Ok(vec![Element::text("one".to_string())])
    );
    assert_eq!(
        function.call(&vec![], &local, &external),
        Err(Error::UndefinedReference { name: "a".to_string(), span: Span { start: 0, end: 1 } })
    );
    let twice = Element::function(&able, vec!["a".to_string(), "a".to_string()]);
    assert_eq!(
        twice.call(&values, &local, &external),
        Ok(vec![Element::text("two".to_string())])
    );
}

#[test]
fn arguments_of_caller_are_not_seen_by_callee() {
    let document = vec![
        element_def("shows", vec![string(vec![at(1, 4, reference("p"))])]),
        func_def("f", vec!["p"], vec![string(vec![reference("p")]), const_use("shows")]),
        element("x", vec![func_use("f", vec![string(vec![literal("v")])])]),
    ];
    assert_eq!(
        compile(&document),
        Err(Error::UndefinedReference { name: "p".to_string(), span: Span { start: 1, end: 4 } })
    );
}

#[test]
fn top_level_function_use_adds_nothing() {
    let document = vec![
        func_def("f", vec![], vec![element("made", vec![])]),
        element("a", vec![]),
        func_use("f", vec![]),
        func_use("unknown", vec![string(vec![reference("unknown")])]),
        element("b", vec![]),
    ];
    assert_eq!(compile(&document), Ok(vec![plain("a"), plain("b")]));
}

#[test]
fn unexpected_top_level_node_fails() {
    let document = vec![element("a", vec![]), at(4, 9, literal("stray")), element("b", vec![])];
    assert_eq!(
        compile(&document),
        Err(Error::UnexpectedNode { rule: Rule::Literal, span: Span { start: 4, end: 9 } })
    );
    let text = vec![at(0, 2, string(vec![literal("t")]))];
    assert_eq!(
        compile(&text),
        Err(Error::UnexpectedNode { rule: Rule::String, span: Span { start: 0, end: 2 } })
    );
}

#[test]
fn definition_without_its_parts_is_unexpected() {
    let external = DefinitionMap::new();
    let nameless = vec![at(1, 2, node(Rule::StringConstDef, "", vec![]))];
    assert_eq!(
        get_definitions(&nameless, &external),
        Err(Error::UnexpectedNode { rule: Rule::StringConstDef, span: Span { start: 1, end: 2 } })
    );
    let bodiless = vec![at(3, 4, node(Rule::ElementConstDef, "", vec![name("e")]))];
    assert_eq!(
        get_definitions(&bodiless, &external),
        Err(Error::UnexpectedNode { rule: Rule::ElementConstDef, span: Span { start: 3, end: 4 } })
    );
    let short = vec![at(5, 6, node(Rule::FuncDef, "", vec![name("f"), body(vec![])]))];
    assert_eq!(
        get_definitions(&short, &external),
        Err(Error::UnexpectedNode { rule: Rule::FuncDef, span: Span { start: 5, end: 6 } })
    );
    let wrong = vec![string_def("s", at(7, 8, literal("bare")))];
    assert_eq!(
        get_definitions(&wrong, &external),
        Err(Error::UnexpectedNode { rule: Rule::Literal, span: Span { start: 7, end: 8 } })
    );
}

#[test]
fn undefined_names_fail_where_they_are_used() {
    let constant = vec![at(2, 5, const_use("nothing"))];
    assert_eq!(
        compile(&constant),
        Err(Error::UndefinedReference { name: "nothing".to_string(), span: Span { start: 2, end: 5 } })
    );
    let function = vec![element("x", vec![at(6, 9, func_use("nothing", vec![]))])];
    assert_eq!(
        compile(&function),
        Err(Error::UndefinedReference { name: "nothing".to_string(), span: Span { start: 6, end: 9 } })
    );
    let attribute_value = vec![element(
        "x",
        vec![attribute("k", string(vec![literal("v"), at(11, 12, reference("nothing"))]))],
    )];
    assert_eq!(
        compile(&attribute_value),
        Err(Error::UndefinedReference {
            name: "nothing".to_string(),
            span: Span { start: 11, end: 12 }
        })
    );
}

#[test]
fn first_error_in_document_order_wins() {
    let document = vec![
        element("x", vec![at(1, 2, const_use("missing")), at(3, 4, literal("stray"))]),
        at(5, 6, literal("stray")),
    ];
    assert_eq!(
        compile(&document),
        Err(Error::UndefinedReference { name: "missing".to_string(), span: Span { start: 1, end: 2 } })
    );
}

#[test]
fn element_is_constructed_with_attributes_text_and_children() {
    let local = DefinitionMap::new();
    let external = DefinitionMap::new();
    let source = element(
        "a",
        vec![
            attribute("k", string(vec![literal("v")])),
            attribute("k", string(vec![literal("w")])),
            string(vec![literal("text")]),
            element("b", vec![element("c", vec![])]),
        ],
    );
    let made = Element::construct(&source, &local, &external, None).unwrap();
    assert_eq!(made.tag, "a");
    assert_eq!(made.text, "");
    assert_eq!(
        made.attributes,
        vec![
            Attribute { name: "k".to_string(), value: "v".to_string() },
            Attribute { name: "k".to_string(), value: "w".to_string() },
        ]
    );
    assert_eq!(made.children.len(), 2);
    assert_eq!(made.children[0], Element::text("text".to_string()));
    assert_eq!(made.children[1].children, vec![plain("c")]);
    assert_eq!(made.clone(), made);
    let other = const_use("a");
    assert_eq!(
        Element::construct(&other, &local, &external, None),
        Err(Error::UnexpectedNode { rule: Rule::ConstUse, span: Span { start: 0, end: 1 } })
    );
    let tagless = node(Rule::Element, "", vec![]);
    assert_eq!(
        Element::construct(&tagless, &local, &external, None),
        Err(Error::UnexpectedNode { rule: Rule::Element, span: Span { start: 0, end: 0 } })
    );
}

#[test]
fn eval_child_appends_and_keeps_element_on_error() {
    let mut local = DefinitionMap::new();
    let pair = body(vec![element("a", vec![]), element("b", vec![])]);
    local.insert("pair".to_string(), Definition::Element(Element::factory(&pair)));
    local.insert("s".to_string(), Definition::String("text".to_string()));
    let external = DefinitionMap::new();
    let mut container = Element::default();
    assert_eq!(container, Element::text(String::new()));
    assert_eq!(container.eval_child(&const_use("pair"), &local, &external, None), Ok(()));
    assert_eq!(container.eval_child(&const_use("s"), &local, &external, None), Ok(()));
    assert_eq!(
        container.children,
        vec![plain("a"), plain("b"), Element::text("text".to_string())]
    );
    let before = container.clone();
    assert_eq!(
        container.eval_child(&const_use("missing"), &local, &external, None),
        Err(Error::UndefinedReference { name: "missing".to_string(), span: Span { start: 0, end: 7 } })
    );
    assert_eq!(
        container.eval_child(&attribute("k", string(vec![])), &local, &external, None),
        Err(Error::UnexpectedNode { rule: Rule::Attribute, span: Span { start: 0, end: 1 } })
    );
    assert_eq!(container, before);
}

#[test]
fn element_template_comes_before_string_of_same_name() {
    let document = vec![
        string_def("n", string(vec![literal("text")])),
        element_def("n", vec![element("e", vec![])]),
        const_use("n"),
        element("x", vec![attribute("k", string(vec![reference("n")]))]),
    ];
    let output = compile(&document).unwrap();
    assert_eq!(tags(&output), vec!["e", "x"]);
    assert_eq!(output[1].attributes[0].value, "text");
}

#[test]
fn template_body_may_be_a_single_item() {
    let single = element("only", vec![]);
    let words = string(vec![literal("words")]);
    let local = DefinitionMap::new();
    let external = DefinitionMap::new();
    assert_eq!(
        Element::factory(&single).instantiate(&local, &external, None),
        Ok(vec![plain("only")])
    );
    assert_eq!(
        Element::factory(&words).instantiate(&local, &external, None),
        Ok(vec![Element::text("words".to_string())])
    );
    let stray = at(2, 3, name("n"));
    assert_eq!(
        Element::factory(&stray).instantiate(&local, &external, None),
        Err(Error::UnexpectedNode { rule: Rule::Name, span: Span { start: 2, end: 3 } })
    );
}

#[test]
fn table_finds_the_latest_binding() {
    let mut table: Table<String> = Table::new();
    let key = "k".to_string();
    assert_eq!(table.get(&key), None);
    table.insert("k".to_string(), "one".to_string());
    table.insert("other".to_string(), "x".to_string());
    assert_eq!(table.get(&key), Some(&"one".to_string()));
    table.insert("k".to_string(), "two".to_string());
    assert_eq!(table.get(&key), Some(&"two".to_string()));
    assert_eq!(table.get(&"other".to_string()), Some(&"x".to_string()));
    assert_eq!(table.get(&"K".to_string()), None);
}

#[test]
fn definitions_go_to_the_table_of_their_kind() {
    let content = body(vec![]);
    let mut definitions = DefinitionMap::new();
    definitions.insert("n".to_string(), Definition::String("s".to_string()));
    definitions.insert("n".to_string(), Definition::Element(Element::factory(&content)));
    definitions.insert(
        "n".to_string(),
        Definition::Function(Element::function(&content, vec!["p".to_string()])),
    );
    let key = "n".to_string();
    assert_eq!(definitions.strings.get(&key), Some(&"s".to_string()));
    assert_eq!(definitions.elements.get(&key).unwrap().body, &content);
    assert_eq!(definitions.functions.get(&key).unwrap().parameters, vec!["p".to_string()]);
}

#[test]
fn node_name_and_copy() {
    let source = element("a", vec![attribute("k", string(vec![literal("v")]))]);
    assert_eq!(source.name(), Some(&"a".to_string()));
    assert_eq!(literal("a").name(), None);
    assert_eq!(string(vec![literal("a")]).name(), None);
    assert_eq!(source.clone(), source);
}

#[test]
fn trail_knows_what_is_open() {
    let a = "a".to_string();
    let f = "f".to_string();
    let top = Trail::Top;
    let first = Trail::Element { name: &a, outer: &top };
    let second = Trail::Function { name: &f, outer: &first };
    assert!(!top.has_element(&a));
    assert!(second.has_element(&a));
    assert!(second.has_function(&f));
    assert!(!second.has_function(&a));
    assert!(!second.has_element(&f));
    assert!(!first.has_function(&f));
}
