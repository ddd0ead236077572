//! The two passes over a parsed document.

pub mod element;
pub mod error;
pub mod function;
pub mod scope;
pub mod string;
pub mod table;
pub mod tree;

use vstd::prelude::*;
use crate::parser::element::{
    build_element, element_views, elements_result, expand_item, expand_items, expand_template,
    lemma_literal_items, Element, ElementFactory, ElementView,
};
use crate::parser::error::{undefined, unexpected, Error, ErrorView};
use crate::parser::function::{texts, Function, FunctionView};
use crate::parser::scope::{scope_of, Active, Scope};
use crate::parser::string::{
    lemma_segments_fail, parse_string, resolve_segment, resolve_segments, resolve_string,
    unexpected_node,
};
use crate::parser::table::Table;
use crate::parser::tree::{name_of, node_views, Node, NodeView, Rule};

verus! {

/// A named value of a document: a string, an element template or a function.
#[derive(Clone, Debug, PartialEq, Eq)]
pub enum Definition<'a> {
    String(String),
    Element(ElementFactory<'a>),
    Function(Function<'a>),
}

/// The mathematical model of a [`Definition`].
pub enum DefinitionView {
    String(Seq<char>),
    Element(NodeView),
    Function(FunctionView),
}

impl<'a> View for Definition<'a> {
    type V = DefinitionView;

    open spec fn view(&self) -> DefinitionView {
        match *self {
            Definition::String(text) => DefinitionView::String(text@),
            Definition::Element(template) => DefinitionView::Element(template@),
            Definition::Function(function) => DefinitionView::Function(function@),
        }
    }
}

/// The definitions of one document, by category and name. A name is
/// defined once in each category: a later definition replaces an earlier
/// one of the same category and name.
#[derive(Clone, Debug, PartialEq, Eq)]
pub struct DefinitionMap<'a> {
    pub strings: Table<String>,
    pub elements: Table<ElementFactory<'a>>,
    pub functions: Table<Function<'a>>,
}

/// The mathematical model of a [`DefinitionMap`]: one map for each category.
pub struct DefinitionsView {
    pub strings: Map<Seq<char>, Seq<char>>,
    pub elements: Map<Seq<char>, NodeView>,
    pub functions: Map<Seq<char>, FunctionView>,
}

impl DefinitionsView {
    /// The definitions of a document that defines nothing.
    pub open spec fn empty() -> DefinitionsView {
        DefinitionsView { strings: Map::empty(), elements: Map::empty(), functions: Map::empty() }
    }

    /// The definitions after `name` was defined as `definition`, in the
    /// category that the definition belongs to.
    pub open spec fn define(self, name: Seq<char>, definition: DefinitionView) -> DefinitionsView {
        match definition {
            DefinitionView::String(text) => DefinitionsView {
                strings: self.strings.insert(name, text),
                ..self
            },
            DefinitionView::Element(body) => DefinitionsView {
                elements: self.elements.insert(name, body),
                ..self
            },
            DefinitionView::Function(function) => DefinitionsView {
                functions: self.functions.insert(name, function),
                ..self
            },
        }
    }

    /// Each category defines finitely many names.
    pub open spec fn finite(self) -> bool {
        &&& self.strings.dom().finite()
        &&& self.elements.dom().finite()
        &&& self.functions.dom().finite()
    }
}

impl<'a> View for DefinitionMap<'a> {
    type V = DefinitionsView;

    open spec fn view(&self) -> DefinitionsView {
        DefinitionsView {
            strings: self.strings@,
            elements: self.elements@,
            functions: self.functions@,
        }
    }
}

impl<'a> DefinitionMap<'a> {
    /// Definitions are finitely many.
    pub proof fn lemma_finite(&self)
        ensures
            self@.finite(),
    {
        self.strings.lemma_finite();
        self.elements.lemma_finite();
        self.functions.lemma_finite();
    }

    /// The definitions of a document that defines nothing.
    pub fn new() -> (definitions: DefinitionMap<'a>)
        ensures
            definitions@ == DefinitionsView::empty(),
    {
        DefinitionMap { strings: Table::new(), elements: Table::new(), functions: Table::new() }
    }

    /// Defines `name` as `definition`, in place of an earlier definition of
    /// the same category and name.
    pub fn insert(&mut self, name: String, definition: Definition<'a>)
        ensures
            final(self)@ == old(self)@.define(name@, definition@),
    {
        match definition {
            Definition::String(text) => self.strings.insert(name, text),
            Definition::Element(template) => self.elements.insert(name, template),
            Definition::Function(function) => self.functions.insert(name, function),
        }
    }
}

/// The grammar of the markup language. Parsing the text is the work of a
/// parser that is made from the grammar; what it hands over is compiled
/// here.
#[derive(Clone, Copy, Debug, PartialEq, Eq)]
pub struct MemlParser {}

/// What the first pass has made of the nodes that it has seen: the
/// definitions of the document, and the nodes that define nothing.
pub struct Collected {
    pub local: DefinitionsView,
    pub remaining: Seq<NodeView>,
}

/// The models of the nodes that a sequence of references points to.
pub open spec fn node_ref_views(nodes: Seq<&Node>) -> Seq<NodeView> {
    Seq::new(nodes.len(), |i: int| nodes[i]@)
}

/// The parameter names that a parameter list holds: the texts of its
/// children, in order.
pub open spec fn parameter_names(list: NodeView) -> Seq<Seq<char>> {
    Seq::new(list.children.len(), |i: int| list.children[i].text)
}

/// What the first pass makes of one top-level node, after the nodes before
/// it have given `collected`:
/// - a string constant is defined as the value of its expression, in which
///   only the definitions made so far and the external ones are visible;
/// - an element template and a function are defined with their bodies as
///   they stand, nothing in them being resolved yet;
/// - the end-of-input marker is dropped;
/// - every other node is kept for the second pass.
///
/// A definition that lacks its name or a part after it is an unexpected node.
pub open spec fn collect_node(node: NodeView, collected: Collected, external: DefinitionsView) -> Result<
    Collected,
    ErrorView,
> {
    match node.rule {
        Rule::StringConstDef => match name_of(node) {
            Some(name) => if node.children.len() >= 2 {
                match resolve_string(
                    node.children[1],
                    Scope { arguments: Map::empty(), local: collected.local, external },
                ) {
                    Ok(text) => Ok(
                        Collected {
                            local: collected.local.define(name, DefinitionView::String(text)),
                            ..collected
                        },
                    ),
                    Err(error) => Err(error),
                }
            } else {
                Err(unexpected(node))
            },
            None => Err(unexpected(node)),
        },
        Rule::ElementConstDef => match name_of(node) {
            Some(name) => if node.children.len() >= 2 {
                Ok(
                    Collected {
                        local: collected.local.define(
                            name,
                            DefinitionView::Element(node.children[1]),
                        ),
                        ..collected
                    },
                )
            } else {
                Err(unexpected(node))
            },
            None => Err(unexpected(node)),
        },
        Rule::FuncDef => match name_of(node) {
            Some(name) => if node.children.len() >= 3 {
                Ok(
                    Collected {
                        local: collected.local.define(
                            name,
                            DefinitionView::Function(
                                FunctionView {
                                    parameters: parameter_names(node.children[1]),
                                    body: node.children[2],
                                },
                            ),
                        ),
                        ..collected
                    },
                )
            } else {
                Err(unexpected(node))
            },
            None => Err(unexpected(node)),
        },
        Rule::EOI => Ok(collected),
        _ => Ok(Collected { remaining: collected.remaining.push(node), ..collected }),
    }
}

/// What the first pass makes of the first `count` top-level nodes, taken
/// in the order of the document; or the error of the first node that fails.
pub open spec fn collect(nodes: Seq<NodeView>, external: DefinitionsView, count: nat) -> Result<
    Collected,
    ErrorView,
>
    decreases count,
{
    if count == 0 {
        Ok(Collected { local: DefinitionsView::empty(), remaining: Seq::empty() })
    } else {
        match collect(nodes, external, (count - 1) as nat) {
            Ok(collected) => collect_node(nodes[count - 1], collected, external),
            Err(error) => Err(error),
        }
    }
}

/// Once the nodes up to some place fail in the first pass, so do the nodes
/// up to any later place, with the same error.
pub proof fn lemma_collect_fails(
    nodes: Seq<NodeView>,
    external: DefinitionsView,
    failed: nat,
    count: nat,
)
    requires
        failed <= count,
        collect(nodes, external, failed) is Err,
    ensures
        collect(nodes, external, count) == collect(nodes, external, failed),
    decreases count,
{
    if failed < count {
        lemma_collect_fails(nodes, external, failed, (count - 1) as nat);
    }
}

/// Reads the parameter names off a parameter list.
fn parameter_list(list: &Node) -> (names: Vec<String>)
    ensures
        texts(names@) == parameter_names(list@),
{
    let mut names: Vec<String> = Vec::new();
    proof {
        list.lemma_view();
    }
    let mut i: usize = 0;
    while i < list.children.len()
        invariant
            i <= list.children.len(),
            names.len() == i,
            list@.children.len() == list.children.len(),
            forall|j: int| 0 <= j < list.children.len() ==> list@.children[j] == list.children[j]@,
            forall|j: int| 0 <= j < i ==> names[j]@ == list@.children[j].text,
        decreases list.children.len() - i,
    {
        proof {
            list.children[i as int].lemma_view();
        }
        names.push(list.children[i].text.clone());
        i += 1;
    }
    proof {
        assert(texts(names@) =~= parameter_names(list@));
    }
    names
}

/// Takes one top-level node into the definitions, or into the nodes that
/// are kept for the second pass.
fn define_node<'a>(
    node: &'a Node,
    local: &mut DefinitionMap<'a>,
    remaining: &mut Vec<&'a Node>,
    external: &DefinitionMap<'a>,
) -> (result: Result<(), Error>)
    ensures
        match result {
            Ok(_) => collect_node(
                node@,
                Collected { local: old(local)@, remaining: node_ref_views(old(remaining)@) },
                external@,
            ) == Ok::<Collected, ErrorView>(
                Collected { local: final(local)@, remaining: node_ref_views(final(remaining)@) },
            ),
            Err(error) => collect_node(
                node@,
                Collected { local: old(local)@, remaining: node_ref_views(old(remaining)@) },
                external@,
            ) == Err::<Collected, ErrorView>(error@),
        },
{
    proof {
        node.lemma_view();
    }
    match node.rule {
        Rule::StringConstDef => match node.name() {
            Some(name) => if node.children.len() >= 2 {
                match parse_string(&node.children[1], local, external, None) {
                    Ok(text) => {
                        local.insert(name.clone(), Definition::String(text));
                        Ok(())
                    },
                    Err(error) => Err(error),
                }
            } else {
                Err(unexpected_node(node))
            },
            None => Err(unexpected_node(node)),
        },
        Rule::ElementConstDef => match node.name() {
            Some(name) => if node.children.len() >= 2 {
                local.insert(
                    name.clone(),
                    Definition::Element(Element::factory(&node.children[1])),
                );
                Ok(())
            } else {
                Err(unexpected_node(node))
            },
            None => Err(unexpected_node(node)),
        },
        Rule::FuncDef => match node.name() {
            Some(name) => if node.children.len() >= 3 {
                let parameters = parameter_list(&node.children[1]);
                local.insert(
                    name.clone(),
                    Definition::Function(Element::function(&node.children[2], parameters)),
                );
                Ok(())
            } else {
                Err(unexpected_node(node))
            },
            None => Err(unexpected_node(node)),
        },
        Rule::EOI => Ok(()),
        _ => {
            proof {
                assert(node_ref_views(remaining@.push(node)) =~= node_ref_views(remaining@).push(
                    node@,
                ));
            }
            remaining.push(node);
            Ok(())
        },
    }
}

/// The first pass: collects the definitions of a document.
///
/// The top-level nodes are taken in the order of the document. What comes
/// back is the definitions of the document, the definitions that it hands
/// on to other documents, which are none, and the nodes that define
/// nothing, in their order. The external definitions are only read.
pub fn get_definitions<'a>(nodes: &'a Vec<Node>, external_definitions: &DefinitionMap<'a>) -> (result:
    Result<(DefinitionMap<'a>, DefinitionMap<'a>, Vec<&'a Node>), Error>)
    ensures
        match result {
            Ok((local, exports, remaining)) => {
                &&& collect(node_views(nodes@), external_definitions@, nodes.len() as nat) == Ok::<
                    Collected,
                    ErrorView,
                >(Collected { local: local@, remaining: node_ref_views(remaining@) })
                &&& exports@ == DefinitionsView::empty()
            },
            Err(error) => collect(node_views(nodes@), external_definitions@, nodes.len() as nat)
                == Err::<Collected, ErrorView>(error@),
        },
{
    let mut local_definitions = DefinitionMap::new();
    let exports = DefinitionMap::new();
    let mut remaining: Vec<&'a Node> = Vec::new();
    proof {
        assert(node_ref_views(remaining@) =~= Seq::empty());
    }
    let mut i: usize = 0;
    while i < nodes.len()
        invariant
            i <= nodes.len(),
            exports@ == DefinitionsView::empty(),
            collect(node_views(nodes@), external_definitions@, i as nat) == Ok::<
                Collected,
                ErrorView,
            >(Collected { local: local_definitions@, remaining: node_ref_views(remaining@) }),
        decreases nodes.len() - i,
    {
        match define_node(&nodes[i], &mut local_definitions, &mut remaining, external_definitions) {
            Ok(_) => {},
            Err(error) => {
                proof {
                    lemma_collect_fails(
                        node_views(nodes@),
                        external_definitions@,
                        (i + 1) as nat,
                        nodes.len() as nat,
                    );
                }
                return Err(error);
            },
        }
        i += 1;
    }
    Ok((local_definitions, exports, remaining))
}

/// What one kept top-level node adds to the output: a literal element its
/// element, a use of a constant everything that the constant expands to,
/// side by side, and a function invocation nothing. Any other node is
/// unexpected.
pub open spec fn content_of(node: NodeView, scope: Scope) -> Result<Seq<ElementView>, ErrorView> {
    match node.rule {
        Rule::Element => expand_item(node, scope, Active::none()),
        Rule::ConstUse => expand_item(node, scope, Active::none()),
        Rule::FuncUse => Ok(Seq::empty()),
        _ => Err(unexpected(node)),
    }
}

/// What the first `count` of the kept nodes add to the output, one after
/// the other; or the error of the first node that fails.
pub open spec fn content(nodes: Seq<NodeView>, scope: Scope, count: nat) -> Result<
    Seq<ElementView>,
    ErrorView,
>
    decreases count,
{
    if count == 0 {
        Ok(Seq::empty())
    } else {
        match content(nodes, scope, (count - 1) as nat) {
            Ok(front) => match content_of(nodes[count - 1], scope) {
                Ok(more) => Ok(front + more),
                Err(error) => Err(error),
            },
            Err(error) => Err(error),
        }
    }
}

/// Once the nodes up to some place fail in the second pass, so do the
/// nodes up to any later place, with the same error.
pub proof fn lemma_content_fails(nodes: Seq<NodeView>, scope: Scope, failed: nat, count: nat)
    requires
        failed <= count,
        content(nodes, scope, failed) is Err,
    ensures
        content(nodes, scope, count) == content(nodes, scope, failed),
    decreases count,
{
    if failed < count {
        lemma_content_fails(nodes, scope, failed, (count - 1) as nat);
    }
}

/// The second pass: expands the nodes that the first pass has kept into
/// the top-level elements of the output, in their order.
///
/// What a use of a constant expands to is gathered in a container element
/// and moved from there into the output, so that it stands in the output
/// itself and not inside another element; the container is empty again
/// before the next node.
pub fn get_content(
    nodes: Vec<&Node>,
    local_definitions: &DefinitionMap,
    external_definitions: &DefinitionMap,
) -> (result: Result<Vec<Element>, Error>)
    ensures
        elements_result(result) == content(
            node_ref_views(nodes@),
            scope_of(None, local_definitions, external_definitions),
            nodes.len() as nat,
        ),
{
    let ghost scope = scope_of(None, local_definitions, external_definitions);
    let ghost kept = node_ref_views(nodes@);
    let mut root: Vec<Element> = Vec::new();
    let mut element_container = Element::default();
    proof {
        element_container.lemma_view();
        local_definitions.lemma_finite();
        external_definitions.lemma_finite();
        assert(element_views(root@) =~= Seq::empty());
    }
    let mut i: usize = 0;
    while i < nodes.len()
        invariant
            i <= nodes.len(),
            scope == scope_of(None, local_definitions, external_definitions),
            scope.finite(),
            kept == node_ref_views(nodes@),
            element_container.children@.len() == 0,
            content(kept, scope, i as nat) == Ok::<Seq<ElementView>, ErrorView>(
                element_views(root@),
            ),
        decreases nodes.len() - i,
    {
        let node = nodes[i];
        proof {
            node.lemma_view();
        }
        match node.rule {
            Rule::Element => match Element::construct(
                node,
                local_definitions,
                external_definitions,
                None,
            ) {
                Ok(element) => {
                    proof {
                        assert(element_views(root@.push(element)) =~= element_views(root@)
                            + seq![element@]);
                    }
                    root.push(element);
                },
                Err(error) => {
                    proof {
                        lemma_content_fails(kept, scope, (i + 1) as nat, nodes.len() as nat);
                    }
                    return Err(error);
                },
            },
            Rule::ConstUse => {
                proof {
                    element_container.lemma_view();
                }
                match element_container.eval_child(
                    node,
                    local_definitions,
                    external_definitions,
                    None,
                ) {
                    Ok(_) => {
                        proof {
                            element_container.lemma_view();
                            assert(element_views(root@ + element_container.children@)
                                =~= element_views(root@) + element_views(
                                element_container.children@,
                            ));
                            assert(Seq::<ElementView>::empty() + element_views(
                                element_container.children@,
                            ) =~= element_views(element_container.children@));
                        }
                        root.append(&mut element_container.children);
                    },
                    Err(error) => {
                        proof {
                            lemma_content_fails(kept, scope, (i + 1) as nat, nodes.len() as nat);
                        }
                        return Err(error);
                    },
                }
            },
            Rule::FuncUse => {
                proof {
                    assert(element_views(root@) + Seq::<ElementView>::empty() =~= element_views(
                        root@,
                    ));
                }
            },
            _ => {
                proof {
                    lemma_content_fails(kept, scope, (i + 1) as nat, nodes.len() as nat);
                }
                return Err(unexpected_node(node));
            },
        }
        i += 1;
    }
    Ok(root)
}

/// What a document compiles to: the first pass over its top-level nodes,
/// then the second pass over the nodes that the first has kept, with the
/// definitions that the first has collected.
pub open spec fn compiled(nodes: Seq<NodeView>, external: DefinitionsView) -> Result<
    Seq<ElementView>,
    ErrorView,
> {
    match collect(nodes, external, nodes.len()) {
        Ok(collected) => content(
            collected.remaining,
            Scope { arguments: Map::empty(), local: collected.local, external },
            collected.remaining.len(),
        ),
        Err(error) => Err(error),
    }
}

impl MemlParser {
    /// Compiles what the parser has made of a text. Where the parser has
    /// failed, its message is handed on as it is; else the top-level
    /// nodes go through both passes.
    pub fn compile<'a>(
        parsed: Result<&'a Vec<Node>, String>,
        external_definitions: &DefinitionMap<'a>,
    ) -> (result: Result<Vec<Element>, Error>)
        ensures
            elements_result(result) == match parsed {
                Ok(nodes) => compiled(node_views(nodes@), external_definitions@),
                Err(message) => Err(ErrorView::GrammarError { message: message@ }),
            },
    {
        match parsed {
            Ok(nodes) => match get_definitions(nodes, external_definitions) {
                Ok((local_definitions, _, remaining)) => get_content(
                    remaining,
                    &local_definitions,
                    external_definitions,
                ),
                Err(error) => Err(error),
            },
            Err(message) => Err(Error::GrammarError { message }),
        }
    }
}

/// Whether a top-level node declares the string constant `name`.
pub open spec fn declares_string(node: NodeView, name: Seq<char>) -> bool {
    node.rule == Rule::StringConstDef && name_of(node) == Some(name)
}

/// After the first pass has gone over some nodes, the document defines
/// exactly the string constants that those nodes declare.
pub proof fn lemma_defined_strings(
    nodes: Seq<NodeView>,
    external: DefinitionsView,
    count: nat,
    name: Seq<char>,
)
    requires
        count <= nodes.len(),
        collect(nodes, external, count) is Ok,
    ensures
        collect(nodes, external, count)->Ok_0.local.strings.contains_key(name) <==> exists|j: int|
            0 <= j < count && declares_string(#[trigger] nodes[j], name),
    decreases count,
{
    if count > 0 {
        let front = (count - 1) as nat;
        lemma_defined_strings(nodes, external, front, name);
        let before = collect(nodes, external, front)->Ok_0.local.strings;
        let after = collect(nodes, external, count)->Ok_0.local.strings;
        let last = nodes[count - 1];
        if declares_string(last, name) {
            assert(after.contains_key(name));
        } else {
            assert(after.contains_key(name) == before.contains_key(name));
            if exists|j: int| 0 <= j < count && declares_string(#[trigger] nodes[j], name) {
                let j = choose|j: int| 0 <= j < count && declares_string(#[trigger] nodes[j], name);
                assert(j < front);
            }
        }
    }
}

/// A string constant may refer to a constant that is declared before it:
/// in the expression of the node at `index`, a reference to a name that an
/// earlier node declares stands for the value that the first pass has
/// given that name by then.
pub proof fn lemma_earlier_constant_is_visible(
    nodes: Seq<NodeView>,
    external: DefinitionsView,
    index: nat,
    earlier: nat,
    segment: NodeView,
    name: Seq<char>,
)
    requires
        earlier < index <= nodes.len(),
        collect(nodes, external, index) is Ok,
        declares_string(nodes[earlier as int], name),
        segment.rule == Rule::Reference,
        name_of(segment) == Some(name),
    ensures
        resolve_segment(
            segment,
            Scope {
                arguments: Map::empty(),
                local: collect(nodes, external, index)->Ok_0.local,
                external,
            },
        ) == Ok::<Seq<char>, ErrorView>(
            collect(nodes, external, index)->Ok_0.local.strings[name],
        ),
{
    lemma_defined_strings(nodes, external, index, name);
}

/// A string constant cannot refer to a constant that is declared after
/// it. Let the node at `index` declare a string constant whose expression
/// refers, in the segment at `at`, to a name that no earlier node declares
/// and no external definition holds, and let the nodes and the segments
/// before resolve without error. Then the first pass fails there with an
/// undefined reference, whatever the nodes after `index` declare.
pub proof fn lemma_later_constant_is_undefined(
    nodes: Seq<NodeView>,
    external: DefinitionsView,
    index: nat,
    at: nat,
    name: Seq<char>,
)
    requires
        index < nodes.len(),
        collect(nodes, external, index) is Ok,
        nodes[index as int].rule == Rule::StringConstDef,
        name_of(nodes[index as int]) is Some,
        nodes[index as int].children.len() >= 2,
        nodes[index as int].children[1].rule == Rule::String,
        at < nodes[index as int].children[1].children.len(),
        nodes[index as int].children[1].children[at as int].rule == Rule::Reference,
        name_of(nodes[index as int].children[1].children[at as int]) == Some(name),
        resolve_segments(
            nodes[index as int].children[1].children,
            Scope {
                arguments: Map::empty(),
                local: collect(nodes, external, index)->Ok_0.local,
                external,
            },
            at,
        ) is Ok,
        forall|j: int| 0 <= j < index ==> !declares_string(#[trigger] nodes[j], name),
        !external.strings.contains_key(name),
    ensures
        collect(nodes, external, nodes.len()) == Err::<Collected, ErrorView>(
            undefined(name, nodes[index as int].children[1].children[at as int]),
        ),
{
    let expression = nodes[index as int].children[1];
    let scope = Scope {
        arguments: Map::empty(),
        local: collect(nodes, external, index)->Ok_0.local,
        external,
    };
    let failure = Err::<Seq<char>, ErrorView>(undefined(name, expression.children[at as int]));
    lemma_defined_strings(nodes, external, index, name);
    assert(scope.string(name) is None);
    assert(resolve_segment(expression.children[at as int], scope) == failure);
    assert(resolve_segments(expression.children, scope, at + 1) == failure);
    lemma_segments_fail(expression.children, scope, at + 1, expression.children.len());
    assert(resolve_string(expression, scope) == failure);
    assert(collect(nodes, external, index + 1) is Err);
    lemma_collect_fails(nodes, external, index + 1, nodes.len());
}

/// The output grows at its end only: what the second pass makes of the
/// first nodes stands at the front of what it makes of more nodes.
pub proof fn lemma_content_extends(nodes: Seq<NodeView>, scope: Scope, shorter: nat, longer: nat)
    requires
        shorter <= longer,
        content(nodes, scope, longer) is Ok,
    ensures
        content(nodes, scope, shorter) is Ok,
        content(nodes, scope, shorter)->Ok_0.len() <= content(nodes, scope, longer)->Ok_0.len(),
        content(nodes, scope, longer)->Ok_0.subrange(
            0,
            content(nodes, scope, shorter)->Ok_0.len() as int,
        ) == content(nodes, scope, shorter)->Ok_0,
    decreases longer,
{
    if shorter < longer {
        lemma_content_extends(nodes, scope, shorter, (longer - 1) as nat);
        let front = content(nodes, scope, (longer - 1) as nat)->Ok_0;
        let whole = content(nodes, scope, longer)->Ok_0;
        let first = content(nodes, scope, shorter)->Ok_0;
        assert(whole.subrange(0, first.len() as int) =~= front.subrange(0, first.len() as int));
    } else {
        let whole = content(nodes, scope, longer)->Ok_0;
        assert(whole.subrange(0, whole.len() as int) =~= whole);
    }
}

/// A top-level use of an element template is replaced by what the
/// template holds, side by side. Let the node at `index` use a template
/// whose body holds some literal elements and nothing else, and let the
/// second pass get past that node. Then the node adds to the output, at
/// the place that the output has reached, as many elements as the body
/// has children, each the element that the child stands for, and none
/// that wraps them.
pub proof fn lemma_constant_is_spliced(
    nodes: Seq<NodeView>,
    scope: Scope,
    index: nat,
    name: Seq<char>,
)
    requires
        scope.finite(),
        index < nodes.len(),
        nodes[index as int].rule == Rule::ConstUse,
        name_of(nodes[index as int]) == Some(name),
        scope.element(name) is Some,
        scope.element(name)->0.rule == Rule::Body,
        forall|k: int|
            0 <= k < scope.element(name)->0.children.len() ==> (
            #[trigger] scope.element(name)->0.children[k]).rule == Rule::Element,
        content(nodes, scope, index + 1) is Ok,
    ensures
        content(nodes, scope, index) is Ok,
        content(nodes, scope, index + 1)->Ok_0.len() == content(nodes, scope, index)->Ok_0.len()
            + scope.element(name)->0.children.len(),
        content(nodes, scope, index + 1)->Ok_0.subrange(
            0,
            content(nodes, scope, index)->Ok_0.len() as int,
        ) == content(nodes, scope, index)->Ok_0,
        forall|k: int|
            0 <= k < scope.element(name)->0.children.len() ==> build_element(
                #[trigger] scope.element(name)->0.children[k],
                scope.inside(Map::empty()),
                Active::none().with_element(name),
            ) == Ok::<ElementView, ErrorView>(
                content(nodes, scope, index + 1)->Ok_0[content(nodes, scope, index)->Ok_0.len()
                    + k],
            ),
{
    let body = scope.element(name)->0;
    let within = scope.inside(Map::empty());
    let active = Active::none().with_element(name);
    let before = content(nodes, scope, index)->Ok_0;
    let after = content(nodes, scope, index + 1)->Ok_0;
    lemma_content_extends(nodes, scope, index, index + 1);
    let added = expand_item(nodes[index as int], scope, Active::none());
    assert(added == expand_template(body, within, active));
    assert(added == expand_items(body, within, active, body.children.len()));
    lemma_literal_items(body, within, active, body.children.len());
    assert(after == before + added->Ok_0);
    assert forall|k: int| 0 <= k < body.children.len() implies build_element(
        #[trigger] body.children[k],
        within,
        active,
    ) == Ok::<ElementView, ErrorView>(after[before.len() + k]) by {
        assert(after[before.len() + k] == added->Ok_0[k]);
    }
}

} // verus!
