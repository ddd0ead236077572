//! Concrete elements, and the templates that they are made from.

use vstd::prelude::*;
use crate::parser::error::{cyclic, undefined, unexpected, Error, ErrorView};
use crate::parser::function::{bind, texts, Arguments, Function};
use crate::parser::scope::{
    arguments_view, find_element, find_function, find_string, scope_of, Active, Scope, Trail,
};
use crate::parser::string::{parse_string, resolve_string, undefined_reference, unexpected_node};
use crate::parser::tree::{name_of, Node, NodeView, Rule};
use crate::parser::DefinitionMap;

verus! {

/// An attribute of a concrete element, with its value resolved.
#[derive(Clone, Debug, PartialEq, Eq)]
pub struct Attribute {
    pub name: String,
    pub value: String,
}

impl View for Attribute {
    type V = (Seq<char>, Seq<char>);

    open spec fn view(&self) -> (Seq<char>, Seq<char>) {
        (self.name@, self.value@)
    }
}

/// A concrete element. A piece of text among the children of an element is
/// an element without a tag that holds the text.
#[derive(Debug, PartialEq, Eq)]
pub struct Element {
    pub tag: String,
    pub attributes: Vec<Attribute>,
    pub text: String,
    pub children: Vec<Element>,
}

/// The mathematical model of an [`Element`].
pub struct ElementView {
    pub tag: Seq<char>,
    pub attributes: Seq<(Seq<char>, Seq<char>)>,
    pub text: Seq<char>,
    pub children: Seq<ElementView>,
}

/// The models of a sequence of attributes, in order.
pub open spec fn attribute_views(attributes: Seq<Attribute>) -> Seq<(Seq<char>, Seq<char>)> {
    Seq::new(attributes.len(), |i: int| attributes[i]@)
}

/// The model of an element: its own parts, and the models of its children.
pub open spec fn element_view(element: Element) -> ElementView
    decreases element,
{
    ElementView {
        tag: element.tag@,
        attributes: attribute_views(element.attributes@),
        text: element.text@,
        children: Seq::new(
            element.children.len() as nat,
            |i: int|
                if 0 <= i < element.children.len() {
                    element_view(element.children[i])
                } else {
                    arbitrary()
                },
        ),
    }
}

impl View for Element {
    type V = ElementView;

    open spec fn view(&self) -> ElementView {
        element_view(*self)
    }
}

/// The models of a sequence of elements, in order.
pub open spec fn element_views(elements: Seq<Element>) -> Seq<ElementView> {
    Seq::new(elements.len(), |i: int| elements[i]@)
}

/// The element that stands for a piece of text.
pub open spec fn text_element(text: Seq<char>) -> ElementView {
    ElementView { tag: Seq::empty(), attributes: Seq::empty(), text, children: Seq::empty() }
}

/// An element template: a body that is expanded anew wherever the template
/// is used. Expanding it leaves the template as it was.
#[derive(Clone, Copy, Debug, PartialEq, Eq)]
pub struct ElementFactory<'a> {
    pub body: &'a Node,
}

impl<'a> View for ElementFactory<'a> {
    type V = NodeView;

    open spec fn view(&self) -> NodeView {
        self.body@
    }
}

impl Element {
    /// The model of an element is made of the models of its children.
    pub proof fn lemma_view(&self)
        ensures
            self@.tag == self.tag@,
            self@.attributes == attribute_views(self.attributes@),
            self@.text == self.text@,
            self@.children == element_views(self.children@),
    {
        assert(self@.children =~= element_views(self.children@));
    }

    /// The element that stands for a piece of text.
    pub fn text(text: String) -> (element: Element)
        ensures
            element@ == text_element(text@),
    {
        let element = Element {
            tag: String::new(),
            attributes: Vec::new(),
            text,
            children: Vec::new(),
        };
        assert(element@.attributes =~= Seq::empty());
        assert(element@.children =~= Seq::empty());
        element
    }

    /// The template with the given body. Nothing in the body is resolved
    /// before the template is used.
    pub fn factory<'a>(body: &'a Node) -> (template: ElementFactory<'a>)
        ensures
            template.body == body,
    {
        ElementFactory { body }
    }

    /// The function with the given parameter names and body. Nothing in the
    /// body is resolved before the function is called.
    pub fn function<'a>(body: &'a Node, parameters: Vec<String>) -> (function: Function<'a>)
        ensures
            function.body == body,
            function.parameters == parameters,
    {
        Function { parameters, body }
    }
}

impl Default for Element {
    /// An element without tag, attributes, text and children.
    fn default() -> (element: Element)
        ensures
            element@ == text_element(Seq::empty()),
    {
        Element::text(String::new())
    }
}

impl Clone for Element {
    /// A deep copy of the element.
    fn clone(&self) -> (copy: Element)
        ensures
            copy@ == self@,
        decreases self,
    {
        let mut attributes: Vec<Attribute> = Vec::new();
        let mut i: usize = 0;
        while i < self.attributes.len()
            invariant
                i <= self.attributes.len(),
                attributes.len() == i,
                forall|j: int| 0 <= j < i ==> attributes[j]@ == self.attributes[j]@,
            decreases self.attributes.len() - i,
        {
            let attribute = &self.attributes[i];
            attributes.push(
                Attribute { name: attribute.name.clone(), value: attribute.value.clone() },
            );
            i += 1;
        }
        let mut children: Vec<Element> = Vec::new();
        let mut k: usize = 0;
        while k < self.children.len()
            invariant
                k <= self.children.len(),
                children.len() == k,
                forall|j: int| 0 <= j < k ==> children[j]@ == self.children[j]@,
            decreases self.children.len() - k,
        {
            let child = self.children[k].clone();
            children.push(child);
            k += 1;
        }
        let copy = Element { tag: self.tag.clone(), attributes, text: self.text.clone(), children };
        assert(copy@.attributes =~= self@.attributes);
        assert(copy@.children =~= self@.children);
        copy
    }
}

/// The name and the value of an attribute, the value being that of the
/// string expression that follows the name.
pub open spec fn resolve_attribute(node: NodeView, scope: Scope) -> Result<
    (Seq<char>, Seq<char>),
    ErrorView,
> {
    match name_of(node) {
        Some(name) => if node.children.len() >= 2 {
            match resolve_string(node.children[1], scope) {
                Ok(value) => Ok((name, value)),
                Err(error) => Err(error),
            }
        } else {
            Err(unexpected(node))
        },
        None => Err(unexpected(node)),
    }
}

/// The values of the first `count` of the given argument expressions, in
/// order; or the error of the first one that fails.
pub open spec fn resolve_arguments(expressions: Seq<NodeView>, scope: Scope, count: nat) -> Result<
    Seq<Seq<char>>,
    ErrorView,
>
    decreases count,
{
    if count == 0 {
        Ok(Seq::empty())
    } else {
        match resolve_arguments(expressions, scope, (count - 1) as nat) {
            Ok(front) => match resolve_string(expressions[count - 1], scope) {
                Ok(value) => Ok(front.push(value)),
                Err(error) => Err(error),
            },
            Err(error) => Err(error),
        }
    }
}

/// The values of the arguments of a function invocation. The argument
/// list is the node that follows the name; an invocation without one has
/// no arguments.
pub open spec fn argument_values(node: NodeView, scope: Scope) -> Result<Seq<Seq<char>>, ErrorView> {
    if node.children.len() >= 2 {
        resolve_arguments(node.children[1].children, scope, node.children[1].children.len())
    } else {
        Ok(Seq::empty())
    }
}

/// The attributes and children of an element under construction.
pub struct Parts {
    pub attributes: Seq<(Seq<char>, Seq<char>)>,
    pub children: Seq<ElementView>,
}

/// What a content item adds to the children of the element that it stands
/// in, while the templates in `active` are being expanded:
/// - a literal element adds itself;
/// - a string expression adds its value as a piece of text;
/// - a use of a constant adds the expansion of the element template of
///   that name, seen without arguments, or else the string of that name as
///   a piece of text;
/// - an invocation adds the expansion of the function of that name, seen
///   with its parameters bound to the values of the arguments.
///
/// A use of a template that is being expanded fails as cyclic.
pub open spec fn expand_item(node: NodeView, scope: Scope, active: Active) -> Result<
    Seq<ElementView>,
    ErrorView,
>
    decreases scope.unopened(active), node, node.children.len() + 2,
    when scope.finite()
{
    match node.rule {
        Rule::Element => match build_element(node, scope, active) {
            Ok(element) => Ok(seq![element]),
            Err(error) => Err(error),
        },
        Rule::String => match resolve_string(node, scope) {
            Ok(text) => Ok(seq![text_element(text)]),
            Err(error) => Err(error),
        },
        Rule::ConstUse => match name_of(node) {
            Some(name) => match scope.element(name) {
                Some(body) => if active.elements.contains(name) {
                    Err(cyclic(name, node))
                } else {
                    proof {
                        scope.lemma_open_element(active, name);
                    }
                    expand_template(body, scope.inside(Map::empty()), active.with_element(name))
                },
                None => match scope.string(name) {
                    Some(text) => Ok(seq![text_element(text)]),
                    None => Err(undefined(name, node)),
                },
            },
            None => Err(unexpected(node)),
        },
        Rule::FuncUse => match name_of(node) {
            Some(name) => match scope.function(name) {
                Some(function) => if active.functions.contains(name) {
                    Err(cyclic(name, node))
                } else {
                    match argument_values(node, scope) {
                        Ok(values) => {
                            proof {
                                scope.lemma_open_function(active, name);
                            }
                            expand_template(
                                function.body,
                                scope.inside(bind(function.parameters, values)),
                                active.with_function(name),
                            )
                        },
                        Err(error) => Err(error),
                    }
                },
                None => Err(undefined(name, node)),
            },
            None => Err(unexpected(node)),
        },
        _ => Err(unexpected(node)),
    }
}

/// What the first `count` children of `node` add, taken as content items
/// one after the other; or the error of the first one that fails.
pub open spec fn expand_items(node: NodeView, scope: Scope, active: Active, count: nat) -> Result<
    Seq<ElementView>,
    ErrorView,
>
    decreases scope.unopened(active), node, count,
    when scope.finite()
{
    if count == 0 {
        Ok(Seq::empty())
    } else if count > node.children.len() {
        expand_items(node, scope, active, node.children.len())
    } else {
        match expand_items(node, scope, active, (count - 1) as nat) {
            Ok(front) => match expand_item(node.children[count - 1], scope, active) {
                Ok(more) => Ok(front + more),
                Err(error) => Err(error),
            },
            Err(error) => Err(error),
        }
    }
}

/// The expansion of a template body: of its children where it is a
/// [`Rule::Body`], and else of the node itself as one content item.
pub open spec fn expand_template(body: NodeView, scope: Scope, active: Active) -> Result<
    Seq<ElementView>,
    ErrorView,
>
    decreases scope.unopened(active), body, body.children.len() + 3,
    when scope.finite()
{
    if body.rule == Rule::Body {
        expand_items(body, scope, active, body.children.len())
    } else {
        expand_item(body, scope, active)
    }
}

/// The attributes and children that the children of an element node make,
/// from the one after the tag name up to the first `count`: an attribute
/// node makes an attribute, every other node is a content item. Or the
/// error of the first one that fails.
pub open spec fn element_parts(node: NodeView, scope: Scope, active: Active, count: nat) -> Result<
    Parts,
    ErrorView,
>
    decreases scope.unopened(active), node, count,
    when scope.finite()
{
    if count <= 1 {
        Ok(Parts { attributes: Seq::empty(), children: Seq::empty() })
    } else if count > node.children.len() {
        element_parts(node, scope, active, node.children.len())
    } else {
        match element_parts(node, scope, active, (count - 1) as nat) {
            Ok(parts) => if node.children[count - 1].rule == Rule::Attribute {
                match resolve_attribute(node.children[count - 1], scope) {
                    Ok(attribute) => Ok(
                        Parts { attributes: parts.attributes.push(attribute), ..parts },
                    ),
                    Err(error) => Err(error),
                }
            } else {
                match expand_item(node.children[count - 1], scope, active) {
                    Ok(more) => Ok(Parts { children: parts.children + more, ..parts }),
                    Err(error) => Err(error),
                }
            },
            Err(error) => Err(error),
        }
    }
}

/// The concrete element that a literal element node stands for: its tag is
/// the name of the node, its attributes and children are made by the nodes
/// that follow the name.
pub open spec fn build_element(node: NodeView, scope: Scope, active: Active) -> Result<
    ElementView,
    ErrorView,
>
    decreases scope.unopened(active), node, node.children.len() + 1,
    when scope.finite()
{
    if node.rule == Rule::Element {
        match name_of(node) {
            Some(tag) => match element_parts(node, scope, active, node.children.len()) {
                Ok(parts) => Ok(
                    ElementView {
                        tag,
                        attributes: parts.attributes,
                        text: Seq::empty(),
                        children: parts.children,
                    },
                ),
                Err(error) => Err(error),
            },
            None => Err(unexpected(node)),
        }
    } else {
        Err(unexpected(node))
    }
}

/// The model of an element, or of the error in its place.
pub open spec fn element_result(result: Result<Element, Error>) -> Result<ElementView, ErrorView> {
    match result {
        Ok(element) => Ok(element@),
        Err(error) => Err(error@),
    }
}

/// The models of some elements, or of the error in their place.
pub open spec fn elements_result(result: Result<Vec<Element>, Error>) -> Result<
    Seq<ElementView>,
    ErrorView,
> {
    match result {
        Ok(elements) => Ok(element_views(elements@)),
        Err(error) => Err(error@),
    }
}

/// Once the children up to some place fail as content items, so do the
/// children up to any later place, with the same error.
pub proof fn lemma_items_fail(node: NodeView, scope: Scope, active: Active, failed: nat, count: nat)
    requires
        scope.finite(),
        failed <= count <= node.children.len(),
        expand_items(node, scope, active, failed) is Err,
    ensures
        expand_items(node, scope, active, count) == expand_items(node, scope, active, failed),
    decreases count,
{
    if failed < count {
        lemma_items_fail(node, scope, active, failed, (count - 1) as nat);
    }
}

/// Once the children of an element node up to some place fail, so do the
/// children up to any later place, with the same error.
pub proof fn lemma_parts_fail(node: NodeView, scope: Scope, active: Active, failed: nat, count: nat)
    requires
        scope.finite(),
        failed <= count <= node.children.len(),
        element_parts(node, scope, active, failed) is Err,
    ensures
        element_parts(node, scope, active, count) == element_parts(node, scope, active, failed),
    decreases count,
{
    if failed < count {
        lemma_parts_fail(node, scope, active, failed, (count - 1) as nat);
    }
}

/// Once the argument expressions up to some place fail, so do those up to
/// any later place, with the same error.
pub proof fn lemma_arguments_fail(expressions: Seq<NodeView>, scope: Scope, failed: nat, count: nat)
    requires
        failed <= count,
        resolve_arguments(expressions, scope, failed) is Err,
    ensures
        resolve_arguments(expressions, scope, count) == resolve_arguments(
            expressions,
            scope,
            failed,
        ),
    decreases count,
{
    if failed < count {
        lemma_arguments_fail(expressions, scope, failed, (count - 1) as nat);
    }
}

/// Evaluates an attribute node into its name and the value of its expression.
fn eval_attribute(
    node: &Node,
    local: &DefinitionMap,
    external: &DefinitionMap,
    arguments: Option<&Arguments>,
) -> (result: Result<Attribute, Error>)
    ensures
        match result {
            Ok(attribute) => resolve_attribute(node@, scope_of(arguments, local, external)) == Ok::<
                (Seq<char>, Seq<char>),
                ErrorView,
            >(attribute@),
            Err(error) => resolve_attribute(node@, scope_of(arguments, local, external)) == Err::<
                (Seq<char>, Seq<char>),
                ErrorView,
            >(error@),
        },
{
    proof {
        node.lemma_view();
    }
    match node.name() {
        Some(name) => if node.children.len() >= 2 {
            match parse_string(&node.children[1], local, external, arguments) {
                Ok(value) => Ok(Attribute { name: name.clone(), value }),
                Err(error) => Err(error),
            }
        } else {
            Err(unexpected_node(node))
        },
        None => Err(unexpected_node(node)),
    }
}

/// Evaluates the argument expressions of a function invocation, in order.
fn eval_arguments(
    node: &Node,
    local: &DefinitionMap,
    external: &DefinitionMap,
    arguments: Option<&Arguments>,
) -> (result: Result<Vec<String>, Error>)
    ensures
        match result {
            Ok(values) => argument_values(node@, scope_of(arguments, local, external)) == Ok::<
                Seq<Seq<char>>,
                ErrorView,
            >(texts(values@)),
            Err(error) => argument_values(node@, scope_of(arguments, local, external)) == Err::<
                Seq<Seq<char>>,
                ErrorView,
            >(error@),
        },
{
    let mut values: Vec<String> = Vec::new();
    proof {
        node.lemma_view();
        assert(texts(values@) =~= Seq::empty());
    }
    if node.children.len() < 2 {
        return Ok(values);
    }
    let list = &node.children[1];
    let ghost scope = scope_of(arguments, local, external);
    proof {
        list.lemma_view();
    }
    let mut i: usize = 0;
    while i < list.children.len()
        invariant
            i <= list.children.len(),
            node@.children.len() >= 2,
            node@.children[1] == list@,
            list@.children.len() == list.children.len(),
            forall|j: int| 0 <= j < list.children.len() ==> list@.children[j] == list.children[j]@,
            scope == scope_of(arguments, local, external),
            resolve_arguments(list@.children, scope, i as nat) == Ok::<Seq<Seq<char>>, ErrorView>(
                texts(values@),
            ),
        decreases list.children.len() - i,
    {
        match parse_string(&list.children[i], local, external, arguments) {
            Ok(value) => {
                proof {
                    assert(texts(values@.push(value)) =~= texts(values@).push(value@));
                }
                values.push(value);
            },
            Err(error) => {
                proof {
                    assert(resolve_arguments(list@.children, scope, (i + 1) as nat) == Err::<
                        Seq<Seq<char>>,
                        ErrorView,
                    >(error@));
                    lemma_arguments_fail(
                        list@.children,
                        scope,
                        (i + 1) as nat,
                        list@.children.len(),
                    );
                }
                return Err(error);
            },
        }
        i += 1;
    }
    Ok(values)
}

/// Evaluates a content item into the elements that it adds, with the
/// templates on the trail under expansion.
fn eval_item(
    node: &Node,
    local: &DefinitionMap,
    external: &DefinitionMap,
    arguments: Option<&Arguments>,
    trail: &Trail,
) -> (result: Result<Vec<Element>, Error>)
    ensures
        elements_result(result) == expand_item(
            node@,
            scope_of(arguments, local, external),
            trail.active(),
        ),
    decreases
            scope_of(arguments, local, external).unopened(trail.active()),
            node@,
            node@.children.len() + 2,
{
    let ghost scope = scope_of(arguments, local, external);
    proof {
        node.lemma_view();
        local.lemma_finite();
        external.lemma_finite();
    }
    match node.rule {
        Rule::Element => match construct_in(node, local, external, arguments, trail) {
            Ok(element) => {
                let mut elements: Vec<Element> = Vec::new();
                elements.push(element);
                proof {
                    assert(element_views(elements@) =~= seq![element@]);
                }
                Ok(elements)
            },
            Err(error) => Err(error),
        },
        Rule::String => match parse_string(node, local, external, arguments) {
            Ok(text) => {
                let mut elements: Vec<Element> = Vec::new();
                elements.push(Element::text(text));
                proof {
                    assert(element_views(elements@) =~= seq![text_element(text@)]);
                }
                Ok(elements)
            },
            Err(error) => Err(error),
        },
        Rule::ConstUse => match node.name() {
            Some(name) => match find_element(name, local, external) {
                Some(template) => if trail.has_element(name) {
                    Err(Error::CyclicDefinition { name: name.clone(), span: node.span })
                } else {
                    let inner = Trail::Element { name, outer: trail };
                    proof {
                        scope.lemma_open_element(trail.active(), name@);
                    }
                    eval_template(template.body, local, external, None, &inner)
                },
                None => match find_string(name, arguments, local, external) {
                    Some(text) => {
                        let mut elements: Vec<Element> = Vec::new();
                        elements.push(Element::text(text.clone()));
                        proof {
                            assert(element_views(elements@) =~= seq![text_element(text@)]);
                        }
                        Ok(elements)
                    },
                    None => Err(undefined_reference(name, node)),
                },
            },
            None => Err(unexpected_node(node)),
        },
        Rule::FuncUse => match node.name() {
            Some(name) => match find_function(name, local, external) {
                Some(function) => if trail.has_function(name) {
                    Err(Error::CyclicDefinition { name: name.clone(), span: node.span })
                } else {
                    match eval_arguments(node, local, external, arguments) {
                        Ok(values) => {
                            let bindings = function.bind(&values);
                            let inner = Trail::Function { name, outer: trail };
                            proof {
                                scope.lemma_open_function(trail.active(), name@);
                            }
                            eval_template(function.body, local, external, Some(&bindings), &inner)
                        },
                        Err(error) => Err(error),
                    }
                },
                None => Err(undefined_reference(name, node)),
            },
            None => Err(unexpected_node(node)),
        },
        _ => Err(unexpected_node(node)),
    }
}

/// Expands a template body, with the templates on the trail under expansion.
fn eval_template(
    body: &Node,
    local: &DefinitionMap,
    external: &DefinitionMap,
    arguments: Option<&Arguments>,
    trail: &Trail,
) -> (result: Result<Vec<Element>, Error>)
    ensures
        elements_result(result) == expand_template(
            body@,
            scope_of(arguments, local, external),
            trail.active(),
        ),
    decreases
            scope_of(arguments, local, external).unopened(trail.active()),
            body@,
            body@.children.len() + 3,
{
    let ghost scope = scope_of(arguments, local, external);
    let ghost active = trail.active();
    proof {
        body.lemma_view();
        local.lemma_finite();
        external.lemma_finite();
    }
    match body.rule {
        Rule::Body => {},
        _ => {
            return eval_item(body, local, external, arguments, trail);
        },
    }
    let mut elements: Vec<Element> = Vec::new();
    proof {
        assert(element_views(elements@) =~= Seq::empty());
    }
    let mut i: usize = 0;
    while i < body.children.len()
        invariant
            i <= body.children.len(),
            body.rule == Rule::Body,
            scope == scope_of(arguments, local, external),
            active == trail.active(),
            scope.finite(),
            body@.children.len() == body.children.len(),
            forall|j: int| 0 <= j < body.children.len() ==> body@.children[j] == body.children[j]@,
            expand_items(body@, scope, active, i as nat) == Ok::<Seq<ElementView>, ErrorView>(
                element_views(elements@),
            ),
        decreases body.children.len() - i,
    {
        match eval_item(&body.children[i], local, external, arguments, trail) {
            Ok(mut more) => {
                proof {
                    assert(element_views(elements@ + more@) =~= element_views(elements@)
                        + element_views(more@));
                }
                elements.append(&mut more);
            },
            Err(error) => {
                proof {
                    assert(expand_items(body@, scope, active, (i + 1) as nat) == Err::<
                        Seq<ElementView>,
                        ErrorView,
                    >(error@));
                    lemma_items_fail(body@, scope, active, (i + 1) as nat, body@.children.len());
                }
                return Err(error);
            },
        }
        i += 1;
    }
    Ok(elements)
}

/// Builds the element that a literal element node stands for, with the
/// templates on the trail under expansion.
fn construct_in(
    node: &Node,
    local: &DefinitionMap,
    external: &DefinitionMap,
    arguments: Option<&Arguments>,
    trail: &Trail,
) -> (result: Result<Element, Error>)
    ensures
        element_result(result) == build_element(
            node@,
            scope_of(arguments, local, external),
            trail.active(),
        ),
    decreases
            scope_of(arguments, local, external).unopened(trail.active()),
            node@,
            node@.children.len() + 1,
{
    let ghost scope = scope_of(arguments, local, external);
    let ghost active = trail.active();
    proof {
        node.lemma_view();
        local.lemma_finite();
        external.lemma_finite();
    }
    match node.rule {
        Rule::Element => {},
        _ => {
            return Err(unexpected_node(node));
        },
    }
    let tag = match node.name() {
        Some(name) => name.clone(),
        None => {
            return Err(unexpected_node(node));
        },
    };
    let mut attributes: Vec<Attribute> = Vec::new();
    let mut children: Vec<Element> = Vec::new();
    proof {
        assert(attribute_views(attributes@) =~= Seq::empty());
        assert(element_views(children@) =~= Seq::empty());
    }
    let mut i: usize = 1;
    while i < node.children.len()
        invariant
            1 <= i <= node.children.len(),
            node@.rule == Rule::Element,
            name_of(node@) == Some(tag@),
            scope == scope_of(arguments, local, external),
            active == trail.active(),
            scope.finite(),
            node@.children.len() == node.children.len(),
            forall|j: int| 0 <= j < node.children.len() ==> node@.children[j] == node.children[j]@,
            element_parts(node@, scope, active, i as nat) == Ok::<Parts, ErrorView>(
                Parts {
                    attributes: attribute_views(attributes@),
                    children: element_views(children@),
                },
            ),
        decreases node.children.len() - i,
    {
        let child = &node.children[i];
        proof {
            child.lemma_view();
        }
        match child.rule {
            Rule::Attribute => match eval_attribute(child, local, external, arguments) {
                Ok(attribute) => {
                    proof {
                        assert(attribute_views(attributes@.push(attribute)) =~= attribute_views(
                            attributes@,
                        ).push(attribute@));
                    }
                    attributes.push(attribute);
                },
                Err(error) => {
                    proof {
                        assert(element_parts(node@, scope, active, (i + 1) as nat) == Err::<
                            Parts,
                            ErrorView,
                        >(error@));
                        lemma_parts_fail(
                            node@,
                            scope,
                            active,
                            (i + 1) as nat,
                            node@.children.len(),
                        );
                    }
                    return Err(error);
                },
            },
            _ => match eval_item(child, local, external, arguments, trail) {
                Ok(mut more) => {
                    proof {
                        assert(element_views(children@ + more@) =~= element_views(children@)
                            + element_views(more@));
                    }
                    children.append(&mut more);
                },
                Err(error) => {
                    proof {
                        assert(element_parts(node@, scope, active, (i + 1) as nat) == Err::<
                            Parts,
                            ErrorView,
                        >(error@));
                        lemma_parts_fail(
                            node@,
                            scope,
                            active,
                            (i + 1) as nat,
                            node@.children.len(),
                        );
                    }
                    return Err(error);
                },
            },
        }
        i += 1;
    }
    let element = Element { tag, attributes, text: String::new(), children };
    proof {
        element.lemma_view();
    }
    Ok(element)
}

impl Element {
    /// Builds the concrete element that a literal element node stands for,
    /// with every reference in it resolved against the arguments and
    /// definitions given. No template is taken to be under expansion.
    pub fn construct(
        node: &Node,
        local: &DefinitionMap,
        external: &DefinitionMap,
        arguments: Option<&Arguments>,
    ) -> (result: Result<Element, Error>)
        ensures
            element_result(result) == build_element(
                node@,
                scope_of(arguments, local, external),
                Active::none(),
            ),
    {
        construct_in(node, local, external, arguments, &Trail::Top)
    }

    /// Evaluates a content item as a child of this element: what the item
    /// stands for is added behind the children that the element has. Where
    /// the item fails, the element stays as it is.
    pub fn eval_child(
        &mut self,
        node: &Node,
        local: &DefinitionMap,
        external: &DefinitionMap,
        arguments: Option<&Arguments>,
    ) -> (result: Result<(), Error>)
        ensures
            match expand_item(node@, scope_of(arguments, local, external), Active::none()) {
                Ok(more) => result is Ok && final(self)@ == (ElementView {
                    children: old(self)@.children + more,
                    ..old(self)@
                }),
                Err(error) => result is Err && result->Err_0@ == error && *final(self) == *old(self),
            },
    {
        match eval_item(node, local, external, arguments, &Trail::Top) {
            Ok(mut more) => {
                proof {
                    self.lemma_view();
                    assert(element_views(self.children@ + more@) =~= element_views(self.children@)
                        + element_views(more@));
                }
                self.children.append(&mut more);
                proof {
                    self.lemma_view();
                }
                Ok(())
            },
            Err(error) => Err(error),
        }
    }
}

impl<'a> ElementFactory<'a> {
    /// Expands the template into concrete elements, with every reference
    /// in its body resolved against the arguments and definitions given.
    /// The outcome depends on nothing but the models of those and of the
    /// body, and the template stays as it was.
    pub fn instantiate(
        &self,
        local: &DefinitionMap,
        external: &DefinitionMap,
        arguments: Option<&Arguments>,
    ) -> (result: Result<Vec<Element>, Error>)
        ensures
            elements_result(result) == expand_template(
                self@,
                scope_of(arguments, local, external),
                Active::none(),
            ),
    {
        eval_template(self.body, local, external, arguments, &Trail::Top)
    }
}

impl<'a> Function<'a> {
    /// Calls the function: its body is expanded with the parameters bound
    /// to the given values, and with nothing else of the caller's
    /// arguments in sight.
    pub fn call(&self, values: &Vec<String>, local: &DefinitionMap, external: &DefinitionMap) -> (result:
        Result<Vec<Element>, Error>)
        ensures
            elements_result(result) == expand_template(
                self@.body,
                scope_of(None, local, external).inside(bind(self@.parameters, texts(values@))),
                Active::none(),
            ),
    {
        let bindings = self.bind(values);
        eval_template(self.body, local, external, Some(&bindings), &Trail::Top)
    }
}

/// Expanding a template is repeatable: two templates of the same model,
/// expanded with arguments and definitions of the same models, give the
/// same elements or the same error.
pub proof fn lemma_instantiation_repeatable(
    first: ElementFactory,
    second: ElementFactory,
    first_local: &DefinitionMap,
    second_local: &DefinitionMap,
    first_external: &DefinitionMap,
    second_external: &DefinitionMap,
    first_arguments: Option<&Arguments>,
    second_arguments: Option<&Arguments>,
)
    requires
        first@ == second@,
        first_local@ == second_local@,
        first_external@ == second_external@,
        arguments_view(first_arguments) == arguments_view(second_arguments),
    ensures
        expand_template(
            first@,
            scope_of(first_arguments, first_local, first_external),
            Active::none(),
        ) == expand_template(
            second@,
            scope_of(second_arguments, second_local, second_external),
            Active::none(),
        ),
{
}

/// A use of an element template that is being expanded fails as cyclic,
/// at the node that uses it.
pub proof fn lemma_use_of_open_template_is_cyclic(
    node: NodeView,
    scope: Scope,
    active: Active,
    name: Seq<char>,
)
    requires
        scope.finite(),
        node.rule == Rule::ConstUse,
        name_of(node) == Some(name),
        scope.element(name) is Some,
        active.elements.contains(name),
    ensures
        expand_item(node, scope, active) == Err::<Seq<ElementView>, ErrorView>(cyclic(name, node)),
{
}

/// Two element templates that use each other cannot be expanded. Let the
/// template `outer` use the template `inner` at the child `at_outer` of its
/// body, and `inner` use `outer` at the child `at_inner` of its body, and
/// let the children before those two expand without error. Then a use of
/// `outer` fails as cyclic, at the node in `inner` that closes the cycle.
pub proof fn lemma_mutual_use_is_cyclic(
    node: NodeView,
    scope: Scope,
    active: Active,
    outer: Seq<char>,
    inner: Seq<char>,
    at_outer: nat,
    at_inner: nat,
)
    requires
        scope.finite(),
        node.rule == Rule::ConstUse,
        name_of(node) == Some(outer),
        scope.element(outer) is Some,
        scope.element(inner) is Some,
        outer != inner,
        !active.elements.contains(outer),
        !active.elements.contains(inner),
        scope.element(outer)->0.rule == Rule::Body,
        at_outer < scope.element(outer)->0.children.len(),
        scope.element(outer)->0.children[at_outer as int].rule == Rule::ConstUse,
        name_of(scope.element(outer)->0.children[at_outer as int]) == Some(inner),
        scope.element(inner)->0.rule == Rule::Body,
        at_inner < scope.element(inner)->0.children.len(),
        scope.element(inner)->0.children[at_inner as int].rule == Rule::ConstUse,
        name_of(scope.element(inner)->0.children[at_inner as int]) == Some(outer),
        expand_items(
            scope.element(outer)->0,
            scope.inside(Map::empty()),
            active.with_element(outer),
            at_outer,
        ) is Ok,
        expand_items(
            scope.element(inner)->0,
            scope.inside(Map::empty()),
            active.with_element(outer).with_element(inner),
            at_inner,
        ) is Ok,
    ensures
        expand_item(node, scope, active) == Err::<Seq<ElementView>, ErrorView>(
            cyclic(outer, scope.element(inner)->0.children[at_inner as int]),
        ),
{
    let outer_body = scope.element(outer)->0;
    let inner_body = scope.element(inner)->0;
    let within = scope.inside(Map::empty());
    let first = active.with_element(outer);
    let second = first.with_element(inner);
    let closing = inner_body.children[at_inner as int];
    let failure = Err::<Seq<ElementView>, ErrorView>(cyclic(outer, closing));
    assert(within.element(outer) == scope.element(outer));
    assert(within.element(inner) == scope.element(inner));
    assert(expand_item(closing, within, second) == failure);
    assert(expand_items(inner_body, within, second, at_inner + 1) == failure);
    lemma_items_fail(inner_body, within, second, at_inner + 1, inner_body.children.len());
    assert(expand_template(inner_body, within, second) == failure);
    assert(expand_item(outer_body.children[at_outer as int], within, first) == failure);
    assert(expand_items(outer_body, within, first, at_outer + 1) == failure);
    lemma_items_fail(outer_body, within, first, at_outer + 1, outer_body.children.len());
    assert(expand_template(outer_body, within, first) == failure);
}

/// Children that are literal elements expand one for one: where the first
/// `count` children of a node are literal elements and expand without
/// error, they give `count` elements, each the element that its node
/// stands for.
pub proof fn lemma_literal_items(node: NodeView, scope: Scope, active: Active, count: nat)
    requires
        scope.finite(),
        count <= node.children.len(),
        forall|k: int| 0 <= k < count ==> (#[trigger] node.children[k]).rule == Rule::Element,
        expand_items(node, scope, active, count) is Ok,
    ensures
        expand_items(node, scope, active, count)->Ok_0.len() == count,
        forall|k: int|
            0 <= k < count ==> build_element(#[trigger] node.children[k], scope, active) == Ok::<
                ElementView,
                ErrorView,
            >(expand_items(node, scope, active, count)->Ok_0[k]),
    decreases count,
{
    if count > 0 {
        let front = (count - 1) as nat;
        lemma_literal_items(node, scope, active, front);
        let last = node.children[count - 1];
        assert(last.rule == Rule::Element);
        assert(expand_item(last, scope, active) is Ok);
        assert(build_element(last, scope, active) is Ok);
    }
}

} // verus!
