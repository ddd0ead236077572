//! The tagged parse tree that the passes consume.

use vstd::prelude::*;

verus! {

/// A half-open range of byte offsets into the source text.
#[derive(Clone, Copy, Debug, PartialEq, Eq, Structural)]
pub struct Span {
    pub start: usize,
    pub end: usize,
}

/// The kind of a parse-tree node.
#[derive(Clone, Copy, Debug, PartialEq, Eq, Structural)]
pub enum Rule {
    /// Declares a string constant: a name, then a string expression.
    StringConstDef,
    /// Declares an element template: a name, then a body.
    ElementConstDef,
    /// Declares a function: a name, then a parameter list, then a body.
    FuncDef,
    /// A literal element: a tag name, then attributes and content items.
    Element,
    /// A reference to an element or string constant: a name.
    ConstUse,
    /// A function invocation: a name, then an argument list.
    FuncUse,
    /// The end-of-input marker.
    EOI,
    /// An identifier; its text is the name.
    Name,
    /// A string expression; its children are literal and reference segments.
    String,
    /// A literal segment of a string expression; its text is taken over as it is.
    Literal,
    /// A reference segment of a string expression: the name of a string constant.
    Reference,
    /// An attribute of an element: a name, then a string expression.
    Attribute,
    /// The parameter list of a function definition; the texts of its children
    /// are the parameter names.
    Parameters,
    /// The argument list of a function invocation; its children are string
    /// expressions.
    Arguments,
    /// The body of an element template or of a function; its children are
    /// content items.
    Body,
}

/// A node of the parse tree.
#[derive(Debug, PartialEq, Eq)]
pub struct Node {
    pub rule: Rule,
    pub text: String,
    pub span: Span,
    pub children: Vec<Node>,
}

/// The mathematical model of a [`Node`].
pub struct NodeView {
    pub rule: Rule,
    pub text: Seq<char>,
    pub span: Span,
    pub children: Seq<NodeView>,
}

/// The model of a node: its own parts, and the models of its children.
pub open spec fn node_view(node: Node) -> NodeView
    decreases node,
{
    NodeView {
        rule: node.rule,
        text: node.text@,
        span: node.span,
        children: Seq::new(
            node.children.len() as nat,
            |i: int|
                if 0 <= i < node.children.len() {
                    node_view(node.children[i])
                } else {
                    arbitrary()
                },
        ),
    }
}

impl View for Node {
    type V = NodeView;

    open spec fn view(&self) -> NodeView {
        node_view(*self)
    }
}

/// The models of a sequence of nodes, in order.
pub open spec fn node_views(nodes: Seq<Node>) -> Seq<NodeView> {
    Seq::new(nodes.len(), |i: int| nodes[i]@)
}

/// The name that a node declares or refers to: the text of its first child,
/// where that child is a [`Rule::Name`].
pub open spec fn name_of(node: NodeView) -> Option<Seq<char>> {
    if node.children.len() > 0 && node.children[0].rule == Rule::Name {
        Some(node.children[0].text)
    } else {
        None
    }
}

impl Node {
    /// The model of a node is made of the models of its children.
    pub proof fn lemma_view(&self)
        ensures
            self@.rule == self.rule,
            self@.text == self.text@,
            self@.span == self.span,
            self@.children.len() == self.children.len(),
            forall|i: int| 0 <= i < self.children.len() ==> self@.children[i] == self.children[i]@,
    {
    }

    /// A node with the given parts.
    pub fn new(rule: Rule, text: String, span: Span, children: Vec<Node>) -> (node: Node)
        ensures
            node.rule == rule,
            node.text == text,
            node.span == span,
            node.children == children,
    {
        Node { rule, text, span, children }
    }

    /// The name that the node declares or refers to, if its first child is one.
    pub fn name(&self) -> (name: Option<&String>)
        ensures
            match name {
                Some(n) => name_of(self@) == Some(n@),
                None => name_of(self@) is None,
            },
    {
        if self.children.len() > 0 {
            let first = &self.children[0];
            proof {
                first.lemma_view();
            }
            match first.rule {
                Rule::Name => Some(&first.text),
                _ => None,
            }
        } else {
            None
        }
    }

}

impl Clone for Node {
    /// A deep copy of the node.
    fn clone(&self) -> (copy: Node)
        ensures
            copy@ == self@,
        decreases self,
    {
        let mut children: Vec<Node> = Vec::new();
        let mut i: usize = 0;
        while i < self.children.len()
            invariant
                i <= self.children.len(),
                children.len() == i,
                forall|j: int| 0 <= j < i ==> children[j]@ == self.children[j]@,
            decreases self.children.len() - i,
        {
            let child = self.children[i].clone();
            children.push(child);
            i += 1;
        }
        let copy = Node { rule: self.rule, text: self.text.clone(), span: self.span, children };
        assert(copy@.children =~= self@.children);
        copy
    }
}

} // verus!
