//! Functions: templates with named parameters.

use vstd::prelude::*;
use crate::parser::table::{bound, Table};
use crate::parser::tree::{Node, NodeView};

verus! {

/// The values that the parameters of one call are bound to. They are made
/// for that call and seen by nothing else.
pub type Arguments = Table<String>;

/// A parameterized template: the parameter names in order, and the body
/// that is expanded at each call.
#[derive(Clone, Debug, PartialEq, Eq)]
pub struct Function<'a> {
    pub parameters: Vec<String>,
    pub body: &'a Node,
}

/// The mathematical model of a [`Function`].
pub struct FunctionView {
    pub parameters: Seq<Seq<char>>,
    pub body: NodeView,
}

/// The models of a sequence of strings, in order.
pub open spec fn texts(strings: Seq<String>) -> Seq<Seq<char>> {
    Seq::new(strings.len(), |i: int| strings[i]@)
}

impl<'a> View for Function<'a> {
    type V = FunctionView;

    open spec fn view(&self) -> FunctionView {
        FunctionView { parameters: texts(self.parameters@), body: self.body@ }
    }
}

/// The first `count` parameters, each paired with the value at its position.
pub open spec fn paired(parameters: Seq<Seq<char>>, values: Seq<Seq<char>>, count: nat) -> Seq<
    (Seq<char>, Seq<char>),
> {
    Seq::new(count, |i: int| (parameters[i], values[i]))
}

/// The bindings of one call: each parameter is bound to the value at its
/// position. A parameter without a value stays unbound, a value without a
/// parameter is dropped, and of two parameters of one name the later one
/// counts.
pub open spec fn bind(parameters: Seq<Seq<char>>, values: Seq<Seq<char>>) -> Map<
    Seq<char>,
    Seq<char>,
> {
    bound(
        paired(
            parameters,
            values,
            if parameters.len() <= values.len() {
                parameters.len()
            } else {
                values.len()
            },
        ),
    )
}

impl<'a> Function<'a> {
    /// Binds the parameters to the values of one call.
    pub fn bind(&self, values: &Vec<String>) -> (arguments: Arguments)
        ensures
            arguments@ == bind(self@.parameters, texts(values@)),
    {
        let count = if self.parameters.len() <= values.len() {
            self.parameters.len()
        } else {
            values.len()
        };
        let mut arguments: Arguments = Table::new();
        let mut i: usize = 0;
        while i < count
            invariant
                i <= count,
                count <= self.parameters.len(),
                count <= values.len(),
                arguments@ == bound(paired(self@.parameters, texts(values@), i as nat)),
            decreases count - i,
        {
            arguments.insert(self.parameters[i].clone(), values[i].clone());
            proof {
                let next = paired(self@.parameters, texts(values@), (i + 1) as nat);
                assert(next.drop_last() =~= paired(self@.parameters, texts(values@), i as nat));
            }
            i += 1;
        }
        arguments
    }
}

} // verus!
