//! What a name stands for at a place in a document.

use vstd::prelude::*;
use crate::parser::element::ElementFactory;
use crate::parser::function::{Arguments, Function, FunctionView};
use crate::parser::tree::NodeView;
use crate::parser::{DefinitionMap, DefinitionsView};

verus! {

/// The bindings that are visible at a place: the arguments of the call that
/// is being expanded, the definitions of the document itself, and those
/// that it was given from elsewhere.
pub struct Scope {
    pub arguments: Map<Seq<char>, Seq<char>>,
    pub local: DefinitionsView,
    pub external: DefinitionsView,
}

impl Scope {
    /// The string that `name` stands for: an argument first, then a string
    /// constant of the document, then one given from elsewhere.
    pub open spec fn string(self, name: Seq<char>) -> Option<Seq<char>> {
        if self.arguments.contains_key(name) {
            Some(self.arguments[name])
        } else if self.local.strings.contains_key(name) {
            Some(self.local.strings[name])
        } else if self.external.strings.contains_key(name) {
            Some(self.external.strings[name])
        } else {
            None
        }
    }

    /// The body of the element template that `name` stands for: one of the
    /// document first, then one given from elsewhere.
    pub open spec fn element(self, name: Seq<char>) -> Option<NodeView> {
        if self.local.elements.contains_key(name) {
            Some(self.local.elements[name])
        } else if self.external.elements.contains_key(name) {
            Some(self.external.elements[name])
        } else {
            None
        }
    }

    /// The function that `name` stands for: one of the document first, then
    /// one given from elsewhere.
    pub open spec fn function(self, name: Seq<char>) -> Option<FunctionView> {
        if self.local.functions.contains_key(name) {
            Some(self.local.functions[name])
        } else if self.external.functions.contains_key(name) {
            Some(self.external.functions[name])
        } else {
            None
        }
    }

    /// The same definitions, seen from inside a call with the given arguments.
    pub open spec fn inside(self, arguments: Map<Seq<char>, Seq<char>>) -> Scope {
        Scope { arguments, ..self }
    }

    /// Both sets of definitions are finite.
    pub open spec fn finite(self) -> bool {
        self.local.finite() && self.external.finite()
    }

    /// The number of templates that are not being expanded.
    pub open spec fn unopened(self, active: Active) -> nat {
        (self.local.elements.dom() + self.external.elements.dom()).difference(
            active.elements,
        ).len() + (self.local.functions.dom() + self.external.functions.dom()).difference(
            active.functions,
        ).len()
    }

    /// Starting to expand an element template leaves fewer templates unopened.
    pub proof fn lemma_open_element(self, active: Active, name: Seq<char>)
        requires
            self.finite(),
            self.element(name) is Some,
            !active.elements.contains(name),
        ensures
            self.unopened(active.with_element(name)) < self.unopened(active),
    {
        let all = self.local.elements.dom() + self.external.elements.dom();
        assert(all.difference(active.with_element(name).elements) =~= all.difference(
            active.elements,
        ).remove(name));
    }

    /// Starting to expand a function leaves fewer templates unopened.
    pub proof fn lemma_open_function(self, active: Active, name: Seq<char>)
        requires
            self.finite(),
            self.function(name) is Some,
            !active.functions.contains(name),
        ensures
            self.unopened(active.with_function(name)) < self.unopened(active),
    {
        let all = self.local.functions.dom() + self.external.functions.dom();
        assert(all.difference(active.with_function(name).functions) =~= all.difference(
            active.functions,
        ).remove(name));
    }
}

/// A definition of the document hides an external definition of the same
/// category and name. Among strings this holds of every name that is not an
/// argument of the call that is being expanded: an argument hides both.
pub proof fn lemma_local_shadows_external(scope: Scope, name: Seq<char>)
    ensures
        scope.local.elements.contains_key(name) ==> scope.element(name) == Some(
            scope.local.elements[name],
        ),
        scope.local.functions.contains_key(name) ==> scope.function(name) == Some(
            scope.local.functions[name],
        ),
        scope.local.strings.contains_key(name) && !scope.arguments.contains_key(name)
            ==> scope.string(name) == Some(scope.local.strings[name]),
{
}

/// The templates that are being expanded at a place, by name.
pub struct Active {
    pub elements: Set<Seq<char>>,
    pub functions: Set<Seq<char>>,
}

impl Active {
    /// No template is being expanded.
    pub open spec fn none() -> Active {
        Active { elements: Set::empty(), functions: Set::empty() }
    }

    /// The element template `name` is being expanded as well.
    pub open spec fn with_element(self, name: Seq<char>) -> Active {
        Active { elements: self.elements.insert(name), ..self }
    }

    /// The function `name` is being expanded as well.
    pub open spec fn with_function(self, name: Seq<char>) -> Active {
        Active { functions: self.functions.insert(name), ..self }
    }
}

/// The model of the arguments of a call, where there is a call.
pub open spec fn arguments_view(arguments: Option<&Arguments>) -> Map<Seq<char>, Seq<char>> {
    match arguments {
        Some(arguments) => arguments@,
        None => Map::empty(),
    }
}

/// The scope that is made of the given arguments and definitions.
pub open spec fn scope_of(
    arguments: Option<&Arguments>,
    local: &DefinitionMap,
    external: &DefinitionMap,
) -> Scope {
    Scope { arguments: arguments_view(arguments), local: local@, external: external@ }
}

/// The string that `name` stands for, if it stands for one.
pub fn find_string<'a>(
    name: &String,
    arguments: Option<&'a Arguments>,
    local: &'a DefinitionMap,
    external: &'a DefinitionMap,
) -> (found: Option<&'a String>)
    ensures
        match found {
            Some(text) => scope_of(arguments, local, external).string(name@) == Some(text@),
            None => scope_of(arguments, local, external).string(name@) is None,
        },
{
    if let Some(arguments) = arguments {
        if let Some(text) = arguments.get(name) {
            return Some(text);
        }
    }
    if let Some(text) = local.strings.get(name) {
        return Some(text);
    }
    external.strings.get(name)
}

/// The element template that `name` stands for, if it stands for one.
pub fn find_element<'a, 'b>(
    name: &String,
    local: &'a DefinitionMap<'b>,
    external: &'a DefinitionMap<'b>,
) -> (found: Option<&'a ElementFactory<'b>>)
    ensures
        match found {
            Some(template) => scope_of(None, local, external).element(name@) == Some(template@),
            None => scope_of(None, local, external).element(name@) is None,
        },
{
    if let Some(template) = local.elements.get(name) {
        return Some(template);
    }
    external.elements.get(name)
}

/// The function that `name` stands for, if it stands for one.
pub fn find_function<'a, 'b>(
    name: &String,
    local: &'a DefinitionMap<'b>,
    external: &'a DefinitionMap<'b>,
) -> (found: Option<&'a Function<'b>>)
    ensures
        match found {
            Some(function) => scope_of(None, local, external).function(name@) == Some(function@),
            None => scope_of(None, local, external).function(name@) is None,
        },
{
    if let Some(function) = local.functions.get(name) {
        return Some(function);
    }
    external.functions.get(name)
}

/// The templates that are being expanded at a place, innermost first.
pub enum Trail<'a> {
    /// No template is being expanded.
    Top,
    /// The element template `name` is being expanded inside `outer`.
    Element { name: &'a String, outer: &'a Trail<'a> },
    /// The function `name` is being expanded inside `outer`.
    Function { name: &'a String, outer: &'a Trail<'a> },
}

impl<'a> Trail<'a> {
    /// The templates on the trail, by name.
    pub open spec fn active(&self) -> Active
        decreases self,
    {
        match *self {
            Trail::Top => Active::none(),
            Trail::Element { name, outer } => outer.active().with_element(name@),
            Trail::Function { name, outer } => outer.active().with_function(name@),
        }
    }

    /// Whether the element template `name` is being expanded.
    pub fn has_element(&self, name: &String) -> (found: bool)
        ensures
            found == self.active().elements.contains(name@),
        decreases self,
    {
        match self {
            Trail::Top => false,
            Trail::Element { name: inner, outer } => **inner == *name || outer.has_element(name),
            Trail::Function { outer, .. } => outer.has_element(name),
        }
    }

    /// Whether the function `name` is being expanded.
    pub fn has_function(&self, name: &String) -> (found: bool)
        ensures
            found == self.active().functions.contains(name@),
        decreases self,
    {
        match self {
            Trail::Top => false,
            Trail::Element { outer, .. } => outer.has_function(name),
            Trail::Function { name: inner, outer } => **inner == *name || outer.has_function(name),
        }
    }
}

} // verus!
