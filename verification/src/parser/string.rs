//! String expressions and their values.

use vstd::prelude::*;
use vstd::string::StringExecFns;
use crate::parser::error::{undefined, unexpected, Error, ErrorView};
use crate::parser::function::Arguments;
use crate::parser::scope::{find_string, scope_of, Scope};
use crate::parser::tree::{name_of, Node, NodeView, Rule};
use crate::parser::DefinitionMap;

verus! {

/// The text of one segment of a string expression. A literal stands for its
/// own text; a reference stands for the string that its name is bound to,
/// and fails where the name is bound to none.
pub open spec fn resolve_segment(segment: NodeView, scope: Scope) -> Result<Seq<char>, ErrorView> {
    match segment.rule {
        Rule::Literal => Ok(segment.text),
        Rule::Reference => match name_of(segment) {
            Some(name) => match scope.string(name) {
                Some(text) => Ok(text),
                None => Err(undefined(name, segment)),
            },
            None => Err(unexpected(segment)),
        },
        _ => Err(unexpected(segment)),
    }
}

/// The texts of the first `count` segments, one after the other with
/// nothing between them; or the error of the first segment that fails.
pub open spec fn resolve_segments(segments: Seq<NodeView>, scope: Scope, count: nat) -> Result<
    Seq<char>,
    ErrorView,
>
    decreases count,
{
    if count == 0 {
        Ok(Seq::empty())
    } else {
        match resolve_segments(segments, scope, (count - 1) as nat) {
            Ok(front) => match resolve_segment(segments[count - 1], scope) {
                Ok(text) => Ok(front + text),
                Err(error) => Err(error),
            },
            Err(error) => Err(error),
        }
    }
}

/// The value of a string expression.
pub open spec fn resolve_string(node: NodeView, scope: Scope) -> Result<Seq<char>, ErrorView> {
    if node.rule == Rule::String {
        resolve_segments(node.children, scope, node.children.len())
    } else {
        Err(unexpected(node))
    }
}

/// The model of a text, or of the error in its place.
pub open spec fn text_result(result: Result<String, Error>) -> Result<Seq<char>, ErrorView> {
    match result {
        Ok(text) => Ok(text@),
        Err(error) => Err(error@),
    }
}

/// The error for a node that its place does not allow.
pub fn unexpected_node(node: &Node) -> (error: Error)
    ensures
        error@ == unexpected(node@),
{
    Error::UnexpectedNode { rule: node.rule, span: node.span }
}

/// The error for a name that nothing defines, used at `node`.
pub fn undefined_reference(name: &String, node: &Node) -> (error: Error)
    ensures
        error@ == undefined(name@, node@),
{
    Error::UndefinedReference { name: name.clone(), span: node.span }
}

/// Evaluates one segment of a string expression.
fn parse_segment<'a>(
    segment: &'a Node,
    local: &'a DefinitionMap,
    external: &'a DefinitionMap,
    arguments: Option<&'a Arguments>,
) -> (result: Result<&'a String, Error>)
    ensures
        match result {
            Ok(text) => resolve_segment(segment@, scope_of(arguments, local, external)) == Ok::<
                Seq<char>,
                ErrorView,
            >(text@),
            Err(error) => resolve_segment(segment@, scope_of(arguments, local, external)) == Err::<
                Seq<char>,
                ErrorView,
            >(error@),
        },
{
    match segment.rule {
        Rule::Literal => Ok(&segment.text),
        Rule::Reference => match segment.name() {
            Some(name) => match find_string(name, arguments, local, external) {
                Some(text) => Ok(text),
                None => Err(undefined_reference(name, segment)),
            },
            None => Err(unexpected_node(segment)),
        },
        _ => Err(unexpected_node(segment)),
    }
}

/// Evaluates a string expression: the literal segments as they are, each
/// reference replaced by the string that its name stands for among the
/// arguments and definitions given.
pub fn parse_string(
    node: &Node,
    local: &DefinitionMap,
    external: &DefinitionMap,
    arguments: Option<&Arguments>,
) -> (result: Result<String, Error>)
    ensures
        text_result(result) == resolve_string(node@, scope_of(arguments, local, external)),
{
    match node.rule {
        Rule::String => {},
        _ => {
            return Err(unexpected_node(node));
        },
    }
    let ghost scope = scope_of(arguments, local, external);
    let mut text = String::new();
    let mut i: usize = 0;
    while i < node.children.len()
        invariant
            i <= node.children.len(),
            node.rule == Rule::String,
            scope == scope_of(arguments, local, external),
            resolve_segments(node@.children, scope, i as nat) == Ok::<Seq<char>, ErrorView>(text@),
        decreases node.children.len() - i,
    {
        match parse_segment(&node.children[i], local, external, arguments) {
            Ok(segment) => text.append(segment.as_str()),
            Err(error) => {
                proof {
                    node.lemma_view();
                    assert(resolve_segments(node@.children, scope, (i + 1) as nat) == Err::<
                        Seq<char>,
                        ErrorView,
                    >(error@));
                    lemma_segments_fail(node@.children, scope, (i + 1) as nat, node@.children.len());
                }
                return Err(error);
            },
        }
        i += 1;
    }
    Ok(text)
}

/// Once the segments up to some place fail, so do the segments up to any
/// later place, with the same error.
pub proof fn lemma_segments_fail(segments: Seq<NodeView>, scope: Scope, failed: nat, count: nat)
    requires
        failed <= count,
        resolve_segments(segments, scope, failed) is Err,
    ensures
        resolve_segments(segments, scope, count) == resolve_segments(segments, scope, failed),
    decreases count,
{
    if failed < count {
        lemma_segments_fail(segments, scope, failed, (count - 1) as nat);
    }
}

/// A reference to a string constant that the document defines stands for
/// the value that the document gives it, whatever an external definition
/// of the same name holds, unless an argument of the call that is being
/// expanded has that name.
pub proof fn lemma_reference_prefers_local(segment: NodeView, scope: Scope, name: Seq<char>)
    requires
        segment.rule == Rule::Reference,
        name_of(segment) == Some(name),
        scope.local.strings.contains_key(name),
        !scope.arguments.contains_key(name),
    ensures
        resolve_segment(segment, scope) == Ok::<Seq<char>, ErrorView>(scope.local.strings[name]),
{
}

} // verus!
