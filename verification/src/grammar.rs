//! The grammar provider: the parser and the pattern matcher of an outside
//! library, and what this library believes of them.
//!
//! The provider is asked with a pattern and a text, and answers with the
//! matches of the pattern in the text. What it answers is given a name;
//! nothing is believed of it but that the same pattern and text have the
//! same answer. Every span in an answer is checked against the text before
//! it is used.

use streaming_iterator::StreamingIterator;
use tree_sitter::{Parser, Query, QueryCursor, Range};
use tree_sitter_c::LANGUAGE;
use vstd::prelude::*;
use crate::anchor::{declarations_found, declarations_found_result, Declaration};
use crate::error::Error;
use crate::extractor::{invocations_found, invocations_result};
use crate::span::{invocation_views, matches_seq, CaptureNumbers, Invocation, Match, SyntaxSpan};

verus! {

/// The pattern of an invocation of a plain name. It captures the name, the
/// argument list and the whole.
pub const INVOCATION_PATTERN: &'static str = "(call_expression (identifier) @id (argument_list) @args) @call";

/// The pattern of an argument: a named child of an argument list. It
/// captures the child and the list.
pub const ARGUMENT_PATTERN: &'static str = "(argument_list (_) @key) @list";

/// The pattern of a declaration at the top level of a source file.
pub const DECLARATION_PATTERN: &'static str = "(translation_unit (declaration) @decl)";

/// The pattern of a declarator: a child that the grammar gives the field
/// `declarator`. It captures the child and the node that holds it.
pub const DECLARATOR_PATTERN: &'static str = "(_ declarator: (_) @inner) @outer";

/// What the provider answers when it is asked for the matches of `pattern`
/// in `text`: for each match, in the order in which the matches come, the
/// number and the span of each capture; or nothing, where it refuses the
/// pattern or gives no tree.
pub uninterp spec fn provider_matches(pattern: Seq<char>, text: Seq<char>) -> Option<
    Seq<Seq<(u32, SyntaxSpan)>>,
>;

/// The number under which the matches of `pattern` list the capture called
/// `name`, where the provider takes the pattern and the pattern has a
/// capture of that name.
pub uninterp spec fn provider_capture(pattern: Seq<char>, name: Seq<char>) -> Option<u32>;

/// The matches that an answer holds.
pub open spec fn matches_view(found: Option<Vec<Vec<(u32, SyntaxSpan)>>>) -> Option<
    Seq<Seq<(u32, SyntaxSpan)>>,
> {
    match found {
        Some(found) => Some(matches_seq(found)),
        None => None,
    }
}

/// Asks the provider for the matches of `pattern` in `text`. The grammar of
/// C (`tree_sitter_c::LANGUAGE`) is given to a new `tree_sitter::Parser` and
/// to `tree_sitter::Query::new` with the pattern; the text is parsed whole
/// (`Parser::parse`); the matches from the root (`QueryCursor::matches`) are
/// walked with `streaming_iterator::StreamingIterator::next` until it gives
/// nothing, and of each capture the number and `Node::range` are kept. The
/// contract gives the answer a name and claims nothing else of it.
#[verifier::external_body]
fn find_matches(pattern: &str, text: &str) -> (found: Option<Vec<Vec<(u32, SyntaxSpan)>>>)
    ensures
        matches_view(found) == provider_matches(pattern@, text@),
{
    let language = LANGUAGE.into();
    let mut parser = Parser::new();
    parser.set_language(&language).ok()?;
    let query = Query::new(&language, pattern).ok()?;
    let tree = parser.parse(text, None)?;
    let mut cursor = QueryCursor::new();
    let mut matches = cursor.matches(&query, tree.root_node(), text.as_bytes());
    let mut found = Vec::new();
    let span = |r: Range| SyntaxSpan::new(r.start_byte, r.end_byte, r.start_point.row, r.start_point.column);
    while let Some(m) = matches.next() {
        found.push(m.captures().iter().map(|c| (c.index, span(c.node.range()))).collect());
    }
    Some(found)
}

/// `tree_sitter::Query::capture_index_for_name` on the query that
/// `tree_sitter::Query::new` makes of `pattern` for the grammar of C. The
/// contract gives the number a name and claims nothing else of it.
#[verifier::external_body]
fn capture_number(pattern: &str, name: &str) -> (number: Option<u32>)
    ensures
        number == provider_capture(pattern@, name@),
{
    let language = LANGUAGE.into();
    Query::new(&language, pattern).ok()?.capture_index_for_name(name)
}

/// The numbers that the provider gives to the captures of the four
/// patterns; none at all where it refuses a pattern or knows a capture by no
/// number.
pub open spec fn capture_numbers_result() -> Result<CaptureNumbers, Error> {
    let id = provider_capture(INVOCATION_PATTERN@, "id"@);
    let args = provider_capture(INVOCATION_PATTERN@, "args"@);
    let call = provider_capture(INVOCATION_PATTERN@, "call"@);
    let list = provider_capture(ARGUMENT_PATTERN@, "list"@);
    let key = provider_capture(ARGUMENT_PATTERN@, "key"@);
    let decl = provider_capture(DECLARATION_PATTERN@, "decl"@);
    let outer = provider_capture(DECLARATOR_PATTERN@, "outer"@);
    let inner = provider_capture(DECLARATOR_PATTERN@, "inner"@);
    if id is Some && args is Some && call is Some && list is Some && key is Some && decl is Some
        && outer is Some && inner is Some {
        Ok(
            CaptureNumbers {
                id: id->0,
                args: args->0,
                call: call->0,
                list: list->0,
                key: key->0,
                decl: decl->0,
                outer: outer->0,
                inner: inner->0,
            },
        )
    } else {
        Err(Error::Grammar)
    }
}

/// The numbers of the captures, where the provider gives them.
pub open spec fn capture_numbers() -> CaptureNumbers {
    capture_numbers_result()->Ok_0
}

/// The invocations of plain names in `text`, each with its arguments: what
/// [`invocations_result`] makes of the provider's matches of the
/// invocation pattern and of the argument pattern; a failure of the
/// provider where it answers either with nothing.
pub open spec fn invocations_in(text: Seq<char>) -> Result<Seq<(Match, Seq<SyntaxSpan>)>, Error> {
    match (provider_matches(INVOCATION_PATTERN@, text), provider_matches(ARGUMENT_PATTERN@, text)) {
        (Some(calls), Some(children)) => invocations_result(calls, children, capture_numbers()),
        _ => Err(Error::Grammar),
    }
}

/// The declarations at the top level of `text` that have a declarator, each
/// with its name: what [`declarations_found_result`] makes of the
/// provider's matches of the declaration pattern and of the declarator
/// pattern; a failure of the provider where it answers either with nothing.
pub open spec fn declarations_in(text: Seq<char>) -> Result<Seq<Declaration>, Error> {
    match (
        provider_matches(DECLARATION_PATTERN@, text),
        provider_matches(DECLARATOR_PATTERN@, text),
    ) {
        (Some(found), Some(links)) => declarations_found_result(found, links, capture_numbers()),
        _ => Err(Error::Grammar),
    }
}

/// The grammar provider for C, ready to be asked: the numbers of the
/// captures of the four patterns are known.
pub struct Grammar {
    numbers: CaptureNumbers,
}

impl Grammar {
    #[verifier::type_invariant]
    spec fn inv(self) -> bool {
        capture_numbers_result() == Ok::<CaptureNumbers, Error>(self.numbers)
    }

    /// Sets the provider up: asks it for the number of every capture of the
    /// four patterns. That fails exactly where it knows one of them by no
    /// number.
    pub fn new() -> (r: Result<Grammar, Error>)
        ensures
            r is Ok <==> capture_numbers_result() is Ok,
            r matches Err(e) ==> e == Error::Grammar,
    {
        let id = capture_number(INVOCATION_PATTERN, "id");
        let args = capture_number(INVOCATION_PATTERN, "args");
        let call = capture_number(INVOCATION_PATTERN, "call");
        let list = capture_number(ARGUMENT_PATTERN, "list");
        let key = capture_number(ARGUMENT_PATTERN, "key");
        let decl = capture_number(DECLARATION_PATTERN, "decl");
        let outer = capture_number(DECLARATOR_PATTERN, "outer");
        let inner = capture_number(DECLARATOR_PATTERN, "inner");
        match (id, args, call, list, key, decl, outer, inner) {
            (
                Some(id),
                Some(args),
                Some(call),
                Some(list),
                Some(key),
                Some(decl),
                Some(outer),
                Some(inner),
            ) => Ok(
                Grammar { numbers: CaptureNumbers { id, args, call, list, key, decl, outer, inner } },
            ),
            _ => Err(Error::Grammar),
        }
    }

    /// The numbers of the captures.
    pub fn numbers(&self) -> (n: CaptureNumbers)
        ensures
            capture_numbers_result() == Ok::<CaptureNumbers, Error>(n),
    {
        proof {
            use_type_invariant(self);
        }
        self.numbers
    }

    /// The declarations at the top level of `text` that have a declarator,
    /// in the order in which the provider finds them, each with the span of
    /// its innermost declarator.
    pub fn declarations(&self, text: &str) -> (r: Result<Vec<Declaration>, Error>)
        ensures
            r matches Ok(found) ==> declarations_in(text@) == Ok::<Seq<Declaration>, Error>(found@),
            r matches Err(e) ==> declarations_in(text@) == Err::<Seq<Declaration>, Error>(e),
    {
        let n = self.numbers();
        let found = find_matches(DECLARATION_PATTERN, text);
        let links = find_matches(DECLARATOR_PATTERN, text);
        match (found, links) {
            (Some(found), Some(links)) => declarations_found(&found, &links, &n),
            _ => Err(Error::Grammar),
        }
    }

    /// The invocations of plain names in `text`, in the order in which the
    /// provider finds them, each with the spans of its arguments.
    pub fn invocations(&self, text: &str) -> (r: Result<Vec<Invocation>, Error>)
        ensures
            r matches Ok(found) ==> invocations_in(text@) == Ok::<
                Seq<(Match, Seq<SyntaxSpan>)>,
                Error,
            >(invocation_views(found@)),
            r matches Err(e) ==> invocations_in(text@) == Err::<
                Seq<(Match, Seq<SyntaxSpan>)>,
                Error,
            >(e),
    {
        let n = self.numbers();
        let calls = find_matches(INVOCATION_PATTERN, text);
        let children = find_matches(ARGUMENT_PATTERN, text);
        match (calls, children) {
            (Some(calls), Some(children)) => invocations_found(&calls, &children, &n),
            _ => Err(Error::Grammar),
        }
    }
}

} // verus!
