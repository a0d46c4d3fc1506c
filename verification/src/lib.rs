//! JSONPath query engine (RFC 9535): a lexer, a parser with static type
//! checks, and an evaluator over JSON values. Each is proved to compute what
//! its specification functions, given beside it, say.
//!
//! A query is parsed once with [`JsonPath::parse`] and evaluated against any
//! number of documents with [`JsonPath::query`] or [`JsonPath::query_ref`];
//! [`query`] does both in one call.

pub mod ast;
pub mod eval;
pub mod iregexp;
pub mod json;
pub mod laws;
pub mod lexer;
pub mod number;
pub mod order;
pub mod parser;
pub mod text;
pub mod typing;

pub use ast::JsonPath;
use eval::{evaluate, evaluate_spec, node_views};
use json::{Json, JsonView};
use parser::{parse_text, ParseError, ParseErrorView, Parser};
use typing::valid_query;
use vstd::prelude::*;
use vstd::string::StringExecFns;

verus! {

/// Error type for JSONPath operations.
#[derive(Debug, PartialEq)]
pub struct Error {
    message: String,
}

impl View for Error {
    type V = Seq<char>;

    closed spec fn view(&self) -> Seq<char> {
        self.message@
    }
}

/// The message of the error that a query gives which the parser refused with `e`.
pub open spec fn error_text(e: ParseErrorView) -> Seq<char> {
    "parse error: "@ + e.text()
}

impl Error {
    /// The message of the error.
    pub fn to_text(&self) -> (r: String)
        ensures
            r@ == self@,
    {
        self.message.clone()
    }

    /// The error of a query that the parser refused with `e`.
    pub fn from_parse_error(e: ParseError) -> (r: Error)
        ensures
            r@ == error_text(e@),
    {
        let mut message: String = "parse error: ".to_owned();
        message.append(e.to_text().as_str());
        Error { message }
    }
}

/// The views of the values of `values`, in order.
pub open spec fn json_views(values: Seq<Json>) -> Seq<JsonView> {
    Seq::new(values.len(), |i: int| values[i]@)
}

/// Copies of the nodes of a node list.
fn copies(nodes: &Vec<&Json>) -> (r: Vec<Json>)
    ensures
        json_views(r@) == node_views(nodes@),
{
    let mut out: Vec<Json> = Vec::new();
    let mut i: usize = 0;
    while i < nodes.len()
        invariant
            i <= nodes.len(),
            out.len() == i,
            forall|k: int| 0 <= k < i ==> out@[k]@ == nodes@[k]@,
        decreases nodes.len() - i,
    {
        out.push(nodes[i].duplicate());
        i += 1;
    }
    assert(json_views(out@) =~= node_views(nodes@));
    out
}

impl JsonPath {
    /// Parse a JSONPath query string.
    ///
    /// Returns a parsed JsonPath ready for execution, or an error if the
    /// query is invalid.
    pub fn parse(jsonpath: &str) -> (r: Result<JsonPath, Error>)
        ensures
            r is Ok <==> parse_text(jsonpath@) is Ok,
            match parse_text(jsonpath@) {
                Ok(path) => r matches Ok(p) && p@ == path,
                Err(e) => r matches Err(x) && x@ == error_text(e),
            },
            r matches Ok(p) ==> valid_query(p@),
    {
        match Parser::parse(jsonpath) {
            Ok(path) => Ok(path),
            Err(e) => Err(Error::from_parse_error(e)),
        }
    }

    /// Execute the query and return owned values (copies of the nodes).
    pub fn query(&self, json: &Json) -> (r: Vec<Json>)
        ensures
            json_views(r@) == evaluate_spec(self@, json@),
    {
        let nodes: Vec<&Json> = evaluate(self, json);
        copies(&nodes)
    }

    /// Execute the query and return references into the document.
    pub fn query_ref<'a>(&self, json: &'a Json) -> (r: Vec<&'a Json>)
        ensures
            node_views(r@) == evaluate_spec(self@, json@),
    {
        evaluate(self, json)
    }
}

/// Execute a JSONPath query against a JSON value.
///
/// Returns the matching JSON values, or an error if the query is invalid:
/// the call succeeds on exactly the queries that [`JsonPath::parse`] accepts,
/// whatever the document.
pub fn query(jsonpath: &str, json: &Json) -> (r: Result<Vec<Json>, Error>)
    ensures
        r is Ok <==> parse_text(jsonpath@) is Ok,
        match parse_text(jsonpath@) {
            Ok(path) => r matches Ok(values) && json_views(values@) == evaluate_spec(path, json@),
            Err(e) => r matches Err(x) && x@ == error_text(e),
        },
{
    let path: JsonPath = match Parser::parse(jsonpath) {
        Ok(path) => path,
        Err(e) => {
            return Err(Error::from_parse_error(e));
        },
    };
    let results: Vec<&Json> = evaluate(&path, json);
    Ok(copies(&results))
}

} // verus!
