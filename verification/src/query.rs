//! Reading queries: the languages of the file search and of grep.

use crate::text;
use vstd::prelude::*;

verus! {

/// `fff_search::FFFQuery`, a query that was read. It is handed on to the file
/// search or to grep, and never looked into.
#[verifier::external_type_specification]
#[verifier::external_body]
pub struct ExFFFQuery<'a>(fff_search::FFFQuery<'a>);

/// The text of a query that is matched fuzzily, once the query language's
/// constraints have been taken out.
#[derive(Debug, Clone)]
pub enum QueryText {
    Parts(Vec<String>),
    Text(String),
    Empty,
}

/// The model of a `QueryText`.
#[verifier::ext_equal]
pub enum QueryTextView {
    Parts(Seq<Seq<char>>),
    Text(Seq<char>),
    Empty,
}

impl View for QueryText {
    type V = QueryTextView;

    open spec fn view(&self) -> QueryTextView {
        match *self {
            QueryText::Parts(parts) => QueryTextView::Parts(text::string_views(parts@)),
            QueryText::Text(word) => QueryTextView::Text(word@),
            QueryText::Empty => QueryTextView::Empty,
        }
    }
}

/// Whether a text is one or more ASCII letters and digits.
pub open spec fn is_plain_word(s: Seq<char>) -> bool {
    &&& s.len() > 0
    &&& forall|i: int|
        0 <= i < s.len() ==> {
            let c = #[trigger] s[i];
            'a' <= c <= 'z' || 'A' <= c <= 'Z' || '0' <= c <= '9'
        }
}

/// A query that was read: as the file search takes it, and the fuzzy text in it.
pub struct ParsedQuery<'a> {
    pub parsed: fff_search::FFFQuery<'a>,
    pub text: QueryText,
}

/// The model of a `ParsedQuery`.
pub struct ParsedQueryView {
    pub parsed: fff_search::FFFQuery<'static>,
    pub text: QueryTextView,
}

/// What the default `fff_search::QueryParser` makes of a query: a function of
/// the query alone.
pub uninterp spec fn parsed_query(query: Seq<char>) -> ParsedQueryView;

/// `fff_search::QueryParser::default().parse` splits a query into constraints,
/// fuzzy text and a location. The fuzzy text is also converted to owned strings.
/// Of the query language only this is said: a word of ASCII letters and digits
/// is no constraint and carries no location, so it is the fuzzy text as it
/// stands.
#[verifier::external_body]
pub(crate) fn parse_query<'a>(query: &'a str) -> (r: ParsedQuery<'a>)
    ensures
        r.parsed == parsed_query(query@).parsed,
        r.text@ == parsed_query(query@).text,
        is_plain_word(query@) ==> r.text@ == QueryTextView::Text(query@),
{
    let parsed = fff_search::QueryParser::default().parse(query);
    let text = match &parsed.fuzzy_query {
        fff_search::FuzzyQuery::Parts(parts) => QueryText::Parts(
            parts.iter().map(|part| String::from(*part)).collect(),
        ),
        fff_search::FuzzyQuery::Text(word) => QueryText::Text(String::from(*word)),
        fff_search::FuzzyQuery::Empty => QueryText::Empty,
    };
    ParsedQuery { parsed, text }
}

/// What the file search is asked for a query.
pub fn file_query<'a>(query: &'a str) -> (r: fff_search::FFFQuery<'a>)
    ensures
        r == parsed_query(query@).parsed,
{
    parse_query(query).parsed
}

/// The text of a query that is matched fuzzily. A word of ASCII letters and
/// digits is its own.
pub fn fuzzy_text(query: &str) -> (r: QueryText)
    ensures
        r@ == parsed_query(query@).text,
        is_plain_word(query@) ==> r@ == QueryTextView::Text(query@),
{
    parse_query(query).text
}

/// What `fff_search::grep::parse_grep_query` makes of a query: a function of the
/// query alone.
pub uninterp spec fn parsed_grep_query(query: Seq<char>) -> fff_search::FFFQuery<'static>;

/// `fff_search::grep::parse_grep_query` splits a query for grep into constraints
/// on files and the text to search for. The query language is left unsaid.
#[verifier::external_body]
pub(crate) fn parse_grep_query<'a>(query: &'a str) -> (r: fff_search::FFFQuery<'a>)
    ensures
        r == parsed_grep_query(query@),
{
    fff_search::grep::parse_grep_query(query)
}

/// What grep is asked for a query.
pub fn grep_query<'a>(query: &'a str) -> (r: fff_search::FFFQuery<'a>)
    ensures
        r == parsed_grep_query(query@),
{
    parse_grep_query(query)
}

} // verus!
