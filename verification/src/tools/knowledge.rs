//! The knowledge tool: searches the indexed documentation and answers with
//! the matching excerpts and their source files.
use vstd::prelude::*;
use vstd::string::StringExecFns;

verus! {

/// One excerpt returned by a knowledge-base search.
pub struct Excerpt {
    pub filename: String,
    pub content: String,
}

/// The tool's arguments: the search query.
pub struct KnowledgeArgs {
    query: String,
}

impl KnowledgeArgs {
    /// The query given to `new`.
    pub closed spec fn spec_query(&self) -> Seq<char> {
        self.query@
    }

    /// Arguments asking for `query`.
    pub fn new(query: String) -> (a: KnowledgeArgs)
        ensures
            a.spec_query() == query@,
    {
        KnowledgeArgs { query }
    }

    /// The search query.
    pub fn query(&self) -> (q: &str)
        ensures
            q@ == self.spec_query(),
    {
        self.query.as_str()
    }
}

/// A failed knowledge-base search, with the description of its cause.
pub struct KnowledgeError {
    cause: String,
}

/// The message of a failed search.
pub open spec fn error_message(cause: Seq<char>) -> Seq<char> {
    "Knowledge query failed: "@ + cause
}

impl KnowledgeError {
    /// The description of the cause given to `new`.
    pub closed spec fn spec_cause(&self) -> Seq<char> {
        self.cause@
    }

    /// A failure caused by what `cause` describes.
    pub fn new(cause: String) -> (e: KnowledgeError)
        ensures
            e.spec_cause() == cause@,
    {
        KnowledgeError { cause }
    }

    /// The message shown for the failure.
    pub fn message(&self) -> (m: String)
        ensures
            m@ == error_message(self.spec_cause()),
    {
        let mut m = "Knowledge query failed: ".to_owned();
        m.append(self.cause.as_str());
        m
    }
}

/// How one excerpt is shown: its source file, a line break, then its text.
pub open spec fn excerpt_text(e: Excerpt) -> Seq<char> {
    "Source: "@ + e.filename@ + "\n"@ + e.content@
}

/// The excerpts shown one after the other, separated by a blank line.
pub open spec fn joined(es: Seq<Excerpt>) -> Seq<char>
    decreases es.len(),
{
    if es.len() == 0 {
        seq![]
    } else if es.len() == 1 {
        excerpt_text(es[0])
    } else {
        joined(es.drop_last()) + "\n\n"@ + excerpt_text(es.last())
    }
}

/// The answer to a search that found `es`.
pub open spec fn answer_text(es: Seq<Excerpt>) -> Seq<char> {
    if es.len() == 0 {
        "No matching documents found."@
    } else {
        joined(es)
    }
}

/// The answer shows every excerpt found, in order: nothing found gives the
/// fixed message; one excerpt gives its source line and its text; and one
/// more excerpt after some others adds a blank line, its own source line
/// and its text to the answer for the others.
pub proof fn lemma_answer_shows_every_excerpt(es: Seq<Excerpt>, e: Excerpt)
    ensures
        answer_text(Seq::<Excerpt>::empty()) == "No matching documents found."@,
        answer_text(seq![e]) == "Source: "@ + e.filename@ + "\n"@ + e.content@,
        es.len() > 0 ==> answer_text(es.push(e)) == answer_text(es) + "\n\n"@ + (
        "Source: "@ + e.filename@ + "\n"@ + e.content@),
{
    if es.len() > 0 {
        assert(es.push(e).drop_last() =~= es);
        assert(es.push(e).last() == e);
    }
}

/// The description of the tool shown to the agents.
pub open spec fn description_text() -> Seq<char> {
    "Search indexed company documentation for context and evidence needed to complete a task. Use this tool to find business rules, terminology, system descriptions, and documented procedures. Returns document excerpts with source filenames for you to evaluate and reference. Results are selected by semantic similarity; assess their relevance to the task. Documentation describes recorded knowledge and expected behavior, not a live observation of a service's current state."@
}

/// The knowledge tool, searching the knowledge base `B`.
pub struct Knowledge<B> {
    rag: B,
}

impl<B> Knowledge<B> {
    /// The knowledge base given to `new`.
    pub closed spec fn spec_rag(&self) -> B {
        self.rag
    }

    /// A tool searching `rag`.
    pub fn new(rag: B) -> (k: Knowledge<B>)
        ensures
            k.spec_rag() == rag,
    {
        Knowledge { rag }
    }

    /// The knowledge base the tool searches.
    pub fn rag(&self) -> (r: &B)
        ensures
            *r == self.spec_rag(),
    {
        &self.rag
    }

    /// The description of the tool shown to the agents.
    pub fn description(&self) -> (d: String)
        ensures
            d@ == description_text(),
    {
        "Search indexed company documentation for context and evidence needed to complete a task. Use this tool to find business rules, terminology, system descriptions, and documented procedures. Returns document excerpts with source filenames for you to evaluate and reference. Results are selected by semantic similarity; assess their relevance to the task. Documentation describes recorded knowledge and expected behavior, not a live observation of a service's current state.".to_owned()
    }

    /// The tool's answer once the search is over: the excerpts found, or the
    /// failure with the description of its cause.
    pub fn answer(&self, outcome: Result<Vec<Excerpt>, String>) -> (r: Result<String, KnowledgeError>)
        ensures
            match outcome {
                Ok(es) => r matches Ok(text) && text@ == answer_text(es@),
                Err(cause) => r matches Err(e) && e.spec_cause() == cause@,
            },
    {
        match outcome {
            Ok(es) => Ok(format_results(&es)),
            Err(cause) => Err(KnowledgeError::new(cause)),
        }
    }
}

/// The answer to a search that found `excerpts`: each shown as
/// `Source: <file>` and its text, separated by blank lines, or a fixed
/// message when nothing was found.
pub fn format_results(excerpts: &Vec<Excerpt>) -> (s: String)
    ensures
        s@ == answer_text(excerpts@),
{
    if excerpts.len() == 0 {
        return "No matching documents found.".to_owned();
    }
    let mut s = String::new();
    let mut i: usize = 0;
    while i < excerpts.len()
        invariant
            0 < excerpts@.len(),
            i <= excerpts@.len(),
            s@ == joined(excerpts@.take(i as int)),
        decreases excerpts.len() - i,
    {
        let ghost prefix = excerpts@.take(i + 1);
        assert(prefix.drop_last() =~= excerpts@.take(i as int));
        if i > 0 {
            s.append("\n\n");
        }
        s.append("Source: ");
        s.append(excerpts[i].filename.as_str());
        s.append("\n");
        s.append(excerpts[i].content.as_str());
        proof {
            if i == 0 {
                assert(excerpts@.take(i as int) =~= Seq::<Excerpt>::empty());
                assert(prefix.len() == 1);
            }
            assert(s@ =~= joined(prefix));
        }
        i = i + 1;
    }
    assert(excerpts@.take(excerpts@.len() as int) =~= excerpts@);
    s
}

} // verus!
