//! Test cases, their steps, and the scored records of a run.
use vstd::prelude::*;
use crate::json::Json;

verus! {

/// Saves the top-level field `field` of a step's response under the name `variable`.
pub struct Capture {
    pub variable: String,
    pub field: String,
}

/// One request of a test case, with the response it should get and the values to keep.
pub struct Step {
    pub endpoint: String,
    pub method: String,
    pub request: Json,
    pub expected_response: Json,
    pub captures: Vec<Capture>,
}

/// A named, ordered list of steps.
pub struct TestCase {
    pub name: String,
    pub steps: Vec<Step>,
}

/// A step as it was sent, with the judge's score and its timing in epoch seconds.
pub struct ScoredStep {
    pub endpoint: String,
    pub method: String,
    pub request: Json,
    pub expected_response: Json,
    pub score: Option<u64>,
    pub start_time: u64,
    pub end_time: u64,
    pub duration: u64,
}

/// The scored steps of one test case, in the order of its steps.
pub struct ScoredTestCase {
    pub name: String,
    pub steps: Vec<ScoredStep>,
}

/// The HTTP methods a step may use.
#[derive(PartialEq, Eq, Structural, Clone, Copy, Debug)]
pub enum HttpMethod {
    Get,
    Post,
}

/// A condition that ends a run.
#[derive(PartialEq, Eq, Structural, Clone, Copy, Debug)]
pub enum RunError {
    /// A step names a method other than `GET` and `POST`.
    UnsupportedMethod,
    /// A step's request body is not a JSON object.
    MalformedRequest,
    /// The request could not be sent, or its response was not JSON.
    Transport,
    /// The judge could not be asked.
    JudgeCall,
}

/// The method that the text `m` names, if it is one a step may use.
pub open spec fn method_of(m: Seq<char>) -> Option<HttpMethod> {
    if m == seq!['G', 'E', 'T'] {
        Some(HttpMethod::Get)
    } else if m == seq!['P', 'O', 'S', 'T'] {
        Some(HttpMethod::Post)
    } else {
        None
    }
}

/// Reads a step's method: `GET` and `POST` only, in capitals.
pub fn parse_method(m: &str) -> (r: Result<HttpMethod, RunError>)
    ensures
        r == (match method_of(m@) {
            Some(x) => Ok(x),
            None => Err(RunError::UnsupportedMethod),
        }),
{
    proof {
        reveal_strlit("GET");
        reveal_strlit("POST");
    }
    assert("GET"@ =~= seq!['G', 'E', 'T']);
    assert("POST"@ =~= seq!['P', 'O', 'S', 'T']);
    if crate::text::same_text(m, "GET") {
        Ok(HttpMethod::Get)
    } else if crate::text::same_text(m, "POST") {
        Ok(HttpMethod::Post)
    } else {
        Err(RunError::UnsupportedMethod)
    }
}

} // verus!
