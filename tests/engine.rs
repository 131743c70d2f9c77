use assistants_benches::json::Json;
use assistants_benches::model::{parse_method, Capture, HttpMethod, RunError, Step, TestCase};
use assistants_benches::runner::{Action, Phase, Runner};
use assistants_benches::scoring::{extract_score, judge_payload};
use assistants_benches::text::{replace_all, same_text, strip_quotes};
use assistants_benches::variables::VariableStore;

fn text(s: &str) -> Json {
    Json::Str(s.to_string())
}

fn object(members: Vec<(&str, Json)>) -> Json {
    Json::Object(members.into_iter().map(|(k, v)| (k.to_string(), v)).collect())
}

fn step(endpoint: &str, method: &str, request: Json, captures: Vec<(&str, &str)>) -> Step {
    Step {
        endpoint: endpoint.to_string(),
        method: method.to_string(),
        request,
        expected_response: object(vec![("ok", Json::Bool(true))]),
        captures: captures
            .into_iter()
            .map(|(v, f)| Capture { variable: v.to_string(), field: f.to_string() })
            .collect(),
    }
}

#[test]
fn score_of_bare_digit() {
    assert_eq!(extract_score("3"), Some(3));
}

#[test]
fn score_after_preamble() {
    assert_eq!(extract_score("The answer is 4"), Some(4));
}

#[test]
fn score_missing() {
    assert_eq!(extract_score("no number here"), None);
}

#[test]
fn score_takes_last_number() {
    assert_eq!(extract_score("score: 2, actually 5"), Some(5));
}

#[test]
fn score_ignores_trailing_space() {
    assert_eq!(extract_score("Score: 12 \n\t"), Some(12));
    assert_eq!(extract_score("1 2"), Some(2));
    assert_eq!(extract_score(""), None);
    assert_eq!(extract_score("5."), None);
}

#[test]
fn score_saturates() {
    assert_eq!(extract_score("99999999999999999999999"), Some(u64::MAX));
    assert_eq!(extract_score("18446744073709551615"), Some(u64::MAX));
    assert_eq!(extract_score("18446744073709551614"), Some(18446744073709551614));
}

#[test]
fn replace_every_occurrence() {
    assert_eq!(replace_all("/threads/id/messages/id", "id", "42"), "/threads/42/messages/42");
    assert_eq!(replace_all("aaa", "aa", "b"), "ba");
    assert_eq!(replace_all("ab", "", "x"), "xaxbx");
    assert_eq!(replace_all("abc", "zz", "y"), "abc");
}

#[test]
fn quotes_are_stripped() {
    assert_eq!(strip_quotes("\"thread_1\""), "thread_1");
    assert_eq!(strip_quotes("a\"b\"c"), "abc");
    assert!(same_text("é", "é"));
    assert!(!same_text("ab", "abc"));
}

#[test]
fn json_text_is_compact() {
    let v = object(vec![
        ("a", Json::Array(vec![Json::Number("1".to_string()), Json::Null, Json::Bool(false)])),
        ("b", text("x\"y\\z\n\u{1}")),
        ("c", Json::Object(vec![])),
    ]);
    assert_eq!(v.to_text(), "{\"a\":[1,null,false],\"b\":\"x\\\"y\\\\z\\n\\u0001\",\"c\":{}}");
    assert_eq!(Json::Array(vec![]).to_text(), "[]");
}

#[test]
fn field_text_of_response() {
    let v = object(vec![("id", text("t1")), ("n", Json::Number("7".to_string()))]);
    assert_eq!(v.field_text("id"), "\"t1\"");
    assert_eq!(v.field_text("n"), "7");
    assert_eq!(v.field_text("missing"), "null");
    assert_eq!(text("s").field_text("id"), "null");
}

#[test]
fn methods_get_and_post_only() {
    assert_eq!(parse_method("GET"), Ok(HttpMethod::Get));
    assert_eq!(parse_method("POST"), Ok(HttpMethod::Post));
    assert_eq!(parse_method("DELETE"), Err(RunError::UnsupportedMethod));
    assert_eq!(parse_method("get"), Err(RunError::UnsupportedMethod));
}

#[test]
fn store_overwrites_names() {
    let mut store = VariableStore::new();
    store.insert("id".to_string(), "\"a\"".to_string());
    store.insert("other".to_string(), "1".to_string());
    store.insert("id".to_string(), "\"b\"".to_string());
    assert_eq!(store.vars.len(), 2);
    assert_eq!(store.vars[0].value, "\"b\"");
}

#[test]
fn empty_store_leaves_step_unchanged() {
    let store = VariableStore::new();
    let s = step("/x/id", "GET", object(vec![("thread", text("id"))]), vec![]);
    let r = store.substitute(s).ok().unwrap();
    assert_eq!(r.endpoint, "/x/id");
    assert_eq!(r.request.to_text(), "{\"thread\":\"id\"}");
    assert_eq!(r.method, "GET");
}

#[test]
fn request_must_be_object_with_empty_store() {
    let store = VariableStore::new();
    let s = step("/x/id", "GET", text("not an object"), vec![]);
    assert!(matches!(store.substitute(s), Err(RunError::MalformedRequest)));
}

#[test]
fn non_object_request_aborts_first_step() {
    let case = TestCase {
        name: "c".to_string(),
        steps: vec![step("/a", "GET", text("raw"), vec![]), step("/b", "GET", object(vec![]), vec![])],
    };
    let (seen, runner) = drive(vec![case], &thread_response, "1");
    assert_eq!(seen, vec!["start c", "abort MalformedRequest"]);
    assert_eq!(runner.results.len(), 0);
}

#[test]
fn request_must_be_object_when_substituting() {
    let mut store = VariableStore::new();
    store.insert("id".to_string(), "\"a\"".to_string());
    let s = step("/x", "GET", Json::Array(vec![]), vec![]);
    assert!(matches!(store.substitute(s), Err(RunError::MalformedRequest)));
}

#[test]
fn substitution_in_endpoint_and_top_level_values() {
    let mut store = VariableStore::new();
    let response = object(vec![("thread_id", text("th_9")), ("count", Json::Number("3".to_string()))]);
    store.capture(
        &vec![
            Capture { variable: "tid".to_string(), field: "thread_id".to_string() },
            Capture { variable: "n".to_string(), field: "count".to_string() },
        ],
        &response,
    );
    let request = object(vec![
        ("thread", text("tid")),
        ("nested", object(vec![("thread", text("tid"))])),
        ("other", text("tid2")),
        ("num", text("n")),
    ]);
    let r = store.substitute(step("/threads/tid/messages", "POST", request, vec![])).ok().unwrap();
    assert_eq!(r.endpoint, "/threads/th_9/messages");
    assert_eq!(
        r.request.to_text(),
        "{\"thread\":\"th_9\",\"nested\":{\"thread\":\"tid\"},\"other\":\"tid2\",\"num\":\"3\"}"
    );
}

#[test]
fn payload_lists_three_fields() {
    let p = judge_payload(&object(vec![("q", text("a"))]), &Json::Null, &Json::Bool(true));
    assert_eq!(p, "{\"expected_response\":true,\"request\":{\"q\":\"a\"},\"response\":null}");
}

/// Drives a runner, answering each request with `respond_with` and each judge call with
/// `reply`; returns the actions seen and the runner.
fn drive(cases: Vec<TestCase>, respond_with: &dyn Fn(&Step) -> Json, reply: &str) -> (Vec<String>, Runner) {
    let mut runner = Runner::new(cases);
    let mut seen = Vec::new();
    let mut action = runner.next();
    let mut clock: u64 = 100;
    loop {
        match action {
            Action::StartCase => {
                seen.push(format!("start {}", runner.case_name));
                action = runner.next();
            }
            Action::Send => {
                let response = match &runner.phase {
                    Phase::Sending { step } => {
                        seen.push(format!("send {}", step.endpoint));
                        respond_with(step)
                    }
                    _ => panic!("no step to send"),
                };
                action = runner.respond(clock, &response);
            }
            Action::Judge { payload } => {
                assert!(payload.starts_with("{\"expected_response\":"));
                clock += 2;
                runner.judge(reply, clock);
                action = runner.next();
            }
            Action::Persist => {
                seen.push(format!("persist {}", runner.results.len()));
                action = runner.next();
            }
            Action::Finish => {
                seen.push("finish".to_string());
                break;
            }
            Action::Abort { error } => {
                seen.push(format!("abort {:?}", error));
                break;
            }
        }
    }
    (seen, runner)
}

fn thread_response(_: &Step) -> Json {
    object(vec![("thread_id", text("thread_abc")), ("ok", Json::Bool(true))])
}

#[test]
fn two_step_case_uses_captured_thread_id() {
    let case = TestCase {
        name: "threads".to_string(),
        steps: vec![
            step("http://localhost/threads", "POST", object(vec![]), vec![("id", "thread_id")]),
            step("http://localhost/threads/id/messages", "GET", object(vec![("thread", text("id"))]), vec![]),
        ],
    };
    let (seen, runner) = drive(vec![case], &thread_response, "Score: 4");
    assert_eq!(
        seen,
        vec![
            "start threads",
            "send http://localhost/threads",
            "send http://localhost/threads/thread_abc/messages",
            "persist 1",
            "finish"
        ]
    );
    let steps = &runner.results[0].steps;
    assert_eq!(steps[1].endpoint, "http://localhost/threads/thread_abc/messages");
    assert_eq!(steps[1].request.to_text(), "{\"thread\":\"thread_abc\"}");
    assert_eq!(steps[1].score, Some(4));
    assert_eq!(steps[0].start_time, 100);
    assert_eq!(steps[0].end_time, 102);
    assert_eq!(steps[0].duration, 2);
}

#[test]
fn one_scored_step_per_step_in_order() {
    let cases = vec![
        TestCase {
            name: "a".to_string(),
            steps: vec![step("/1", "GET", object(vec![]), vec![]), step("/2", "POST", object(vec![]), vec![])],
        },
        TestCase { name: "empty".to_string(), steps: vec![] },
        TestCase { name: "b".to_string(), steps: vec![step("/3", "GET", object(vec![]), vec![])] },
    ];
    let (seen, runner) = drive(cases, &thread_response, "no number here");
    assert_eq!(seen.last().unwrap(), "finish");
    assert_eq!(runner.results.len(), 3);
    assert_eq!(runner.results[0].name, "a");
    assert_eq!(runner.results[0].steps.len(), 2);
    assert_eq!(runner.results[0].steps[0].endpoint, "/1");
    assert_eq!(runner.results[0].steps[1].endpoint, "/2");
    assert_eq!(runner.results[0].steps[1].method, "POST");
    assert_eq!(runner.results[0].steps[1].score, None);
    assert_eq!(runner.results[1].steps.len(), 0);
    assert_eq!(runner.results[2].steps.len(), 1);
}

#[test]
fn delete_aborts_the_run() {
    let cases = vec![
        TestCase { name: "first".to_string(), steps: vec![step("/ok", "GET", object(vec![]), vec![])] },
        TestCase {
            name: "second".to_string(),
            steps: vec![
                step("/before", "GET", object(vec![]), vec![]),
                step("/gone", "DELETE", object(vec![]), vec![]),
                step("/after", "GET", object(vec![]), vec![]),
            ],
        },
    ];
    let (seen, mut runner) = drive(cases, &thread_response, "3");
    assert_eq!(
        seen,
        vec!["start first", "send /ok", "persist 1", "start second", "send /before", "abort UnsupportedMethod"]
    );
    assert_eq!(runner.results.len(), 1);
    assert_eq!(runner.scored.len(), 1);
    assert!(matches!(runner.next(), Action::Abort { error: RunError::UnsupportedMethod }));
    assert_eq!(runner.results.len(), 1);
}

#[test]
fn non_object_request_aborts_after_capture() {
    let case = TestCase {
        name: "c".to_string(),
        steps: vec![
            step("/a", "POST", object(vec![]), vec![("id", "thread_id")]),
            step("/b", "POST", text("raw"), vec![]),
        ],
    };
    let (seen, runner) = drive(vec![case], &thread_response, "1");
    assert_eq!(seen.last().unwrap(), "abort MalformedRequest");
    assert_eq!(runner.results.len(), 0);
}

#[test]
fn variables_do_not_leak_between_cases() {
    let cases = vec![
        TestCase { name: "a".to_string(), steps: vec![step("/a", "POST", object(vec![]), vec![("id", "thread_id")])] },
        TestCase { name: "b".to_string(), steps: vec![step("/b/id", "GET", object(vec![]), vec![])] },
    ];
    let (_, runner) = drive(cases, &thread_response, "2");
    assert_eq!(runner.results[1].steps[0].endpoint, "/b/id");
}

#[test]
fn failure_stops_the_run() {
    let mut runner = Runner::new(vec![TestCase {
        name: "a".to_string(),
        steps: vec![step("/a", "GET", object(vec![]), vec![])],
    }]);
    assert!(matches!(runner.next(), Action::StartCase));
    assert!(matches!(runner.next(), Action::Send));
    runner.fail(RunError::Transport);
    assert!(matches!(runner.next(), Action::Abort { error: RunError::Transport }));
    assert_eq!(runner.results.len(), 0);
}
