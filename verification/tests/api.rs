use beckon::agent::{start, Next, MAX_TURNS};
use beckon::api::{
    list_models, parse_chunk, request_body, run_turn, sorted_models, status_error_message,
    status_line, ApiConfig, Arrival, ChatEvent, Content, InputItem, Role, Step, ToolCall, Turn,
    TurnOutcome,
};
use beckon::calendar_tools::calendar_registry;
use beckon::tools::ToolRegistry;
use serde_json::Value;

fn lines(body: &str) -> Vec<String> {
    body.lines().map(|l| l.to_string()).collect()
}

/// Run the loop on the streams of its turns, with every tool giving `output`:
/// what it reports, and its last event.
fn run(bodies: Vec<&str>, output: Result<String, String>) -> (Vec<ChatEvent>, ChatEvent) {
    let mut events = Vec::new();
    let mut bodies = bodies.into_iter();
    let mut next = Next::Ask(start(Vec::new()));
    loop {
        next = match next {
            Next::Ask(s) => {
                let (reported, result) = run_turn(&lines(bodies.next().unwrap()));
                events.extend(reported);
                s.turn_done(result)
            }
            Next::Announce(s) => {
                events.push(s.event());
                s.sent(true)
            }
            Next::Run(s) => s.tool_done(output.clone()),
            Next::Report(s) => {
                events.push(s.event());
                s.sent(true)
            }
            Next::Finish(event) => return (events, event),
        }
    }
}

fn run_stream(body: &str) -> (String, ChatEvent) {
    let (events, terminal) = run(vec![body], Ok(String::new()));
    let mut deltas = String::new();
    for event in events {
        if let ChatEvent::Delta(delta) = event {
            deltas.push_str(&delta);
        }
    }
    (deltas, terminal)
}

#[test]
fn tool_call_runs_and_continues_the_conversation() {
    // Turn 1 asks to run a tool; turn 2 (after the result is fed back) gives
    // the final answer.
    let (events, terminal) = run(
        vec![
            "data: {\"type\":\"response.output_item.done\",\"item\":{\"type\":\"function_call\",\"call_id\":\"call_1\",\"name\":\"bash\",\"arguments\":\"{\\\"command\\\":\\\"true\\\"}\"}}\n\n\
             data: {\"type\":\"response.completed\"}\n\n",
            "data: {\"type\":\"response.output_text.delta\",\"delta\":\"all done\"}\n\n\
             data: {\"type\":\"response.completed\"}\n\n",
        ],
        Ok(String::new()),
    );
    let mut deltas = String::new();
    let mut tool_calls = Vec::new();
    let mut tool_results = 0;
    for event in events {
        match event {
            ChatEvent::Delta(delta) => deltas.push_str(&delta),
            ChatEvent::ToolCall { name, .. } => tool_calls.push(name),
            ChatEvent::ToolResult { .. } => tool_results += 1,
            _ => {}
        }
    }
    assert_eq!(tool_calls, vec!["bash".to_string()]);
    assert_eq!(tool_results, 1);
    assert_eq!(deltas, "all done");
    assert!(matches!(terminal, ChatEvent::Done));
}

#[test]
fn truncated_stream_is_an_error() {
    let (deltas, terminal) =
        run_stream("data: {\"type\":\"response.output_text.delta\",\"delta\":\"partial\"}\n\n");
    assert_eq!(deltas, "partial");
    match terminal {
        ChatEvent::Error(message) => assert_eq!(message, "The stream ended unexpectedly"),
        _ => panic!("expected an error for a truncated stream"),
    }
}

#[test]
fn reasoning_deltas_are_forwarded_separately_from_the_answer() {
    let (events, terminal) = run(
        vec![
            "data: {\"type\":\"response.reasoning_summary_text.delta\",\"delta\":\"think\"}\n\n\
             data: {\"type\":\"response.output_text.delta\",\"delta\":\"hi\"}\n\n\
             data: {\"type\":\"response.completed\"}\n\n",
        ],
        Ok(String::new()),
    );
    let (mut reasoning, mut answer) = (String::new(), String::new());
    for event in events {
        match event {
            ChatEvent::Reasoning(delta) => reasoning.push_str(&delta),
            ChatEvent::Delta(delta) => answer.push_str(&delta),
            _ => {}
        }
    }
    assert_eq!(reasoning, "think");
    assert_eq!(answer, "hi");
    assert!(matches!(terminal, ChatEvent::Done));
}

#[test]
fn completed_stream_is_done() {
    let (deltas, terminal) = run_stream(
        "data: {\"type\":\"response.output_text.delta\",\"delta\":\"hi\"}\n\n\
         data: {\"type\":\"response.completed\"}\n\n",
    );
    assert_eq!(deltas, "hi");
    assert!(matches!(terminal, ChatEvent::Done));
}

#[test]
fn incomplete_response_reports_the_reason() {
    let (_, terminal) = run_stream(
        "data: {\"type\":\"response.incomplete\",\"response\":{\"incomplete_details\":{\"reason\":\"max_output_tokens\"}}}\n\n",
    );
    match terminal {
        ChatEvent::Error(message) => assert_eq!(message, "Response incomplete: max_output_tokens"),
        _ => panic!("expected an error for an incomplete response"),
    }
}

#[test]
fn http_error_surfaces_the_server_message() {
    let body = "{\"error\":{\"message\":\"Invalid API key\"}}";
    let message = status_error_message(401, body);
    match start(Vec::new()).turn_done(Err(ChatEvent::Error(message))) {
        Next::Finish(ChatEvent::Error(message)) => assert_eq!(message, "Invalid API key"),
        _ => panic!("expected an error for an HTTP 401"),
    }
}

#[test]
fn http_error_without_a_message() {
    assert_eq!(status_error_message(500, "<html>"), "HTTP 500");
    assert_eq!(status_error_message(404, "{\"error\":\"x\"}"), "HTTP 404");
    assert_eq!(status_line(503, None), "HTTP 503");
    assert_eq!(status_line(503, Some("busy".to_string())), "busy");
}

#[test]
fn models_are_sorted() {
    let body = "{\"data\":[{\"id\":\"b\"},{\"id\":7},{},{\"id\":\"a\"},{\"id\":\"c\"}]}";
    assert_eq!(list_models(body), Ok(vec!["a".to_string(), "b".to_string(), "c".to_string()]));
    assert_eq!(list_models("{\"data\":{}}"), Ok(Vec::new()));
    assert_eq!(list_models("[]"), Ok(Vec::new()));
    assert!(list_models("{").unwrap_err().starts_with("invalid response: Failed to read JSON: "));
    assert_eq!(
        sorted_models(&vec![Some("z".to_string()), None, Some("y".to_string())]),
        vec!["y".to_string(), "z".to_string()]
    );
}

#[test]
fn endpoints() {
    let api = ApiConfig {
        base_url: "https://x/v1//".to_string(),
        api_key: "k".to_string(),
        model: "m".to_string(),
    };
    assert_eq!(api.models_url(), "https://x/v1/models");
    assert_eq!(api.responses_url(), "https://x/v1/responses");
    assert_eq!(api.authorization(), "Bearer k");
}

#[test]
fn requests_carry_the_conversation() {
    let api = ApiConfig { base_url: String::new(), api_key: String::new(), model: "gpt \"x\"".to_string() };
    let input = vec![
        InputItem::Message { role: Role::System, content: Content::Text("be\nshort".to_string()) },
        InputItem::Message {
            role: Role::User,
            content: Content::Parts { text: "see".to_string(), images: vec!["data:1".to_string()] },
        },
        InputItem::FunctionCall(ToolCall {
            name: "t".to_string(),
            call_id: "c".to_string(),
            arguments: "{}".to_string(),
        }),
        InputItem::FunctionCallOutput { call_id: "c".to_string(), output: "o".to_string() },
        InputItem::Message { role: Role::Assistant, content: Content::Text("ok".to_string()) },
    ];
    let body: Value = serde_json::from_str(&request_body(&api, &input, &ToolRegistry::new())).unwrap();
    assert_eq!(body["model"], "gpt \"x\"");
    assert_eq!(body["stream"], true);
    assert_eq!(body["store"], false);
    assert!(body.get("tools").is_none());
    let items = body["input"].as_array().unwrap();
    assert_eq!(items.len(), 5);
    assert_eq!(items[0]["role"], "system");
    assert_eq!(items[0]["content"], "be\nshort");
    assert_eq!(items[1]["role"], "user");
    assert_eq!(items[1]["content"][0]["type"], "input_text");
    assert_eq!(items[1]["content"][0]["text"], "see");
    assert_eq!(items[1]["content"][1]["type"], "input_image");
    assert_eq!(items[1]["content"][1]["image_url"], "data:1");
    assert_eq!(items[2]["type"], "function_call");
    assert_eq!(items[2]["call_id"], "c");
    assert_eq!(items[2]["name"], "t");
    assert_eq!(items[2]["arguments"], "{}");
    assert_eq!(items[3]["type"], "function_call_output");
    assert_eq!(items[3]["output"], "o");
    assert_eq!(items[4]["role"], "assistant");
}

#[test]
fn requests_offer_the_tools() {
    let api = ApiConfig { base_url: String::new(), api_key: String::new(), model: "m".to_string() };
    let tools = calendar_registry(&vec!["calendar".to_string()]);
    let body: Value = serde_json::from_str(&request_body(&api, &Vec::new(), &tools)).unwrap();
    let defs = body["tools"].as_array().unwrap();
    assert_eq!(defs.len(), 4);
    assert_eq!(defs[0]["type"], "function");
    assert_eq!(defs[0]["name"], "calendar_list_events");
    assert_eq!(defs[0]["parameters"]["type"], "object");
    assert_eq!(defs[0]["parameters"]["additionalProperties"], false);
    assert_eq!(defs[0]["parameters"]["properties"]["start"]["type"], "string");
    assert!(defs[0]["parameters"].get("required").is_none());
    assert_eq!(defs[1]["parameters"]["required"][1], "start");
    assert!(defs[1]["parameters"]["properties"]["location"].get("description").is_none());
}

#[test]
fn chunks_are_read() {
    let c = parse_chunk(
        "{\"type\":\"x\",\"delta\":\"d\",\"message\":\"m\",\"response\":{\"error\":{\"message\":\"e\"},\"incomplete_details\":{\"reason\":\"r\"}},\"item\":{\"type\":\"function_call\"}}",
    )
    .unwrap();
    assert_eq!(c.kind.as_deref(), Some("x"));
    assert_eq!(c.delta.as_deref(), Some("d"));
    assert_eq!(c.message.as_deref(), Some("m"));
    assert_eq!(c.error.as_deref(), Some("e"));
    assert_eq!(c.reason.as_deref(), Some("r"));
    let call = c.call.unwrap();
    assert_eq!((call.name.as_str(), call.call_id.as_str(), call.arguments.as_str()), ("", "", "{}"));
    assert!(parse_chunk("{").is_none());
    assert!(parse_chunk("{\"item\":{\"type\":\"message\"}}").unwrap().call.is_none());
}

#[test]
fn terminal_events() {
    let message = |body: &str| match run_stream(body).1 {
        ChatEvent::Error(m) => m,
        _ => panic!("expected an error"),
    };
    assert_eq!(
        message("data: {\"type\":\"response.failed\",\"response\":{\"error\":{\"message\":\"boom\"}}}"),
        "boom"
    );
    assert_eq!(message("data: {\"type\":\"response.failed\"}"), "The response did not complete");
    assert_eq!(message("data: {\"type\":\"error\"}"), "Stream error");
    assert_eq!(message("data: {\"type\":\"error\",\"message\":\"bad\"}"), "bad");
    assert!(matches!(run_stream("data:[DONE]").1, ChatEvent::Done));
    assert!(matches!(run_stream("event: x\n:comment\ndata: {oops\ndata:  [DONE]").1, ChatEvent::Done));
}

#[test]
fn nothing_is_read_behind_the_end() {
    let (deltas, terminal) = run_stream(
        "data: [DONE]\ndata: {\"type\":\"response.output_text.delta\",\"delta\":\"late\"}\ndata: {\"type\":\"error\"}",
    );
    assert_eq!(deltas, "");
    assert!(matches!(terminal, ChatEvent::Done));
}

#[test]
fn reasoning_parts_are_set_apart() {
    let part = "data: {\"type\":\"response.reasoning_summary_part.added\"}\n";
    let delta = "data: {\"type\":\"response.reasoning_text.delta\",\"delta\":\"a\"}\n";
    let body = format!("{part}{delta}{part}{delta}data: [DONE]\n");
    let (events, _) = run_turn(&lines(&body));
    let texts: Vec<String> = events
        .into_iter()
        .map(|e| match e {
            ChatEvent::Reasoning(t) => t,
            _ => panic!("expected reasoning"),
        })
        .collect();
    assert_eq!(texts, vec!["a".to_string(), "\n\n".to_string(), "a".to_string()]);
}

#[test]
fn arrivals() {
    let mut turn = Turn::new();
    assert!(matches!(
        turn.advance(Arrival::Line("data: {\"type\":\"response.created\"}".to_string())),
        Step::Skip
    ));
    match turn.advance(Arrival::Interrupted("reset".to_string())) {
        Step::Fail(ChatEvent::Error(m)) => assert_eq!(m, "Stream interrupted: reset"),
        _ => panic!("expected an error"),
    }
    match turn.advance(Arrival::Ended) {
        Step::Fail(ChatEvent::Error(m)) => assert_eq!(m, "The stream ended unexpectedly"),
        _ => panic!("expected an error"),
    }
    assert!(matches!(turn.advance(Arrival::Unheard), Step::Fail(ChatEvent::Done)));
}

fn call(id: &str) -> ToolCall {
    ToolCall { name: "t".to_string(), call_id: id.to_string(), arguments: "{}".to_string() }
}

#[test]
fn calls_are_followed_by_their_outputs() {
    let user = InputItem::Message { role: Role::User, content: Content::Text("q".to_string()) };
    let mut next = start(vec![user]).turn_done(Ok(TurnOutcome::ToolCalls(vec![call("1"), call("2")])));
    let mut steps = 0;
    let asked = loop {
        steps += 1;
        next = match next {
            Next::Announce(s) => s.sent(true),
            Next::Run(s) => s.tool_done(Err("no".to_string())),
            Next::Report(s) => s.sent(true),
            Next::Ask(s) => break s,
            Next::Finish(_) => panic!("expected another turn"),
        };
    };
    assert_eq!(steps, 7);
    let items: Vec<String> = asked
        .input
        .iter()
        .map(|i| match i {
            InputItem::Message { .. } => "message".to_string(),
            InputItem::FunctionCall(c) => format!("call {}", c.call_id),
            InputItem::FunctionCallOutput { call_id, output } => format!("{call_id}: {output}"),
        })
        .collect();
    assert_eq!(items, vec!["message", "call 1", "1: error: no", "call 2", "2: error: no"]);
}

#[test]
fn a_model_that_never_answers_is_stopped() {
    let mut next = Next::Ask(start(Vec::new()));
    let mut turns = 0;
    let last = loop {
        next = match next {
            Next::Ask(s) => {
                turns += 1;
                s.turn_done(Ok(TurnOutcome::ToolCalls(vec![call("x")])))
            }
            Next::Announce(s) => s.sent(true),
            Next::Run(s) => s.tool_done(Ok("out".to_string())),
            Next::Report(s) => s.sent(true),
            Next::Finish(e) => break e,
        };
    };
    assert_eq!(turns, MAX_TURNS);
    assert_eq!(MAX_TURNS, 8);
    match last {
        ChatEvent::Error(m) => {
            assert_eq!(m, "The assistant kept calling tools without finishing")
        }
        _ => panic!("expected an error"),
    }
}

#[test]
fn a_closed_window_ends_the_loop() {
    match start(Vec::new()).turn_done(Ok(TurnOutcome::ToolCalls(vec![call("x")]))) {
        Next::Announce(s) => assert!(matches!(s.sent(false), Next::Finish(ChatEvent::Done))),
        _ => panic!("expected a call"),
    }
}

#[test]
fn malformed_arguments_are_the_output() {
    let bad = ToolCall {
        name: "t".to_string(),
        call_id: "1".to_string(),
        arguments: "{\"a\":".to_string(),
    };
    let announced = match start(Vec::new()).turn_done(Ok(TurnOutcome::ToolCalls(vec![bad]))) {
        Next::Announce(s) => s.sent(true),
        _ => panic!("expected a call"),
    };
    let reporting = match announced {
        Next::Report(s) => s,
        _ => panic!("expected a report"),
    };
    let told = "error: malformed arguments: EOF while parsing a value at line 1 column 5";
    match reporting.event() {
        ChatEvent::ToolResult { item: InputItem::FunctionCallOutput { call_id, output } } => {
            assert_eq!((call_id.as_str(), output.as_str()), ("1", told));
        }
        _ => panic!("expected a result"),
    }
    let asked = match reporting.sent(true) {
        Next::Ask(s) => s,
        _ => panic!("expected another turn"),
    };
    assert_eq!(asked.left, MAX_TURNS - 2);
    assert_eq!(asked.input.len(), 2);
    match (&asked.input[0], &asked.input[1]) {
        (InputItem::FunctionCall(c), InputItem::FunctionCallOutput { call_id, output }) => {
            assert_eq!(c.arguments, "{\"a\":");
            assert_eq!((call_id.as_str(), output.as_str()), ("1", told));
        }
        _ => panic!("expected a call and its output"),
    }
}

#[test]
fn a_problem_with_a_call_keeps_it_from_running() {
    let announcing = || match start(Vec::new()).turn_done(Ok(TurnOutcome::ToolCalls(vec![call("x")]))) {
        Next::Announce(s) => s,
        _ => panic!("expected a call"),
    };
    assert!(matches!(announcing().taken(None), Next::Run(_)));
    match announcing().taken(Some("bad".to_string())) {
        Next::Report(s) => assert_eq!(s.output, "error: bad"),
        _ => panic!("expected a report"),
    }
}

#[test]
fn other_lines_are_passed_over() {
    let delta = |t: &str| format!("data: {{\"type\":\"response.output_text.delta\",\"delta\":\"{t}\"}}\n");
    let (deltas, terminal) = run_stream(&format!(
        "{}: ping\n\n{}data: {{oops\nretry: 3\ndata: {{\"type\":\"response.created\"}}\ndata: 7\n\
         data: {{\"type\":\"response.output_text.delta\"}}\n{}data: [DONE]\n",
        delta("a"),
        delta("b"),
        delta("c")
    ));
    assert_eq!(deltas, "abc");
    assert!(matches!(terminal, ChatEvent::Done));
}
