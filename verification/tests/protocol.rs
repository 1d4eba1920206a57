use agc::base64::{base64_decode, base64_encode, DecodeError};
use agc::codec::{line_of, parse, pretty_of};
use agc::json::Json;
use agc::prompt::{material, prompt_request, valid_session_id, Prompt, PromptRun, PromptStep};
use agc::rpc::{
    access_params, access_request, agents_request, authenticated, bind_params, bind_request,
    bound_device, check_params, check_request, connect_message, initialize_reply, initialize_request, listed_agents, next_id, relay_reply, reply_error,
    request, rpc_step, RelayError, RequestIds, RpcError, RpcStep,
};
use agc::wire::{deliver, read_line, receive, recv, send, LineTooLong, Received, MAX_LINE_SIZE};

fn json(text: &str) -> Json {
    parse(text).unwrap()
}

fn keys(value: &Json) -> Vec<String> {
    match value {
        Json::Object(fields) => {
            let mut keys = Vec::new();
            for i in 0..fields.len() {
                keys.push(fields.entry(i).0.clone());
            }
            keys
        }
        _ => panic!("no object"),
    }
}

fn bare_prompt(message: &str) -> Prompt {
    Prompt {
        agent: None,
        message: message.to_string(),
        cwd: None,
        session_id: None,
        ticket: None,
        materials: vec![],
        flow: None,
        borrower: None,
    }
}

#[test]
fn borrowed_prompt_param_names() {
    let mut prompt = bare_prompt("hi");
    prompt.agent = Some("clone-creator".to_string());
    prompt.ticket = Some(json("{\"version\":1}"));
    prompt.materials = vec![material("a.txt", b"abc")];
    prompt.flow = Some("write".to_string());
    prompt.borrower = Some("sophie".to_string());
    let v = prompt_request(7, prompt);
    let params = v.get("params").expect("params");
    for key in [
        "agent",
        "message",
        "sessionTicket",
        "materials",
        "activeFlow",
        "borrower",
    ] {
        assert!(params.get(key).is_some(), "prompt params lack {key}");
    }
    assert_eq!(params.get("sessionTicket"), Some(&json("{\"version\":1}")));
    assert_eq!(
        params.get("materials"),
        Some(&json("[{\"name\":\"a.txt\",\"contentBase64\":\"YWJj\"}]"))
    );
}

#[test]
fn plain_prompt_param_names() {
    let mut prompt = bare_prompt("hi");
    prompt.cwd = Some("/tmp".to_string());
    prompt.session_id = Some("s-1".to_string());
    let v = prompt_request(9, prompt);
    assert_eq!(v.text_at("method"), Some("prompt"));
    assert_eq!(v.int_at("id"), Some(9));
    let params = v.get("params").expect("params");
    assert!(params.get("message").and_then(|m| m.as_str()).is_some());
    for absent in ["sessionTicket", "materials", "activeFlow", "borrower"] {
        assert!(params.get(absent).is_none(), "a plain round has no {absent}");
    }
    assert_eq!(keys(params), vec!["cwd", "message", "sessionId"]);
}

#[test]
fn final_result_consumer_shape() {
    let v = json(
        "{\"jsonrpc\":\"2.0\",\"result\":{\"stopReason\":\"endTurn\",\"sessionTicket\":{\"version\":1,\"label\":2.5},\"files\":[]}}",
    );
    assert!(v.get("id").is_none());
    let run = PromptRun::new(5);
    assert!(run.is_final(&v));
    let mut run = run;
    match run.step(v) {
        PromptStep::Done(out) => {
            assert_eq!(out.get("stopReason").and_then(|s| s.as_str()), Some("endTurn"));
            assert_eq!(line_of(out.get("sessionTicket").unwrap()), "{\"label\":2.5,\"version\":1}");
            assert_eq!(out.get("files"), Some(&Json::List(vec![])));
            assert_eq!(out.get("sessionId"), Some(&Json::Null));
            assert_eq!(out.text_at("text"), Some(""));
        }
        other => panic!("{other:?}"),
    }
}

#[test]
fn chunk_notification_shape() {
    let mut run = PromptRun::new(5);
    let v = json("{\"jsonrpc\":\"2.0\",\"method\":\"chunk\",\"params\":{\"text\":\"Hel\"}}");
    assert_eq!(v.get("method").and_then(|m| m.as_str()), Some("chunk"));
    assert_eq!(run.step(v), PromptStep::Show("Hel".to_string()));
    assert_eq!(run.text, "Hel");
}

#[test]
fn base64_known_values() {
    assert_eq!(base64_encode(b""), "");
    assert_eq!(base64_encode(b"f"), "Zg==");
    assert_eq!(base64_encode(b"fo"), "Zm8=");
    assert_eq!(base64_encode(b"foo"), "Zm9v");
    assert_eq!(base64_encode(b"foob"), "Zm9vYg==");
    assert_eq!(base64_encode(b"fooba"), "Zm9vYmE=");
    assert_eq!(base64_encode(b"foobar"), "Zm9vYmFy");
    assert_eq!(base64_encode(&[0xfb, 0xff, 0xbf]), "+/+/");
    assert_eq!(base64_decode("Zm9vYmE="), Ok(b"fooba".to_vec()));
    assert_eq!(base64_decode("Zm9v\r\nYm\tFy "), Ok(b"foobar".to_vec()));
    assert_eq!(base64_decode("Zm8"), Ok(b"fo".to_vec()));
    assert_eq!(base64_decode("Zg==Zm9v"), Ok(b"f".to_vec()));
    assert_eq!(base64_decode("===="), Ok(vec![]));
    assert_eq!(base64_decode("+/+/"), Ok(vec![0xfb, 0xff, 0xbf]));
}

#[test]
fn base64_errors() {
    assert_eq!(base64_decode("Z"), Err(DecodeError::Truncated));
    assert_eq!(base64_decode("Zm9vY"), Err(DecodeError::Truncated));
    assert_eq!(base64_decode("Zm9v!"), Err(DecodeError::Truncated));
    assert_eq!(base64_decode("Z!9vY"), Err(DecodeError::InvalidByte(b'!')));
    assert_eq!(base64_decode("Zm9-"), Err(DecodeError::InvalidByte(b'-')));
    assert_eq!(base64_decode("é"), Err(DecodeError::InvalidByte(0xc3)));
    assert_eq!(DecodeError::InvalidByte(0xc3).text(), "invalid base64 byte 0xc3");
    assert_eq!(DecodeError::InvalidByte(9).text(), "invalid base64 byte 0x9");
    assert_eq!(DecodeError::Truncated.text(), "truncated base64");
}

#[test]
fn base64_undoes_itself() {
    let mut data = Vec::new();
    for i in 0..300u32 {
        assert_eq!(base64_decode(&base64_encode(&data)), Ok(data.clone()));
        data.push((i * 37 % 256) as u8);
    }
}

#[test]
fn request_ids_count_up() {
    let mut ids = RequestIds::new();
    assert_eq!(next_id(&mut ids), 1);
    assert_eq!(next_id(&mut ids), 2);
    assert_eq!(next_id(&mut ids), 3);
}

#[test]
fn requests_are_json_rpc() {
    assert_eq!(
        line_of(&request(3, "listAgents", Json::empty())),
        "{\"id\":3,\"jsonrpc\":\"2.0\",\"method\":\"listAgents\",\"params\":{}}"
    );
    assert_eq!(
        line_of(&initialize_request(1, None)),
        "{\"id\":1,\"jsonrpc\":\"2.0\",\"method\":\"initialize\",\"params\":{\"clientInfo\":{\"name\":\"agc\",\"version\":\"0.2.0\"},\"protocolVersion\":\"0.1.0\"}}"
    );
    assert_eq!(
        line_of(&initialize_request(1, Some("t\"k"))),
        "{\"id\":1,\"jsonrpc\":\"2.0\",\"method\":\"initialize\",\"params\":{\"_meta\":{\"authToken\":\"t\\\"k\"},\"clientInfo\":{\"name\":\"agc\",\"version\":\"0.2.0\"},\"protocolVersion\":\"0.1.0\"}}"
    );
    assert_eq!(
        line_of(&connect_message("selvkwjv", Some("s3"))),
        "{\"target\":\"selvkwjv\",\"token\":\"s3\",\"type\":\"connect\"}"
    );
    assert_eq!(
        line_of(&connect_message("selvkwjv", None)),
        "{\"target\":\"selvkwjv\",\"type\":\"connect\"}"
    );
    assert_eq!(
        line_of(&bind_params("123456", "dev")),
        "{\"deviceName\":\"dev\",\"pairCode\":\"123456\"}"
    );
    assert_eq!(
        line_of(&access_params("张三", Some("clone"))),
        "{\"agent\":\"clone\",\"clientName\":\"张三\"}"
    );
    assert_eq!(line_of(&access_params("a", None)), "{\"clientName\":\"a\"}");
    assert_eq!(line_of(&check_params("req-1")), "{\"requestId\":\"req-1\"}");
    assert_eq!(
        line_of(&bind_request(2, "123456", "dev")),
        "{\"id\":2,\"jsonrpc\":\"2.0\",\"method\":\"bindDevice\",\"params\":{\"deviceName\":\"dev\",\"pairCode\":\"123456\"}}"
    );
    assert_eq!(
        line_of(&access_request(2, "张三", Some("clone"))),
        "{\"id\":2,\"jsonrpc\":\"2.0\",\"method\":\"requestAccess\",\"params\":{\"agent\":\"clone\",\"clientName\":\"张三\"}}"
    );
    assert_eq!(
        line_of(&check_request(3, "req-1")),
        "{\"id\":3,\"jsonrpc\":\"2.0\",\"method\":\"checkAccess\",\"params\":{\"requestId\":\"req-1\"}}"
    );
    assert_eq!(
        line_of(&agents_request(4)),
        "{\"id\":4,\"jsonrpc\":\"2.0\",\"method\":\"listAgents\",\"params\":{}}"
    );
}

#[test]
fn replies_are_matched_by_id() {
    assert_eq!(rpc_step(4, json("{\"id\":3,\"error\":{\"code\":1}}")), RpcStep::Wait);
    assert_eq!(rpc_step(4, json("{\"method\":\"chunk\"}")), RpcStep::Wait);
    assert_eq!(rpc_step(4, json("{\"id\":\"4\"}")), RpcStep::Wait);
    assert_eq!(rpc_step(4, json("{\"id\":4}")), RpcStep::Done(Json::empty()));
    assert_eq!(rpc_step(4, json("{\"id\":4,\"result\":null}")), RpcStep::Done(Json::Null));
    assert_eq!(
        rpc_step(4, json("{\"id\":4,\"error\":null,\"result\":[1]}")),
        RpcStep::Done(Json::List(vec![Json::Int(1)]))
    );
    assert_eq!(
        rpc_step(4, json("{\"id\":4,\"error\":{\"code\":-32001,\"message\":\"no\"}}")),
        RpcStep::Failed(RpcError { code: -32001, message: "no".to_string() })
    );
}

#[test]
fn errors_have_words() {
    let e = reply_error(&json("{\"error\":\"boom\"}")).unwrap();
    assert_eq!(e, RpcError { code: 0, message: "Unknown error".to_string() });
    assert_eq!(e.text(), "Error (0): Unknown error");
    let e = RpcError { code: i64::MIN, message: "m".to_string() };
    assert_eq!(e.text(), "Error (-9223372036854775808): m");
    assert_eq!(reply_error(&json("{\"error\":null}")), None);
    assert_eq!(reply_error(&json("[]")), None);
    assert_eq!(
        initialize_reply(json("{\"error\":{\"message\":\"bad\"}}")),
        Err("Initialize error: bad".to_string())
    );
    let reply = "{\"result\":{\"authenticated\":true}}";
    assert_eq!(initialize_reply(json(reply)), Ok(json(reply)));
    assert!(authenticated(&json(reply)));
    assert!(!authenticated(&json("{\"result\":{\"authenticated\":1}}")));
    assert!(!authenticated(&json("{}")));
}

#[test]
fn relay_handshake() {
    assert_eq!(relay_reply(&json("{\"type\":\"connected\"}")), Ok(()));
    let refused = relay_reply(&json("{\"type\":\"error\",\"message\":\"offline\"}")).unwrap_err();
    assert_eq!(refused, RelayError::Refused("offline".to_string()));
    assert_eq!(refused.text(), "Relay error: offline");
    let bare = relay_reply(&json("{\"type\":\"error\"}")).unwrap_err();
    assert_eq!(bare.text(), "Relay error: Unknown relay error");
    let odd = relay_reply(&json("{\"type\":\"x\\\"y\"}")).unwrap_err();
    assert_eq!(odd.text(), "Unexpected relay response: Some(\"x\\\"y\")");
    let none = relay_reply(&json("{}")).unwrap_err();
    assert_eq!(none, RelayError::Unexpected(None));
    assert_eq!(none.text(), "Unexpected relay response: None");
}

#[test]
fn results_of_admin_calls() {
    assert_eq!(
        bound_device(&json("{\"token\":\"t\",\"deviceName\":\"d\"}"), "asked"),
        Some(("d".to_string(), "t".to_string()))
    );
    assert_eq!(
        bound_device(&json("{\"token\":\"t\"}"), "asked"),
        Some(("asked".to_string(), "t".to_string()))
    );
    assert_eq!(bound_device(&json("{\"token\":1}"), "asked"), None);
    assert_eq!(
        listed_agents(&json(
            "{\"agents\":[{\"id\":\"a\",\"name\":\"A\"},{\"name\":\"x\"},7,{\"id\":\"b\"}]}"
        )),
        vec![
            ("a".to_string(), "A".to_string()),
            ("b".to_string(), "b".to_string())
        ]
    );
    assert_eq!(listed_agents(&json("{\"agents\":{}}")), vec![]);
    assert_eq!(listed_agents(&json("[]")), vec![]);
}

#[test]
fn session_id_charset() {
    assert!(valid_session_id("Abc-12_z"));
    assert!(!valid_session_id(""));
    assert!(!valid_session_id("a b"));
    assert!(!valid_session_id("a;rm"));
    assert!(!valid_session_id("é"));
}

#[test]
fn answer_is_collected_from_the_stream() {
    let mut run = PromptRun::new(5);
    assert_eq!(
        run.step(json(
            "{\"method\":\"sessionUpdate\",\"params\":{\"update\":{\"content\":{\"text\":\"A\"}}}}"
        )),
        PromptStep::Show("A".to_string())
    );
    assert_eq!(run.step(json("{\"method\":\"sessionUpdate\"}")), PromptStep::Wait);
    assert_eq!(
        run.step(json("{\"id\":6,\"method\":\"chunk\",\"params\":{\"text\":\"other\"}}")),
        PromptStep::Wait
    );
    let bad = "{\"type\":\"result\",\"session_id\":\"no good\"}";
    let first = "{\"type\":\"result\",\"session_id\":\"sid-1\"}";
    let second = "{\"type\":\"result\",\"session_id\":\"sid-2\"}";
    let other = "{\"type\":\"system\",\"session_id\":\"sid-0\"}";
    for text in [bad, other, first, second] {
        let mut params = agc::json::no_fields();
        agc::json::put(&mut params, "text", Json::text(text));
        let mut message = agc::json::no_fields();
        agc::json::put(&mut message, "method", Json::text("chunk"));
        agc::json::put(&mut message, "params", Json::Object(params));
        assert_eq!(run.step(Json::Object(message)), PromptStep::Show(text.to_string()));
    }
    assert_eq!(run.session_id, Some("sid-1".to_string()));
    match run.step(json("{\"id\":5,\"result\":{\"sessionId\":\"gw\"}}")) {
        PromptStep::Done(out) => {
            assert_eq!(out.text_at("sessionId"), Some("sid-1"));
            assert_eq!(out.text_at("stopReason"), Some("endTurn"));
            assert_eq!(
                out.text_at("text"),
                Some(format!("A{bad}{other}{first}{second}").as_str())
            );
            assert_eq!(keys(&out), vec!["sessionId", "stopReason", "text"]);
        }
        other => panic!("{other:?}"),
    }
    let mut run = PromptRun::new(5);
    match run.step(json("{\"id\":5,\"result\":{\"sessionId\":\"gw\",\"stopReason\":3}}")) {
        PromptStep::Done(out) => {
            assert_eq!(out.text_at("sessionId"), Some("gw"));
            assert_eq!(out.get("stopReason"), Some(&Json::Int(3)));
        }
        other => panic!("{other:?}"),
    }
    let mut run = PromptRun::new(5);
    assert_eq!(
        run.step(json("{\"id\":9,\"error\":{\"code\":7,\"message\":\"Authentication required\"}}")),
        PromptStep::Failed(RpcError { code: 7, message: "Authentication required".to_string() })
    );
}

#[test]
fn chunk_tagged_with_our_id_is_part_of_the_answer() {
    let mut run = PromptRun::new(7);
    let chunk = json("{\"id\":7,\"method\":\"chunk\",\"params\":{\"text\":\"a\"}}");
    assert!(!run.is_final(&chunk));
    assert_eq!(run.step(chunk), PromptStep::Show("a".to_string()));
    match run.step(json("{\"result\":{\"stopReason\":\"maxTokens\"}}")) {
        PromptStep::Done(out) => assert_eq!(
            out,
            json("{\"stopReason\":\"maxTokens\",\"text\":\"a\",\"sessionId\":null}")
        ),
        other => panic!("{other:?}"),
    }
    let mut run = PromptRun::new(7);
    let bare = json("{\"id\":7,\"method\":\"chunk\"}");
    assert_eq!(run.step(bare), PromptStep::Wait);
    let last = json("{\"id\":7,\"method\":\"chunk\",\"result\":{\"stopReason\":\"endTurn\"}}");
    assert!(run.is_final(&last));
}

#[test]
fn whole_numbers_beyond_the_sign_are_sent_and_received() {
    let message = json("{\"least\":9223372036854775808,\"most\":18446744073709551615}");
    let line = send(&message);
    assert_eq!(line, "{\"least\":9223372036854775808,\"most\":18446744073709551615}\n");
    let read = read_line(&line).unwrap().unwrap();
    assert_eq!(recv(&read), Some(message));
    match json("9223372036854775808") {
        Json::Large(_) => {}
        other => panic!("{other:?}"),
    }
    assert_eq!(json("9223372036854775807"), Json::Int(i64::MAX));
    assert_eq!(json("9223372036854775808").as_i64(), None);
    match json("18446744073709551616") {
        Json::Number(_) => {}
        other => panic!("{other:?}"),
    }
}

#[test]
fn lines_are_framed() {
    let line = send(&json("{\"b\":\"x\\ny\",\"a\":[1,null,true]}"));
    assert_eq!(line, "{\"a\":[1,null,true],\"b\":\"x\\ny\"}\n");
    assert_eq!(line.matches('\n').count(), 1);
    assert_eq!(parse(line.trim()), Ok(json("{\"b\":\"x\\ny\",\"a\":[1,null,true]}")));
}

#[test]
fn lines_are_read() {
    assert_eq!(read_line(""), Ok(None));
    assert_eq!(read_line("\n"), Ok(Some("".to_string())));
    assert_eq!(read_line(" \u{a0}{ } \u{3000}\r\n"), Ok(Some("{ }".to_string())));
    assert_eq!(recv(""), None);
    assert_eq!(recv("nonsense"), None);
    assert_eq!(recv("{\"type\":\"ping\"}"), None);
    assert_eq!(recv("{\"type\":\"pong\",\"x\":1}"), None);
    assert_eq!(recv("{\"type\":\"other\"}"), Some(json("{\"type\":\"other\"}")));
    assert_eq!(recv("7"), Some(Json::Int(7)));
    assert_eq!(deliver(Err("why".to_string())), None);
}

#[test]
fn first_line_that_counts_is_received() {
    let lines = ["\n", "nonsense\n", "{\"type\":\"ping\"}\n", " {\"a\":1} \r\n", "{\"b\":2}\n"];
    let first = lines.iter().map(|line| receive(line)).find(|r| *r != Received::Skipped);
    assert_eq!(first, Some(Received::Message(json("{\"a\":1}"))));
    assert_eq!(receive(""), Received::Closed);
}

#[test]
fn first_reply_with_the_id_is_taken() {
    let messages = [
        "{\"id\":3,\"result\":1}",
        "{\"error\":{\"code\":9}}",
        "{\"id\":4,\"result\":2}",
        "{\"id\":4,\"result\":3}",
    ];
    let first = messages.iter().map(|m| rpc_step(4, json(m))).find(|s| *s != RpcStep::Wait);
    assert_eq!(first, Some(RpcStep::Done(Json::Int(2))));
}

#[test]
fn overlong_lines_are_refused() {
    let longest = "x".repeat(MAX_LINE_SIZE);
    assert_eq!(read_line(&longest), Ok(Some(longest.clone())));
    let line = format!("{longest}\n");
    let e = read_line(&line).unwrap_err();
    assert_eq!(e, LineTooLong { bytes: MAX_LINE_SIZE + 1 });
    assert_eq!(e.text(), "Line too long (134217729 bytes, max 134217728)");
    assert_eq!(receive(&line), Received::TooLong(LineTooLong { bytes: MAX_LINE_SIZE + 1 }));
}

#[test]
fn json_text_goes_both_ways() {
    let text = "{\"a\":[0,-1,9223372036854775807,18446744073709551615,2.5,\"x\"],\"b\":{},\"c\":false}";
    let value = json(text);
    assert_eq!(line_of(&value), text);
    assert_eq!(
        pretty_of(&json("{\"a\":[1],\"b\":{}}")),
        "{\n  \"a\": [\n    1\n  ],\n  \"b\": {}\n}"
    );
    assert_eq!(parse(&pretty_of(&value)), Ok(value));
    assert_eq!(json("{\"k\":1,\"k\":2}"), json("{\"k\":2}"));
    assert_eq!(json("5").as_i64(), Some(5));
    assert_eq!(json("5.0").as_i64(), None);
    assert_eq!(json("18446744073709551615").as_i64(), None);
    assert_eq!(
        parse("{"),
        Err("EOF while parsing an object at line 1 column 1".to_string())
    );
    let deep = format!("{}{}", "[".repeat(127), "]".repeat(127));
    assert_eq!(line_of(&json(&deep)), deep);
    let deeper = format!("{}{}", "[".repeat(128), "]".repeat(128));
    assert!(parse(&deeper).is_err());
}
