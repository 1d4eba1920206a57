use agc::base64::DecodeError;
use agc::codec::parse;
use agc::consent::{
    begin, consent_step, finish_consent, keep_visitor, leave_open, waiting, Consent, ConsentError,
    ConsentStep, Waiting,
};
use agc::json::Json;
use agc::keyring::{
    default_device_name, gateway_key, keep_owner, stamp, StoredIdentity, TokenStore,
};
use agc::session::{
    asks_for_credentials, borrower, default_ticket, explicit_token, is_unsafe_name,
    kept_token_is_stale, line_feed_due, material_spec, message, mode, opening_ticket, relay_secret,
    resume_id, returned_files, saved_ticket, strip_ask, talk_token, ticket, Mode, ReturnedFile,
};
use agc::text_map::TextMap;
use agc::url::{AgentUrl, UrlError};

fn json(text: &str) -> Json {
    parse(text).unwrap()
}

fn words(list: &[&str]) -> Vec<String> {
    list.iter().map(|w| w.to_string()).collect()
}

/// Behind a relay the key is the target id, whatever the port; dialled directly it is host:port.
#[test]
fn gateway_key_relay_vs_direct() {
    let r = AgentUrl::parse("agent://selvkwjv.relay.aginx.net:8443/clone-creator").unwrap();
    assert_eq!(gateway_key(&r), "selvkwjv");
    let r2 = AgentUrl::parse("agent://selvkwjv.relay.aginx.net/clone-creator").unwrap();
    assert_eq!(gateway_key(&r2), "selvkwjv", "显式端口与默认端口同一身份");
    let d = AgentUrl::parse("agent://192.168.1.100:86").unwrap();
    assert_eq!(gateway_key(&d), "192.168.1.100:86");
}

/// Insert, write, load again: every field is back, with a request pending and with a token.
#[test]
fn store_roundtrip_pending_and_approved() {
    let mut s = TokenStore::default();
    s.gateways.insert(
        "gw1".into(),
        StoredIdentity {
            token: None,
            name: "张三".into(),
            role: "visitor".into(),
            pending_request_id: Some("req-abc".into()),
            saved_at: 123,
        },
    );
    s.gateways.insert(
        "gw2".into(),
        StoredIdentity {
            token: Some("token-x".into()),
            name: "sophie-agc".into(),
            role: "owner".into(),
            pending_request_id: None,
            saved_at: 456,
        },
    );
    let raw = s.save();
    let (back, warning) = TokenStore::load(Some(&raw));
    assert_eq!(warning, None);
    assert_eq!(back, s);
    assert!(!raw.contains("\"token\": null"));
    assert_eq!(raw.matches("\"token\"").count(), 1);
    assert_eq!(raw.matches("\"pending_request_id\"").count(), 1);
    assert_eq!(
        raw,
        "{\n  \"gateways\": {\n    \"gw1\": {\n      \"name\": \"张三\",\n      \"role\": \"visitor\",\n      \"pending_request_id\": \"req-abc\",\n      \"saved_at\": 123\n    },\n    \"gw2\": {\n      \"token\": \"token-x\",\n      \"name\": \"sophie-agc\",\n      \"role\": \"owner\",\n      \"saved_at\": 456\n    }\n  }\n}"
    );
    assert_eq!(TokenStore::default().save(), "{\n  \"gateways\": {}\n}");
}

/// The opening ticket has no key that tickets lack.
#[test]
fn ticket_key_names_camel() {
    let v = json(
        "{\"contextWindowTokens\":0,\"label\":null,\"messages\":[],\"turnSummaries\":[],\"version\":1}",
    );
    let keys = |value: &Json| -> Vec<String> {
        match value {
            Json::Object(fields) => (0..fields.len()).map(|i| fields.entry(i).0.clone()).collect(),
            _ => vec![],
        }
    };
    assert_eq!(
        keys(&v),
        vec!["contextWindowTokens", "label", "messages", "turnSummaries", "version"]
    );
    let opener = opening_ticket();
    assert_eq!(keys(&opener), vec!["label", "messages", "turnSummaries", "version"]);
    for k in keys(&opener) {
        assert!(v.get(&k).is_some(), "the opening ticket has a key that tickets lack: {k}");
        assert_eq!(v.get(&k), opener.get(&k));
    }
}

#[test]
fn urls() {
    let r = AgentUrl::parse("agent://id.relay.example.com/clone-creator").unwrap();
    assert_eq!(r.relay_host, "id.relay.example.com");
    assert_eq!(r.tls_domain, "relay.example.com");
    assert_eq!(r.relay_target, Some("id".to_string()));
    assert_eq!(r.agent, Some("clone-creator".to_string()));
    assert_eq!(r.port, 8443);
    assert!(r.use_tls);
    assert_eq!(r.relay_token, None);
    let d = AgentUrl::parse("agent://host/").unwrap();
    assert_eq!((d.port, d.use_tls, d.agent, d.relay_target), (86, false, None, None));
    assert_eq!(d.tls_domain, d.relay_host);
    assert_eq!(AgentUrl::parse("agent://x.relay.").unwrap().relay_target, None);
    assert_eq!(AgentUrl::parse("agent://.relay.a").unwrap().relay_target, None);
    assert_eq!(AgentUrl::parse("http://x"), Err(UrlError::Scheme));
    assert_eq!(AgentUrl::parse("agent:///x"), Err(UrlError::Host));
    assert_eq!(AgentUrl::parse("agent://h:"), Err(UrlError::Port));
    assert_eq!(AgentUrl::parse("agent://h:65536"), Err(UrlError::Port));
    assert_eq!(AgentUrl::parse("agent://h:8x"), Err(UrlError::Port));
    assert_eq!(AgentUrl::parse("agent://h:065535").unwrap().port, 65535);
}

#[test]
fn maps_keep_one_value_for_each_key() {
    let mut m: TextMap<i64> = TextMap::new();
    assert_eq!(m.insert("b".to_string(), 1), None);
    assert_eq!(m.insert("é".to_string(), 2), None);
    assert_eq!(m.insert("a".to_string(), 3), None);
    assert_eq!(m.insert("".to_string(), 4), None);
    assert_eq!(m.insert("b".to_string(), 5), Some(1));
    assert_eq!(m.len(), 4);
    let keys: Vec<&str> = (0..m.len()).map(|i| m.entry(i).0.as_str()).collect();
    assert_eq!(keys, vec!["", "a", "b", "é"]);
    assert_eq!(m.get("b"), Some(&5));
    assert_eq!(m.get("c"), None);
    assert_eq!(m.remove("a"), Some(3));
    assert_eq!(m.remove("a"), None);
    assert_eq!(m.len(), 3);
}

#[test]
fn damaged_keyrings_count_as_empty() {
    assert_eq!(TokenStore::load(None), (TokenStore::default(), None));
    let (store, told) = TokenStore::load(Some("{"));
    assert_eq!(store, TokenStore::default());
    assert_eq!(told, Some("EOF while parsing an object at line 1 column 1".to_string()));
    for raw in [
        "null",
        "[1]",
        "[{},{}]",
        "{\"gateways\":[]}",
        "{\"gateways\":null}",
        "{\"gateways\":{\"g\":{\"name\":\"n\",\"role\":\"r\"}}}",
        "{\"gateways\":{\"g\":{\"name\":\"n\",\"role\":\"r\",\"saved_at\":1.0}}}",
        "{\"gateways\":{\"g\":{\"token\":1,\"name\":\"n\",\"role\":\"r\",\"saved_at\":1}}}",
    ] {
        let (store, told) = TokenStore::load(Some(raw));
        assert_eq!(store, TokenStore::default(), "{raw}");
        assert_eq!(told, Some("not a keyring".to_string()), "{raw}");
    }
    for raw in ["{}", "{\"other\":1}", "[]", "[{}]", "{\"gateways\":{}}"] {
        assert_eq!(TokenStore::load(Some(raw)), (TokenStore::default(), None), "{raw}");
    }
    let (store, told) = TokenStore::load(Some(
        "{\"gateways\":{\"g\":{\"token\":null,\"name\":\"n\",\"role\":\"r\",\"saved_at\":-1,\"more\":[]},\"h\":[\"t\",\"n\",\"r\",null,2]}}",
    ));
    assert_eq!(told, None);
    let g = store.identity("g").unwrap();
    assert_eq!((g.token.clone(), g.saved_at), (None, -1));
    let h = store.identity("h").unwrap();
    assert_eq!((h.token.clone(), h.saved_at), (Some("t".to_string()), 2));
}

#[test]
fn time_stamps() {
    assert_eq!(stamp(None), 0);
    assert_eq!(stamp(Some(1_700_000_000)), 1_700_000_000);
    assert_eq!(stamp(Some(u64::MAX)), -1);
    assert!(TokenStore::now() > 1_600_000_000);
}

#[test]
fn device_names() {
    assert_eq!(default_device_name(Some("sophie")), "sophie-agc");
    assert_eq!(default_device_name(Some("")), "agc");
    assert_eq!(default_device_name(None), "agc");
}

#[test]
fn consent_is_asked_for_and_waited_for() {
    let mut store = TokenStore::default();
    assert_eq!(begin(store.identity("gw"), "zoe"), Consent::Ask);
    assert_eq!(
        consent_step(Consent::Ask, &json("{\"status\":\"pending\",\"requestId\":\"r1\"}")),
        ConsentStep::Next(Consent::Wait("r1".to_string()))
    );
    assert_eq!(waiting(0, 0), Waiting::Leave);
    assert_eq!(waiting(3, 2), Waiting::Poll);
    assert_eq!(waiting(3, 3), Waiting::GiveUp);
    leave_open(&mut store, "gw", "zoe", "r1".to_string(), 5);
    assert_eq!(begin(store.identity("gw"), "zoe"), Consent::Resume("r1".to_string()));
    assert_eq!(begin(store.identity("gw"), "max"), Consent::Ask);
    assert_eq!(begin(store.identity("other"), "zoe"), Consent::Ask);
    let resume = || Consent::Resume("r1".to_string());
    let wait = || Consent::Wait("r1".to_string());
    let pending = json("{\"status\":\"pending\"}");
    let approved = json("{\"status\":\"approved\",\"token\":\"tok\"}");
    let gone = json("{\"status\":\"notFound\"}");
    assert_eq!(consent_step(resume(), &pending), ConsentStep::Next(wait()));
    assert_eq!(consent_step(resume(), &approved), ConsentStep::Finish);
    assert_eq!(consent_step(resume(), &gone), ConsentStep::Next(Consent::Ask));
    assert_eq!(consent_step(wait(), &pending), ConsentStep::Next(wait()));
    assert_eq!(consent_step(wait(), &approved), ConsentStep::Finish);
    assert_eq!(finish_consent(&mut store, "gw", "zoe", &approved, 9), Ok(()));
    let kept = store.identity("gw").unwrap();
    assert_eq!(
        *kept,
        StoredIdentity {
            token: Some("tok".to_string()),
            name: "zoe".to_string(),
            role: "visitor".to_string(),
            pending_request_id: None,
            saved_at: 9,
        }
    );
    assert_eq!(begin(Some(kept), "zoe"), Consent::Ask);
    assert_eq!(kept.clone(), *kept);
}

#[test]
fn consent_errors() {
    let mut store = TokenStore::default();
    let e = finish_consent(&mut store, "gw", "zoe", &json("{}"), 9).unwrap_err();
    assert_eq!(e, ConsentError::ApprovedWithoutToken);
    assert_eq!(e.text(), "approved 响应缺 token");
    assert_eq!(store, TokenStore::default());
    let failed = |asked: Consent, answer: &str| match consent_step(asked, &json(answer)) {
        ConsentStep::Failed(e) => e.text(),
        other => panic!("{other:?}"),
    };
    assert_eq!(failed(Consent::Ask, "{\"status\":\"pending\"}"), "pending 响应缺 requestId");
    assert_eq!(
        failed(Consent::Ask, "{\"status\":\"notFound\"}"),
        "requestAccess 未知状态: Some(\"notFound\")"
    );
    let wait = || Consent::Wait("r".to_string());
    assert_eq!(failed(wait(), "{\"status\":\"notFound\"}"), "申请被拒或已过期（网关不区分两者）");
    assert_eq!(failed(wait(), "{}"), "checkAccess 未知状态: None");
    assert_eq!(
        ConsentError::TimedOut(300).text(),
        "等待超时（300s）。挂单仍在——主人同意后重跑本命令取票"
    );
    assert_eq!(
        consent_step(Consent::Ask, &json("{\"status\":\"approved\"}")),
        ConsentStep::Granted(None)
    );
    assert_eq!(
        consent_step(Consent::Ask, &json("{\"status\":\"approved\",\"token\":\"t\"}")),
        ConsentStep::Granted(Some("t".to_string()))
    );
}

#[test]
fn kept_tokens_are_used_until_they_are_forgotten() {
    let mut store = TokenStore::default();
    keep_owner(&mut store, "gw", "dev", "tok".to_string(), 1);
    keep_visitor(&mut store, "other", "zoe", None, 2);
    assert_eq!(store.identity("gw").unwrap().role, "owner");
    assert_eq!(
        talk_token(None, store.identity("gw")),
        (Some("tok".to_string()), true)
    );
    assert_eq!(
        talk_token(Some("mine".to_string()), store.identity("gw")),
        (Some("mine".to_string()), false)
    );
    assert_eq!(talk_token(None, store.identity("other")), (None, false));
    let gone = store.forget("gw").unwrap();
    assert_eq!(gone.name, "dev");
    assert_eq!(store.forget("gw"), None);
    assert_eq!(talk_token(None, store.identity("gw")), (None, false));
    assert!(store.identity("other").is_some());
    let reply = json("{\"result\":{\"authenticated\":false}}");
    assert!(kept_token_is_stale(true, &reply));
    assert!(!kept_token_is_stale(false, &reply));
    assert!(!kept_token_is_stale(true, &json("{\"result\":{\"authenticated\":true}}")));
}

#[test]
fn command_line() {
    assert_eq!(strip_ask(words(&["agc", "ask", "u", "ask"])), words(&["agc", "u", "ask"]));
    assert_eq!(strip_ask(words(&["agc", "u"])), words(&["agc", "u"]));
    assert_eq!(strip_ask(words(&["ask"])), words(&["ask"]));
    assert_eq!(relay_secret(Some("e"), Some("f"), None), Some("e".to_string()));
    assert_eq!(relay_secret(Some(""), Some("f"), None), Some("f".to_string()));
    assert_eq!(
        relay_secret(None, None, Some("c".to_string())),
        Some("c".to_string())
    );
    assert_eq!(explicit_token(Some(" t\n"), Some("e"), Some("f")), Some("t".to_string()));
    assert_eq!(explicit_token(None, Some("e"), Some("f")), Some("e".to_string()));
    assert_eq!(explicit_token(None, Some(""), Some("f")), None);
    assert_eq!(explicit_token(None, None, Some("f")), Some("f".to_string()));
    assert_eq!(explicit_token(None, None, None), None);
    assert_eq!(mode(true, true, true), Mode::Logout);
    assert_eq!(mode(false, true, true), Mode::Conflict);
    assert_eq!(mode(false, true, false), Mode::Bind);
    assert_eq!(mode(false, false, true), Mode::RequestAccess);
    assert_eq!(mode(false, false, false), Mode::Talk);
    assert_eq!(message(Some(" x ".to_string()), ""), Some(" x ".to_string()));
    assert_eq!(message(None, " a\nb \n"), Some("a\nb".to_string()));
    assert_eq!(message(None, " \n"), None);
    assert_eq!(message(Some("".to_string()), "x"), None);
    assert_eq!(borrower(Some(""), Some("e")), Some("".to_string()));
    assert_eq!(borrower(None, Some("e")), Some("e".to_string()));
    assert_eq!(borrower(None, Some("")), None);
    assert_eq!(
        material_spec("a=b=c"),
        Some(("a".to_string(), "b=c".to_string()))
    );
    assert_eq!(material_spec("abc"), None);
}

#[test]
fn tickets() {
    assert_eq!(default_ticket(None, None, false), None);
    assert_eq!(default_ticket(None, Some(""), false), None);
    assert_eq!(default_ticket(Some(""), None, false), Some(opening_ticket()));
    assert_eq!(default_ticket(None, Some("b"), false), Some(opening_ticket()));
    assert_eq!(default_ticket(None, None, true), Some(opening_ticket()));
    assert_eq!(ticket(Some("{\"version\":2}"), None, None, true), Ok(Some(json("{\"version\":2}"))));
    assert_eq!(
        ticket(Some("x"), Some("b"), None, true),
        Err("expected value at line 1 column 1".to_string())
    );
    assert_eq!(ticket(None, None, None, false), Ok(None));
    assert_eq!(ticket(None, None, None, true), Ok(Some(opening_ticket())));
    assert_eq!(saved_ticket(&json("{}")), None);
    let answer = json("{\"sessionTicket\":{\"version\":1,\"messages\":[\"a\"]}}");
    let raw = saved_ticket(&answer).unwrap();
    assert_eq!(raw, "{\n  \"messages\": [\n    \"a\"\n  ],\n  \"version\": 1\n}");
    assert_eq!(
        ticket(Some(&raw), None, None, false),
        Ok(Some(json("{\"version\":1,\"messages\":[\"a\"]}")))
    );
}

#[test]
fn answers() {
    assert!(asks_for_credentials("Error (-32001): Authentication required"));
    assert!(!asks_for_credentials("Error (-32001): authentication required"));
    assert!(!asks_for_credentials(""));
    assert!(is_unsafe_name("../x"));
    assert!(is_unsafe_name("a..b"));
    assert!(is_unsafe_name("/etc/passwd"));
    assert!(is_unsafe_name("a\\b"));
    assert!(!is_unsafe_name("a/b.txt"));
    assert!(!is_unsafe_name(""));
    assert_eq!(returned_files(&json("{}")), None);
    assert_eq!(returned_files(&json("{\"files\":{}}")), None);
    assert_eq!(
        returned_files(&json(
            "{\"files\":[{\"name\":\"a.txt\",\"contentBase64\":\"YWJj\"},{\"name\":\"b\"},1,{\"name\":\"../c\",\"contentBase64\":\"!\"},{\"name\":\"d\",\"contentBase64\":\"!!\"}]}"
        )),
        Some(vec![
            ReturnedFile::Write("a.txt".to_string(), b"abc".to_vec()),
            ReturnedFile::Unsafe("../c".to_string()),
            ReturnedFile::Undecodable("d".to_string(), DecodeError::InvalidByte(b'!')),
        ])
    );
    assert_eq!(resume_id(&json("{\"sessionId\":\"s\"}")), Some("s".to_string()));
    assert_eq!(resume_id(&json("{\"sessionId\":\"\"}")), None);
    assert_eq!(resume_id(&json("{\"sessionId\":null}")), None);
    assert!(line_feed_due(&json("{}")));
    assert!(line_feed_due(&json("{\"text\":\"\"}")));
    assert!(line_feed_due(&json("{\"text\":\"a\"}")));
    assert!(!line_feed_due(&json("{\"text\":\"a\\n\"}")));
}

#[test]
fn white_space_is_the_unicode_property() {
    for n in 0..=0x10ffffu32 {
        if let Some(c) = char::from_u32(n) {
            assert_eq!(agc::text::is_white_space(c), c.is_whitespace(), "{n:x}");
        }
    }
    for text in ["", " ", "a", " a b\t", "\u{a0}x\u{3000}", "\n\nx y\r\n", "\u{200b}x"] {
        assert_eq!(agc::text::trim(text), text.trim());
    }
}
