use rrpc::client::Client;
use rrpc::execution::{RequestResult, Step};
use rrpc::server::{Received, Server};
use rrpc::shared::{Calculation, Command, InputType, MsgContentTypes, RequestType, KILL_JSON, KILL_STR};

#[test]
fn text_requests_are_classified_by_prefix() {
    let server = Server::new(InputType::STR, 8080);
    let (t, r) = server.parse_request(Received::Text("SYNC;2+4\0\0".to_string()));
    assert_eq!(t, RequestType::SYNC);
    assert!(matches!(r, RequestResult::ParsedStr(s) if s == "2+4\0\0"));
    let (t, r) = server.parse_request(Received::Text("SYNC;KILL".to_string()));
    assert_eq!(t, RequestType::SYNC);
    assert!(matches!(r, RequestResult::ParsedStrCommand(s) if s == "KILL"));
    let (t, r) = server.parse_request(Received::Text("ASYNC;1+1".to_string()));
    assert_eq!(t, RequestType::ASYNC);
    assert!(matches!(r, RequestResult::ParsedStr(s) if s == "1+1"));
}

#[test]
fn bare_text_requests_are_synchronous() {
    let server = Server::new(InputType::STR, 8080);
    let (t, r) = server.parse_request(Received::Text("2+4".to_string()));
    assert_eq!(t, RequestType::SYNC);
    assert!(matches!(r, RequestResult::ParsedStr(s) if s == "2+4"));
    let (t, r) = server.parse_request(Received::Text("5/0\0\0".to_string()));
    assert_eq!(t, RequestType::SYNC);
    assert!(matches!(r, RequestResult::ParsedStr(s) if s == "5/0\0\0"));
    let kill = Client::new(InputType::STR, 8080).kill();
    let (t, r) = server.parse_request(Received::Text(format!("{}\0\0\0", kill)));
    assert_eq!(t, RequestType::SYNC);
    assert!(matches!(r, RequestResult::ParsedStrCommand(s) if s == "KILL\0\0\0"));
}

#[test]
fn failed_reads_are_errors() {
    let server = Server::new(InputType::JSON, 8000);
    let (t, r) = server.parse_request(Received::Failed("connection reset".to_string()));
    assert_eq!(t, RequestType::SYNC);
    assert!(matches!(r, RequestResult::Error(s) if s == "connection reset"));
}

#[test]
fn json_messages_carry_their_request_type() {
    let server = Server::new(InputType::JSON, 8000);
    let calc = Calculation { operand1: 1, operand2: 2, operator: "+".to_string(), request_type: RequestType::ASYNC };
    let (t, r) = server.parse_request(Received::Message(MsgContentTypes::Type1(calc)));
    assert_eq!(t, RequestType::ASYNC);
    assert!(matches!(r, RequestResult::ParsedJSONCalculation(c) if c.operand2 == 2));
    let cmd = Command { cmd: "KILL".to_string(), operation_type: RequestType::SYNC };
    let (t, r) = server.parse_request(Received::Message(MsgContentTypes::Type2(cmd)));
    assert_eq!(t, RequestType::SYNC);
    assert!(matches!(r, RequestResult::ParsedJSONCommand(c) if c.cmd == "KILL"));
}

#[test]
fn json_payload_only_in_json_mode() {
    let json = Server::new(InputType::JSON, 8000);
    assert_eq!(json.json_payload(" {\"a\": 1}\n\0\0\0"), Some("{\"a\": 1}\n".to_string()));
    let text = Server::new(InputType::STR, 8000);
    assert_eq!(text.json_payload("{}"), None);
}

#[test]
fn addresses() {
    assert_eq!(Server::new(InputType::STR, 8080).address(), "127.0.0.1:8080");
    assert_eq!(Client::new(InputType::JSON, 0).address(), "127.0.0.1:0");
    assert_eq!(Client::new(InputType::JSON, 4294967295).address(), "127.0.0.1:4294967295");
}

#[test]
fn kill_messages() {
    assert_eq!(Client::new(InputType::STR, 8080).kill(), KILL_STR);
    assert_eq!(Client::new(InputType::JSON, 8080).kill(), KILL_JSON);
    assert_eq!(KILL_STR, "KILL");
    assert!(KILL_JSON.contains("\"cmd\": \"KILL\""));
}

#[test]
fn text_server_session_answers_then_stops() {
    let server = Server::new(InputType::STR, 8080);
    let client = Client::new(InputType::STR, 8080);
    let cases = vec![
        ("2+4", "6"),
        ("2+5", "7"),
        ("22+15", "37"),
        ("5-2", "3"),
        ("5*2", "10"),
        ("5/2", "2"),
        ("5/0", "Division by zero"),
    ];
    for (input, expected) in cases {
        let mut read = input.to_string();
        read.push_str(&"\0".repeat(512 - input.len()));
        let (t, r) = server.parse_request(Received::Text(read));
        match r.try_evaluate(t) {
            Some(Step::Respond(Ok(answer))) => assert_eq!(answer, expected),
            _ => panic!("no answer for {}", input),
        }
    }
    let mut read = client.kill().to_string();
    read.push_str(&"\0".repeat(508));
    let (t, r) = server.parse_request(Received::Text(read));
    assert!(matches!(r.try_evaluate(t), Some(Step::Stop)));
}
