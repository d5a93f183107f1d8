use pdf_link::link::{
    link_start, link_step, socket_url, LinkAction, LinkEvent, LinkState, LinkStep, HEARTBEAT_SECONDS, RETRY_SECONDS,
};

fn action_text(step: &LinkStep) -> String {
    match &step.action {
        LinkAction::Nothing => "nothing".to_string(),
        LinkAction::Connect => "connect".to_string(),
        LinkAction::Send(text) => format!("send {}", text),
        LinkAction::Handle(text) => format!("handle {}", text),
        LinkAction::Wait(secs) => format!("wait {}", secs),
    }
}

fn check(state: LinkState, event: LinkEvent, next: LinkState, status: Option<&str>, action: &str) {
    let step = link_step(state, event);
    assert_eq!(step.next, next);
    assert_eq!(step.status.as_deref(), status);
    assert_eq!(action_text(&step), action);
}

const BASE: &str = "wss://10.11.235.174:8805/haicommand/api/v2/iotSocket?did=";
const TAIL: &str = "&tempId=Tiot2609201013pldt";

#[test]
fn the_address_carries_id_and_name() {
    assert_eq!(socket_url("id-1", "Room5"), format!("{}id-1&name=Room5{}", BASE, TAIL));
    assert_eq!(socket_url("", ""), format!("{}&name={}", BASE, TAIL));
}

#[test]
fn the_name_in_the_address_is_percent_encoded() {
    assert_eq!(socket_url("i", "a b&c=d/e-f_g.h~"), format!("{}i&name=a%20b%26c%3Dd%2Fe%2Df%5Fg%2Eh%7E{}", BASE, TAIL));
    assert_eq!(socket_url("i", "会议室"), format!("{}i&name=%E4%BC%9A%E8%AE%AE%E5%AE%A4{}", BASE, TAIL));
    assert_eq!(socket_url("i", "\u{0}\u{7f}%azAZ09"), format!("{}i&name=%00%7F%25azAZ09{}", BASE, TAIL));
}

#[test]
fn the_name_can_be_read_off_the_address() {
    for name in ["Room 5", "会议室&x=1", "100%", "é\u{10ffff}\n"] {
        let url = socket_url("id", name);
        let field = url.split("&name=").nth(1).unwrap().strip_suffix(TAIL).unwrap();
        assert_eq!(percent_encoding::percent_decode_str(field).decode_utf8().unwrap(), name);
        assert!(field.chars().all(|c| c == '%' || c.is_ascii_alphanumeric()));
    }
}

#[test]
fn different_devices_have_different_addresses() {
    assert_ne!(socket_url("a", "bc"), socket_url("ab", "c"));
    assert_ne!(socket_url("a", "b"), socket_url("a", "B"));
    assert_ne!(socket_url("a&name=b", "c"), socket_url("a", "b&name=c"));
}

#[test]
fn the_link_starts_by_connecting() {
    let step = link_start();
    assert_eq!(step.next, LinkState::Connecting);
    assert_eq!(step.status, None);
    assert_eq!(action_text(&step), "connect");
}

#[test]
fn a_failed_attempt_is_reported_and_repeated() {
    check(
        LinkState::Connecting,
        LinkEvent::ConnectFailed("refused".to_string()),
        LinkState::Waiting,
        Some("连接失败: refused"),
        "wait 5",
    );
    check(LinkState::Waiting, LinkEvent::WaitOver, LinkState::Connecting, None, "connect");
    assert_eq!(RETRY_SECONDS, 5);
}

#[test]
fn a_connection_is_reported() {
    check(LinkState::Connecting, LinkEvent::Connected, LinkState::Online, Some("已连接"), "nothing");
}

#[test]
fn heartbeats_go_out_and_their_replies_are_dropped() {
    check(LinkState::Online, LinkEvent::HeartbeatDue, LinkState::Online, None, "send 1");
    check(LinkState::Online, LinkEvent::Text("1".to_string()), LinkState::Online, None, "nothing");
    assert_eq!(HEARTBEAT_SECONDS, 30);
}

#[test]
fn messages_are_handled_and_other_frames_dropped() {
    check(LinkState::Online, LinkEvent::Text("11".to_string()), LinkState::Online, None, "handle 11");
    check(LinkState::Online, LinkEvent::Text("".to_string()), LinkState::Online, None, "handle ");
    check(LinkState::Online, LinkEvent::OtherFrame, LinkState::Online, None, "nothing");
}

#[test]
fn a_lost_connection_is_reported_and_taken_up_again() {
    for event in [LinkEvent::HeartbeatFailed, LinkEvent::Closed, LinkEvent::ReadFailed, LinkEvent::Ended] {
        check(LinkState::Online, event, LinkState::Waiting, Some("已断开，重连中..."), "wait 5");
    }
}

#[test]
fn events_out_of_place_change_nothing() {
    check(LinkState::Waiting, LinkEvent::Text("x".to_string()), LinkState::Waiting, None, "nothing");
    check(LinkState::Connecting, LinkEvent::HeartbeatDue, LinkState::Connecting, None, "nothing");
    check(LinkState::Online, LinkEvent::WaitOver, LinkState::Online, None, "nothing");
}

#[test]
fn there_is_one_wait_before_each_further_attempt() {
    let mut state = link_start().next;
    let (mut attempts, mut waits) = (1, 0);
    for round in 0..50 {
        let events = if round % 3 == 0 {
            vec![LinkEvent::ConnectFailed("x".to_string()), LinkEvent::WaitOver]
        } else {
            vec![LinkEvent::Connected, LinkEvent::HeartbeatDue, LinkEvent::Closed, LinkEvent::WaitOver]
        };
        for event in events {
            let step = link_step(state, event);
            state = step.next;
            match step.action {
                LinkAction::Connect => attempts += 1,
                LinkAction::Wait(_) => waits += 1,
                _ => {}
            }
        }
    }
    assert_eq!(attempts, waits + 1);
}
