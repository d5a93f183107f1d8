//! The socket to the command server: where it leads, and how it is kept up.
use vstd::prelude::*;

use crate::encoding;
use crate::encoding::percent_encode;
use crate::text::same_text;

verus! {

/// The seconds between a lost or failed connection and the next attempt.
pub const RETRY_SECONDS: u64 = 5;

/// The seconds between two heartbeats.
pub const HEARTBEAT_SECONDS: u64 = 30;

/// The address up to the device's id.
pub const SOCKET_ADDRESS: &'static str =
    "wss://10.11.235.174:8805/haicommand/api/v2/iotSocket?did=";

/// The address after the device's name.
pub const SOCKET_TEMPLATE: &'static str = "&tempId=Tiot2609201013pldt";

/// The address at which the device `id`, called `name`, reports to the server.
pub open spec fn socket_address(id: Seq<char>, name: Seq<char>) -> Seq<char> {
    SOCKET_ADDRESS@ + id + "&name="@ + encoding::percent_encoded(vstd::utf8::encode_utf8(name))
        + SOCKET_TEMPLATE@
}

/// Writes the address at which a device reports; the name is percent-encoded.
pub fn socket_url(device_id: &str, device_name: &str) -> (r: String)
    ensures
        r@ == socket_address(device_id@, device_name@),
{
    let mut url = SOCKET_ADDRESS.to_string();
    url.append(device_id);
    url.append("&name=");
    let name = percent_encode(device_name);
    url.append(name.as_str());
    url.append(SOCKET_TEMPLATE);
    url
}

/// Where the link to the server stands.
#[derive(Clone, Copy, Debug, PartialEq, Eq, Structural)]
pub enum LinkState {
    /// An attempt to connect is under way.
    Connecting,
    /// Connected: heartbeats go out, messages come in.
    Online,
    /// Waiting for the next attempt.
    Waiting,
}

/// What can happen to the link.
#[derive(Debug)]
pub enum LinkEvent {
    /// The attempt to connect failed, for the reason given.
    ConnectFailed(String),
    /// The attempt to connect succeeded.
    Connected,
    /// It is time for a heartbeat.
    HeartbeatDue,
    /// A heartbeat could not be sent.
    HeartbeatFailed,
    /// A text arrived.
    Text(String),
    /// A frame arrived that is neither a text nor a close.
    OtherFrame,
    /// The server closed the connection.
    Closed,
    /// Reading from the connection failed.
    ReadFailed,
    /// The connection has nothing more to read.
    Ended,
    /// The wait for the next attempt is over.
    WaitOver,
}

/// What is to be done about the link.
#[derive(Debug)]
pub enum LinkAction {
    Nothing,
    /// Connect to the server.
    Connect,
    /// Send a text.
    Send(String),
    /// Handle a message.
    Handle(String),
    /// Wait for so many seconds.
    Wait(u64),
}

/// One step of the link: a status to report first, if there is one, then something to do.
#[derive(Debug)]
pub struct LinkStep {
    pub next: LinkState,
    pub status: Option<String>,
    pub action: LinkAction,
}

/// An event, by its content.
pub ghost enum LinkInput {
    ConnectFailed(Seq<char>),
    Connected,
    HeartbeatDue,
    HeartbeatFailed,
    Text(Seq<char>),
    OtherFrame,
    Closed,
    ReadFailed,
    Ended,
    WaitOver,
}

/// An action, by its content.
pub ghost enum LinkDeed {
    Nothing,
    Connect,
    Send(Seq<char>),
    Handle(Seq<char>),
    Wait(int),
}

/// A step, by its content.
pub ghost struct LinkMove {
    pub next: LinkState,
    pub status: Option<Seq<char>>,
    pub deed: LinkDeed,
}

impl View for LinkEvent {
    type V = LinkInput;

    open spec fn view(&self) -> LinkInput {
        match *self {
            LinkEvent::ConnectFailed(reason) => LinkInput::ConnectFailed(reason@),
            LinkEvent::Connected => LinkInput::Connected,
            LinkEvent::HeartbeatDue => LinkInput::HeartbeatDue,
            LinkEvent::HeartbeatFailed => LinkInput::HeartbeatFailed,
            LinkEvent::Text(text) => LinkInput::Text(text@),
            LinkEvent::OtherFrame => LinkInput::OtherFrame,
            LinkEvent::Closed => LinkInput::Closed,
            LinkEvent::ReadFailed => LinkInput::ReadFailed,
            LinkEvent::Ended => LinkInput::Ended,
            LinkEvent::WaitOver => LinkInput::WaitOver,
        }
    }
}

impl View for LinkAction {
    type V = LinkDeed;

    open spec fn view(&self) -> LinkDeed {
        match *self {
            LinkAction::Nothing => LinkDeed::Nothing,
            LinkAction::Connect => LinkDeed::Connect,
            LinkAction::Send(text) => LinkDeed::Send(text@),
            LinkAction::Handle(text) => LinkDeed::Handle(text@),
            LinkAction::Wait(secs) => LinkDeed::Wait(secs as int),
        }
    }
}

impl View for LinkStep {
    type V = LinkMove;

    open spec fn view(&self) -> LinkMove {
        LinkMove {
            next: self.next,
            status: match self.status {
                Some(status) => Some(status@),
                None => None,
            },
            deed: self.action@,
        }
    }
}

/// The move after which the link waits for the next attempt.
pub open spec fn wait_move(status: Seq<char>) -> LinkMove {
    LinkMove {
        next: LinkState::Waiting,
        status: Some(status),
        deed: LinkDeed::Wait(RETRY_SECONDS as int),
    }
}

/// A move that leaves the state as it is and reports nothing.
pub open spec fn quiet_move(state: LinkState, deed: LinkDeed) -> LinkMove {
    LinkMove { next: state, status: None, deed }
}

/// What follows an event. One that cannot happen in the state it meets changes nothing.
pub open spec fn link_move(state: LinkState, input: LinkInput) -> LinkMove {
    match (state, input) {
        (LinkState::Connecting, LinkInput::ConnectFailed(reason)) => wait_move(
            "连接失败: "@ + reason,
        ),
        (LinkState::Connecting, LinkInput::Connected) => LinkMove {
            next: LinkState::Online,
            status: Some("已连接"@),
            deed: LinkDeed::Nothing,
        },
        (LinkState::Online, LinkInput::HeartbeatDue) => quiet_move(state, LinkDeed::Send("1"@)),
        (LinkState::Online, LinkInput::Text(text)) => quiet_move(
            state,
            if text == "1"@ {
                LinkDeed::Nothing
            } else {
                LinkDeed::Handle(text)
            },
        ),
        (LinkState::Online, LinkInput::HeartbeatFailed) => wait_move("已断开，重连中..."@),
        (LinkState::Online, LinkInput::Closed) => wait_move("已断开，重连中..."@),
        (LinkState::Online, LinkInput::ReadFailed) => wait_move("已断开，重连中..."@),
        (LinkState::Online, LinkInput::Ended) => wait_move("已断开，重连中..."@),
        (LinkState::Waiting, LinkInput::WaitOver) => LinkMove {
            next: LinkState::Connecting,
            status: None,
            deed: LinkDeed::Connect,
        },
        _ => quiet_move(state, LinkDeed::Nothing),
    }
}

fn wait_after(status: String) -> (r: LinkStep)
    ensures
        r@ == wait_move(status@),
{
    LinkStep {
        next: LinkState::Waiting,
        status: Some(status),
        action: LinkAction::Wait(RETRY_SECONDS),
    }
}

fn quietly(state: LinkState, action: LinkAction) -> (r: LinkStep)
    ensures
        r@ == quiet_move(state, action@),
{
    LinkStep { next: state, status: None, action }
}

/// The first step of the link: connect.
pub fn link_start() -> (r: LinkStep)
    ensures
        r@ == quiet_move(LinkState::Connecting, LinkDeed::Connect),
{
    quietly(LinkState::Connecting, LinkAction::Connect)
}

/// Takes the link on by one event.
pub fn link_step(state: LinkState, event: LinkEvent) -> (r: LinkStep)
    ensures
        r@ == link_move(state, event@),
{
    match (state, event) {
        (LinkState::Connecting, LinkEvent::ConnectFailed(reason)) => {
            let mut status = "连接失败: ".to_string();
            status.append(reason.as_str());
            wait_after(status)
        },
        (LinkState::Connecting, LinkEvent::Connected) => LinkStep {
            next: LinkState::Online,
            status: Some("已连接".to_string()),
            action: LinkAction::Nothing,
        },
        (LinkState::Online, LinkEvent::HeartbeatDue) => quietly(
            state,
            LinkAction::Send("1".to_string()),
        ),
        (LinkState::Online, LinkEvent::Text(text)) => {
            if same_text(text.as_str(), "1") {
                quietly(state, LinkAction::Nothing)
            } else {
                quietly(state, LinkAction::Handle(text))
            }
        },
        (LinkState::Online, LinkEvent::HeartbeatFailed)
        | (LinkState::Online, LinkEvent::Closed)
        | (LinkState::Online, LinkEvent::ReadFailed)
        | (LinkState::Online, LinkEvent::Ended) => wait_after("已断开，重连中...".to_string()),
        (LinkState::Waiting, LinkEvent::WaitOver) => LinkStep {
            next: LinkState::Connecting,
            status: None,
            action: LinkAction::Connect,
        },
        _ => quietly(state, LinkAction::Nothing),
    }
}

/// The state after a run of events.
pub open spec fn state_after(start: LinkState, inputs: Seq<LinkInput>) -> LinkState
    decreases inputs.len(),
{
    if inputs.len() == 0 {
        start
    } else {
        link_move(state_after(start, inputs.drop_last()), inputs.last()).next
    }
}

/// The deeds that a run of events calls for, in their order.
pub open spec fn deeds_of(start: LinkState, inputs: Seq<LinkInput>) -> Seq<LinkDeed>
    decreases inputs.len(),
{
    if inputs.len() == 0 {
        seq![]
    } else {
        deeds_of(start, inputs.drop_last()).push(
            link_move(state_after(start, inputs.drop_last()), inputs.last()).deed,
        )
    }
}

/// The status that was reported last in a run of events, or `known` if none was.
pub open spec fn status_after(
    start: LinkState,
    known: Option<Seq<char>>,
    inputs: Seq<LinkInput>,
) -> Option<Seq<char>>
    decreases inputs.len(),
{
    if inputs.len() == 0 {
        known
    } else {
        let m = link_move(state_after(start, inputs.drop_last()), inputs.last());
        if m.status is Some {
            m.status
        } else {
            status_after(start, known, inputs.drop_last())
        }
    }
}

/// How many attempts to connect there are among some deeds.
pub open spec fn attempts(deeds: Seq<LinkDeed>) -> nat {
    deeds.filter(|d: LinkDeed| d is Connect).len()
}

/// How many waits there are among some deeds.
pub open spec fn waits(deeds: Seq<LinkDeed>) -> nat {
    deeds.filter(|d: LinkDeed| d is Wait).len()
}

/// A heartbeat's reply is dropped, whatever the state of the link.
pub proof fn law_heartbeat_reply_is_dropped(state: LinkState)
    ensures
        link_move(state, LinkInput::Text("1"@)) == quiet_move(state, LinkDeed::Nothing),
{
}

/// While the link is up, every text but a heartbeat's reply is handled, as it came.
pub proof fn law_messages_are_handled(text: Seq<char>)
    requires
        text != "1"@,
    ensures
        link_move(LinkState::Online, LinkInput::Text(text)) == quiet_move(
            LinkState::Online,
            LinkDeed::Handle(text),
        ),
{
}

/// Nothing is sent and no message handled unless the link is up.
pub proof fn law_talk_only_when_online(state: LinkState, input: LinkInput)
    requires
        link_move(state, input).deed is Send || link_move(state, input).deed is Handle,
    ensures
        state == LinkState::Online,
        link_move(state, input).next == LinkState::Online,
{
}

/// A link that goes down, or does not come up, always reports it, waits, and then connects again.
pub proof fn law_link_is_taken_up_again(state: LinkState, input: LinkInput)
    requires
        state != LinkState::Waiting,
        link_move(state, input).next == LinkState::Waiting,
    ensures
        link_move(state, input).status is Some,
        link_move(state, input).deed == LinkDeed::Wait(RETRY_SECONDS as int),
        link_move(LinkState::Waiting, LinkInput::WaitOver).deed == LinkDeed::Connect,
        link_move(LinkState::Waiting, LinkInput::WaitOver).next == LinkState::Connecting,
{
}

/// After the first attempt there is one wait before each further one, in every course of events:
/// the two are equally many, but for a wait that is still under way.
pub proof fn law_one_wait_before_each_attempt(inputs: Seq<LinkInput>)
    ensures
        ({
            let deeds = deeds_of(LinkState::Connecting, inputs);
            waits(deeds) == attempts(deeds) + (if state_after(LinkState::Connecting, inputs)
                == LinkState::Waiting {
                1int
            } else {
                0
            })
        }),
    decreases inputs.len(),
{
    reveal(Seq::filter);
    if inputs.len() > 0 {
        law_one_wait_before_each_attempt(inputs.drop_last());
        let before = deeds_of(LinkState::Connecting, inputs.drop_last());
        let after = deeds_of(LinkState::Connecting, inputs);
        assert(after.drop_last() =~= before);
    }
}

/// Every wait is for the same five seconds.
pub proof fn law_waits_are_alike(inputs: Seq<LinkInput>, i: int)
    requires
        0 <= i < inputs.len(),
        deeds_of(LinkState::Connecting, inputs)[i] is Wait,
    ensures
        deeds_of(LinkState::Connecting, inputs)[i] == LinkDeed::Wait(RETRY_SECONDS as int),
    decreases inputs.len(),
{
    lemma_deeds_count(inputs.drop_last());
    if i < inputs.len() - 1 {
        law_waits_are_alike(inputs.drop_last(), i);
    }
}

proof fn lemma_deeds_count(inputs: Seq<LinkInput>)
    ensures
        deeds_of(LinkState::Connecting, inputs).len() == inputs.len(),
    decreases inputs.len(),
{
    if inputs.len() > 0 {
        lemma_deeds_count(inputs.drop_last());
    }
}

/// What was reported last tells how the link stands: connected when it is up, and when it waits,
/// that it failed or was lost.
pub proof fn law_status_tells_the_state(inputs: Seq<LinkInput>)
    ensures
        ({
            let status = status_after(LinkState::Connecting, None, inputs);
            match state_after(LinkState::Connecting, inputs) {
                LinkState::Online => status == Some("已连接"@),
                LinkState::Waiting => {
                    ||| status == Some("已断开，重连中..."@)
                    ||| status is Some && "连接失败: "@.is_prefix_of(status->0)
                },
                LinkState::Connecting => status != Some("已连接"@),
            }
        }),
    decreases inputs.len(),
{
    reveal_strlit("已连接");
    reveal_strlit("已断开，重连中...");
    reveal_strlit("连接失败: ");
    if inputs.len() > 0 {
        law_status_tells_the_state(inputs.drop_last());
        let status = status_after(LinkState::Connecting, None, inputs.drop_last());
        if state_after(LinkState::Connecting, inputs.drop_last()) == LinkState::Waiting {
            assert("已断开，重连中..."@[1] != "已连接"@[1]);
            assert("连接失败: "@[0] != "已连接"@[0]);
            if "连接失败: "@.is_prefix_of(status->0) {
                assert(status->0[0] == "连接失败: "@[0]);
            }
        }
        if let LinkInput::ConnectFailed(reason) = inputs.last() {
            assert("连接失败: "@.is_prefix_of("连接失败: "@ + reason));
        }
    }
}

/// An attempt that fails, for whatever reason, is reported with its reason; then the link waits for
/// five seconds and connects again.
pub proof fn law_failed_attempt_is_retried(reason: Seq<char>)
    ensures
        ({
            let failed = link_move(LinkState::Connecting, LinkInput::ConnectFailed(reason));
            let again = link_move(failed.next, LinkInput::WaitOver);
            &&& failed.next == LinkState::Waiting
            &&& failed.status == Some("连接失败: "@ + reason)
            &&& failed.deed == LinkDeed::Wait(5)
            &&& again.next == LinkState::Connecting
            &&& again.status is None
            &&& again.deed is Connect
        }),
{
}

/// A link that was up and is lost, in whichever way, is reported lost; then it waits for five
/// seconds and connects again.
pub proof fn law_lost_link_is_retried(input: LinkInput)
    requires
        input is HeartbeatFailed || input is Closed || input is ReadFailed || input is Ended,
    ensures
        ({
            let lost = link_move(LinkState::Online, input);
            let again = link_move(lost.next, LinkInput::WaitOver);
            &&& lost.next == LinkState::Waiting
            &&& lost.status == Some("已断开，重连中..."@)
            &&& lost.deed == LinkDeed::Wait(5)
            &&& again.next == LinkState::Connecting
            &&& again.status is None
            &&& again.deed is Connect
        }),
{
}

/// An attempt that succeeds is reported and brings the link up; from then on every heartbeat that
/// is due is sent, every thirty seconds, and does nothing else.
pub proof fn law_link_comes_up()
    ensures
        ({
            let up = link_move(LinkState::Connecting, LinkInput::Connected);
            let beat = link_move(up.next, LinkInput::HeartbeatDue);
            &&& up.next == LinkState::Online
            &&& up.status == Some("已连接"@)
            &&& up.deed is Nothing
            &&& beat.next == up.next
            &&& beat.status is None
            &&& beat.deed == LinkDeed::Send("1"@)
        }),
        HEARTBEAT_SECONDS == 30,
{
}

/// While the link is up, a text is handled as it came, once and without a word to the screen,
/// unless it is a heartbeat's reply; other frames are passed over. The link stays up.
pub proof fn law_online_link_passes_texts_on(input: LinkInput)
    requires
        input is Text || input is OtherFrame,
    ensures
        ({
            let m = link_move(LinkState::Online, input);
            &&& m.next == LinkState::Online
            &&& m.status is None
            &&& input is OtherFrame ==> m.deed is Nothing
            &&& input matches LinkInput::Text(text) ==> {
                ||| text == seq!['1'] && m.deed is Nothing
                ||| text != seq!['1'] && m.deed == LinkDeed::Handle(text)
            }
        }),
{
    reveal_strlit("1");
    assert("1"@ =~= seq!['1']);
}

/// An event changes something only in the state it belongs to: the outcome of an attempt while
/// connecting, the end of a wait while waiting, and all else while the link is up.
pub proof fn law_stray_events_change_nothing(state: LinkState, input: LinkInput)
    requires
        match input {
            LinkInput::ConnectFailed(_) | LinkInput::Connected => state != LinkState::Connecting,
            LinkInput::WaitOver => state != LinkState::Waiting,
            _ => state != LinkState::Online,
        },
    ensures
        link_move(state, input).next == state,
        link_move(state, input).status is None,
        link_move(state, input).deed is Nothing,
{
}

/// Whatever has happened, an attempt that fails or a link that is lost is followed by a report, a
/// wait of five seconds and, when that is over, a further attempt.
pub proof fn law_link_never_gives_up(inputs: Seq<LinkInput>, input: LinkInput)
    requires
        match state_after(LinkState::Connecting, inputs) {
            LinkState::Connecting => input is ConnectFailed,
            LinkState::Online => {
                input is HeartbeatFailed || input is Closed || input is ReadFailed || input is Ended
            },
            LinkState::Waiting => false,
        },
    ensures
        ({
            let told = inputs.push(input);
            let over = told.push(LinkInput::WaitOver);
            &&& deeds_of(LinkState::Connecting, told) == deeds_of(
                LinkState::Connecting,
                inputs,
            ).push(LinkDeed::Wait(5))
            &&& status_after(LinkState::Connecting, None, told) is Some
            &&& deeds_of(LinkState::Connecting, over).last() is Connect
            &&& state_after(LinkState::Connecting, over) == LinkState::Connecting
        }),
{
    let told = inputs.push(input);
    let over = told.push(LinkInput::WaitOver);
    assert(told.drop_last() =~= inputs);
    assert(over.drop_last() =~= told);
}

/// What a step of the link does, told of the values that go in and come out.
pub proof fn law_link_step(state: LinkState, event: LinkEvent, r: LinkStep)
    requires
        call_ensures(link_step, (state, event), r),
    ensures
        match (state, event) {
            (LinkState::Connecting, LinkEvent::ConnectFailed(reason)) => {
                &&& r.next == LinkState::Waiting
                &&& r.status matches Some(status) && status@ == "连接失败: "@ + reason@
                &&& r.action == LinkAction::Wait(5)
            },
            (LinkState::Connecting, LinkEvent::Connected) => {
                &&& r.next == LinkState::Online
                &&& r.status matches Some(status) && status@ == "已连接"@
                &&& r.action is Nothing
            },
            (LinkState::Online, LinkEvent::HeartbeatFailed)
            | (LinkState::Online, LinkEvent::Closed)
            | (LinkState::Online, LinkEvent::ReadFailed)
            | (LinkState::Online, LinkEvent::Ended) => {
                &&& r.next == LinkState::Waiting
                &&& r.status matches Some(status) && status@ == "已断开，重连中..."@
                &&& r.action == LinkAction::Wait(5)
            },
            (LinkState::Online, LinkEvent::HeartbeatDue) => {
                &&& r.next == state && r.status is None
                &&& r.action matches LinkAction::Send(text) && text@ == "1"@
            },
            (LinkState::Online, LinkEvent::Text(text)) => {
                &&& r.next == state && r.status is None
                &&& if text@ == "1"@ {
                    r.action is Nothing
                } else {
                    r.action matches LinkAction::Handle(handled) && handled@ == text@
                }
            },
            (LinkState::Waiting, LinkEvent::WaitOver) => {
                &&& r.next == LinkState::Connecting && r.status is None
                &&& r.action is Connect
            },
            _ => r.next == state && r.status is None && r.action is Nothing,
        },
{
}

/// The link starts with an attempt to connect, and without a report.
pub proof fn law_link_starts_by_connecting(r: LinkStep)
    requires
        call_ensures(link_start, (), r),
    ensures
        r.next == LinkState::Connecting,
        r.status is None,
        r.action is Connect,
{
}

/// The device's name can be read off the address: decoding the field gives the name back.
pub proof fn law_address_carries_the_name(name: Seq<char>)
    ensures
        vstd::utf8::decode_utf8(
            encoding::percent_decoded(
                encoding::percent_encoded(vstd::utf8::encode_utf8(name)),
            ),
        ) == name,
{
    encoding::law_percent_decoding_gives_back(vstd::utf8::encode_utf8(name));
    vstd::utf8::encode_utf8_decode_utf8(name);
}

/// Behind the ampersand of the name there is no other one before the end of the field, and so the
/// longer of two fields cannot end the same address as the shorter.
#[verifier::spinoff_prover]
proof fn lemma_field_is_not_longer(id1: Seq<char>, e1: Seq<char>, id2: Seq<char>, e2: Seq<char>)
    requires
        !e2.contains('&'),
        SOCKET_ADDRESS@ + id1 + "&name="@ + e1 + SOCKET_TEMPLATE@ == SOCKET_ADDRESS@ + id2
            + "&name="@ + e2 + SOCKET_TEMPLATE@,
    ensures
        e1.len() >= e2.len(),
{
    reveal_strlit("&name=");
    let s = SOCKET_ADDRESS@ + id1 + "&name="@ + e1 + SOCKET_TEMPLATE@;
    let t = SOCKET_ADDRESS@ + id2 + "&name="@ + e2 + SOCKET_TEMPLATE@;
    if e1.len() < e2.len() {
        let mark1 = SOCKET_ADDRESS@.len() + id1.len() as int;
        let mark2 = SOCKET_ADDRESS@.len() + id2.len() as int;
        let head1 = SOCKET_ADDRESS@ + id1 + "&name="@;
        let head2 = SOCKET_ADDRESS@ + id2 + "&name="@;
        assert(s.len() == head1.len() + e1.len() + SOCKET_TEMPLATE@.len());
        assert(t.len() == head2.len() + e2.len() + SOCKET_TEMPLATE@.len());
        assert(mark2 < mark1);
        assert(head1[mark1] == "&name="@[0]);
        assert(s[mark1] == head1[mark1]);
        if mark1 - mark2 < 6 {
            assert(head2[mark1] == "&name="@[mark1 - mark2]);
            assert(t[mark1] == head2[mark1]);
        } else {
            assert((head2 + e2)[mark1] == e2[mark1 - mark2 - 6]);
            assert(t[mark1] == (head2 + e2)[mark1]);
        }
        assert(false);
    }
}

/// Devices with different ids or names report at different addresses.
pub proof fn law_addresses_differ(
    id1: Seq<char>,
    name1: Seq<char>,
    id2: Seq<char>,
    name2: Seq<char>,
)
    requires
        socket_address(id1, name1) == socket_address(id2, name2),
    ensures
        id1 == id2,
        name1 == name2,
{
    reveal_strlit("&name=");
    let s = socket_address(id1, name1);
    let t = socket_address(id2, name2);
    let e1 = encoding::percent_encoded(vstd::utf8::encode_utf8(name1));
    let e2 = encoding::percent_encoded(vstd::utf8::encode_utf8(name2));
    encoding::law_percent_encoding_is_plain(vstd::utf8::encode_utf8(name1));
    encoding::law_percent_encoding_is_plain(vstd::utf8::encode_utf8(name2));
    lemma_field_is_not_longer(id1, e1, id2, e2);
    lemma_field_is_not_longer(id2, e2, id1, e1);
    let head = SOCKET_ADDRESS@.len() as int;
    let tail = SOCKET_TEMPLATE@.len() as int;
    let n = head + id1.len();
    law_address_carries_the_id(id1, name1);
    law_address_carries_the_id(id2, name2);
    reveal_strlit("wss://10.11.235.174:8805/haicommand/api/v2/iotSocket?did=");
    reveal_strlit("&tempId=Tiot2609201013pldt");
    assert(s.len() == t.len());
    assert(s.subrange(head, n) =~= id1);
    assert(t.subrange(head, n) =~= id2);
    assert(s.subrange(n + 6, s.len() - tail) =~= e1);
    assert(t.subrange(n + 6, t.len() - tail) =~= e2);
    law_address_carries_the_name(name1);
    law_address_carries_the_name(name2);
}

/// The id and the name can be read off the address: behind the server's address the id stands as it
/// is, then the field of the name, percent-encoded byte for byte, and then the template.
pub proof fn law_address_carries_the_id(id: Seq<char>, name: Seq<char>)
    ensures
        ({
            let s = socket_address(id, name);
            let field = encoding::percent_encoded(vstd::utf8::encode_utf8(name));
            let n = id.len() as int;
            &&& s.len() == 89 + n + field.len()
            &&& s.take(57) == "wss://10.11.235.174:8805/haicommand/api/v2/iotSocket?did="@
            &&& s.subrange(57, 57 + n) == id
            &&& s.subrange(57 + n, 63 + n) == "&name="@
            &&& s.subrange(63 + n, s.len() - 26) == field
            &&& s.skip(s.len() - 26) == "&tempId=Tiot2609201013pldt"@
        }),
{
    reveal_strlit("wss://10.11.235.174:8805/haicommand/api/v2/iotSocket?did=");
    reveal_strlit("&name=");
    reveal_strlit("&tempId=Tiot2609201013pldt");
    let s = socket_address(id, name);
    let field = encoding::percent_encoded(vstd::utf8::encode_utf8(name));
    let n = id.len() as int;
    assert(s.take(57) =~= SOCKET_ADDRESS@);
    assert(s.subrange(57, 57 + n) =~= id);
    assert(s.subrange(57 + n, 63 + n) =~= "&name="@);
    assert(s.subrange(63 + n, s.len() - 26) =~= field);
    assert(s.skip(s.len() - 26) =~= SOCKET_TEMPLATE@);
}

/// A server that cuts the address at its fields and undoes the percent-encoding gets the id and the
/// name of the device.
pub proof fn law_server_reads_id_and_name(device_id: &str, device_name: &str, r: String)
    requires
        call_ensures(socket_url, (device_id, device_name), r),
    ensures
        ({
            let n = device_id@.len() as int;
            &&& r@.len() >= 89 + n
            &&& r@.subrange(57, 57 + n) == device_id@
            &&& vstd::utf8::decode_utf8(
                encoding::percent_decoded(r@.subrange(63 + n, r@.len() - 26)),
            ) == device_name@
        }),
{
    law_address_carries_the_id(device_id@, device_name@);
    law_address_carries_the_name(device_name@);
}

} // verus!
