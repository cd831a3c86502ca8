//! The control plane: the status the agent publishes, its event log, and the
//! line protocol that reads them. The caller supplies timestamps and link
//! state and carries the text to and from the control socket.
use std::collections::VecDeque;
use vstd::prelude::*;
use vstd::string::StringExecFns;

use super::backend::{BackendStatus, BackendStatusView};
use super::protocol::{Request, ACTION_GET_ALL_ALARMS_NEXT, ACTION_MIB_UPLOAD_NEXT};
use super::entity::RowView;
use super::provisioning::{
    entity_views, DataPathAttribute, DataPathAttributeView, DataPathCandidate, DataPathEntity, DataPathEntityView,
    DataPathGraph, DataPathTableRow, ProvisioningSnapshot,
};
use super::text::{
    hex_bytes, push_char, push_json_string, spec_hex_bytes, spec_json_string, chars_equal, parse_unsigned, push_bool, push_decimal, push_hex, push_text, spec_bool, spec_decimal, spec_hex,
    spec_parse_unsigned, spec_words, word_views, words,
};
use super::config::{str_chars, trim, trim_bounds};

verus! {

/// The version of the control line protocol.
pub const CONTROL_PROTOCOL_VERSION: u8 = 1;
/// Events kept for `EVENTS` requests.
pub const EVENT_CAPACITY: usize = 256;

/// The last request received or answered.
#[derive(Clone, Copy, Debug)]
pub struct Transaction {
    pub tci: u16,
    pub action: u8,
    pub class_id: u16,
    pub entity_id: u16,
    pub attribute_mask: u16,
    pub result: Option<u8>,
}

/// One entry of the event log.
pub struct Event {
    pub sequence: u64,
    pub timestamp_ms: u128,
    pub kind: &'static str,
    pub message: String,
}

pub ghost struct EventView {
    pub sequence: u64,
    pub timestamp_ms: u128,
    pub kind: Seq<char>,
    pub message: Seq<char>,
}

impl View for Event {
    type V = EventView;

    open spec fn view(&self) -> EventView {
        EventView { sequence: self.sequence, timestamp_ms: self.timestamp_ms, kind: self.kind@, message: self.message@ }
    }
}

pub open spec fn event_views(events: Seq<Event>) -> Seq<EventView> {
    events.map_values(|e: Event| e@)
}

/// What the agent publishes about itself.
pub struct StatusHub {
    interface: String,
    loid_configured: bool,
    rx_messages: u64,
    tx_messages: u64,
    parse_errors: u64,
    authentication_status: Option<u8>,
    authentication_meaning: &'static str,
    provisioning: ProvisioningSnapshot,
    data_path_graph: DataPathGraph,
    backend: BackendStatus,
    last_transaction: Option<Transaction>,
    event_sequence: u64,
    events: VecDeque<Event>,
}

pub ghost struct StatusView {
    pub interface: Seq<char>,
    pub loid_configured: bool,
    pub rx_messages: u64,
    pub tx_messages: u64,
    pub parse_errors: u64,
    pub authentication_status: Option<u8>,
    pub authentication_meaning: Seq<char>,
    pub provisioning: ProvisioningSnapshot,
    pub data_path_graph: DataPathGraph,
    pub backend: BackendStatusView,
    pub last_transaction: Option<Transaction>,
    /// The sequence number of the latest event.
    pub event_sequence: u64,
    /// The kept events, oldest first.
    pub events: Seq<EventView>,
}

impl View for StatusHub {
    type V = StatusView;

    closed spec fn view(&self) -> StatusView {
        StatusView {
            interface: self.interface@,
            loid_configured: self.loid_configured,
            rx_messages: self.rx_messages,
            tx_messages: self.tx_messages,
            parse_errors: self.parse_errors,
            authentication_status: self.authentication_status,
            authentication_meaning: self.authentication_meaning@,
            provisioning: self.provisioning,
            data_path_graph: self.data_path_graph,
            backend: self.backend@,
            last_transaction: self.last_transaction,
            event_sequence: self.event_sequence,
            events: event_views(self.events@),
        }
    }
}

/// A counter after one more, wrapping to zero past its largest value.
pub open spec fn count_up(n: u64) -> u64 {
    if n == u64::MAX { 0 } else { (n + 1) as u64 }
}

fn next_count(n: u64) -> (next: u64)
    ensures
        next == count_up(n),
{
    if n == u64::MAX { 0 } else { n + 1 }
}

/// The log after the event of `kind` and `message` at `timestamp_ms`: it takes
/// the next sequence number, and the oldest event leaves a full log.
pub open spec fn spec_record_event(s: StatusView, kind: Seq<char>, message: Seq<char>, timestamp_ms: u128) -> StatusView {
    let sequence = count_up(s.event_sequence);
    let kept = if s.events.len() == EVENT_CAPACITY { s.events.drop_first() } else { s.events };
    StatusView {
        event_sequence: sequence,
        events: kept.push(EventView { sequence, timestamp_ms, kind, message }),
        ..s
    }
}

/// The log keeps at most its capacity of events, numbered in increasing order
/// up to the latest sequence number.
pub open spec fn log_wf(s: StatusView) -> bool {
    &&& s.events.len() <= EVENT_CAPACITY
    &&& forall|i: int, j: int| 0 <= i < j < s.events.len() ==> (#[trigger] s.events[i]).sequence < (#[trigger] s.events[j]).sequence
    &&& forall|i: int| 0 <= i < s.events.len() ==> (#[trigger] s.events[i]).sequence <= s.event_sequence
}

/// The transaction a request describes, with a result where one was sent.
pub open spec fn transaction_of(request: Request, result: Option<u8>) -> Transaction {
    Transaction {
        tci: request.tci,
        action: request.action,
        class_id: request.class_id,
        entity_id: request.entity_id,
        attribute_mask: request.attribute_mask,
        result,
    }
}

pub open spec fn selector_text(request: Request) -> Seq<char> {
    if request.action == ACTION_MIB_UPLOAD_NEXT || request.action == ACTION_GET_ALL_ALARMS_NEXT {
        "sequence"@
    } else {
        "mask"@
    }
}

/// `tci=0x.. action=0x.. class=.. entity=..`, the start of the rx and tx event messages.
pub open spec fn request_text(request: Request) -> Seq<char> {
    "tci=0x"@ + spec_hex(request.tci as nat, 4) + " action=0x"@ + spec_hex(request.action as nat, 2) + " class="@
        + spec_decimal(request.class_id as nat) + " entity="@ + spec_decimal(request.entity_id as nat)
}

pub open spec fn rx_message(request: Request) -> Seq<char> {
    request_text(request) + " "@ + selector_text(request) + "=0x"@ + spec_hex(request.attribute_mask as nat, 4)
}

pub open spec fn result_text(result: Option<u8>) -> Seq<char> {
    match result {
        Some(value) => "0x"@ + spec_hex(value as nat, 2),
        None => "none"@,
    }
}

pub open spec fn tx_message(request: Request, result: Option<u8>, retransmission: bool) -> Seq<char> {
    request_text(request) + " result="@ + result_text(result) + " retransmission="@ + spec_bool(retransmission)
}

pub open spec fn authentication_message(status: u8, meaning: Seq<char>) -> Seq<char> {
    "status="@ + spec_decimal(status as nat) + " meaning="@ + meaning
}

fn push_request_text(text: &mut String, request: &Request)
    ensures
        final(text)@ == old(text)@ + request_text(*request),
{
    push_text(text, "tci=0x");
    push_hex(text, request.tci as u128, 4);
    push_text(text, " action=0x");
    push_hex(text, request.action as u128, 2);
    push_text(text, " class=");
    push_decimal(text, request.class_id as u128);
    push_text(text, " entity=");
    push_decimal(text, request.entity_id as u128);
    assert(text@ =~= old(text)@ + request_text(*request));
}

impl StatusHub {
    /// The status of an agent that just started, whose log holds the start event.
    pub fn new(interface: &str, loid_configured: bool, timestamp_ms: u128) -> (hub: StatusHub)
        ensures
            hub@.interface == interface@,
            hub@.loid_configured == loid_configured,
            hub@.rx_messages == 0,
            hub@.tx_messages == 0,
            hub@.parse_errors == 0,
            hub@.authentication_status is None,
            hub@.authentication_meaning == "not-reported"@,
            hub@.provisioning.data_paths@.len() == 0,
            hub@.data_path_graph.candidates@.len() == 0,
            hub@.data_path_graph.entities@.len() == 0,
            hub@.backend == super::backend::spec_initial_status(),
            hub@.last_transaction is None,
            hub@.event_sequence == 1,
            hub@.events == seq![EventView { sequence: 1, timestamp_ms, kind: "lifecycle"@, message: "OMCI daemon started"@ }],
            log_wf(hub@),
    {
        let mut interface_text = String::new();
        push_text(&mut interface_text, interface);
        let mut hub = StatusHub {
            interface: interface_text,
            loid_configured,
            rx_messages: 0,
            tx_messages: 0,
            parse_errors: 0,
            authentication_status: None,
            authentication_meaning: "not-reported",
            provisioning: ProvisioningSnapshot::default(),
            data_path_graph: DataPathGraph::default(),
            backend: BackendStatus::default(),
            last_transaction: None,
            event_sequence: 0,
            events: VecDeque::new(),
        };
        let mut message = String::new();
        push_text(&mut message, "OMCI daemon started");
        hub.record_event("lifecycle", message, timestamp_ms);
        assert(hub@.events =~= seq![EventView { sequence: 1, timestamp_ms, kind: "lifecycle"@, message: "OMCI daemon started"@ }]);
        hub
    }

    /// Adds an event to the log.
    pub fn record_event(&mut self, kind: &'static str, message: String, timestamp_ms: u128)
        ensures
            final(self)@ == spec_record_event(old(self)@, kind@, message@, timestamp_ms),
            log_wf(old(self)@) && old(self)@.event_sequence < u64::MAX ==> log_wf(final(self)@),
    {
        self.event_sequence = next_count(self.event_sequence);
        let sequence = self.event_sequence;
        if self.events.len() == EVENT_CAPACITY {
            self.events.pop_front();
        }
        self.events.push_back(Event { sequence, timestamp_ms, kind, message });
        proof {
            let before = old(self)@.events;
            let kept = if before.len() == EVENT_CAPACITY { before.drop_first() } else { before };
            if old(self).event_sequence < u64::MAX {
                assert(sequence == old(self).event_sequence + 1);
            }
            assert(event_views(self.events@) =~= kept.push(EventView { sequence, timestamp_ms, kind: kind@, message: message@ }));
        }
    }

    /// A request arrived.
    pub fn record_rx(&mut self, request: &Request, timestamp_ms: u128)
        ensures
            final(self)@ == spec_record_event(
                StatusView {
                    rx_messages: count_up(old(self)@.rx_messages),
                    last_transaction: Some(transaction_of(*request, None)),
                    ..old(self)@
                },
                "rx"@,
                rx_message(*request),
                timestamp_ms,
            ),
    {
        self.rx_messages = next_count(self.rx_messages);
        self.last_transaction = Some(Transaction {
            tci: request.tci,
            action: request.action,
            class_id: request.class_id,
            entity_id: request.entity_id,
            attribute_mask: request.attribute_mask,
            result: None,
        });
        let mut message = String::new();
        push_request_text(&mut message, request);
        push_text(&mut message, " ");
        push_text(&mut message, request.selector_name());
        push_text(&mut message, "=0x");
        push_hex(&mut message, request.attribute_mask as u128, 4);
        assert(message@ =~= rx_message(*request));
        self.record_event("rx", message, timestamp_ms);
    }

    /// A response was sent, or resent for a retransmitted request.
    pub fn record_tx(&mut self, request: &Request, result: Option<u8>, retransmission: bool, timestamp_ms: u128)
        ensures
            final(self)@ == spec_record_event(
                StatusView {
                    tx_messages: count_up(old(self)@.tx_messages),
                    last_transaction: Some(transaction_of(*request, result)),
                    ..old(self)@
                },
                "tx"@,
                tx_message(*request, result, retransmission),
                timestamp_ms,
            ),
    {
        self.tx_messages = next_count(self.tx_messages);
        self.last_transaction = Some(Transaction {
            tci: request.tci,
            action: request.action,
            class_id: request.class_id,
            entity_id: request.entity_id,
            attribute_mask: request.attribute_mask,
            result,
        });
        let mut message = String::new();
        push_request_text(&mut message, request);
        push_text(&mut message, " result=");
        match result {
            Some(value) => {
                push_text(&mut message, "0x");
                push_hex(&mut message, value as u128, 2);
            },
            None => push_text(&mut message, "none"),
        }
        push_text(&mut message, " retransmission=");
        push_bool(&mut message, retransmission);
        assert(message@ =~= tx_message(*request, result, retransmission));
        self.record_event("tx", message, timestamp_ms);
    }

    /// A frame could not be read as a request.
    pub fn record_parse_error(&mut self, error: &str, timestamp_ms: u128)
        ensures
            final(self)@ == spec_record_event(
                StatusView { parse_errors: count_up(old(self)@.parse_errors), ..old(self)@ },
                "parse-error"@,
                error@,
                timestamp_ms,
            ),
    {
        self.parse_errors = next_count(self.parse_errors);
        let mut message = String::new();
        push_text(&mut message, error);
        self.record_event("parse-error", message, timestamp_ms);
    }

    /// The OLT reported the LOID authentication result.
    pub fn record_authentication_status(&mut self, status: u8, meaning: &'static str, timestamp_ms: u128)
        ensures
            final(self)@ == spec_record_event(
                StatusView { authentication_status: Some(status), authentication_meaning: meaning@, ..old(self)@ },
                "authentication"@,
                authentication_message(status, meaning@),
                timestamp_ms,
            ),
    {
        self.authentication_status = Some(status);
        self.authentication_meaning = meaning;
        let mut message = String::new();
        push_text(&mut message, "status=");
        push_decimal(&mut message, status as u128);
        push_text(&mut message, " meaning=");
        push_text(&mut message, meaning);
        assert(message@ =~= authentication_message(status, meaning@));
        self.record_event("authentication", message, timestamp_ms);
    }

    /// Sending or receiving failed.
    pub fn record_transport_error(&mut self, error: &str, timestamp_ms: u128)
        ensures
            final(self)@ == spec_record_event(old(self)@, "transport-error"@, error@, timestamp_ms),
    {
        let mut message = String::new();
        push_text(&mut message, error);
        self.record_event("transport-error", message, timestamp_ms);
    }

    /// The provisioning the MIB describes and the backend's view of it.
    pub fn record_provisioning(&mut self, provisioning: ProvisioningSnapshot, data_path_graph: DataPathGraph, backend: BackendStatus)
        ensures
            final(self)@ == (StatusView { provisioning, data_path_graph, backend: backend@, ..old(self)@ }),
    {
        self.provisioning = provisioning;
        self.data_path_graph = data_path_graph;
        self.backend = backend;
    }
}

/// A control request line.
#[derive(Clone, Copy, Debug, PartialEq, Eq, Structural)]
pub enum ControlRequest {
    Status,
    DataPath,
    /// The events numbered above `after`.
    Events { after: u64 },
    /// An `EVENTS` request whose cursor is not a number.
    InvalidCursor,
    Unsupported,
}

pub open spec fn status_word() -> Seq<char> {
    seq!['S', 'T', 'A', 'T', 'U', 'S']
}

pub open spec fn data_path_word() -> Seq<char> {
    seq!['D', 'A', 'T', 'A', 'P', 'A', 'T', 'H']
}

pub open spec fn events_word() -> Seq<char> {
    seq!['E', 'V', 'E', 'N', 'T', 'S']
}

/// What a control line asks for: `STATUS 1`, `DATAPATH 1` or `EVENTS 1 <after>`
/// as its words; anything else is unsupported.
pub open spec fn spec_control_request(line: Seq<char>) -> ControlRequest {
    let w = spec_words(line);
    if w.len() == 2 && w[0] == status_word() && w[1] == seq!['1'] {
        ControlRequest::Status
    } else if w.len() == 2 && w[0] == data_path_word() && w[1] == seq!['1'] {
        ControlRequest::DataPath
    } else if w.len() == 3 && w[0] == events_word() && w[1] == seq!['1'] {
        match spec_parse_unsigned(w[2], 10, 0xffff_ffff_ffff_ffff) {
            Some(after) => ControlRequest::Events { after: after as u64 },
            None => ControlRequest::InvalidCursor,
        }
    } else {
        ControlRequest::Unsupported
    }
}

/// Reads a control request line.
pub fn parse_control_request(line: &str) -> (request: ControlRequest)
    ensures
        request == spec_control_request(line@),
{
    let chars = str_chars(line);
    let w = words(&chars);
    let ghost views = word_views(w@);
    proof {
        reveal_strlit("STATUS");
        reveal_strlit("DATAPATH");
        reveal_strlit("EVENTS");
        reveal_strlit("1");
        assert("STATUS"@ =~= status_word());
        assert("DATAPATH"@ =~= data_path_word());
        assert("EVENTS"@ =~= events_word());
        assert("1"@ =~= seq!['1']);
    }
    if w.len() == 2 {
        assert(views[0] == w@[0]@ && views[1] == w@[1]@);
        let one = chars_equal(&w[1], "1");
        if chars_equal(&w[0], "STATUS") && one {
            return ControlRequest::Status;
        }
        if chars_equal(&w[0], "DATAPATH") && one {
            return ControlRequest::DataPath;
        }
        return ControlRequest::Unsupported;
    }
    if w.len() == 3 {
        assert(views[0] == w@[0]@ && views[1] == w@[1]@ && views[2] == w@[2]@);
        if chars_equal(&w[0], "EVENTS") && chars_equal(&w[1], "1") {
            return match parse_unsigned(&w[2], 10, 0xffff_ffff_ffff_ffff) {
                Some(after) => ControlRequest::Events { after: after as u64 },
                None => ControlRequest::InvalidCursor,
            };
        }
    }
    ControlRequest::Unsupported
}

/// Items separated by commas.
pub open spec fn spec_joined(items: Seq<Seq<char>>) -> Seq<char>
    decreases items.len(),
{
    if items.len() == 0 {
        Seq::empty()
    } else if items.len() == 1 {
        items[0]
    } else {
        spec_joined(items.drop_last()) + seq![','] + items.last()
    }
}

pub open spec fn spec_optional(value: Option<nat>) -> Seq<char> {
    match value {
        Some(n) => spec_decimal(n),
        None => "null"@,
    }
}

pub open spec fn optional_u8(value: Option<u8>) -> Option<nat> {
    match value {
        Some(n) => Some(n as nat),
        None => None,
    }
}

pub open spec fn optional_u16(value: Option<u16>) -> Option<nat> {
    match value {
        Some(n) => Some(n as nat),
        None => None,
    }
}

pub open spec fn spec_optional_text(value: Option<Seq<char>>) -> Seq<char> {
    match value {
        Some(t) => spec_json_string(t),
        None => "null"@,
    }
}

pub open spec fn u16_numbers(values: Seq<u16>) -> Seq<Seq<char>> {
    values.map_values(|v: u16| spec_decimal(v as nat))
}

pub open spec fn u8_numbers(values: Seq<u8>) -> Seq<Seq<char>> {
    values.map_values(|v: u8| spec_decimal(v as nat))
}

/// The joining step: an item after `i` joined items.
proof fn lemma_joined_step(items: Seq<Seq<char>>, i: int)
    requires
        0 <= i < items.len(),
    ensures
        spec_joined(items.take(i + 1)) == spec_joined(items.take(i)) + (if i == 0 { Seq::<char>::empty() } else { seq![','] })
            + items[i],
{
    let t = items.take(i + 1);
    assert(t.drop_last() =~= items.take(i));
    assert(t.last() == items[i]);
    if i == 0 {
        assert(items.take(0).len() == 0);
        assert(spec_joined(items.take(0)) == Seq::<char>::empty());
        assert(spec_joined(t) == t[0]);
        assert(Seq::<char>::empty() + Seq::<char>::empty() + items[0] =~= items[0]);
    }
}

fn push_optional(text: &mut String, value: Option<u128>)
    ensures
        final(text)@ == old(text)@ + match value {
            Some(n) => spec_decimal(n as nat),
            None => "null"@,
        },
{
    match value {
        Some(n) => push_decimal(text, n),
        None => push_text(text, "null"),
    }
}

fn push_optional_text(text: &mut String, value: &Option<String>)
    ensures
        final(text)@ == old(text)@ + spec_optional_text(super::backend::text_view(*value)),
{
    match value {
        Some(t) => push_json_string(text, t.as_str()),
        None => push_text(text, "null"),
    }
}

fn push_u16_list(text: &mut String, values: &Vec<u16>)
    ensures
        final(text)@ == old(text)@ + spec_joined(u16_numbers(values@)),
{
    let ghost start = text@;
    let ghost items = u16_numbers(values@);
    let mut i: usize = 0;
    assert(items.take(0).len() == 0);
    while i < values.len()
        invariant
            i <= values@.len(),
            items == u16_numbers(values@),
            text@ == start + spec_joined(items.take(i as int)),
        decreases values@.len() - i,
    {
        proof {
            lemma_joined_step(items, i as int);
        }
        let ghost before = text@;
        if i != 0 {
            push_char(text, ',');
        }
        push_decimal(text, values[i] as u128);
        assert(text@ =~= start + spec_joined(items.take(i + 1)));
        i += 1;
    }
    assert(items.take(values@.len() as int) =~= items);
}

fn push_u8_list(text: &mut String, values: &Vec<u8>)
    ensures
        final(text)@ == old(text)@ + spec_joined(u8_numbers(values@)),
{
    let ghost start = text@;
    let ghost items = u8_numbers(values@);
    let mut i: usize = 0;
    assert(items.take(0).len() == 0);
    while i < values.len()
        invariant
            i <= values@.len(),
            items == u8_numbers(values@),
            text@ == start + spec_joined(items.take(i as int)),
        decreases values@.len() - i,
    {
        proof {
            lemma_joined_step(items, i as int);
        }
        if i != 0 {
            push_char(text, ',');
        }
        push_decimal(text, values[i] as u128);
        assert(text@ =~= start + spec_joined(items.take(i + 1)));
        i += 1;
    }
    assert(items.take(values@.len() as int) =~= items);
}

pub open spec fn spec_transaction_json(t: Transaction) -> Seq<char> {
    "{\"tci\":"@ + spec_decimal(t.tci as nat) + ",\"action\":"@ + spec_decimal(t.action as nat) + ",\"class_id\":"@
        + spec_decimal(t.class_id as nat) + ",\"entity_id\":"@ + spec_decimal(t.entity_id as nat)
        + ",\"attribute_mask\":"@ + spec_decimal(t.attribute_mask as nat) + ",\"result\":"@
        + spec_optional(optional_u8(t.result)) + "}"@
}

/// The last transaction as JSON.
pub fn transaction_json(transaction: &Transaction) -> (json: String)
    ensures
        json@ == spec_transaction_json(*transaction),
{
    let mut json = String::new();
    push_text(&mut json, "{\"tci\":");
    push_decimal(&mut json, transaction.tci as u128);
    push_text(&mut json, ",\"action\":");
    push_decimal(&mut json, transaction.action as u128);
    push_text(&mut json, ",\"class_id\":");
    push_decimal(&mut json, transaction.class_id as u128);
    push_text(&mut json, ",\"entity_id\":");
    push_decimal(&mut json, transaction.entity_id as u128);
    push_text(&mut json, ",\"attribute_mask\":");
    push_decimal(&mut json, transaction.attribute_mask as u128);
    push_text(&mut json, ",\"result\":");
    push_optional(&mut json, match transaction.result {
        Some(v) => Some(v as u128),
        None => None,
    });
    push_text(&mut json, "}");
    assert(json@ =~= spec_transaction_json(*transaction));
    json
}

pub open spec fn spec_event_json(e: EventView) -> Seq<char> {
    "{\"sequence\":"@ + spec_decimal(e.sequence as nat) + ",\"timestamp_ms\":"@ + spec_decimal(e.timestamp_ms as nat)
        + ",\"kind\":"@ + spec_json_string(e.kind) + ",\"message\":"@ + spec_json_string(e.message) + "}"@
}

/// An event as one JSON line.
pub fn event_json(event: &Event) -> (json: String)
    ensures
        json@ == spec_event_json(event@),
{
    let mut json = String::new();
    push_text(&mut json, "{\"sequence\":");
    push_decimal(&mut json, event.sequence as u128);
    push_text(&mut json, ",\"timestamp_ms\":");
    push_decimal(&mut json, event.timestamp_ms);
    push_text(&mut json, ",\"kind\":");
    push_json_string(&mut json, event.kind);
    push_text(&mut json, ",\"message\":");
    push_json_string(&mut json, event.message.as_str());
    push_text(&mut json, "}");
    assert(json@ =~= spec_event_json(event@));
    json
}

/// The JSON lines of the kept events numbered above `after`, oldest first.
pub open spec fn spec_events_after(events: Seq<EventView>, after: u64) -> Seq<Seq<char>>
    decreases events.len(),
{
    if events.len() == 0 {
        Seq::empty()
    } else if events.last().sequence > after {
        spec_events_after(events.drop_last(), after).push(spec_event_json(events.last()))
    } else {
        spec_events_after(events.drop_last(), after)
    }
}

/// The reply to an unsupported control request.
pub open spec fn spec_unsupported_reply() -> Seq<char> {
    "{\"error\":\"unsupported control request\",\"protocol_version\":"@ + spec_decimal(CONTROL_PROTOCOL_VERSION as nat) + "}"@
}

pub fn unsupported_reply() -> (reply: String)
    ensures
        reply@ == spec_unsupported_reply(),
{
    let mut reply = String::new();
    push_text(&mut reply, "{\"error\":\"unsupported control request\",\"protocol_version\":");
    push_decimal(&mut reply, CONTROL_PROTOCOL_VERSION as u128);
    push_text(&mut reply, "}");
    assert(reply@ =~= spec_unsupported_reply());
    reply
}

pub open spec fn spec_carrier(carrier: Option<bool>) -> Seq<char> {
    match carrier {
        Some(b) => spec_bool(b),
        None => "null"@,
    }
}

/// The first part of the status: the agent and the OLT.
pub open spec fn spec_status_identity(s: StatusView, carrier: Option<bool>) -> Seq<char> {
    "{\"protocol_version\":"@ + spec_decimal(CONTROL_PROTOCOL_VERSION as nat) + ",\"interface\":"@
        + spec_json_string(s.interface) + ",\"channel_available\":"@ + spec_carrier(carrier) + ",\"loid_configured\":"@
        + spec_bool(s.loid_configured) + ",\"authentication_status\":"@ + spec_optional(optional_u8(s.authentication_status))
        + ",\"authentication_meaning\":"@ + spec_json_string(s.authentication_meaning) + ",\"olt_vendor_id\":"@
        + spec_json_string(s.provisioning.olt_vendor_id@) + ",\"olt_equipment_id\":"@
        + spec_json_string(s.provisioning.olt_equipment_id@) + ",\"olt_version\":"@
        + spec_json_string(s.provisioning.olt_version@)
}

/// The second part of the status: the message counters and the provisioning.
pub open spec fn spec_status_counts(s: StatusView) -> Seq<char> {
    ",\"rx_messages\":"@ + spec_decimal(s.rx_messages as nat) + ",\"tx_messages\":"@ + spec_decimal(s.tx_messages as nat)
        + ",\"parse_errors\":"@ + spec_decimal(s.parse_errors as nat) + ",\"tcont_count\":"@
        + spec_decimal(s.provisioning.configured_tconts as nat) + ",\"gem_port_count\":"@
        + spec_decimal(s.provisioning.gem_ports as nat) + ",\"gem_iwtp_count\":"@
        + spec_decimal(s.provisioning.gem_interworking_tps as nat) + ",\"vlan_rule_count\":"@
        + spec_decimal(s.provisioning.vlan_rules as nat) + ",\"vlan_ids\":["@ + spec_joined(u16_numbers(s.provisioning.vlan_ids@))
        + "],\"multicast_vlan_ids\":["@ + spec_joined(u16_numbers(s.provisioning.multicast_vlan_ids@))
        + "],\"igmp_upstream_vlan_ids\":["@ + spec_joined(u16_numbers(s.provisioning.igmp_upstream_vlan_ids@))
        + "],\"igmp_upstream_tag_controls\":["@ + spec_joined(u8_numbers(s.provisioning.igmp_upstream_tag_controls@))
        + "],\"enhanced_security\":"@ + spec_bool(s.provisioning.enhanced_security) + ",\"broadcast_key_indexes\":["@
        + spec_joined(u8_numbers(s.provisioning.broadcast_key_indexes@)) + "],\"data_path_candidate_count\":"@
        + spec_decimal(s.provisioning.data_paths@.len())
}

/// The last part of the status: the backend, as far as the link is up, and the log.
pub open spec fn spec_status_backend(s: StatusView, carrier: Option<bool>) -> Seq<char> {
    let active = carrier != Some(false);
    ",\"data_path_all_vlans\":"@ + spec_bool(active && s.backend.all_vlans) + ",\"backend_state\":"@
        + spec_json_string(if active { s.backend.state } else { "inactive"@ }) + ",\"active_alloc_id\":"@
        + spec_optional(if active { optional_u16(s.backend.active_alloc_id) } else { None }) + ",\"active_gem_id\":"@
        + spec_optional(if active { optional_u16(s.backend.active_gem_id) } else { None }) + ",\"backend_error\":"@
        + spec_optional_text(s.backend.error) + ",\"event_sequence\":"@ + spec_decimal(s.event_sequence as nat)
        + ",\"last_transaction\":"@ + match s.last_transaction {
            Some(t) => spec_transaction_json(t),
            None => "null"@,
        } + "}"@
}

/// The reply to `STATUS 1`, given whether the link has carrier (`None` where unknown).
pub open spec fn spec_status_json(s: StatusView, carrier: Option<bool>) -> Seq<char> {
    spec_status_identity(s, carrier) + spec_status_counts(s) + spec_status_backend(s, carrier)
}

impl StatusHub {
    /// The JSON lines of the kept events numbered above `after`, oldest first.
    pub fn events_after(&self, after: u64) -> (lines: Vec<String>)
        ensures
            lines@.map_values(|l: String| l@) == spec_events_after(self@.events, after),
    {
        let ghost events = self@.events;
        let mut lines: Vec<String> = Vec::new();
        let mut i: usize = 0;
        assert(events.take(0) =~= Seq::<EventView>::empty());
        while i < self.events.len()
            invariant
                i <= self.events@.len(),
                events == self@.events,
                events == event_views(self.events@),
                lines@.map_values(|l: String| l@) == spec_events_after(events.take(i as int), after),
            decreases self.events@.len() - i,
        {
            let event = &self.events[i];
            let ghost before = lines@.map_values(|l: String| l@);
            assert(events.take(i + 1).drop_last() =~= events.take(i as int));
            assert(events.take(i + 1).last() == event@);
            if event.sequence > after {
                let line = event_json(event);
                lines.push(line);
                assert(lines@.map_values(|l: String| l@) =~= before.push(spec_event_json(event@)));
            }
            i += 1;
        }
        assert(events.take(self.events@.len() as int) =~= events);
        lines
    }

    fn status_identity(&self, carrier: Option<bool>) -> (json: String)
        ensures
            json@ == spec_status_identity(self@, carrier),
    {
        let mut json = String::from_str("{\"protocol_version\":");
        push_decimal(&mut json, CONTROL_PROTOCOL_VERSION as u128);
        push_text(&mut json, ",\"interface\":");
        push_json_string(&mut json, self.interface.as_str());
        push_text(&mut json, ",\"channel_available\":");
        match carrier {
            Some(b) => push_bool(&mut json, b),
            None => push_text(&mut json, "null"),
        }
        push_text(&mut json, ",\"loid_configured\":");
        push_bool(&mut json, self.loid_configured);
        push_text(&mut json, ",\"authentication_status\":");
        push_optional(&mut json, match self.authentication_status {
            Some(v) => Some(v as u128),
            None => None,
        });
        push_text(&mut json, ",\"authentication_meaning\":");
        push_json_string(&mut json, self.authentication_meaning);
        push_text(&mut json, ",\"olt_vendor_id\":");
        push_json_string(&mut json, self.provisioning.olt_vendor_id.as_str());
        push_text(&mut json, ",\"olt_equipment_id\":");
        push_json_string(&mut json, self.provisioning.olt_equipment_id.as_str());
        push_text(&mut json, ",\"olt_version\":");
        push_json_string(&mut json, self.provisioning.olt_version.as_str());
        json
    }

    fn status_counts(&self) -> (json: String)
        ensures
            json@ == spec_status_counts(self@),
    {
        let p = &self.provisioning;
        let mut json = String::from_str(",\"rx_messages\":");
        push_decimal(&mut json, self.rx_messages as u128);
        push_text(&mut json, ",\"tx_messages\":");
        push_decimal(&mut json, self.tx_messages as u128);
        push_text(&mut json, ",\"parse_errors\":");
        push_decimal(&mut json, self.parse_errors as u128);
        push_text(&mut json, ",\"tcont_count\":");
        push_decimal(&mut json, p.configured_tconts as u128);
        push_text(&mut json, ",\"gem_port_count\":");
        push_decimal(&mut json, p.gem_ports as u128);
        push_text(&mut json, ",\"gem_iwtp_count\":");
        push_decimal(&mut json, p.gem_interworking_tps as u128);
        push_text(&mut json, ",\"vlan_rule_count\":");
        push_decimal(&mut json, p.vlan_rules as u128);
        push_text(&mut json, ",\"vlan_ids\":[");
        push_u16_list(&mut json, &p.vlan_ids);
        push_text(&mut json, "],\"multicast_vlan_ids\":[");
        push_u16_list(&mut json, &p.multicast_vlan_ids);
        push_text(&mut json, "],\"igmp_upstream_vlan_ids\":[");
        push_u16_list(&mut json, &p.igmp_upstream_vlan_ids);
        push_text(&mut json, "],\"igmp_upstream_tag_controls\":[");
        push_u8_list(&mut json, &p.igmp_upstream_tag_controls);
        push_text(&mut json, "],\"enhanced_security\":");
        push_bool(&mut json, p.enhanced_security);
        push_text(&mut json, ",\"broadcast_key_indexes\":[");
        push_u8_list(&mut json, &p.broadcast_key_indexes);
        push_text(&mut json, "],\"data_path_candidate_count\":");
        push_decimal(&mut json, p.data_paths.len() as u128);
        json
    }

    fn status_backend(&self, carrier: Option<bool>) -> (json: String)
        ensures
            json@ == spec_status_backend(self@, carrier),
    {
        let active = match carrier {
            Some(false) => false,
            _ => true,
        };
        let b = &self.backend;
        let mut json = String::from_str(",\"data_path_all_vlans\":");
        push_bool(&mut json, active && b.all_vlans);
        push_text(&mut json, ",\"backend_state\":");
        push_json_string(&mut json, if active { b.state } else { "inactive" });
        push_text(&mut json, ",\"active_alloc_id\":");
        push_optional(&mut json, match (active, b.active_alloc_id) {
            (true, Some(v)) => Some(v as u128),
            _ => None,
        });
        push_text(&mut json, ",\"active_gem_id\":");
        push_optional(&mut json, match (active, b.active_gem_id) {
            (true, Some(v)) => Some(v as u128),
            _ => None,
        });
        push_text(&mut json, ",\"backend_error\":");
        push_optional_text(&mut json, &b.error);
        push_text(&mut json, ",\"event_sequence\":");
        push_decimal(&mut json, self.event_sequence as u128);
        push_text(&mut json, ",\"last_transaction\":");
        match &self.last_transaction {
            Some(t) => {
                let t_json = transaction_json(t);
                push_text(&mut json, t_json.as_str());
            },
            None => push_text(&mut json, "null"),
        }
        push_text(&mut json, "}");
        json
    }

    /// The reply to `STATUS 1`; `carrier` is the link's carrier, `None` where unknown.
    pub fn status_json(&self, carrier: Option<bool>) -> (json: String)
        ensures
            json@ == spec_status_json(self@, carrier),
    {
        let mut json = self.status_identity(carrier);
        let counts = self.status_counts();
        push_text(&mut json, counts.as_str());
        let backend = self.status_backend(carrier);
        push_text(&mut json, backend.as_str());
        json
    }
}

pub open spec fn spec_class_name(class_id: u16) -> Seq<char> {
    if class_id == 47 {
        "MAC Bridge Port Configuration Data"@
    } else if class_id == 84 {
        "VLAN Tagging Filter Data"@
    } else if class_id == 130 {
        "IEEE 802.1p Mapper Service Profile"@
    } else if class_id == 171 {
        "Extended VLAN Tagging Operation Configuration Data"@
    } else if class_id == 266 {
        "GEM Interworking Termination Point"@
    } else if class_id == 268 {
        "GEM Port Network CTP"@
    } else if class_id == 280 {
        "Traffic Descriptor"@
    } else if class_id == 281 {
        "Multicast GEM Interworking Termination Point"@
    } else if class_id == 309 {
        "Multicast Operations Profile"@
    } else if class_id == 310 {
        "Multicast Subscriber Configuration Info"@
    } else {
        "Unknown"@
    }
}

/// The name the data-path report gives a class.
pub fn data_path_class_name(class_id: u16) -> (name: &'static str)
    ensures
        name@ == spec_class_name(class_id),
{
    match class_id {
        47 => "MAC Bridge Port Configuration Data",
        84 => "VLAN Tagging Filter Data",
        130 => "IEEE 802.1p Mapper Service Profile",
        171 => "Extended VLAN Tagging Operation Configuration Data",
        266 => "GEM Interworking Termination Point",
        268 => "GEM Port Network CTP",
        280 => "Traffic Descriptor",
        281 => "Multicast GEM Interworking Termination Point",
        309 => "Multicast Operations Profile",
        310 => "Multicast Subscriber Configuration Info",
        _ => "Unknown",
    }
}

pub open spec fn spec_candidate_json(c: DataPathCandidate) -> Seq<char> {
    "{\"alloc_id\":"@ + spec_decimal(c.alloc_id as nat) + ",\"gem_id\":"@ + spec_decimal(c.gem_id as nat) + ",\"vlan_id\":"@
        + spec_decimal(c.vlan_id as nat) + ",\"pbit_mask\":"@ + spec_decimal(c.pbit_mask as nat) + ",\"multicast\":"@
        + spec_bool(c.multicast) + "}"@
}

pub open spec fn spec_row_json(row: RowView) -> Seq<char> {
    "{\"key\":"@ + spec_json_string(spec_hex_bytes(row.0)) + ",\"value\":"@ + spec_json_string(spec_hex_bytes(row.1)) + "}"@
}

pub open spec fn spec_attribute_json(a: DataPathAttributeView) -> Seq<char> {
    "{\"index\":"@ + spec_decimal(a.index as nat) + ",\"value\":"@ + spec_json_string(spec_hex_bytes(a.value))
        + ",\"table_rows\":["@ + spec_joined(a.rows.map_values(|r: RowView| spec_row_json(r))) + "]}"@
}

pub open spec fn spec_entity_json(e: DataPathEntityView) -> Seq<char> {
    "{\"class_id\":"@ + spec_decimal(e.class_id as nat) + ",\"class_name\":"@ + spec_json_string(spec_class_name(e.class_id))
        + ",\"entity_id\":"@ + spec_decimal(e.entity_id as nat) + ",\"attributes\":["@
        + spec_joined(e.attributes.map_values(|a: DataPathAttributeView| spec_attribute_json(a))) + "]}"@
}

/// The reply to `DATAPATH 1`: the backend and the data-path graph.
pub open spec fn spec_data_path_json(s: StatusView) -> Seq<char> {
    "{\"protocol_version\":"@ + spec_decimal(CONTROL_PROTOCOL_VERSION as nat) + ",\"backend_state\":"@
        + spec_json_string(s.backend.state) + ",\"backend_error\":"@ + spec_optional_text(s.backend.error)
        + ",\"data_path_all_vlans\":"@ + spec_bool(s.backend.all_vlans) + ",\"candidates\":["@
        + spec_joined(s.data_path_graph.candidates@.map_values(|c: DataPathCandidate| spec_candidate_json(c)))
        + "],\"entities\":["@
        + spec_joined(entity_views(s.data_path_graph.entities@).map_values(|e: DataPathEntityView| spec_entity_json(e)))
        + "]}"@
}

fn candidate_json(c: &DataPathCandidate) -> (json: String)
    ensures
        json@ == spec_candidate_json(*c),
{
    let mut json = String::from_str("{\"alloc_id\":");
    push_decimal(&mut json, c.alloc_id as u128);
    push_text(&mut json, ",\"gem_id\":");
    push_decimal(&mut json, c.gem_id as u128);
    push_text(&mut json, ",\"vlan_id\":");
    push_decimal(&mut json, c.vlan_id as u128);
    push_text(&mut json, ",\"pbit_mask\":");
    push_decimal(&mut json, c.pbit_mask as u128);
    push_text(&mut json, ",\"multicast\":");
    push_bool(&mut json, c.multicast);
    push_text(&mut json, "}");
    json
}

fn row_json(row: &DataPathTableRow) -> (json: String)
    ensures
        json@ == spec_row_json(row@),
{
    let mut json = String::from_str("{\"key\":");
    let key = hex_bytes(row.key.as_slice());
    push_json_string(&mut json, key.as_str());
    push_text(&mut json, ",\"value\":");
    let value = hex_bytes(row.value.as_slice());
    push_json_string(&mut json, value.as_str());
    push_text(&mut json, "}");
    json
}

/// Appends `item` to `joined` items, with a comma after the first.
fn push_item(text: &mut String, first: bool, item: &str)
    ensures
        final(text)@ == old(text)@ + (if first { Seq::<char>::empty() } else { seq![','] }) + item@,
{
    if !first {
        push_char(text, ',');
    } else {
        assert(old(text)@ + Seq::<char>::empty() =~= old(text)@);
    }
    push_text(text, item);
}

fn attribute_json(a: &DataPathAttribute) -> (json: String)
    ensures
        json@ == spec_attribute_json(a@),
{
    let ghost rows = a@.rows;
    let ghost items = rows.map_values(|r: RowView| spec_row_json(r));
    let mut joined = String::new();
    let mut i: usize = 0;
    assert(items.take(0).len() == 0);
    while i < a.table_rows.len()
        invariant
            i <= a.table_rows@.len(),
            rows == a@.rows,
            items == rows.map_values(|r: RowView| spec_row_json(r)),
            rows.len() == a.table_rows@.len(),
            joined@ == spec_joined(items.take(i as int)),
        decreases a.table_rows@.len() - i,
    {
        proof {
            lemma_joined_step(items, i as int);
        }
        assert(rows[i as int] == a.table_rows@[i as int]@);
        let item = row_json(&a.table_rows[i]);
        push_item(&mut joined, i == 0, item.as_str());
        i += 1;
    }
    assert(items.take(rows.len() as int) =~= items);
    let mut json = String::from_str("{\"index\":");
    push_decimal(&mut json, a.index as u128);
    push_text(&mut json, ",\"value\":");
    let value = hex_bytes(a.value.as_slice());
    push_json_string(&mut json, value.as_str());
    push_text(&mut json, ",\"table_rows\":[");
    push_text(&mut json, joined.as_str());
    push_text(&mut json, "]}");
    json
}

fn entity_json(e: &DataPathEntity) -> (json: String)
    ensures
        json@ == spec_entity_json(e@),
{
    let ghost attributes = e@.attributes;
    let ghost items = attributes.map_values(|a: DataPathAttributeView| spec_attribute_json(a));
    let mut joined = String::new();
    let mut i: usize = 0;
    assert(items.take(0).len() == 0);
    while i < e.attributes.len()
        invariant
            i <= e.attributes@.len(),
            attributes == e@.attributes,
            items == attributes.map_values(|a: DataPathAttributeView| spec_attribute_json(a)),
            attributes.len() == e.attributes@.len(),
            joined@ == spec_joined(items.take(i as int)),
        decreases e.attributes@.len() - i,
    {
        proof {
            lemma_joined_step(items, i as int);
        }
        assert(attributes[i as int] == e.attributes@[i as int]@);
        let item = attribute_json(&e.attributes[i]);
        push_item(&mut joined, i == 0, item.as_str());
        i += 1;
    }
    assert(items.take(attributes.len() as int) =~= items);
    let mut json = String::from_str("{\"class_id\":");
    push_decimal(&mut json, e.class_id as u128);
    push_text(&mut json, ",\"class_name\":");
    push_json_string(&mut json, data_path_class_name(e.class_id));
    push_text(&mut json, ",\"entity_id\":");
    push_decimal(&mut json, e.entity_id as u128);
    push_text(&mut json, ",\"attributes\":[");
    push_text(&mut json, joined.as_str());
    push_text(&mut json, "]}");
    json
}

impl StatusHub {
    /// The reply to `DATAPATH 1`.
    pub fn data_path_json(&self) -> (json: String)
        ensures
            json@ == spec_data_path_json(self@),
    {
        let graph = &self.data_path_graph;
        let ghost candidates = graph.candidates@;
        let ghost candidate_items = candidates.map_values(|c: DataPathCandidate| spec_candidate_json(c));
        let mut candidate_list = String::new();
        let mut i: usize = 0;
        assert(candidate_items.take(0).len() == 0);
        while i < graph.candidates.len()
            invariant
                i <= graph.candidates@.len(),
                candidates == graph.candidates@,
                candidate_items == candidates.map_values(|c: DataPathCandidate| spec_candidate_json(c)),
                candidate_list@ == spec_joined(candidate_items.take(i as int)),
            decreases graph.candidates@.len() - i,
        {
            proof {
                lemma_joined_step(candidate_items, i as int);
            }
            let item = candidate_json(&graph.candidates[i]);
            push_item(&mut candidate_list, i == 0, item.as_str());
            i += 1;
        }
        assert(candidate_items.take(candidates.len() as int) =~= candidate_items);
        let ghost entities = entity_views(graph.entities@);
        let ghost entity_items = entities.map_values(|e: DataPathEntityView| spec_entity_json(e));
        let mut entity_list = String::new();
        let mut k: usize = 0;
        assert(entity_items.take(0).len() == 0);
        while k < graph.entities.len()
            invariant
                k <= graph.entities@.len(),
                entities == entity_views(graph.entities@),
                entity_items == entities.map_values(|e: DataPathEntityView| spec_entity_json(e)),
                entity_list@ == spec_joined(entity_items.take(k as int)),
            decreases graph.entities@.len() - k,
        {
            proof {
                lemma_joined_step(entity_items, k as int);
            }
            assert(entities[k as int] == graph.entities@[k as int]@);
            let item = entity_json(&graph.entities[k]);
            push_item(&mut entity_list, k == 0, item.as_str());
            k += 1;
        }
        assert(entity_items.take(entities.len() as int) =~= entity_items);
        let mut json = String::from_str("{\"protocol_version\":");
        push_decimal(&mut json, CONTROL_PROTOCOL_VERSION as u128);
        push_text(&mut json, ",\"backend_state\":");
        push_json_string(&mut json, self.backend.state);
        push_text(&mut json, ",\"backend_error\":");
        push_optional_text(&mut json, &self.backend.error);
        push_text(&mut json, ",\"data_path_all_vlans\":");
        push_bool(&mut json, self.backend.all_vlans);
        push_text(&mut json, ",\"candidates\":[");
        push_text(&mut json, candidate_list.as_str());
        push_text(&mut json, "],\"entities\":[");
        push_text(&mut json, entity_list.as_str());
        push_text(&mut json, "]}");
        json
    }
}

/// The event log never holds more than its capacity and numbers its events in
/// increasing order, the newest with the latest sequence number.
pub proof fn lemma_event_log_stays_bounded(s: StatusView, kind: Seq<char>, message: Seq<char>, timestamp_ms: u128)
    requires
        log_wf(s),
        s.event_sequence < u64::MAX,
    ensures
        log_wf(spec_record_event(s, kind, message, timestamp_ms)),
        spec_record_event(s, kind, message, timestamp_ms).events.last().sequence == s.event_sequence + 1,
{
    let t = spec_record_event(s, kind, message, timestamp_ms);
    let kept = if s.events.len() == EVENT_CAPACITY { s.events.drop_first() } else { s.events };
    assert forall|i: int, j: int| 0 <= i < j < t.events.len() implies (#[trigger] t.events[i]).sequence < (#[trigger] t.events[j]).sequence by {
        if j < kept.len() {
            if s.events.len() == EVENT_CAPACITY {
                assert(t.events[i] == s.events[i + 1] && t.events[j] == s.events[j + 1]);
            }
        } else {
            if s.events.len() == EVENT_CAPACITY {
                assert(t.events[i] == s.events[i + 1]);
            }
        }
    }
    assert forall|i: int| 0 <= i < t.events.len() implies (#[trigger] t.events[i]).sequence <= t.event_sequence by {
        if i < kept.len() && s.events.len() == EVENT_CAPACITY {
            assert(t.events[i] == s.events[i + 1]);
        }
    }
}

/// `EVENTS 1 <after>` returns exactly the kept events numbered above `after`,
/// oldest first.
pub proof fn lemma_events_after_selects_newer(events: Seq<EventView>, after: u64)
    ensures
        spec_events_after(events, after) == events.filter(|e: EventView| e.sequence > after).map_values(
            |e: EventView| spec_event_json(e),
        ),
    decreases events.len(),
{
    reveal(Seq::filter);
    if events.len() > 0 {
        lemma_events_after_selects_newer(events.drop_last(), after);
        let newer = events.drop_last().filter(|e: EventView| e.sequence > after);
        if events.last().sequence > after {
            assert(newer.push(events.last()).map_values(|e: EventView| spec_event_json(e)) =~= newer.map_values(
                |e: EventView| spec_event_json(e),
            ).push(spec_event_json(events.last())));
        }
    } else {
        assert(events.filter(|e: EventView| e.sequence > after).len() == 0);
        assert(events.filter(|e: EventView| e.sequence > after).map_values(|e: EventView| spec_event_json(e)) =~= Seq::<Seq<char>>::empty());
    }
}

/// A client that asks for the events after the latest sequence number is given none.
pub proof fn lemma_no_events_after_latest(s: StatusView)
    requires
        log_wf(s),
    ensures
        spec_events_after(s.events, s.event_sequence).len() == 0,
{
    lemma_none_after(s.events, s.event_sequence);
}

proof fn lemma_none_after(events: Seq<EventView>, after: u64)
    requires
        forall|i: int| 0 <= i < events.len() ==> (#[trigger] events[i]).sequence <= after,
    ensures
        spec_events_after(events, after).len() == 0,
    decreases events.len(),
{
    if events.len() > 0 {
        assert(events.last().sequence <= after);
        lemma_none_after(events.drop_last(), after);
    }
}

/// The link state a netdev `carrier` attribute reports: `0` down, `1` up,
/// white space around it aside; anything else says nothing.
pub open spec fn spec_carrier_state(text: Seq<char>) -> Option<bool> {
    if trim(text) == seq!['0'] {
        Some(false)
    } else if trim(text) == seq!['1'] {
        Some(true)
    } else {
        None
    }
}

/// Reads a netdev `carrier` attribute.
pub fn parse_carrier(text: &str) -> (carrier: Option<bool>)
    ensures
        carrier == spec_carrier_state(text@),
{
    let chars = str_chars(text);
    let (start, end) = trim_bounds(&chars);
    let ghost t = chars@.subrange(start as int, end as int);
    if end - start == 1 {
        let c = chars[start];
        proof {
            assert(t =~= seq![c]);
        }
        if c == '0' {
            return Some(false);
        }
        if c == '1' {
            assert(t != seq!['0']) by {
                assert(t[0] != seq!['0'][0]);
            }
            return Some(true);
        }
        assert(t != seq!['0'] && t != seq!['1']) by {
            assert(t[0] != seq!['0'][0]);
            assert(t[0] != seq!['1'][0]);
        }
    } else {
        assert(t.len() != 1);
    }
    None
}

} // verus!
