//! The feed side: which messages carry events, the tolerant reading of
//! messages from unrecognised sources, and the connection cycle.
use vstd::prelude::*;

verus! {

/// Pause before reconnecting after the feed connection ends.
pub const RECONNECT_DELAY_MS: u64 = 5000;

/// The upstream formats an event message may come in.
#[derive(Debug, Clone, Copy, PartialEq, Eq, Structural)]
pub enum SourceSchema {
    Jma,
    Sichuan,
    Cenc,
    Fujian,
    /// An unrecognised source, read by the tolerant generic extraction.
    Generic,
}

/// What a feed message is, by its `type`.
#[derive(Debug, Clone, Copy, PartialEq, Eq, Structural)]
pub enum MessageKind {
    Heartbeat,
    Pong,
    /// A list of past events: acknowledged, not dispatched.
    EventList,
    /// An early warning to decode with the given schema.
    Event(SourceSchema),
}

pub open spec fn kind_of(t: Seq<char>) -> MessageKind {
    if t == "heartbeat"@ {
        MessageKind::Heartbeat
    } else if t == "pong"@ {
        MessageKind::Pong
    } else if t == "jma_eqlist"@ || t == "cenc_eqlist"@ {
        MessageKind::EventList
    } else if t == "jma_eew"@ {
        MessageKind::Event(SourceSchema::Jma)
    } else if t == "sc_eew"@ {
        MessageKind::Event(SourceSchema::Sichuan)
    } else if t == "cenc_eew"@ {
        MessageKind::Event(SourceSchema::Cenc)
    } else if t == "fj_eew"@ {
        MessageKind::Event(SourceSchema::Fujian)
    } else {
        MessageKind::Event(SourceSchema::Generic)
    }
}

/// Whether two texts are the same.
fn same_text(a: &str, b: &str) -> (r: bool)
    ensures
        r == (a@ == b@),
{
    let n = a.unicode_len();
    if n != b.unicode_len() {
        return false;
    }
    let mut i: usize = 0;
    while i < n
        invariant
            n == a@.len(),
            n == b@.len(),
            i <= n,
            forall|k: int| 0 <= k < i ==> a@[k] == b@[k],
        decreases n - i,
    {
        if a.get_char(i) != b.get_char(i) {
            return false;
        }
        i = i + 1;
    }
    assert(a@ =~= b@);
    true
}

/// Sorts a feed message by its `type` discriminator.
pub fn classify_message(message_type: &str) -> (r: MessageKind)
    ensures
        r == kind_of(message_type@),
{
    if same_text(message_type, "heartbeat") {
        MessageKind::Heartbeat
    } else if same_text(message_type, "pong") {
        MessageKind::Pong
    } else if same_text(message_type, "jma_eqlist") || same_text(message_type, "cenc_eqlist") {
        MessageKind::EventList
    } else if same_text(message_type, "jma_eew") {
        MessageKind::Event(SourceSchema::Jma)
    } else if same_text(message_type, "sc_eew") {
        MessageKind::Event(SourceSchema::Sichuan)
    } else if same_text(message_type, "cenc_eew") {
        MessageKind::Event(SourceSchema::Cenc)
    } else if same_text(message_type, "fj_eew") {
        MessageKind::Event(SourceSchema::Fujian)
    } else {
        MessageKind::Event(SourceSchema::Generic)
    }
}

/// Whether a message of this kind goes on to decoding and dispatch.
pub fn carries_event(kind: MessageKind) -> (r: bool)
    ensures
        r == kind is Event,
{
    match kind {
        MessageKind::Event(_) => true,
        _ => false,
    }
}

/// Where the feed connection stands.
#[derive(Debug, Clone, Copy, PartialEq, Eq, Structural)]
pub enum FeedState {
    Disconnected,
    Connecting,
    Streaming,
}

/// What happened on the feed side.
#[derive(Debug, Clone, Copy, PartialEq, Eq, Structural)]
pub enum FeedEvent {
    /// The reconnect pause is over.
    DelayElapsed,
    Connected,
    ConnectFailed,
    /// A text message was read and handled.
    MessageHandled,
    /// The peer closed the connection.
    Closed,
    /// Reading failed.
    TransportError,
}

/// What to do next on the feed side.
#[derive(Debug, Clone, Copy, PartialEq, Eq, Structural)]
pub enum FeedAction {
    Connect,
    ReadNext,
    /// Wait this many milliseconds, then report `DelayElapsed`.
    Wait(u64),
}

pub open spec fn feed_transition(state: FeedState, event: FeedEvent) -> (FeedState, FeedAction) {
    match (state, event) {
        (FeedState::Disconnected, FeedEvent::DelayElapsed) => (FeedState::Connecting, FeedAction::Connect),
        (FeedState::Connecting, FeedEvent::Connected) => (FeedState::Streaming, FeedAction::ReadNext),
        (FeedState::Connecting, FeedEvent::ConnectFailed) => (
            FeedState::Disconnected,
            FeedAction::Wait(RECONNECT_DELAY_MS),
        ),
        (FeedState::Streaming, FeedEvent::MessageHandled) => (FeedState::Streaming, FeedAction::ReadNext),
        (FeedState::Streaming, FeedEvent::Closed) => (FeedState::Disconnected, FeedAction::Wait(RECONNECT_DELAY_MS)),
        (FeedState::Streaming, FeedEvent::TransportError) => (
            FeedState::Disconnected,
            FeedAction::Wait(RECONNECT_DELAY_MS),
        ),
        (FeedState::Disconnected, _) => (FeedState::Disconnected, FeedAction::Wait(RECONNECT_DELAY_MS)),
        (FeedState::Connecting, _) => (FeedState::Connecting, FeedAction::Connect),
        (FeedState::Streaming, _) => (FeedState::Streaming, FeedAction::ReadNext),
    }
}

/// The cycle starts by connecting.
pub fn feed_start() -> (r: (FeedState, FeedAction))
    ensures
        r == (FeedState::Connecting, FeedAction::Connect),
{
    (FeedState::Connecting, FeedAction::Connect)
}

/// The next state and action of the feed connection: connect, stream, and
/// after a close, an error or a failed connect, wait a fixed delay and
/// connect again, without end.
pub fn feed_step(state: FeedState, event: FeedEvent) -> (r: (FeedState, FeedAction))
    ensures
        r == feed_transition(state, event),
{
    match (state, event) {
        (FeedState::Disconnected, FeedEvent::DelayElapsed) => (FeedState::Connecting, FeedAction::Connect),
        (FeedState::Connecting, FeedEvent::Connected) => (FeedState::Streaming, FeedAction::ReadNext),
        (FeedState::Connecting, FeedEvent::ConnectFailed) => (
            FeedState::Disconnected,
            FeedAction::Wait(RECONNECT_DELAY_MS),
        ),
        (FeedState::Streaming, FeedEvent::MessageHandled) => (FeedState::Streaming, FeedAction::ReadNext),
        (FeedState::Streaming, FeedEvent::Closed) => (FeedState::Disconnected, FeedAction::Wait(RECONNECT_DELAY_MS)),
        (FeedState::Streaming, FeedEvent::TransportError) => (
            FeedState::Disconnected,
            FeedAction::Wait(RECONNECT_DELAY_MS),
        ),
        (FeedState::Disconnected, _) => (FeedState::Disconnected, FeedAction::Wait(RECONNECT_DELAY_MS)),
        (FeedState::Connecting, _) => (FeedState::Connecting, FeedAction::Connect),
        (FeedState::Streaming, _) => (FeedState::Streaming, FeedAction::ReadNext),
    }
}

/// Maximum-intensity text of an event whose source does not give one.
pub const UNKNOWN_INTENSITY: &'static str = "未知";

/// One field of a generic message, as far as extraction needs to see it.
#[derive(Debug, Clone, PartialEq, Eq)]
pub enum FieldValue {
    /// The key is not there.
    Absent,
    /// A JSON number; `integer` holds it when it is an integer that fits `i64`.
    Number { integer: Option<i64> },
    /// A JSON string.
    Text(String),
    /// Any other JSON value, `null` included.
    Other,
}

/// The fields that the generic extraction reads, under each spelling seen upstream.
#[derive(Debug, Clone, PartialEq, Eq)]
pub struct GenericPayload {
    pub latitude: FieldValue,
    pub longitude: FieldValue,
    pub magnitude: FieldValue,
    pub magunitude: FieldValue,
    pub depth: FieldValue,
    pub max_intensity: FieldValue,
    pub hypo_center: FieldValue,
    pub hypocenter: FieldValue,
    pub origin_time: FieldValue,
}

/// Which spelling of the magnitude key an event's magnitude is read from.
#[derive(Debug, Clone, Copy, PartialEq, Eq, Structural)]
pub enum MagnitudeKey {
    Magnitude,
    Magunitude,
}

/// What the generic extraction decided; the numbers themselves are read
/// from the keys it names (`Latitude`, `Longitude`, the magnitude key, and
/// `Depth` when `has_depth`, else a depth of 0).
#[derive(Debug, Clone, PartialEq, Eq)]
pub struct GenericEvent {
    pub magnitude_key: MagnitudeKey,
    pub has_depth: bool,
    pub max_intensity: String,
    pub region: String,
    pub origin_time: String,
}

pub open spec fn digit_char(d: nat) -> char {
    seq!['0', '1', '2', '3', '4', '5', '6', '7', '8', '9'][d as int]
}

/// Decimal digits of `n`, most significant first, without leading zeros.
pub open spec fn digits_of(n: nat) -> Seq<char>
    decreases n,
{
    if n < 10 {
        seq![digit_char(n)]
    } else {
        digits_of(n / 10).push(digit_char(n % 10))
    }
}

/// Decimal text of `i`, with a leading `-` when negative.
pub open spec fn decimal_of(i: int) -> Seq<char> {
    if i < 0 {
        seq!['-'] + digits_of((-i) as nat)
    } else {
        digits_of(i as nat)
    }
}

pub open spec fn max_intensity_text(v: FieldValue) -> Seq<char> {
    match v {
        FieldValue::Text(s) => s@,
        FieldValue::Number { integer: Some(i) } => decimal_of(i as int),
        _ => UNKNOWN_INTENSITY@,
    }
}

pub open spec fn text_or_empty(v: FieldValue) -> Seq<char> {
    match v {
        FieldValue::Text(s) => s@,
        _ => Seq::empty(),
    }
}

/// The region: `HypoCenter` when that key is there, else `Hypocenter`; its
/// text when it is a string, else empty.
pub open spec fn region_text(hypo_center: FieldValue, hypocenter: FieldValue) -> Seq<char> {
    if hypo_center is Absent {
        text_or_empty(hypocenter)
    } else {
        text_or_empty(hypo_center)
    }
}

/// Whether a generic message carries an event: latitude, longitude and
/// magnitude (under `Magnitude` when that key is there, else `Magunitude`)
/// must all be numbers.
pub open spec fn generic_accepted(p: GenericPayload) -> bool {
    p.latitude is Number && p.longitude is Number && if p.magnitude is Absent {
        p.magunitude is Number
    } else {
        p.magnitude is Number
    }
}

fn is_number(v: &FieldValue) -> (r: bool)
    ensures
        r == v is Number,
{
    match v {
        FieldValue::Number { .. } => true,
        _ => false,
    }
}

fn is_absent(v: &FieldValue) -> (r: bool)
    ensures
        r == v is Absent,
{
    match v {
        FieldValue::Absent => true,
        _ => false,
    }
}

fn text_of(v: &FieldValue) -> (r: String)
    ensures
        r@ == text_or_empty(*v),
{
    match v {
        FieldValue::Text(s) => s.clone(),
        _ => String::new(),
    }
}

/// Appends the decimal digits of `n`.
fn push_digits(out: &mut String, n: u64)
    ensures
        final(out)@ == old(out)@ + digits_of(n as nat),
    decreases n,
{
    if n >= 10 {
        push_digits(out, n / 10);
    }
    let d = (n % 10) as usize;
    proof {
        reveal_strlit("0123456789");
    }
    let digit = "0123456789".substring_char(d, d + 1);
    out.append(digit);
    assert(digit@ =~= seq![digit_char(d as nat)]);
    assert(out@ =~= old(out)@ + digits_of(n as nat));
}

/// Decimal text of an integer.
pub fn decimal_text(i: i64) -> (r: String)
    ensures
        r@ == decimal_of(i as int),
{
    let mut out = String::new();
    if i < 0 {
        proof {
            reveal_strlit("-");
        }
        out.append("-");
        let magnitude = (0 - (i as i128)) as u64;
        assert(magnitude == -(i as int));
        push_digits(&mut out, magnitude);
        assert(out@ =~= seq!['-'] + digits_of((-(i as int)) as nat));
    } else {
        push_digits(&mut out, i as u64);
        assert(out@ =~= digits_of(i as nat));
    }
    out
}

/// The tolerant reading of a message from an unrecognised source: None when
/// a required number is missing, else which keys to read the numbers from
/// and the event's texts.
pub fn extract_generic(p: &GenericPayload) -> (r: Option<GenericEvent>)
    ensures
        r is Some <==> generic_accepted(*p),
        r matches Some(e) ==> {
            &&& e.magnitude_key == if p.magnitude is Absent {
                MagnitudeKey::Magunitude
            } else {
                MagnitudeKey::Magnitude
            }
            &&& e.has_depth == p.depth is Number
            &&& e.max_intensity@ == max_intensity_text(p.max_intensity)
            &&& e.region@ == region_text(p.hypo_center, p.hypocenter)
            &&& e.origin_time@ == text_or_empty(p.origin_time)
        },
{
    if !is_number(&p.latitude) || !is_number(&p.longitude) {
        return None;
    }
    let magnitude_key = if is_absent(&p.magnitude) {
        MagnitudeKey::Magunitude
    } else {
        MagnitudeKey::Magnitude
    };
    let magnitude_ok = match magnitude_key {
        MagnitudeKey::Magnitude => is_number(&p.magnitude),
        MagnitudeKey::Magunitude => is_number(&p.magunitude),
    };
    if !magnitude_ok {
        return None;
    }
    let max_intensity = match &p.max_intensity {
        FieldValue::Text(s) => s.clone(),
        FieldValue::Number { integer: Some(i) } => decimal_text(*i),
        _ => String::from_str(UNKNOWN_INTENSITY),
    };
    let region = if is_absent(&p.hypo_center) {
        text_of(&p.hypocenter)
    } else {
        text_of(&p.hypo_center)
    };
    Some(GenericEvent {
        magnitude_key,
        has_depth: is_number(&p.depth),
        max_intensity,
        region,
        origin_time: text_of(&p.origin_time),
    })
}

} // verus!
