//! The ingestion pipeline: decode a raw message, serialize the typed
//! event into its byte-stable binary form, and append it to the
//! sequence store — plus the export and import adapters over the
//! store's ordered iteration, and the transport reconnect state
//! machine.

use vstd::prelude::*;

use crate::codec::{
    be_val, export_text, extract_payloads, import_payloads, render_export, u64_be_bytes,
    u64_to_be_bytes,
};
use crate::model::{DecodeError, Event, EventPayload, FloatText, DTO};
use crate::model::{
    DeviceStatus, PowerUnit, Presence, PressureUnit, SwitchState, TempUnit,
    ThermostatOperatingState,
};
use crate::model::spec_decode_payload;
use crate::store::{Store, StoreError};
use vstd::utf8::encode_utf8;

verus! {

/// The 4-byte big-endian encoding of a 32-bit field.
pub open spec fn enc_u32(x: u32) -> Seq<u8> {
    seq![
        ((x >> 24) & 0xff) as u8,
        ((x >> 16) & 0xff) as u8,
        ((x >> 8) & 0xff) as u8,
        (x & 0xff) as u8,
    ]
}

/// The 8-byte big-endian encoding of a signed 64-bit field, as its
/// two's-complement bits.
pub open spec fn enc_i64(x: i64) -> Seq<u8> {
    u64_be_bytes(x as u64)
}

/// A length-prefixed byte string: the length as 8 big-endian bytes,
/// then the bytes.
pub open spec fn enc_bytes(b: Seq<u8>) -> Seq<u8> {
    u64_be_bytes(b.len() as u64) + b
}

/// One byte holding 1 for true and 0 for false.
pub open spec fn enc_bool(b: bool) -> Seq<u8> {
    seq![if b { 1u8 } else { 0u8 }]
}

pub open spec fn temp_unit_tag(u: TempUnit) -> u8 {
    match u {
        TempUnit::F => 0,
        TempUnit::C => 1,
    }
}

pub open spec fn power_unit_tag(u: PowerUnit) -> u8 {
    match u {
        PowerUnit::W => 0,
    }
}

pub open spec fn presence_tag(p: Presence) -> u8 {
    match p {
        Presence::Present => 0,
        Presence::NotPresent => 1,
    }
}

pub open spec fn status_tag(s: DeviceStatus) -> u8 {
    match s {
        DeviceStatus::Online => 0,
        DeviceStatus::Offline => 1,
    }
}

pub open spec fn pressure_unit_tag(u: PressureUnit) -> u8 {
    match u {
        PressureUnit::kPa => 0,
        PressureUnit::PSI => 1,
    }
}

pub open spec fn op_state_tag(s: ThermostatOperatingState) -> u8 {
    match s {
        ThermostatOperatingState::Idle => 0,
        ThermostatOperatingState::Cooling => 1,
        ThermostatOperatingState::Heating => 2,
    }
}

pub open spec fn switch_tag(s: SwitchState) -> u8 {
    match s {
        SwitchState::On => 0,
        SwitchState::Off => 1,
    }
}

/// A float scalar encodes as its length-prefixed literal text.
pub open spec fn enc_float(f: FloatText) -> Seq<u8> {
    enc_bytes(encode_utf8(f.text@))
}

/// The byte encoding of a payload: a one-byte variant tag, then the
/// variant's fields in order.
pub open spec fn enc_payload(p: EventPayload) -> Seq<u8> {
    match p {
        EventPayload::DeviceBattery { percent } => seq![0u8, percent],
        EventPayload::DeviceCoolingSetpoint { value, unit } => seq![1u8] + enc_float(value)
            + seq![temp_unit_tag(unit)],
        EventPayload::DeviceHumidity { rh } => seq![2u8] + enc_float(rh),
        EventPayload::DeviceLastCheckin(n) => seq![3u8] + enc_i64(n.secs),
        EventPayload::DeviceLastCheckinEpoch(u) => seq![4u8] + enc_i64(u.secs) + enc_u32(u.nanos),
        EventPayload::DevicePower { value, unit } => seq![5u8] + enc_float(value)
            + seq![power_unit_tag(unit)],
        EventPayload::DevicePresence(p) => seq![6u8, presence_tag(p)],
        EventPayload::DevicePressure { pressure, unit } => seq![7u8] + enc_float(pressure)
            + seq![pressure_unit_tag(unit)],
        EventPayload::DeviceStatus(s) => seq![8u8, status_tag(s)],
        EventPayload::DeviceSwitch { state } => seq![9u8, switch_tag(state)],
        EventPayload::DeviceTemperature { value, unit } => seq![10u8] + enc_float(value)
            + seq![temp_unit_tag(unit)],
        EventPayload::DeviceThermostatOperatingState(s) => seq![11u8, op_state_tag(s)],
        EventPayload::DeviceThermostatSetpoint { value, unit } => seq![12u8] + enc_float(value)
            + seq![temp_unit_tag(unit)],
        EventPayload::LocationSunrise(b) => seq![13u8] + enc_bool(b),
        EventPayload::LocationSunriseTime(u) => seq![14u8] + enc_i64(u.secs) + enc_u32(u.nanos),
        EventPayload::LocationSunset(b) => seq![15u8] + enc_bool(b),
        EventPayload::LocationSunsetTime(u) => seq![16u8] + enc_i64(u.secs) + enc_u32(u.nanos),
    }
}

/// The byte-stable binary form of a typed event: capture time, device
/// name, identifiers, then the tagged payload.
pub open spec fn spec_encode_event(e: Event) -> Seq<u8> {
    enc_i64(e.date.secs) + enc_u32(e.date.nanos) + enc_bytes(encode_utf8(e.device_name@)) + enc_u32(
        e.device_id,
    ) + enc_u32(e.hub_id) + enc_payload(e.payload)
}

fn push_bytes(out: &mut Vec<u8>, b: &[u8])
    ensures
        final (out)@ == old(out)@ + b@,
{
    let mut i: usize = 0;
    while i < b.len()
        invariant
            0 <= i <= b@.len(),
            out@ == old(out)@ + b@.take(i as int),
        decreases b@.len() - i,
    {
        out.push(b[i]);
        i += 1;
        proof {
            assert(old(out)@ + b@.take(i as int) =~= (old(out)@ + b@.take(i as int - 1)).push(
                b@[i as int - 1],
            ));
        }
    }
    proof {
        assert(old(out)@ + b@.take(b@.len() as int) =~= old(out)@ + b@);
    }
}

fn push_u64(out: &mut Vec<u8>, x: u64)
    ensures
        final (out)@ == old(out)@ + u64_be_bytes(x),
{
    let b = u64_to_be_bytes(x);
    push_bytes(out, b.as_slice());
}

fn push_u32(out: &mut Vec<u8>, x: u32)
    ensures
        final (out)@ == old(out)@ + enc_u32(x),
{
    out.push(((x >> 24) & 0xff) as u8);
    out.push(((x >> 16) & 0xff) as u8);
    out.push(((x >> 8) & 0xff) as u8);
    out.push((x & 0xff) as u8);
    proof {
        assert(out@ =~= old(out)@ + enc_u32(x));
    }
}

fn push_i64(out: &mut Vec<u8>, x: i64)
    ensures
        final (out)@ == old(out)@ + enc_i64(x),
{
    push_u64(out, #[verifier::truncate] (x as u64));
}

fn push_str(out: &mut Vec<u8>, s: &str)
    ensures
        final (out)@ == old(out)@ + enc_bytes(encode_utf8(s@)),
{
    let b = s.as_bytes();
    push_u64(out, b.len() as u64);
    push_bytes(out, b);
    proof {
        assert(out@ =~= old(out)@ + enc_bytes(encode_utf8(s@)));
    }
}

fn push_float(out: &mut Vec<u8>, f: &FloatText)
    ensures
        final (out)@ == old(out)@ + enc_float(*f),
{
    push_str(out, f.text.as_str());
}

/// Serialize a typed event into its byte-stable binary form.
#[verifier::rlimit(30)]
pub fn encode_event(e: &Event) -> (r: Vec<u8>)
    ensures
        r@ == spec_encode_event(*e),
{
    let mut out: Vec<u8> = Vec::new();
    push_i64(&mut out, e.date.secs);
    push_u32(&mut out, e.date.nanos);
    push_str(&mut out, e.device_name.as_str());
    push_u32(&mut out, e.device_id);
    push_u32(&mut out, e.hub_id);
    let ghost head = out@;
    match &e.payload {
        EventPayload::DeviceBattery { percent } => {
            out.push(0);
            out.push(*percent);
        },
        EventPayload::DeviceCoolingSetpoint { value, unit } => {
            out.push(1);
            push_float(&mut out, value);
            out.push(match unit {
                TempUnit::F => 0,
                TempUnit::C => 1,
            });
        },
        EventPayload::DeviceHumidity { rh } => {
            out.push(2);
            push_float(&mut out, rh);
        },
        EventPayload::DeviceLastCheckin(n) => {
            out.push(3);
            push_i64(&mut out, n.secs);
        },
        EventPayload::DeviceLastCheckinEpoch(u) => {
            out.push(4);
            push_i64(&mut out, u.secs);
            push_u32(&mut out, u.nanos);
        },
        EventPayload::DevicePower { value, unit } => {
            out.push(5);
            push_float(&mut out, value);
            out.push(match unit {
                PowerUnit::W => 0,
            });
        },
        EventPayload::DevicePresence(p) => {
            out.push(6);
            out.push(match p {
                Presence::Present => 0,
                Presence::NotPresent => 1,
            });
        },
        EventPayload::DevicePressure { pressure, unit } => {
            out.push(7);
            push_float(&mut out, pressure);
            out.push(match unit {
                PressureUnit::kPa => 0,
                PressureUnit::PSI => 1,
            });
        },
        EventPayload::DeviceStatus(s) => {
            out.push(8);
            out.push(match s {
                DeviceStatus::Online => 0,
                DeviceStatus::Offline => 1,
            });
        },
        EventPayload::DeviceSwitch { state } => {
            out.push(9);
            out.push(match state {
                SwitchState::On => 0,
                SwitchState::Off => 1,
            });
        },
        EventPayload::DeviceTemperature { value, unit } => {
            out.push(10);
            push_float(&mut out, value);
            out.push(match unit {
                TempUnit::F => 0,
                TempUnit::C => 1,
            });
        },
        EventPayload::DeviceThermostatOperatingState(s) => {
            out.push(11);
            out.push(match s {
                ThermostatOperatingState::Idle => 0,
                ThermostatOperatingState::Cooling => 1,
                ThermostatOperatingState::Heating => 2,
            });
        },
        EventPayload::DeviceThermostatSetpoint { value, unit } => {
            out.push(12);
            push_float(&mut out, value);
            out.push(match unit {
                TempUnit::F => 0,
                TempUnit::C => 1,
            });
        },
        EventPayload::LocationSunrise(b) => {
            out.push(13);
            out.push(if *b {
                1
            } else {
                0
            });
        },
        EventPayload::LocationSunriseTime(u) => {
            out.push(14);
            push_i64(&mut out, u.secs);
            push_u32(&mut out, u.nanos);
        },
        EventPayload::LocationSunset(b) => {
            out.push(15);
            out.push(if *b {
                1
            } else {
                0
            });
        },
        EventPayload::LocationSunsetTime(u) => {
            out.push(16);
            push_i64(&mut out, u.secs);
            push_u32(&mut out, u.nanos);
        },
    }
    proof {
        assert(out@ =~= head + enc_payload(e.payload));
        assert(out@ =~= spec_encode_event(*e));
    }
    out
}

/// What one ingestion step did with a raw message.
#[derive(Debug, Clone, PartialEq, Eq)]
pub enum IngestOutcome {
    /// The message decoded and was appended under this sequence id.
    Stored(u64),
    /// The message was rejected by the decoder and dropped; nothing
    /// was persisted.
    Rejected(DecodeError),
    /// The message decoded but the durable append failed: fatal.
    StoreFailed,
}

/// The decoded event a raw message determines: its payload is what the
/// decoding table assigns, and its name and identifiers come from the
/// message; only the capture timestamp is the clock's.
pub open spec fn event_of_dto(dto: DTO, ev: Event) -> bool {
    &&& spec_decode_payload(dto) matches Ok(p) && ev.payload == p
    &&& ev.device_name@ == dto.display_name@
    &&& ev.device_id == dto.device_id
    &&& ev.hub_id == dto.hub_id
}

/// One ingestion step: decode the raw message; on success serialize
/// the typed event and append it, and on decode failure drop the
/// message, leaving the store untouched.
pub fn ingest(store: &mut Store, dto: DTO) -> (r: IngestOutcome)
    requires
        old(store).inv(),
        !old(store).failed(),
        old(store).last_id() < u64::MAX,
    ensures
        final (store).inv(),
        r is Rejected <==> spec_decode_payload(dto) is Err,
        r matches IngestOutcome::Rejected(e) ==> (spec_decode_payload(dto) matches Err(e2) && e
            == e2) && *final (store) == *old(store),
        r matches IngestOutcome::Stored(id) ==> {
            &&& id == old(store).last_id() + 1
            &&& final (store).last_id() == id
            &&& !final (store).failed()
            &&& exists|ev: Event|
                #[trigger] event_of_dto(dto, ev) && final (store).log() == old(store).log().push(
                    (id, spec_encode_event(ev)),
                )
        },
        r is StoreFailed ==> final (store).failed(),
{
    match Event::from_dto(dto) {
        Err(e) => IngestOutcome::Rejected(e),
        Ok(ev) => {
            let encoded = encode_event(&ev);
            match store.add_event(encoded) {
                Ok(id) => {
                    proof {
                        assert(event_of_dto(dto, ev));
                    }
                    IngestOutcome::Stored(id)
                },
                Err(_) => IngestOutcome::StoreFailed,
            }
        },
    }
}

/// Every well-formed record of the log appears among the rendered
/// records.
pub open spec fn recs_complete(m: Map<Seq<u8>, Seq<u8>>, recs: Seq<(u64, Seq<u8>)>) -> bool {
    forall|k: Seq<u8>|
        #[trigger] m.dom().contains(k) && k.len() == 8 ==> exists|i: int|
            0 <= i < recs.len() && (#[trigger] recs[i]).0 == be_val(k)
}

/// Export the store as line-oriented text: one `<id>:<payload>` line
/// per readable record, in ascending sequence-id order.  A skipped
/// read is reported in the flag; when it is clear, the text holds
/// every well-formed record of the log.
pub fn export_bytes(store: &Store) -> (r: (Vec<u8>, bool))
    ensures
        exists|recs: Seq<(u64, Seq<u8>)>|
            {
                &&& #[trigger] export_text(recs) == r.0@
                &&& forall|i: int, j: int| 0 <= i < j < recs.len() ==> recs[i].0 < recs[j].0
                &&& forall|i: int|
                    0 <= i < recs.len() ==> store.entries().contains_pair(
                        u64_be_bytes(recs[i].0),
                        recs[i].1,
                    )
                &&& !r.1 ==> recs_complete(store.entries(), recs)
            },
{
    let (recs, lossy) = store.iter();
    let out = render_export(&recs);
    proof {
        let m = recs@.map_values(|p: (u64, Vec<u8>)| (p.0, p.1@));
        assert(forall|i: int| 0 <= i < m.len() ==> m[i] == (recs@[i].0, recs@[i].1@));
        assert(export_text(m) == out@);
        if !lossy {
            assert forall|k: Seq<u8>|
                #[trigger] store.entries().dom().contains(k) && k.len() == 8 implies exists|
                i: int,
            |
                0 <= i < m.len() && (#[trigger] m[i]).0 == be_val(k) by {
                assert(crate::store::recs_have_id(recs@, be_val(k)));
                let j = choose|j: int|
                    0 <= j < recs@.len() && (#[trigger] recs@[j]).0 == be_val(k);
                assert((m[j]).0 == be_val(k));
            }
            assert(recs_complete(store.entries(), m));
        }
    }
    (out, lossy)
}

/// A failed import appended exactly the first `p` payloads, under
/// consecutive fresh ids, before the fatal write; the counter also
/// counts the failed attempt.
pub open spec fn partial_import(pre: Store, post: Store, data: Seq<u8>, p: int) -> bool {
    &&& 0 <= p < import_payloads(data).len()
    &&& post.last_id() == pre.last_id() + p + 1
    &&& post.log().len() == pre.log().len() + p
    &&& forall|a: int| 0 <= a < pre.log().len() ==> post.log()[a] == pre.log()[a]
    &&& forall|a: int|
        0 <= a < p ==> post.log()[pre.log().len() + a] == (
            (pre.last_id() + 1 + a) as u64,
            import_payloads(data)[a],
        )
}

/// Import line-oriented text into the store: each line holding a colon
/// has the bytes after its first colon re-appended, in line order,
/// under freshly assigned sequence ids.  A failed append is fatal and
/// ends the import with a prefix of the payloads appended.
pub fn import_bytes(store: &mut Store, data: &[u8]) -> (r: Result<usize, StoreError>)
    requires
        old(store).inv(),
        !old(store).failed(),
        old(store).last_id() + import_payloads(data@).len() <= u64::MAX,
    ensures
        final (store).inv(),
        r matches Ok(n) ==> {
            &&& n == import_payloads(data@).len()
            &&& !final (store).failed()
            &&& final (store).last_id() == old(store).last_id() + n
            &&& final (store).log().len() == old(store).log().len() + n
            &&& forall|i: int|
                0 <= i < old(store).log().len() ==> final (store).log()[i] == old(store).log()[i]
            &&& forall|i: int|
                0 <= i < n ==> final (store).log()[old(store).log().len() + i] == (
                    (old(store).last_id() + 1 + i) as u64,
                    import_payloads(data@)[i],
                )
        },
        r is Err ==> final (store).failed() && exists|p: int|
            #[trigger] partial_import(*old(store), *final (store), data@, p),
{
    let payloads = extract_payloads(data);
    let n = payloads.len();
    let mut i: usize = 0;
    while i < n
        invariant
            0 <= i <= n,
            n == import_payloads(data@).len(),
            n == payloads@.len(),
            forall|a: int| 0 <= a < n ==> payloads@[a]@ == import_payloads(data@)[a],
            old(store).last_id() + n <= u64::MAX,
            store.inv(),
            !store.failed(),
            store.last_id() == old(store).last_id() + i,
            store.log().len() == old(store).log().len() + i,
            forall|a: int| 0 <= a < old(store).log().len() ==> store.log()[a] == old(store).log()[a],
            forall|a: int|
                0 <= a < i ==> store.log()[old(store).log().len() + a] == (
                    (old(store).last_id() + 1 + a) as u64,
                    import_payloads(data@)[a],
                ),
        decreases n - i,
    {
        let mut record: Vec<u8> = Vec::new();
        let mut j: usize = 0;
        let line = &payloads[i];
        while j < line.len()
            invariant
                0 <= j <= line@.len(),
                line == payloads@[i as int],
                record@ == line@.take(j as int),
            decreases line@.len() - j,
        {
            record.push(line[j]);
            j += 1;
            proof {
                assert(line@.take(j as int) =~= line@.take(j as int - 1).push(line@[j - 1]));
            }
        }
        proof {
            assert(record@ =~= line@);
        }
        match store.add_event(record) {
            Ok(_) => {},
            Err(_) => {
                proof {
                    assert(partial_import(*old(store), *store, data@, i as int));
                }
                return Err(StoreError::Io);
            },
        }
        i += 1;
    }
    Ok(n)
}

/// The fixed pause between reconnect attempts, in seconds.
pub const RECONNECT_DELAY_SECS: u64 = 2;

/// Connection state of the long-lived transport loop.
#[derive(Debug, Clone, Copy, PartialEq, Eq, Structural)]
pub enum ConnState {
    Disconnected,
    Connecting,
    Connected,
}

/// What the transport loop observed since the last step.
#[derive(Debug, Clone, Copy, PartialEq, Eq, Structural)]
pub enum ConnEvent {
    /// The loop woke, at start or after the reconnect pause.
    Wake,
    ConnectSucceeded,
    ConnectFailed,
    /// The message stream ended or dropped.
    StreamEnded,
    /// The process was asked to shut down.
    Shutdown,
}

/// What the transport loop does next.
#[derive(Debug, Clone, Copy, PartialEq, Eq, Structural)]
pub enum ConnAction {
    /// Attempt the websocket handshake.
    Connect,
    /// Await the next message on the open stream.
    Receive,
    /// Pause for the reconnect delay, then wake.
    Delay,
    Stop,
}

/// The reconnect state machine's transition table.
pub open spec fn spec_conn_step(s: ConnState, e: ConnEvent) -> (ConnState, ConnAction) {
    match (s, e) {
        (_, ConnEvent::Shutdown) => (ConnState::Disconnected, ConnAction::Stop),
        (ConnState::Disconnected, ConnEvent::Wake) => (ConnState::Connecting, ConnAction::Connect),
        (ConnState::Connecting, ConnEvent::ConnectSucceeded) => (
            ConnState::Connected,
            ConnAction::Receive,
        ),
        (ConnState::Connecting, ConnEvent::ConnectFailed) => (
            ConnState::Disconnected,
            ConnAction::Delay,
        ),
        (ConnState::Connected, ConnEvent::StreamEnded) => (
            ConnState::Disconnected,
            ConnAction::Delay,
        ),
        (ConnState::Connected, ConnEvent::Wake) => (ConnState::Connected, ConnAction::Receive),
        (s0, _) => (s0, ConnAction::Delay),
    }
}

/// One decision of the transport loop: from the current connection
/// state and the event observed, the next state and the action to
/// perform.  The loop around it performs the action and hands back
/// what happened.
pub fn conn_step(s: ConnState, e: ConnEvent) -> (r: (ConnState, ConnAction))
    ensures
        r == spec_conn_step(s, e),
{
    match (s, e) {
        (_, ConnEvent::Shutdown) => (ConnState::Disconnected, ConnAction::Stop),
        (ConnState::Disconnected, ConnEvent::Wake) => (ConnState::Connecting, ConnAction::Connect),
        (ConnState::Connecting, ConnEvent::ConnectSucceeded) => (
            ConnState::Connected,
            ConnAction::Receive,
        ),
        (ConnState::Connecting, ConnEvent::ConnectFailed) => (
            ConnState::Disconnected,
            ConnAction::Delay,
        ),
        (ConnState::Connected, ConnEvent::StreamEnded) => (
            ConnState::Disconnected,
            ConnAction::Delay,
        ),
        (ConnState::Connected, ConnEvent::Wake) => (ConnState::Connected, ConnAction::Receive),
        (s0, _) => (s0, ConnAction::Delay),
    }
}

} // verus!
