//! The decisions taken on a Windows device-change notification (which ones
//! become events, how long the interface name is, how it is decoded) and
//! the entry written to the event log for an event.
use vstd::prelude::*;

use crate::domain::{native_event, DeviceEvent, DeviceEventView, EventKind, RiskLevel};
use crate::text::{decode_utf16_lossy, utf16_lossy};

verus! {

/// The event kind that a device-change notification type reports:
/// `DBT_DEVICEARRIVAL` (0x8000), `DBT_DEVICEREMOVECOMPLETE` (0x8004) and
/// `DBT_DEVNODES_CHANGED` (0x0007); nothing for any other type.
pub open spec fn notification_kind(event_type: u32) -> Option<EventKind> {
    if event_type == 0x8000 {
        Some(EventKind::Arrived)
    } else if event_type == 0x8004 {
        Some(EventKind::Removed)
    } else if event_type == 0x0007 {
        Some(EventKind::TopologyChanged)
    } else {
        None
    }
}

/// What a device-change notification becomes.
#[derive(Debug, Clone, Copy, PartialEq, Eq, Structural)]
pub enum NotificationAction {
    /// No event.
    Ignore,
    /// An event without a device path or interface class.
    Bare(EventKind),
    /// An event for the device interface that the notification describes.
    Interface(EventKind),
}

/// The action for a notification of type `event_type`, whose data is absent
/// (`None`) or starts with a header of device type `device_type`. Only
/// device-interface headers (type 5, `DBT_DEVTYP_DEVICEINTERFACE`) are read
/// further; a topology change never is.
pub open spec fn notification_action(event_type: u32, device_type: Option<u32>) -> NotificationAction {
    match notification_kind(event_type) {
        None => NotificationAction::Ignore,
        Some(kind) => if kind == EventKind::TopologyChanged || device_type is None {
            NotificationAction::Bare(kind)
        } else if device_type->0 != 5 {
            NotificationAction::Ignore
        } else {
            NotificationAction::Interface(kind)
        },
    }
}

/// The event kind that a notification type reports, if any.
pub fn notification_kind_of(event_type: u32) -> (k: Option<EventKind>)
    ensures
        k == notification_kind(event_type),
{
    if event_type == 0x8000 {
        Some(EventKind::Arrived)
    } else if event_type == 0x8004 {
        Some(EventKind::Removed)
    } else if event_type == 0x0007 {
        Some(EventKind::TopologyChanged)
    } else {
        None
    }
}

/// Whether a notification of this kind is described further by its data:
/// an arrival or removal is, a topology change is not.
pub fn reads_interface(kind: EventKind) -> (r: bool)
    ensures
        r == (kind != EventKind::TopologyChanged),
{
    kind != EventKind::TopologyChanged
}

pub fn classify_notification(event_type: u32, device_type: Option<u32>) -> (a: NotificationAction)
    ensures
        a == notification_action(event_type, device_type),
{
    let kind = match notification_kind_of(event_type) {
        Some(kind) => kind,
        None => return NotificationAction::Ignore,
    };
    match device_type {
        None => NotificationAction::Bare(kind),
        Some(t) => {
            if kind == EventKind::TopologyChanged {
                NotificationAction::Bare(kind)
            } else if t != 5 {
                NotificationAction::Ignore
            } else {
                NotificationAction::Interface(kind)
            }
        },
    }
}

/// How many UTF-16 units of name follow the fixed part of a device-interface
/// record of `size` bytes whose name starts at byte `name_offset`; nothing
/// where the record holds no name.
pub fn interface_name_units(size: u32, name_offset: usize) -> (n: Option<usize>)
    ensures
        size <= name_offset ==> n is None,
        size > name_offset ==> n == Some(((size - name_offset) / 2) as usize),
{
    let bytes = size as usize;
    if bytes <= name_offset {
        None
    } else {
        Some((bytes - name_offset) / 2)
    }
}

/// The index of the first zero unit of `name` at or after `from`, or the
/// length of `name` where there is none.
pub open spec fn first_zero_from(name: Seq<u16>, from: int) -> int
    decreases name.len() - from,
{
    if from < 0 || from >= name.len() {
        name.len() as int
    } else if name[from] == 0 {
        from
    } else {
        first_zero_from(name, from + 1)
    }
}

/// The event for the device interface named by `name`, read up to its first
/// zero unit and decoded from UTF-16 with replacement characters, with
/// interface class `class_guid`.
pub fn interface_event(occurred_at_ms: i64, kind: EventKind, name: &[u16], class_guid: &str) -> (e:
    DeviceEvent)
    ensures
        e@ == native_event(
            occurred_at_ms,
            kind,
            utf16_lossy(name@.take(first_zero_from(name@, 0))),
            class_guid@,
        ),
{
    let n = name.len();
    let mut t: usize = 0;
    while t < n && name[t] != 0
        invariant
            n == name@.len(),
            t <= n,
            first_zero_from(name@, 0) == first_zero_from(name@, t as int),
        decreases n - t,
    {
        t = t + 1;
    }
    let units = &name[0..t];
    assert(units@ == name@.take(t as int));
    let path = decode_utf16_lossy(units);
    DeviceEvent::from_native(occurred_at_ms, kind, path.as_str(), class_guid)
}

/// What is written to the event log for an event: a warning from a notice
/// up, else information, with the text `kind path risk (reason)`.
pub struct LogEntry {
    pub warning: bool,
    pub text: String,
}

pub open spec fn log_text(e: DeviceEventView) -> Seq<char> {
    e.kind.text() + " "@ + e.device_path + " "@ + e.risk.text() + " ("@ + e.reason + ")"@
}

/// The event-log entry for `event`.
pub fn log_entry(event: &DeviceEvent) -> (entry: LogEntry)
    ensures
        entry.warning == (event.risk != RiskLevel::Informational),
        entry.text@ == log_text(event@),
{
    let mut text = event.kind.as_str().to_owned();
    text.append(" ");
    text.append(event.device_path.as_str());
    text.append(" ");
    text.append(event.risk.as_str());
    text.append(" (");
    text.append(event.reason.as_str());
    text.append(")");
    LogEntry { warning: event.risk != RiskLevel::Informational, text }
}

} // verus!
