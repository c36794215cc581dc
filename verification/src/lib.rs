//! A tamper-evident ledger of device notifications: events, a local alert
//! policy, a SHA-256 hash chain over sealed events, and the row, log and
//! notification forms that the service around the library reads and writes.
pub mod canonical;
pub mod deny_list;
pub mod digest;
pub mod domain;
pub mod laws;
pub mod notification;
pub mod record;
pub mod text;

pub use deny_list::parse_deny_list;
pub use domain::{
    event_hash, marker_value, seal, verify_chain, AlertPolicy, DeviceEvent, EventKind, RiskLevel,
    SealedEvent,
};
pub use notification::{
    classify_notification, interface_event, notification_kind_of, reads_interface, interface_name_units, log_entry, LogEntry,
    NotificationAction,
};
pub use record::{parse_kind, parse_risk, seal_next, EventRow};
