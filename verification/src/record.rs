//! Events as the ledger stores and exports them: one flat row of plain
//! values per sealed event, the names of kinds and levels read back, and the
//! link that the next appended event receives.
use vstd::prelude::*;

use crate::domain::{
    sealed, DeviceEvent, DeviceEventView, EventKind, RiskLevel, SealedEvent, SealedEventView,
};
use crate::text::text_equals;

verus! {

/// The kind whose stored name is `t`, if any.
pub open spec fn kind_named(t: Seq<char>) -> Option<EventKind> {
    if t == "arrived"@ {
        Some(EventKind::Arrived)
    } else if t == "removed"@ {
        Some(EventKind::Removed)
    } else if t == "topology_changed"@ {
        Some(EventKind::TopologyChanged)
    } else {
        None
    }
}

/// The risk level whose stored name is `t`, if any.
pub open spec fn risk_named(t: Seq<char>) -> Option<RiskLevel> {
    if t == "informational"@ {
        Some(RiskLevel::Informational)
    } else if t == "notice"@ {
        Some(RiskLevel::Notice)
    } else if t == "alert"@ {
        Some(RiskLevel::Alert)
    } else {
        None
    }
}

/// Reads a stored kind name; an unknown name is handed back as the error.
pub fn parse_kind(value: &str) -> (r: Result<EventKind, String>)
    ensures
        match r {
            Ok(k) => kind_named(value@) == Some(k),
            Err(e) => kind_named(value@) is None && e@ == value@,
        },
{
    if text_equals(value, "arrived") {
        Ok(EventKind::Arrived)
    } else if text_equals(value, "removed") {
        Ok(EventKind::Removed)
    } else if text_equals(value, "topology_changed") {
        Ok(EventKind::TopologyChanged)
    } else {
        Err(value.to_owned())
    }
}

/// Reads a stored risk level name; an unknown name is handed back as the
/// error.
pub fn parse_risk(value: &str) -> (r: Result<RiskLevel, String>)
    ensures
        match r {
            Ok(k) => risk_named(value@) == Some(k),
            Err(e) => risk_named(value@) is None && e@ == value@,
        },
{
    if text_equals(value, "informational") {
        Ok(RiskLevel::Informational)
    } else if text_equals(value, "notice") {
        Ok(RiskLevel::Notice)
    } else if text_equals(value, "alert") {
        Ok(RiskLevel::Alert)
    } else {
        Err(value.to_owned())
    }
}

/// A sealed event as one flat row: the columns of the ledger's table and of
/// its CSV export, with kind and risk by name.
#[derive(Debug, Clone, PartialEq, Eq)]
pub struct EventRow {
    pub sequence: i64,
    pub occurred_at_ms: i64,
    pub kind: String,
    pub device_path: String,
    pub interface_class: String,
    pub vendor_id: Option<String>,
    pub product_id: Option<String>,
    pub risk: String,
    pub reason: String,
    pub previous_hash: String,
    pub hash: String,
}

/// A row with its texts taken as character sequences.
pub struct EventRowView {
    pub sequence: i64,
    pub occurred_at_ms: i64,
    pub kind: Seq<char>,
    pub device_path: Seq<char>,
    pub interface_class: Seq<char>,
    pub vendor_id: Option<Seq<char>>,
    pub product_id: Option<Seq<char>>,
    pub risk: Seq<char>,
    pub reason: Seq<char>,
    pub previous_hash: Seq<char>,
    pub hash: Seq<char>,
}

impl View for EventRow {
    type V = EventRowView;

    open spec fn view(&self) -> EventRowView {
        EventRowView {
            sequence: self.sequence,
            occurred_at_ms: self.occurred_at_ms,
            kind: self.kind@,
            device_path: self.device_path@,
            interface_class: self.interface_class@,
            vendor_id: self.vendor_id.deep_view(),
            product_id: self.product_id.deep_view(),
            risk: self.risk@,
            reason: self.reason@,
            previous_hash: self.previous_hash@,
            hash: self.hash@,
        }
    }
}

/// The row that stores a sealed event.
pub open spec fn row_of(s: SealedEventView) -> EventRowView {
    EventRowView {
        sequence: s.sequence,
        occurred_at_ms: s.event.occurred_at_ms,
        kind: s.event.kind.text(),
        device_path: s.event.device_path,
        interface_class: s.event.interface_class,
        vendor_id: s.event.vendor_id,
        product_id: s.event.product_id,
        risk: s.event.risk.text(),
        reason: s.event.reason,
        previous_hash: s.previous_hash,
        hash: s.hash,
    }
}

/// The sealed event that a row stores: refused with the kind's name where
/// the kind is unknown, else with the risk's name where the risk is unknown.
pub open spec fn decode_row(r: EventRowView) -> Result<SealedEventView, Seq<char>> {
    match kind_named(r.kind) {
        None => Err(r.kind),
        Some(kind) => match risk_named(r.risk) {
            None => Err(r.risk),
            Some(risk) => Ok(
                SealedEventView {
                    sequence: r.sequence,
                    event: DeviceEventView {
                        occurred_at_ms: r.occurred_at_ms,
                        kind,
                        device_path: r.device_path,
                        interface_class: r.interface_class,
                        vendor_id: r.vendor_id,
                        product_id: r.product_id,
                        risk,
                        reason: r.reason,
                    },
                    previous_hash: r.previous_hash,
                    hash: r.hash,
                },
            ),
        },
    }
}

fn option_text_clone(o: &Option<String>) -> (r: Option<String>)
    ensures
        r.deep_view() == o.deep_view(),
{
    match o {
        Some(s) => Some(s.clone()),
        None => None,
    }
}

impl EventRow {
    /// The row that stores `sealed`.
    pub fn from_sealed(sealed: &SealedEvent) -> (r: Self)
        ensures
            r@ == row_of(sealed@),
    {
        EventRow {
            sequence: sealed.sequence,
            occurred_at_ms: sealed.event.occurred_at_ms,
            kind: sealed.event.kind.as_str().to_owned(),
            device_path: sealed.event.device_path.clone(),
            interface_class: sealed.event.interface_class.clone(),
            vendor_id: option_text_clone(&sealed.event.vendor_id),
            product_id: option_text_clone(&sealed.event.product_id),
            risk: sealed.event.risk.as_str().to_owned(),
            reason: sealed.event.reason.clone(),
            previous_hash: sealed.previous_hash.clone(),
            hash: sealed.hash.clone(),
        }
    }

    /// The sealed event this row stores, or the unknown kind or risk name
    /// that stops it.
    pub fn into_sealed(self) -> (r: Result<SealedEvent, String>)
        ensures
            match r {
                Ok(s) => decode_row(self@) == Ok::<SealedEventView, Seq<char>>(s@),
                Err(e) => decode_row(self@) == Err::<SealedEventView, Seq<char>>(e@),
            },
    {
        let kind = match parse_kind(self.kind.as_str()) {
            Ok(k) => k,
            Err(e) => return Err(e),
        };
        let risk = match parse_risk(self.risk.as_str()) {
            Ok(k) => k,
            Err(e) => return Err(e),
        };
        Ok(
            SealedEvent {
                sequence: self.sequence,
                event: DeviceEvent {
                    occurred_at_ms: self.occurred_at_ms,
                    kind,
                    device_path: self.device_path,
                    interface_class: self.interface_class,
                    vendor_id: self.vendor_id,
                    product_id: self.product_id,
                    risk,
                    reason: self.reason,
                },
                previous_hash: self.previous_hash,
                hash: self.hash,
            },
        )
    }
}

/// The position and link that the next appended event receives, given the
/// position and hash of the last stored event: position 1 and an empty link
/// for an empty ledger.
pub open spec fn next_link(last: Option<(i64, Seq<char>)>) -> (int, Seq<char>) {
    match last {
        Some(p) => (p.0 + 1, p.1),
        None => (1, Seq::empty()),
    }
}

/// Seals `event` as the next entry of a ledger whose last entry has the
/// given position and hash (or of an empty ledger).
pub fn seal_next(last: Option<(i64, String)>, event: DeviceEvent) -> (s: SealedEvent)
    requires
        last matches Some(p) ==> p.0 < i64::MAX,
    ensures
        s@ == sealed(next_link(last.deep_view()).0 as i64, event@, next_link(last.deep_view()).1),
{
    let (sequence, previous_hash) = match last {
        Some((sequence, hash)) => (sequence + 1, hash),
        None => (1, String::new()),
    };
    crate::domain::seal(sequence, event, previous_hash)
}

} // verus!
