//! Device events, their risk levels, the local alert policy and the
//! SHA-256 hash chain that seals events into a tamper-evident ledger.
use vstd::prelude::*;

use crate::canonical::canonical_json;
use crate::digest::{canonical_json_bytes, sha256, sha256_digest};
use crate::text::{
    ascii_upper, chars_of, hex_encode, is_lower_hex_digit, lemma_hex_lower_shape, hex_lower, hex_digit_test, is_hex_digit, string_from_chars,
    to_ascii_upper,
};

verus! {

/// What happened to a device interface.
#[derive(Debug, Clone, Copy, PartialEq, Eq, Structural)]
pub enum EventKind {
    Arrived,
    Removed,
    TopologyChanged,
}

impl EventKind {
    /// The stored name of the kind.
    pub open spec fn text(self) -> Seq<char> {
        match self {
            EventKind::Arrived => "arrived"@,
            EventKind::Removed => "removed"@,
            EventKind::TopologyChanged => "topology_changed"@,
        }
    }

    pub fn as_str(self) -> (s: &'static str)
        ensures
            s@ == self.text(),
    {
        match self {
            EventKind::Arrived => "arrived",
            EventKind::Removed => "removed",
            EventKind::TopologyChanged => "topology_changed",
        }
    }
}

/// How much attention an event deserves, from least to most.
#[derive(Debug, Clone, Copy, PartialEq, Eq, Structural, PartialOrd, Ord)]
pub enum RiskLevel {
    Informational,
    Notice,
    Alert,
}

impl RiskLevel {
    /// The stored name of the level.
    pub open spec fn text(self) -> Seq<char> {
        match self {
            RiskLevel::Informational => "informational"@,
            RiskLevel::Notice => "notice"@,
            RiskLevel::Alert => "alert"@,
        }
    }

    pub fn as_str(self) -> (s: &'static str)
        ensures
            s@ == self.text(),
    {
        match self {
            RiskLevel::Informational => "informational",
            RiskLevel::Notice => "notice",
            RiskLevel::Alert => "alert",
        }
    }
}

/// One device notification, with the risk assigned to it and why.
#[derive(Debug, Clone, PartialEq, Eq)]
pub struct DeviceEvent {
    pub occurred_at_ms: i64,
    pub kind: EventKind,
    pub device_path: String,
    pub interface_class: String,
    pub vendor_id: Option<String>,
    pub product_id: Option<String>,
    pub risk: RiskLevel,
    pub reason: String,
}

/// A device event with its texts taken as character sequences.
pub struct DeviceEventView {
    pub occurred_at_ms: i64,
    pub kind: EventKind,
    pub device_path: Seq<char>,
    pub interface_class: Seq<char>,
    pub vendor_id: Option<Seq<char>>,
    pub product_id: Option<Seq<char>>,
    pub risk: RiskLevel,
    pub reason: Seq<char>,
}

impl View for DeviceEvent {
    type V = DeviceEventView;

    open spec fn view(&self) -> DeviceEventView {
        DeviceEventView {
            occurred_at_ms: self.occurred_at_ms,
            kind: self.kind,
            device_path: self.device_path@,
            interface_class: self.interface_class@,
            vendor_id: self.vendor_id.deep_view(),
            product_id: self.product_id.deep_view(),
            risk: self.risk,
            reason: self.reason@,
        }
    }
}

/// `m` occurs in `s` starting at index `i`.
pub open spec fn occurs_at(s: Seq<char>, m: Seq<char>, i: int) -> bool {
    0 <= i && i + m.len() <= s.len() && s.subrange(i, i + m.len()) == m
}

/// The first index at or after `from` where `m` occurs in `s`, if any.
pub open spec fn first_occurrence(s: Seq<char>, m: Seq<char>, from: int) -> Option<int>
    decreases s.len() + 1 - from,
{
    if from < 0 || from + m.len() > s.len() {
        None
    } else if occurs_at(s, m, from) {
        Some(from)
    } else {
        first_occurrence(s, m, from + 1)
    }
}

/// The four hexadecimal digits that follow the first occurrence of `marker`
/// in `s`; nothing where the marker does not occur or fewer than four hex
/// digits follow it.
pub open spec fn marker_value_of(s: Seq<char>, marker: Seq<char>) -> Option<Seq<char>> {
    match first_occurrence(s, marker, 0) {
        None => None,
        Some(i) => {
            let start = i + marker.len();
            if start + 4 <= s.len() && (forall|j: int|
                start <= j < start + 4 ==> #[trigger] is_hex_digit(s[j])) {
                Some(s.subrange(start, start + 4))
            } else {
                None
            }
        },
    }
}

fn occurs_at_test(s: &Vec<char>, m: &Vec<char>, i: usize) -> (r: bool)
    requires
        i <= s@.len(),
    ensures
        r == occurs_at(s@, m@, i as int),
{
    if m.len() > s.len() - i {
        return false;
    }
    let n = m.len();
    let slen = s.len();
    let mut k: usize = 0;
    while k < n
        invariant
            n == m@.len(),
            slen == s@.len(),
            i + n <= s@.len(),
            k <= n,
            forall|j: int| 0 <= j < k ==> s@[i + j] == m@[j],
        decreases n - k,
    {
        if s[i + k] != m[k] {
            assert(s@.subrange(i as int, i + n)[k as int] != m@[k as int]);
            return false;
        }
        k = k + 1;
    }
    assert(s@.subrange(i as int, i + n) =~= m@);
    true
}

/// The four hexadecimal digits that follow the first occurrence of `marker`
/// in `path`, if there are four.
pub fn marker_value(path: &str, marker: &str) -> (r: Option<String>)
    ensures
        r.deep_view() == marker_value_of(path@, marker@),
{
    let s = chars_of(path);
    let m = chars_of(marker);
    if m.len() > s.len() {
        return None;
    }
    let last = s.len() - m.len();
    let mut i: usize = 0;
    loop
        invariant
            s@ == path@,
            m@ == marker@,
            last + m@.len() == s@.len(),
            i <= last,
            first_occurrence(s@, m@, 0) == first_occurrence(s@, m@, i as int),
        ensures
            s@ == path@,
            m@ == marker@,
            last + m@.len() == s@.len(),
            i <= last,
            first_occurrence(s@, m@, 0) == Some(i as int),
        decreases last - i,
    {
        if occurs_at_test(&s, &m, i) {
            assert(first_occurrence(s@, m@, i as int) == Some(i as int));
            break;
        }
        if i == last {
            assert(first_occurrence(s@, m@, i + 1) is None);
            return None;
        }
        i = i + 1;
    }
    let start = i + m.len();
    if s.len() - start < 4 {
        return None;
    }
    let slen = s.len();
    let mut k: usize = 0;
    while k < 4
        invariant
            s@ == path@,
            m@ == marker@,
            slen == s@.len(),
            start == i + m@.len(),
            first_occurrence(s@, m@, 0) == Some(i as int),
            start + 4 <= s@.len(),
            k <= 4,
            forall|j: int| start <= j < start + k ==> #[trigger] is_hex_digit(s@[j]),
        decreases 4 - k,
    {
        if !hex_digit_test(s[start + k]) {
            assert(!is_hex_digit(s@[start + k]));
            return None;
        }
        k = k + 1;
    }
    Some(string_from_chars(&s.as_slice()[start..start + 4]))
}

/// The reason given to every event built from a native notification.
pub open spec fn native_reason() -> Seq<char> {
    "native device notification"@
}

/// The informational event for a native notification about `device_path`:
/// the vendor and product ids are the four hex digits after the first `VID_`
/// and `PID_` in the upper-cased path.
pub open spec fn native_event(
    occurred_at_ms: i64,
    kind: EventKind,
    device_path: Seq<char>,
    interface_class: Seq<char>,
) -> DeviceEventView {
    DeviceEventView {
        occurred_at_ms,
        kind,
        device_path,
        interface_class,
        vendor_id: marker_value_of(ascii_upper(device_path), "VID_"@),
        product_id: marker_value_of(ascii_upper(device_path), "PID_"@),
        risk: RiskLevel::Informational,
        reason: native_reason(),
    }
}

impl DeviceEvent {
    /// An informational event for a native notification. The vendor and
    /// product ids are the four hex digits after the first `VID_` and `PID_`
    /// in the upper-cased path.
    pub fn from_native(
        occurred_at_ms: i64,
        kind: EventKind,
        device_path: &str,
        interface_class: &str,
    ) -> (e: Self)
        ensures
            e@ == native_event(occurred_at_ms, kind, device_path@, interface_class@),
    {
        let uppercase = to_ascii_upper(device_path);
        let vendor_id = marker_value(uppercase.as_str(), "VID_");
        let product_id = marker_value(uppercase.as_str(), "PID_");
        DeviceEvent {
            occurred_at_ms,
            kind,
            device_path: device_path.to_owned(),
            interface_class: interface_class.to_owned(),
            vendor_id,
            product_id,
            risk: RiskLevel::Informational,
            reason: "native device notification".to_owned(),
        }
    }
}


/// The local rules that raise an event's risk: a list of denied
/// (vendor id, product id) pairs, kept in ASCII upper case, and whether a
/// topology change is worth a notice.
#[derive(Debug)]
pub struct AlertPolicy {
    denied_pairs: Vec<(String, String)>,
    topology_notice: bool,
}

/// An alert policy with its texts taken as character sequences.
pub struct AlertPolicyView {
    pub denied_pairs: Seq<(Seq<char>, Seq<char>)>,
    pub topology_notice: bool,
}

impl View for AlertPolicy {
    type V = AlertPolicyView;

    closed spec fn view(&self) -> AlertPolicyView {
        AlertPolicyView {
            denied_pairs: self.denied_pairs@.map_values(|p: (String, String)| (p.0@, p.1@)),
            topology_notice: self.topology_notice,
        }
    }
}

impl AlertPolicy {
    /// Every denied id is kept in ASCII upper case.
    #[verifier::type_invariant]
    spec fn ids_upper_case(self) -> bool {
        forall|i: int|
            0 <= i < self.denied_pairs@.len() ==> ascii_upper((#[trigger] self.denied_pairs@[i]).0@)
                == self.denied_pairs@[i].0@ && ascii_upper(self.denied_pairs@[i].1@)
                == self.denied_pairs@[i].1@
    }
}

/// The pairs as a policy keeps them: both ids in ASCII upper case.
pub open spec fn upper_pairs(pairs: Seq<(Seq<char>, Seq<char>)>) -> Seq<(Seq<char>, Seq<char>)> {
    pairs.map_values(|p: (Seq<char>, Seq<char>)| (ascii_upper(p.0), ascii_upper(p.1)))
}

/// Upper-casing an upper-cased text changes nothing.
pub proof fn lemma_ascii_upper_idempotent(s: Seq<char>)
    ensures
        ascii_upper(ascii_upper(s)) == ascii_upper(s),
{
    assert(ascii_upper(ascii_upper(s)) =~= ascii_upper(s));
}

/// The policy denies the pair `vendor:product`, compared in ASCII upper case.
pub open spec fn denies(policy: AlertPolicyView, vendor: Seq<char>, product: Seq<char>) -> bool {
    policy.denied_pairs.contains((ascii_upper(vendor), ascii_upper(product)))
}

/// The explanation given with an alert for the pair `vendor:product`.
pub open spec fn alert_reason(vendor: Seq<char>, product: Seq<char>) -> Seq<char> {
    "device pair "@ + vendor + ":"@ + product + " matches a local alert rule"@
}

/// The explanation given with a topology notice.
pub open spec fn topology_reason() -> Seq<char> {
    "device topology changed without an interface path"@
}

/// An event as the policy leaves it: an alert where both ids are known and
/// their pair is denied; else a notice for a topology change where the policy
/// asks for one; else unchanged. Only the risk and the reason ever change.
pub open spec fn evaluated(policy: AlertPolicyView, e: DeviceEventView) -> DeviceEventView {
    if e.vendor_id is Some && e.product_id is Some && denies(
        policy,
        e.vendor_id->0,
        e.product_id->0,
    ) {
        DeviceEventView {
            risk: RiskLevel::Alert,
            reason: alert_reason(e.vendor_id->0, e.product_id->0),
            ..e
        }
    } else if policy.topology_notice && e.kind == EventKind::TopologyChanged {
        DeviceEventView { risk: RiskLevel::Notice, reason: topology_reason(), ..e }
    } else {
        e
    }
}

impl AlertPolicy {
    /// A policy that denies the given pairs, compared without regard to
    /// ASCII case, and gives topology changes a notice.
    pub fn new(denied_pairs: Vec<(String, String)>) -> (p: Self)
        ensures
            p@.denied_pairs == upper_pairs(
                denied_pairs@.map_values(|q: (String, String)| (q.0@, q.1@)),
            ),
            p@.topology_notice,
    {
        let ghost given = denied_pairs@.map_values(|q: (String, String)| (q.0@, q.1@));
        let mut upper: Vec<(String, String)> = Vec::new();
        let n = denied_pairs.len();
        for i in 0..n
            invariant
                n == denied_pairs@.len(),
                given == denied_pairs@.map_values(|q: (String, String)| (q.0@, q.1@)),
                upper@.len() == i,
                forall|j: int|
                    0 <= j < i ==> (#[trigger] upper@[j]).0@ == ascii_upper(given[j].0)
                        && upper@[j].1@ == ascii_upper(given[j].1),
        {
            let vendor = to_ascii_upper(denied_pairs[i].0.as_str());
            let product = to_ascii_upper(denied_pairs[i].1.as_str());
            upper.push((vendor, product));
        }
        assert forall|j: int| 0 <= j < upper@.len() implies ascii_upper((#[trigger] upper@[j]).0@)
            == upper@[j].0@ && ascii_upper(upper@[j].1@) == upper@[j].1@ by {
            lemma_ascii_upper_idempotent(given[j].0);
            lemma_ascii_upper_idempotent(given[j].1);
        }
        let p = AlertPolicy { denied_pairs: upper, topology_notice: true };
        assert(p@.denied_pairs =~= upper_pairs(given));
        p
    }

    fn denies_pair(&self, vendor: &String, product: &String) -> (r: bool)
        ensures
            r == self@.denied_pairs.contains((vendor@, product@)),
    {
        let n = self.denied_pairs.len();
        for i in 0..n
            invariant
                n == self.denied_pairs@.len(),
                forall|j: int|
                    0 <= j < i ==> #[trigger] self@.denied_pairs[j] != (vendor@, product@),
        {
            let pair = &self.denied_pairs[i];
            if pair.0 == *vendor && pair.1 == *product {
                assert(self@.denied_pairs[i as int] == (vendor@, product@));
                return true;
            }
        }
        false
    }

    /// Raises the event's risk where a local rule applies, and says why.
    pub fn evaluate(&self, event: &mut DeviceEvent)
        ensures
            final(event)@ == evaluated(self@, old(event)@),
    {
        let alert: Option<String> = match (&event.vendor_id, &event.product_id) {
            (Some(vendor), Some(product)) => {
                let upper_vendor = to_ascii_upper(vendor.as_str());
                let upper_product = to_ascii_upper(product.as_str());
                if self.denies_pair(&upper_vendor, &upper_product) {
                    let mut reason = "device pair ".to_owned();
                    reason.append(vendor.as_str());
                    reason.append(":");
                    reason.append(product.as_str());
                    reason.append(" matches a local alert rule");
                    Some(reason)
                } else {
                    None
                }
            },
            _ => None,
        };
        match alert {
            Some(reason) => {
                event.risk = RiskLevel::Alert;
                event.reason = reason;
            },
            None => {
                if self.topology_notice && event.kind == EventKind::TopologyChanged {
                    event.risk = RiskLevel::Notice;
                    event.reason = "device topology changed without an interface path".to_owned();
                }
            },
        }
    }
}

impl Clone for AlertPolicy {
    /// A policy with the same pairs and the same topology setting.
    fn clone(&self) -> (p: Self)
        ensures
            p@ == self@,
    {
        proof {
            use_type_invariant(self);
        }
        let mut pairs: Vec<(String, String)> = Vec::new();
        let n = self.denied_pairs.len();
        for i in 0..n
            invariant
                n == self.denied_pairs@.len(),
                pairs@.len() == i,
                forall|j: int|
                    0 <= j < self.denied_pairs@.len() ==> ascii_upper(
                        (#[trigger] self.denied_pairs@[j]).0@,
                    ) == self.denied_pairs@[j].0@ && ascii_upper(self.denied_pairs@[j].1@)
                        == self.denied_pairs@[j].1@,
                forall|j: int|
                    0 <= j < i ==> (#[trigger] pairs@[j]).0@ == self.denied_pairs@[j].0@
                        && pairs@[j].1@ == self.denied_pairs@[j].1@,
        {
            let pair = &self.denied_pairs[i];
            pairs.push((pair.0.clone(), pair.1.clone()));
        }
        let p = AlertPolicy { denied_pairs: pairs, topology_notice: self.topology_notice };
        assert(p@.denied_pairs =~= self@.denied_pairs);
        p
    }
}

impl Default for AlertPolicy {
    /// A policy with no denied pairs that gives topology changes a notice.
    fn default() -> (p: Self)
        ensures
            p@.denied_pairs == Seq::<(Seq<char>, Seq<char>)>::empty(),
            p@.topology_notice,
    {
        let p = Self::new(Vec::new());
        assert(p@.denied_pairs =~= Seq::<(Seq<char>, Seq<char>)>::empty());
        p
    }
}


/// An event sealed into the chain: its position (from 1), the hash of the
/// event before it (empty for the first) and its own hash.
#[derive(Debug, Clone, PartialEq, Eq)]
pub struct SealedEvent {
    pub sequence: i64,
    pub event: DeviceEvent,
    pub previous_hash: String,
    pub hash: String,
}

/// A sealed event with its texts taken as character sequences.
pub struct SealedEventView {
    pub sequence: i64,
    pub event: DeviceEventView,
    pub previous_hash: Seq<char>,
    pub hash: Seq<char>,
}

impl View for SealedEvent {
    type V = SealedEventView;

    open spec fn view(&self) -> SealedEventView {
        SealedEventView {
            sequence: self.sequence,
            event: self.event@,
            previous_hash: self.previous_hash@,
            hash: self.hash@,
        }
    }
}

/// The hash that seals `event` at position `sequence` after `previous_hash`:
/// the lower-case hex SHA-256 of the canonical JSON of all of them.
pub open spec fn event_hash_of(sequence: i64, event: DeviceEventView, previous_hash: Seq<char>) -> Seq<char> {
    hex_lower(
        sha256_digest(
            canonical_json(
                sequence,
                event.occurred_at_ms,
                event.kind.text(),
                event.device_path,
                event.interface_class,
                event.vendor_id,
                event.product_id,
                event.risk.text(),
                event.reason,
                previous_hash,
            ),
        ),
    )
}

/// `event` sealed at position `sequence` after `previous_hash`.
pub open spec fn sealed(sequence: i64, event: DeviceEventView, previous_hash: Seq<char>) -> SealedEventView {
    SealedEventView {
        sequence,
        event,
        previous_hash,
        hash: event_hash_of(sequence, event, previous_hash),
    }
}

/// The link that entry `i` of a chain must carry: nothing before the first
/// entry, the hash of entry `i - 1` after it.
pub open spec fn expected_previous(chain: Seq<SealedEventView>, i: int) -> Seq<char> {
    if i == 0 {
        Seq::empty()
    } else {
        chain[i - 1].hash
    }
}

/// Entry `i` is numbered `i + 1`, links to the entry before it and carries
/// the hash of its own contents.
pub open spec fn entry_valid(chain: Seq<SealedEventView>, i: int) -> bool {
    &&& chain[i].sequence == i + 1
    &&& chain[i].previous_hash == expected_previous(chain, i)
    &&& chain[i].hash == event_hash_of(chain[i].sequence, chain[i].event, chain[i].previous_hash)
}

/// Every entry of the chain is valid.
pub open spec fn chain_valid(chain: Seq<SealedEventView>) -> bool {
    forall|i: int| 0 <= i < chain.len() ==> #[trigger] entry_valid(chain, i)
}

/// The views of a slice of sealed events.
pub open spec fn chain_view(events: Seq<SealedEvent>) -> Seq<SealedEventView> {
    events.map_values(|e: SealedEvent| e@)
}

/// The hash that seals `event` at position `sequence` after `previous_hash`.
pub fn event_hash(sequence: i64, event: &DeviceEvent, previous_hash: &str) -> (h: String)
    ensures
        h@ == event_hash_of(sequence, event@, previous_hash@),
        h@.len() == 64,
        forall|i: int| 0 <= i < h@.len() ==> is_lower_hex_digit(#[trigger] h@[i]),
{
    let canonical = canonical_json_bytes(
        sequence,
        event.occurred_at_ms,
        event.kind.as_str(),
        event.device_path.as_str(),
        event.interface_class.as_str(),
        &event.vendor_id,
        &event.product_id,
        event.risk.as_str(),
        event.reason.as_str(),
        previous_hash,
    );
    let digest = sha256(canonical.as_slice());
    proof {
        lemma_hex_lower_shape(digest@);
    }
    hex_encode(digest.as_slice())
}

/// Seals `event` at position `sequence` after `previous_hash`.
pub fn seal(sequence: i64, event: DeviceEvent, previous_hash: String) -> (s: SealedEvent)
    ensures
        s@ == sealed(sequence, event@, previous_hash@),
        s.hash@.len() == 64,
        forall|i: int| 0 <= i < s.hash@.len() ==> is_lower_hex_digit(#[trigger] s.hash@[i]),
{
    let hash = event_hash(sequence, &event, previous_hash.as_str());
    SealedEvent { sequence, event, previous_hash, hash }
}

/// Whether the events form a valid chain: numbered 1, 2, ... in order, each
/// linked to the hash of the one before, each carrying its own hash.
pub fn verify_chain(events: &[SealedEvent]) -> (valid: bool)
    ensures
        valid == chain_valid(chain_view(events@)),
{
    let ghost chain = chain_view(events@);
    let mut previous = String::new();
    let n = events.len();
    for index in 0..n
        invariant
            n == events@.len(),
            chain == chain_view(events@),
            previous@ == expected_previous(chain, index as int),
            forall|j: int| 0 <= j < index ==> #[trigger] entry_valid(chain, j),
    {
        let event = &events[index];
        assert(chain[index as int] == event@);
        let numbered = (event.sequence as i128) == (index as i128) + 1;
        if !numbered || !(event.previous_hash == previous) || !(event.hash == event_hash(
            event.sequence,
            &event.event,
            event.previous_hash.as_str(),
        )) {
            assert(!entry_valid(chain, index as int));
            return false;
        }
        previous = event.hash.clone();
    }
    true
}

} // verus!
