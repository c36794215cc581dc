//! What holds of the ledger across calls: sealing extends a valid chain,
//! tampering is detected, the alert policy is stable, and what is stored
//! reads back unchanged.
use vstd::prelude::*;

use crate::domain::{
    chain_valid, denies, entry_valid, evaluated, event_hash_of, first_occurrence, marker_value_of, occurs_at, sealed, upper_pairs, AlertPolicyView, DeviceEventView, EventKind, RiskLevel,
    SealedEventView,
};
use crate::deny_list::{comma_segments, deny_pairs, pieces_pairs};
use crate::notification::{first_zero_from, notification_action, NotificationAction};
use crate::text::{is_white_space, trim, trim_end, trim_start, utf16_lossy};
use crate::record::{decode_row, kind_named, next_link, risk_named, row_of, EventRowView};
use crate::canonical::{canonical_json, lemma_canonical_json_injective};
use crate::digest::sha256_digest;
use crate::text::{ascii_upper, ascii_upper_char, is_hex_digit, lemma_hex_lower_injective};

verus! {

/// The position and hash of the last entry of a chain, as the ledger reads
/// them before an append; nothing for an empty chain.
pub open spec fn last_link(chain: Seq<SealedEventView>) -> Option<(i64, Seq<char>)> {
    if chain.len() == 0 {
        None
    } else {
        Some((chain.last().sequence, chain.last().hash))
    }
}

/// `chain` with `event` appended as the ledger appends it.
pub open spec fn appended(chain: Seq<SealedEventView>, event: DeviceEventView) -> Seq<SealedEventView> {
    let link = next_link(last_link(chain));
    chain.push(sealed(link.0 as i64, event, link.1))
}

/// The chain that sealing `events` one after another into an empty ledger
/// builds.
pub open spec fn sealed_all(events: Seq<DeviceEventView>) -> Seq<SealedEventView>
    decreases events.len(),
{
    if events.len() == 0 {
        Seq::empty()
    } else {
        appended(sealed_all(events.drop_last()), events.last())
    }
}

/// Appending an event to a valid chain, with the position after the last
/// entry's and a link to the last entry's hash, gives a valid chain. The
/// only chain excluded is one whose last position is `i64::MAX`, where the
/// next position does not fit (the original overflows there).
pub proof fn lemma_append_keeps_chain_valid(chain: Seq<SealedEventView>, event: DeviceEventView)
    requires
        chain_valid(chain),
        last_link(chain) matches Some(p) ==> p.0 < i64::MAX,
    ensures
        chain_valid(appended(chain, event)),
        appended(chain, event).len() == chain.len() + 1,
{
    let c2 = appended(chain, event);
    if chain.len() > 0 {
        assert(entry_valid(chain, chain.len() - 1));
        assert(chain.len() < i64::MAX);
    }
    assert forall|i: int| 0 <= i < c2.len() implies #[trigger] entry_valid(c2, i) by {
        if i < chain.len() {
            assert(entry_valid(chain, i));
            assert(c2[i] == chain[i]);
            if i > 0 {
                assert(c2[i - 1] == chain[i - 1]);
            }
        } else {
            if i > 0 {
                assert(entry_valid(chain, i - 1));
            }
        }
    }
}

/// Sealing any list of events, one after another, into an empty ledger
/// gives a valid chain with one entry per event, for as many events as
/// positions fit in an `i64`.
pub proof fn lemma_sealed_all_valid(events: Seq<DeviceEventView>)
    requires
        events.len() <= i64::MAX,
    ensures
        chain_valid(sealed_all(events)),
        sealed_all(events).len() == events.len(),
    decreases events.len(),
{
    if events.len() > 0 {
        let before = sealed_all(events.drop_last());
        lemma_sealed_all_valid(events.drop_last());
        if before.len() > 0 {
            assert(entry_valid(before, before.len() - 1));
        }
        lemma_append_keeps_chain_valid(before, events.last());
    }
}

/// Every prefix of a valid chain is valid.
pub proof fn lemma_prefix_valid(chain: Seq<SealedEventView>, k: int)
    requires
        chain_valid(chain),
        0 <= k <= chain.len(),
    ensures
        chain_valid(chain.take(k)),
{
    let p = chain.take(k);
    assert forall|i: int| 0 <= i < p.len() implies #[trigger] entry_valid(p, i) by {
        assert(entry_valid(chain, i));
        if i > 0 {
            assert(p[i - 1] == chain[i - 1]);
        }
    }
}

/// Changing the event of an entry of a valid chain, and leaving its stored
/// hash, is detected wherever the changed event hashes differently.
pub proof fn lemma_changed_event_detected(
    chain: Seq<SealedEventView>,
    i: int,
    event: DeviceEventView,
)
    requires
        chain_valid(chain),
        0 <= i < chain.len(),
        event_hash_of(chain[i].sequence, event, chain[i].previous_hash) != chain[i].hash,
    ensures
        !chain_valid(chain.update(i, SealedEventView { event, ..chain[i] })),
{
    let c2 = chain.update(i, SealedEventView { event, ..chain[i] });
    assert(!entry_valid(c2, i));
}

/// Replacing an entry that has a successor by a freshly sealed one, whose
/// hash differs from the old hash, is detected at the successor's link.
pub proof fn lemma_resealed_entry_detected(
    chain: Seq<SealedEventView>,
    i: int,
    event: DeviceEventView,
)
    requires
        chain_valid(chain),
        0 <= i < chain.len() - 1,
        event_hash_of(chain[i].sequence, event, chain[i].previous_hash) != chain[i].hash,
    ensures
        !chain_valid(chain.update(i, sealed(chain[i].sequence, event, chain[i].previous_hash))),
{
    let c2 = chain.update(i, sealed(chain[i].sequence, event, chain[i].previous_hash));
    assert(entry_valid(chain, i + 1));
    assert(c2[i + 1] == chain[i + 1]);
    assert(!entry_valid(c2, i + 1));
}

/// Evaluating an event a second time under the same policy changes nothing,
/// and evaluation changes no field of an event but its risk and reason.
pub proof fn lemma_evaluate_stable(policy: AlertPolicyView, event: DeviceEventView)
    ensures
        evaluated(policy, evaluated(policy, event)) == evaluated(policy, event),
        evaluated(policy, event) == (DeviceEventView {
            risk: evaluated(policy, event).risk,
            reason: evaluated(policy, event).reason,
            ..event
        }),
{
}

/// A policy built from `pairs` denies `vendor:product` exactly when some
/// given pair equals it without regard to ASCII case.
pub proof fn lemma_denies_ignores_case(
    pairs: Seq<(Seq<char>, Seq<char>)>,
    vendor: Seq<char>,
    product: Seq<char>,
)
    ensures
        denies(AlertPolicyView { denied_pairs: upper_pairs(pairs), topology_notice: true }, vendor, product)
            <==> exists|j: int|
            0 <= j < pairs.len() && ascii_upper(#[trigger] pairs[j].0) == ascii_upper(vendor)
                && ascii_upper(pairs[j].1) == ascii_upper(product),
{
    let up = upper_pairs(pairs);
    let target = (ascii_upper(vendor), ascii_upper(product));
    if up.contains(target) {
        let j = choose|j: int| 0 <= j < up.len() && up[j] == target;
        assert(ascii_upper(pairs[j].0) == ascii_upper(vendor));
    }
    if exists|j: int|
        0 <= j < pairs.len() && ascii_upper(#[trigger] pairs[j].0) == ascii_upper(vendor)
            && ascii_upper(pairs[j].1) == ascii_upper(product) {
        let j = choose|j: int|
            0 <= j < pairs.len() && ascii_upper(#[trigger] pairs[j].0) == ascii_upper(vendor)
                && ascii_upper(pairs[j].1) == ascii_upper(product);
        assert(up[j] == target);
    }
}

/// An id read from an upper-cased path is four digits `0`..`9` or
/// letters `A`..`F`, and nothing else of the path.
pub proof fn lemma_marker_value_shape(path: Seq<char>, marker: Seq<char>)
    ensures
        marker_value_of(ascii_upper(path), marker) matches Some(v) ==> {
            &&& v.len() == 4
            &&& forall|j: int|
                0 <= j < 4 ==> ('0' <= #[trigger] v[j] <= '9' || 'A' <= v[j] <= 'F')
        },
{
    let s = ascii_upper(path);
    if let Some(v) = marker_value_of(s, marker) {
        let i = first_occurrence(s, marker, 0)->0;
        let start = i + marker.len();
        assert(first_occurrence(s, marker, 0) == Some(i));
        lemma_first_occurrence_found(s, marker, 0);
        assert(v == s.subrange(start, start + 4));
        assert forall|j: int| 0 <= j < 4 implies ('0' <= #[trigger] v[j] <= '9' || 'A' <= v[j]
            <= 'F') by {
            assert(v[j] == s[start + j]);
            assert(is_hex_digit(s[start + j]));
            assert(s[start + j] == ascii_upper_char(path[start + j]));
        }
    }
}

/// A first occurrence found at or after `from` is an occurrence there.
proof fn lemma_first_occurrence_found(s: Seq<char>, m: Seq<char>, from: int)
    ensures
        first_occurrence(s, m, from) matches Some(i) ==> from <= i && occurs_at(s, m, i),
    decreases s.len() + 1 - from,
{
    if !(from < 0 || from + m.len() > s.len()) && !occurs_at(s, m, from) {
        lemma_first_occurrence_found(s, m, from + 1);
    }
}

/// The stored name of every kind and level reads back as that kind or
/// level.
pub proof fn lemma_names_read_back(kind: EventKind, risk: RiskLevel)
    ensures
        kind_named(kind.text()) == Some(kind),
        risk_named(risk.text()) == Some(risk),
{
    reveal_strlit("arrived");
    reveal_strlit("removed");
    reveal_strlit("topology_changed");
    reveal_strlit("informational");
    reveal_strlit("notice");
    reveal_strlit("alert");
    assert("removed"@[0] != "arrived"@[0]);
    assert("topology_changed"@.len() != "arrived"@.len());
    assert("topology_changed"@.len() != "removed"@.len());
    assert("notice"@.len() != "informational"@.len());
    assert("alert"@.len() != "informational"@.len());
    assert("alert"@.len() != "notice"@.len());
}

/// The row that stores a sealed event reads back as that event.
pub proof fn lemma_row_round_trip(s: SealedEventView)
    ensures
        decode_row(row_of(s)) == Ok::<SealedEventView, Seq<char>>(s),
{
    lemma_names_read_back(s.event.kind, s.event.risk);
}

/// A stored row that reads back as an event is the row that stores that
/// event.
pub proof fn lemma_decoded_row_stores_back(r: EventRowView)
    ensures
        decode_row(r) matches Ok(s) ==> row_of(s) == r,
{
    if let Ok(s) = decode_row(r) {
        lemma_names_read_back(s.event.kind, s.event.risk);
    }
}

/// The bytes that are hashed to seal `event` at position `sequence` after
/// `previous_hash`.
pub open spec fn hashed_bytes(sequence: i64, event: DeviceEventView, previous_hash: Seq<char>) -> Seq<u8> {
    canonical_json(
        sequence,
        event.occurred_at_ms,
        event.kind.text(),
        event.device_path,
        event.interface_class,
        event.vendor_id,
        event.product_id,
        event.risk.text(),
        event.reason,
        previous_hash,
    )
}

/// SHA-256 gives these two byte strings different digests unless they are
/// equal: the assumption that no collision of SHA-256 is met.
pub open spec fn no_collision(a: Seq<u8>, b: Seq<u8>) -> bool {
    sha256_digest(a) == sha256_digest(b) ==> a == b
}

/// Where SHA-256 has no collision on the two inputs, equal seal hashes come
/// from equal positions, events and links: the canonical JSON is injective
/// and so is the hex text of the digest.
pub proof fn lemma_hash_determines_entry(
    s1: i64,
    e1: DeviceEventView,
    p1: Seq<char>,
    s2: i64,
    e2: DeviceEventView,
    p2: Seq<char>,
)
    requires
        event_hash_of(s1, e1, p1) == event_hash_of(s2, e2, p2),
        no_collision(hashed_bytes(s1, e1, p1), hashed_bytes(s2, e2, p2)),
    ensures
        s1 == s2,
        e1 == e2,
        p1 == p2,
{
    lemma_hex_lower_injective(
        sha256_digest(hashed_bytes(s1, e1, p1)),
        sha256_digest(hashed_bytes(s2, e2, p2)),
    );
    lemma_canonical_json_injective(
        (s1, s2),
        (e1.occurred_at_ms, e2.occurred_at_ms),
        (e1.kind.text(), e2.kind.text()),
        (e1.device_path, e2.device_path),
        (e1.interface_class, e2.interface_class),
        (e1.vendor_id, e2.vendor_id),
        (e1.product_id, e2.product_id),
        (e1.risk.text(), e2.risk.text()),
        (e1.reason, e2.reason),
        (p1, p2),
    );
    lemma_names_read_back(e1.kind, e1.risk);
    lemma_names_read_back(e2.kind, e2.risk);
}

/// The chain is tamper-evident: replacing an entry of a valid chain by one
/// that keeps its hash but differs in position, event or link makes the
/// chain invalid, wherever SHA-256 has no collision on the two entries'
/// hashed bytes.
pub proof fn lemma_tampered_entry_detected(chain: Seq<SealedEventView>, i: int, entry: SealedEventView)
    requires
        chain_valid(chain),
        0 <= i < chain.len(),
        entry.hash == chain[i].hash,
        entry.sequence != chain[i].sequence || entry.event != chain[i].event
            || entry.previous_hash != chain[i].previous_hash,
        no_collision(
            hashed_bytes(entry.sequence, entry.event, entry.previous_hash),
            hashed_bytes(chain[i].sequence, chain[i].event, chain[i].previous_hash),
        ),
    ensures
        !chain_valid(chain.update(i, entry)),
{
    let c2 = chain.update(i, entry);
    assert(entry_valid(chain, i));
    if chain_valid(c2) {
        assert(entry_valid(c2, i));
        lemma_hash_determines_entry(
            entry.sequence,
            entry.event,
            entry.previous_hash,
            chain[i].sequence,
            chain[i].event,
            chain[i].previous_hash,
        );
    }
}

/// An event that is not a topology change and whose ids do not form a
/// denied pair (compared in ASCII upper case) leaves evaluation unchanged,
/// whatever the policy.
pub proof fn lemma_evaluate_leaves_other_events(policy: AlertPolicyView, event: DeviceEventView)
    requires
        event.kind != EventKind::TopologyChanged,
        !(event.vendor_id is Some && event.product_id is Some && policy.denied_pairs.contains(
            (ascii_upper(event.vendor_id->0), ascii_upper(event.product_id->0)),
        )),
    ensures
        evaluated(policy, event) == event,
{
}

/// Evaluation changes an event only for a denied pair or a topology change;
/// a notice is given only to a topology change, and an alert only to a
/// denied pair.
pub proof fn lemma_evaluate_changes_only_flagged(policy: AlertPolicyView, event: DeviceEventView)
    ensures
        evaluated(policy, event) != event ==> (event.kind == EventKind::TopologyChanged || (
        event.vendor_id is Some && event.product_id is Some && policy.denied_pairs.contains(
            (ascii_upper(event.vendor_id->0), ascii_upper(event.product_id->0)),
        ))),
        evaluated(policy, event).risk == RiskLevel::Notice && event.risk != RiskLevel::Notice
            ==> event.kind == EventKind::TopologyChanged,
        evaluated(policy, event).risk == RiskLevel::Alert && event.risk != RiskLevel::Alert
            ==> event.vendor_id is Some && event.product_id is Some,
{
}

/// A denied pair raises an alert that names the pair as the event gives it;
/// otherwise a topology change under a policy that asks for notices gets one.
pub proof fn lemma_evaluate_flags(policy: AlertPolicyView, event: DeviceEventView)
    ensures
        event.vendor_id is Some && event.product_id is Some && policy.denied_pairs.contains(
            (ascii_upper(event.vendor_id->0), ascii_upper(event.product_id->0)),
        ) ==> evaluated(policy, event).risk == RiskLevel::Alert && evaluated(policy, event).reason
            == "device pair "@ + event.vendor_id->0 + ":"@ + event.product_id->0
            + " matches a local alert rule"@,
        !(event.vendor_id is Some && event.product_id is Some && policy.denied_pairs.contains(
            (ascii_upper(event.vendor_id->0), ascii_upper(event.product_id->0)),
        )) && policy.topology_notice && event.kind == EventKind::TopologyChanged ==> evaluated(
            policy,
            event,
        ).risk == RiskLevel::Notice && evaluated(policy, event).reason
            == "device topology changed without an interface path"@,
{
}

/// The first occurrence of `m` in `s` is found at `i` where `m` stands at
/// `i` and at no earlier place.
proof fn lemma_first_occurrence_is(s: Seq<char>, m: Seq<char>, i: int, from: int)
    requires
        0 <= from <= i,
        i + m.len() <= s.len(),
        s.subrange(i, i + m.len()) == m,
        forall|j: int| from <= j < i ==> #[trigger] s.subrange(j, j + m.len()) != m,
    ensures
        first_occurrence(s, m, from) == Some(i),
    decreases i - from,
{
    if from < i {
        assert(s.subrange(from, from + m.len()) != m);
        lemma_first_occurrence_is(s, m, i, from + 1);
    }
}

/// Where `m` stands nowhere in `s` at or after `from`, there is no first
/// occurrence.
proof fn lemma_first_occurrence_none(s: Seq<char>, m: Seq<char>, from: int)
    requires
        0 <= from,
        forall|j: int| from <= j && j + m.len() <= s.len() ==> #[trigger] s.subrange(j, j + m.len()) != m,
    ensures
        first_occurrence(s, m, from) is None,
    decreases s.len() + 1 - from,
{
    if from + m.len() <= s.len() {
        assert(s.subrange(from, from + m.len()) != m);
        lemma_first_occurrence_none(s, m, from + 1);
    }
}

/// A marker's value is the four characters after its first occurrence where
/// each of them is `0`..`9`, `a`..`f` or `A`..`F`, and nothing where one of
/// them is not, where fewer than four follow, or where the marker is absent.
pub proof fn lemma_marker_value_reads_hex_digits(s: Seq<char>, marker: Seq<char>, i: int)
    requires
        0 <= i,
        i + marker.len() <= s.len(),
        s.subrange(i, i + marker.len()) == marker,
        forall|j: int| 0 <= j < i ==> #[trigger] s.subrange(j, j + marker.len()) != marker,
    ensures
        ({
            let start = i + marker.len();
            &&& (start + 4 <= s.len() && forall|k: int|
                start <= k < start + 4 ==> ('0' <= #[trigger] s[k] <= '9' || 'a' <= s[k] <= 'f' || 'A'
                    <= s[k] <= 'F')) ==> marker_value_of(s, marker) == Some(
                s.subrange(start, start + 4),
            )
            &&& (start + 4 > s.len() || exists|k: int|
                start <= k < start + 4 && !('0' <= #[trigger] s[k] <= '9' || 'a' <= s[k] <= 'f' || 'A'
                    <= s[k] <= 'F')) ==> marker_value_of(s, marker) is None
        }),
{
    lemma_first_occurrence_is(s, marker, i, 0);
    let start = i + marker.len();
    if start + 4 <= s.len() {
        if forall|k: int|
            start <= k < start + 4 ==> ('0' <= #[trigger] s[k] <= '9' || 'a' <= s[k] <= 'f' || 'A'
                <= s[k] <= 'F') {
            assert forall|j: int| start <= j < start + 4 implies #[trigger] is_hex_digit(s[j]) by {
                assert('0' <= s[j] <= '9' || 'a' <= s[j] <= 'f' || 'A' <= s[j] <= 'F');
            }
        } else {
            let k = choose|k: int|
                start <= k < start + 4 && !('0' <= #[trigger] s[k] <= '9' || 'a' <= s[k] <= 'f' || 'A'
                    <= s[k] <= 'F');
            assert(!is_hex_digit(s[k]));
        }
    }
}

/// Without the marker in the text there is no value.
pub proof fn lemma_marker_value_absent(s: Seq<char>, marker: Seq<char>)
    requires
        forall|j: int| 0 <= j && j + marker.len() <= s.len() ==> #[trigger] s.subrange(j, j + marker.len()) != marker,
    ensures
        marker_value_of(s, marker) is None,
{
    lemma_first_occurrence_none(s, marker, 0);
}

/// Each column of the stored row is the same-named field of the sealed
/// event, with kind and risk by their names.
pub proof fn lemma_row_columns(s: SealedEventView)
    ensures
        row_of(s).sequence == s.sequence,
        row_of(s).occurred_at_ms == s.event.occurred_at_ms,
        row_of(s).kind == s.event.kind.text(),
        row_of(s).device_path == s.event.device_path,
        row_of(s).interface_class == s.event.interface_class,
        row_of(s).vendor_id == s.event.vendor_id,
        row_of(s).product_id == s.event.product_id,
        row_of(s).risk == s.event.risk.text(),
        row_of(s).reason == s.event.reason,
        row_of(s).previous_hash == s.previous_hash,
        row_of(s).hash == s.hash,
{
}

/// A row reads back with each field taken from the same-named column.
pub proof fn lemma_decoded_columns(r: EventRowView)
    ensures
        decode_row(r) matches Ok(s) ==> {
            &&& s.sequence == r.sequence
            &&& s.event.occurred_at_ms == r.occurred_at_ms
            &&& s.event.kind.text() == r.kind
            &&& s.event.device_path == r.device_path
            &&& s.event.interface_class == r.interface_class
            &&& s.event.vendor_id == r.vendor_id
            &&& s.event.product_id == r.product_id
            &&& s.event.risk.text() == r.risk
            &&& s.event.reason == r.reason
            &&& s.previous_hash == r.previous_hash
            &&& s.hash == r.hash
        },
{
}

/// The name is read up to its first zero unit: no unit before that point is
/// zero, and the unit there, if the name goes on, is zero.
pub proof fn lemma_first_zero_is_first(name: Seq<u16>, from: int)
    requires
        0 <= from <= name.len(),
    ensures
        from <= first_zero_from(name, from) <= name.len(),
        forall|j: int| from <= j < first_zero_from(name, from) ==> name[j] != 0,
        first_zero_from(name, from) < name.len() ==> name[first_zero_from(name, from)] == 0,
    decreases name.len() - from,
{
    if from < name.len() && name[from] != 0 {
        lemma_first_zero_is_first(name, from + 1);
    }
}

proof fn lemma_comma_segments_append(s: Seq<char>, q: Seq<char>)
    requires
        forall|j: int| 0 <= j < q.len() ==> q[j] != ',',
    ensures
        comma_segments(s + seq![','] + q) == comma_segments(s).push(q),
    decreases q.len(),
{
    let t = s + seq![','] + q;
    if q.len() == 0 {
        assert(t =~= s.push(','));
        assert(t.drop_last() =~= s);
        assert(q =~= Seq::<char>::empty());
    } else {
        let q0 = q.drop_last();
        lemma_comma_segments_append(s, q0);
        assert(t.drop_last() =~= s + seq![','] + q0);
        assert(t.last() == q.last());
        assert(q.last() != ',');
        assert(q0.push(q.last()) =~= q);
        let prev = comma_segments(s).push(q0);
        assert(prev.update(prev.len() - 1, q0.push(q.last())) =~= comma_segments(s).push(q));
    }
}

/// Adding a piece with a colon at the end of a deny list adds exactly its
/// pair: the trimmed texts before and after its first colon; adding a piece
/// without a colon adds nothing.
pub proof fn lemma_deny_pairs_append_piece(s: Seq<char>, q: Seq<char>)
    requires
        forall|j: int| 0 <= j < q.len() ==> q[j] != ',',
    ensures
        forall|i: int|
            0 <= i < q.len() && q[i] == ':' && (forall|j: int| 0 <= j < i ==> q[j] != ':')
                ==> #[trigger] deny_pairs(s + seq![','] + q) == deny_pairs(s).push(
                (trim(q.take(i)), trim(q.skip(i + 1))),
            ),
        (forall|j: int| 0 <= j < q.len() ==> q[j] != ':') ==> deny_pairs(s + seq![','] + q)
            == deny_pairs(s),
{
    lemma_comma_segments_append(s, q);
    let segs = comma_segments(s).push(q);
    assert(segs.drop_last() =~= comma_segments(s));
    assert forall|i: int|
        0 <= i < q.len() && q[i] == ':' && (forall|j: int| 0 <= j < i ==> q[j] != ':')
            implies #[trigger] deny_pairs(s + seq![','] + q) == deny_pairs(s).push(
            (trim(q.take(i)), trim(q.skip(i + 1))),
        ) by {
        assert(q.subrange(i, i + 1) =~= seq![':']);
        assert forall|j: int| 0 <= j < i implies #[trigger] q.subrange(j, j + 1) != seq![':'] by {
            assert(q.subrange(j, j + 1)[0] == q[j]);
        }
        lemma_first_occurrence_is(q, seq![':'], i, 0);
    }
    if forall|j: int| 0 <= j < q.len() ==> q[j] != ':' {
        assert forall|j: int| 0 <= j && j + 1 <= q.len() implies #[trigger] q.subrange(j, j + 1)
            != seq![':'] by {
            assert(q.subrange(j, j + 1)[0] == q[j]);
        }
        lemma_first_occurrence_none(q, seq![':'], 0);
    }
}

/// A chain is valid exactly when entry `i` is numbered `i + 1`, the first
/// entry links to nothing, every later entry links to the hash of the entry
/// before it, and every entry carries the hash of its own contents.
#[verifier::rlimit(50)]
pub proof fn lemma_chain_valid_means(chain: Seq<SealedEventView>)
    ensures
        chain_valid(chain) <==> (forall|i: int|
            0 <= i < chain.len() ==> {
                &&& (#[trigger] chain[i]).sequence == i + 1
                &&& (i == 0 ==> chain[i].previous_hash == Seq::<char>::empty())
                &&& (i > 0 ==> chain[i].previous_hash == chain[i - 1].hash)
                &&& chain[i].hash == event_hash_of(chain[i].sequence, chain[i].event, chain[i].previous_hash)
            }),
{
    if chain_valid(chain) {
        assert forall|i: int| 0 <= i < chain.len() implies {
            &&& (#[trigger] chain[i]).sequence == i + 1
            &&& (i == 0 ==> chain[i].previous_hash == Seq::<char>::empty())
            &&& (i > 0 ==> chain[i].previous_hash == chain[i - 1].hash)
            &&& chain[i].hash == event_hash_of(chain[i].sequence, chain[i].event, chain[i].previous_hash)
        } by {
            assert(entry_valid(chain, i));
        }
    }
    if forall|i: int|
        0 <= i < chain.len() ==> {
            &&& (#[trigger] chain[i]).sequence == i + 1
            &&& (i == 0 ==> chain[i].previous_hash == Seq::<char>::empty())
            &&& (i > 0 ==> chain[i].previous_hash == chain[i - 1].hash)
            &&& chain[i].hash == event_hash_of(chain[i].sequence, chain[i].event, chain[i].previous_hash)
        } {
        assert forall|i: int| 0 <= i < chain.len() implies #[trigger] entry_valid(chain, i) by {
            assert(chain[i].sequence == i + 1);
        }
    }
}

/// A notification becomes an interface event only for an arrival (type
/// 0x8000) or a removal (type 0x8004) whose data is a device-interface record
/// (type 5); it becomes an event without path only for a topology change
/// (type 0x0007) or an arrival or removal without data; every other
/// notification is ignored.
pub proof fn lemma_notification_action_means(event_type: u32, device_type: Option<u32>)
    ensures
        notification_action(event_type, device_type) == if event_type == 0x0007 {
            NotificationAction::Bare(EventKind::TopologyChanged)
        } else if event_type != 0x8000 && event_type != 0x8004 {
            NotificationAction::Ignore
        } else {
            let kind = if event_type == 0x8000 {
                EventKind::Arrived
            } else {
                EventKind::Removed
            };
            match device_type {
                None => NotificationAction::Bare(kind),
                Some(t) => if t == 5 {
                    NotificationAction::Interface(kind)
                } else {
                    NotificationAction::Ignore
                },
            }
        },
{
}

/// Units outside the surrogate range decode one for one, each unit being the
/// character with its value.
pub proof fn lemma_utf16_plain_units(units: Seq<u16>)
    requires
        forall|j: int| 0 <= j < units.len() ==> !(0xD800 <= #[trigger] units[j] <= 0xDFFF),
    ensures
        utf16_lossy(units).len() == units.len(),
        forall|j: int| 0 <= j < units.len() ==> #[trigger] utf16_lossy(units)[j] as int == units[j] as int,
    decreases units.len(),
{
    if units.len() > 0 {
        let rest = units.drop_first();
        assert forall|j: int| 0 <= j < rest.len() implies !(0xD800 <= #[trigger] rest[j] <= 0xDFFF) by {
            assert(rest[j] == units[j + 1]);
        }
        lemma_utf16_plain_units(rest);
        assert(!(0xD800 <= units[0] <= 0xDFFF));
        let d = utf16_lossy(units);
        assert forall|j: int| 0 <= j < units.len() implies #[trigger] d[j] as int == units[j] as int by {
            if j > 0 {
                assert(d[j] == utf16_lossy(rest)[j - 1]);
                assert(rest[j - 1] == units[j]);
            }
        }
    }
}

/// A surrogate pair decodes to the single character it encodes, and an
/// unpaired surrogate to U+FFFD, with decoding going on after either.
pub proof fn lemma_utf16_surrogates(hi: u16, lo: u16, rest: Seq<u16>)
    ensures
        0xD800 <= hi <= 0xDBFF && 0xDC00 <= lo <= 0xDFFF ==> utf16_lossy(seq![hi, lo] + rest)
            == seq![(0x10000 + (hi - 0xD800) * 0x400 + (lo - 0xDC00)) as char] + utf16_lossy(rest),
        0xDC00 <= hi <= 0xDFFF ==> utf16_lossy(seq![hi] + rest) == seq!['\u{FFFD}'] + utf16_lossy(rest),
        0xD800 <= hi <= 0xDBFF && !(0xDC00 <= lo <= 0xDFFF) ==> utf16_lossy(seq![hi, lo] + rest)
            == seq!['\u{FFFD}'] + utf16_lossy(seq![lo] + rest),
{
    let two = seq![hi, lo] + rest;
    assert(two.subrange(2, two.len() as int) =~= rest);
    assert(two.drop_first() =~= seq![lo] + rest);
    assert((seq![hi] + rest).drop_first() =~= rest);
}

/// Spaces, tabs and line ends are white space; digits, letters, `:` and `,`
/// are not.
pub proof fn lemma_white_space_examples(c: char)
    ensures
        c == ' ' || c == '\t' || c == '\n' || c == '\r' ==> is_white_space(c),
        ('0' <= c <= '9') || ('a' <= c <= 'z') || ('A' <= c <= 'Z') || c == ':' || c == ','
            ==> !is_white_space(c),
{
}

/// Trimming keeps a contiguous part of the text: everything it drops before
/// and after is white space, and what it keeps starts and ends with a
/// character that is not.
pub proof fn lemma_trim_shape(s: Seq<char>)
    ensures
        exists|a: int, b: int|
            0 <= a <= b <= s.len() && trim(s) == s.subrange(a, b) && (forall|j: int|
                0 <= j < a ==> is_white_space(#[trigger] s[j])) && (forall|j: int|
                b <= j < s.len() ==> is_white_space(#[trigger] s[j])) && (a < b ==> !is_white_space(
                s[a]) && !is_white_space(s[b - 1])),
{
    let a = lemma_trim_start_shape(s);
    let t = s.subrange(a, s.len() as int);
    let b = lemma_trim_end_shape(t);
    assert(trim(s) == t.subrange(0, b));
    assert(t.subrange(0, b) =~= s.subrange(a, a + b));
    assert forall|j: int| a + b <= j < s.len() implies is_white_space(#[trigger] s[j]) by {
        assert(s[j] == t[j - a]);
    }
    if b > 0 {
        assert(s[a] == t[0]);
        assert(s[a + b - 1] == t[b - 1]);
    }
}

proof fn lemma_trim_start_shape(s: Seq<char>) -> (a: int)
    ensures
        0 <= a <= s.len(),
        trim_start(s) == s.subrange(a, s.len() as int),
        forall|j: int| 0 <= j < a ==> is_white_space(#[trigger] s[j]),
        a < s.len() ==> !is_white_space(s[a]),
    decreases s.len(),
{
    if s.len() > 0 && is_white_space(s[0]) {
        let a1 = lemma_trim_start_shape(s.drop_first());
        assert(s.drop_first().subrange(a1, s.len() - 1) =~= s.subrange(a1 + 1, s.len() as int));
        assert forall|j: int| 0 <= j < a1 + 1 implies is_white_space(#[trigger] s[j]) by {
            if j > 0 {
                assert(s[j] == s.drop_first()[j - 1]);
            }
        }
        if a1 + 1 < s.len() {
            assert(s[a1 + 1] == s.drop_first()[a1]);
        }
        a1 + 1
    } else {
        assert(s.subrange(0, s.len() as int) =~= s);
        0
    }
}

proof fn lemma_trim_end_shape(s: Seq<char>) -> (b: int)
    ensures
        0 <= b <= s.len(),
        trim_end(s) == s.subrange(0, b),
        forall|j: int| b <= j < s.len() ==> is_white_space(#[trigger] s[j]),
        b > 0 ==> !is_white_space(s[b - 1]),
    decreases s.len(),
{
    if s.len() > 0 && is_white_space(s.last()) {
        let b1 = lemma_trim_end_shape(s.drop_last());
        assert(s.drop_last().subrange(0, b1) =~= s.subrange(0, b1));
        assert forall|j: int| b1 <= j < s.len() implies is_white_space(#[trigger] s[j]) by {
            if j < s.len() - 1 {
                assert(s[j] == s.drop_last()[j]);
            }
        }
        if b1 > 0 {
            assert(s[b1 - 1] == s.drop_last()[b1 - 1]);
        }
        b1
    } else {
        assert(s.subrange(0, s.len() as int) =~= s);
        s.len() as int
    }
}

/// A deny list of one piece holds that piece's pair if it has a colon, and
/// nothing if it has none.
pub proof fn lemma_deny_pairs_single_piece(q: Seq<char>)
    requires
        forall|j: int| 0 <= j < q.len() ==> q[j] != ',',
    ensures
        forall|i: int|
            0 <= i < q.len() && q[i] == ':' && (forall|j: int| 0 <= j < i ==> q[j] != ':')
                ==> #[trigger] deny_pairs(q) == seq![(trim(q.take(i)), trim(q.skip(i + 1)))],
        (forall|j: int| 0 <= j < q.len() ==> q[j] != ':') ==> deny_pairs(q).len() == 0,
    decreases q.len(),
{
    lemma_comma_segments_single(q);
    let segs = seq![q];
    assert(segs.drop_last() =~= Seq::<Seq<char>>::empty());
    assert(segs.last() == q);
    assert(pieces_pairs(Seq::<Seq<char>>::empty()) == Seq::<(Seq<char>, Seq<char>)>::empty());
    assert(deny_pairs(q) == pieces_pairs(segs));
    assert forall|i: int|
        0 <= i < q.len() && q[i] == ':' && (forall|j: int| 0 <= j < i ==> q[j] != ':')
            implies #[trigger] deny_pairs(q) == seq![(trim(q.take(i)), trim(q.skip(i + 1)))] by {
        assert(q.subrange(i, i + 1) =~= seq![':']);
        assert forall|j: int| 0 <= j < i implies #[trigger] q.subrange(j, j + 1) != seq![':'] by {
            assert(q.subrange(j, j + 1)[0] == q[j]);
        }
        lemma_first_occurrence_is(q, seq![':'], i, 0);
        assert(Seq::<(Seq<char>, Seq<char>)>::empty().push((trim(q.take(i)), trim(q.skip(i + 1))))
            =~= seq![(trim(q.take(i)), trim(q.skip(i + 1)))]);
    }
    if forall|j: int| 0 <= j < q.len() ==> q[j] != ':' {
        assert forall|j: int| 0 <= j && j + 1 <= q.len() implies #[trigger] q.subrange(j, j + 1)
            != seq![':'] by {
            assert(q.subrange(j, j + 1)[0] == q[j]);
        }
        lemma_first_occurrence_none(q, seq![':'], 0);
    }
}

proof fn lemma_comma_segments_single(q: Seq<char>)
    requires
        forall|j: int| 0 <= j < q.len() ==> q[j] != ',',
    ensures
        comma_segments(q) == seq![q],
    decreases q.len(),
{
    if q.len() == 0 {
        assert(q =~= Seq::<char>::empty());
    } else {
        lemma_comma_segments_single(q.drop_last());
        assert(q.last() != ',');
        assert(q.drop_last().push(q.last()) =~= q);
        assert(seq![q.drop_last()].update(0, q) =~= seq![q]);
    }
}

/// A stored row is refused only for an unknown name: with the kind's name
/// where no kind has it, else with the risk's name where no level has it;
/// a row whose names are both known reads back.
pub proof fn lemma_decode_row_refusals(r: EventRowView)
    ensures
        (forall|k: EventKind| k.text() != r.kind) ==> decode_row(r) == Err::<SealedEventView, Seq<char>>(
            r.kind,
        ),
        (exists|k: EventKind| k.text() == r.kind) && (forall|l: RiskLevel| l.text() != r.risk)
            ==> decode_row(r) == Err::<SealedEventView, Seq<char>>(r.risk),
        (exists|k: EventKind| k.text() == r.kind) && (exists|l: RiskLevel| l.text() == r.risk)
            ==> decode_row(r) is Ok,
{
    if exists|k: EventKind| k.text() == r.kind {
        let k = choose|k: EventKind| k.text() == r.kind;
        lemma_names_read_back(k, RiskLevel::Alert);
        if exists|l: RiskLevel| l.text() == r.risk {
            let l = choose|l: RiskLevel| l.text() == r.risk;
            lemma_names_read_back(k, l);
        }
    }
    if forall|k: EventKind| k.text() != r.kind {
        assert(EventKind::Arrived.text() != r.kind);
        assert(EventKind::Removed.text() != r.kind);
        assert(EventKind::TopologyChanged.text() != r.kind);
    }
    if forall|l: RiskLevel| l.text() != r.risk {
        assert(RiskLevel::Informational.text() != r.risk);
        assert(RiskLevel::Notice.text() != r.risk);
        assert(RiskLevel::Alert.text() != r.risk);
    }
}

} // verus!
