//! The canonical JSON text of the hashed fields of an event, as serde_json
//! writes it for the tuple of those fields, and the proof that distinct
//! field values give distinct texts.
use vstd::prelude::*;
use vstd::utf8::{encode_utf8, encode_utf8_decode_utf8};

use crate::text::hex_char;

verus! {

/// The decimal digit character for `d`, which is below 10.
pub open spec fn digit_char(d: int) -> char {
    (48 + d) as char
}

/// The decimal digits of `n`, most significant first, without leading zeros.
pub open spec fn decimal(n: nat) -> Seq<char>
    decreases n,
{
    if n < 10 {
        seq![digit_char(n as int)]
    } else {
        decimal(n / 10) + seq![digit_char((n % 10) as int)]
    }
}

/// An integer as JSON writes it: `-` before the digits of a negative one.
pub open spec fn int_text(n: int) -> Seq<char> {
    if n < 0 {
        seq!['-'] + decimal((-n) as nat)
    } else {
        decimal(n as nat)
    }
}

/// One character inside a JSON string: `"` and `\` escaped with a backslash,
/// the control characters U+0008, U+0009, U+000A, U+000C and U+000D as `\b`,
/// `\t`, `\n`, `\f` and `\r`, the other characters below U+0020 as `\u00xx`
/// with lower-case hex digits, every other character as itself.
pub open spec fn escaped(c: char) -> Seq<char> {
    if c == '"' {
        seq!['\\', '"']
    } else if c == '\\' {
        seq!['\\', '\\']
    } else if c == '\x08' {
        seq!['\\', 'b']
    } else if c == '\t' {
        seq!['\\', 't']
    } else if c == '\n' {
        seq!['\\', 'n']
    } else if c == '\x0C' {
        seq!['\\', 'f']
    } else if c == '\r' {
        seq!['\\', 'r']
    } else if (c as int) < 0x20 {
        seq!['\\', 'u', '0', '0', hex_char(c as int / 16), hex_char(c as int % 16)]
    } else {
        seq![c]
    }
}

/// The characters of a text, each escaped.
pub open spec fn escaped_all(s: Seq<char>) -> Seq<char>
    decreases s.len(),
{
    if s.len() == 0 {
        Seq::empty()
    } else {
        escaped(s[0]) + escaped_all(s.drop_first())
    }
}

/// A text as a JSON string.
pub open spec fn quoted(s: Seq<char>) -> Seq<char> {
    seq!['"'] + escaped_all(s) + seq!['"']
}

/// An optional text as JSON: `null`, or the text as a JSON string.
pub open spec fn optional_text(o: Option<Seq<char>>) -> Seq<char> {
    match o {
        None => seq!['n', 'u', 'l', 'l'],
        Some(s) => quoted(s),
    }
}

/// A field followed by a comma and the fields after it.
pub open spec fn joined(field: Seq<char>, rest: Seq<char>) -> Seq<char> {
    field + (seq![','] + rest)
}

/// The compact JSON array of the ten hashed fields, in order.
pub open spec fn canonical_text(
    sequence: i64,
    occurred_at_ms: i64,
    kind: Seq<char>,
    device_path: Seq<char>,
    interface_class: Seq<char>,
    vendor_id: Option<Seq<char>>,
    product_id: Option<Seq<char>>,
    risk: Seq<char>,
    reason: Seq<char>,
    previous_hash: Seq<char>,
) -> Seq<char> {
    seq!['['] + joined(
        int_text(sequence as int),
        joined(
            int_text(occurred_at_ms as int),
            joined(
                quoted(kind),
                joined(
                    quoted(device_path),
                    joined(
                        quoted(interface_class),
                        joined(
                            optional_text(vendor_id),
                            joined(
                                optional_text(product_id),
                                joined(quoted(risk), joined(quoted(reason), quoted(previous_hash) + seq![']'])),
                            ),
                        ),
                    ),
                ),
            ),
        ),
    )
}

/// The UTF-8 bytes of the canonical JSON text.
pub open spec fn canonical_json(
    sequence: i64,
    occurred_at_ms: i64,
    kind: Seq<char>,
    device_path: Seq<char>,
    interface_class: Seq<char>,
    vendor_id: Option<Seq<char>>,
    product_id: Option<Seq<char>>,
    risk: Seq<char>,
    reason: Seq<char>,
    previous_hash: Seq<char>,
) -> Seq<u8> {
    encode_utf8(
        canonical_text(
            sequence,
            occurred_at_ms,
            kind,
            device_path,
            interface_class,
            vendor_id,
            product_id,
            risk,
            reason,
            previous_hash,
        ),
    )
}

proof fn lemma_decimal_digits(n: nat)
    ensures
        decimal(n).len() >= 1,
        forall|i: int| 0 <= i < decimal(n).len() ==> '0' <= #[trigger] decimal(n)[i] <= '9',
    decreases n,
{
    if n >= 10 {
        lemma_decimal_digits(n / 10);
        let d = decimal(n);
        assert forall|i: int| 0 <= i < d.len() implies '0' <= #[trigger] d[i] <= '9' by {
            if i < decimal(n / 10).len() {
                assert(d[i] == decimal(n / 10)[i]);
            }
        }
    }
}

proof fn lemma_decimal_injective(a: nat, b: nat)
    requires
        decimal(a) == decimal(b),
    ensures
        a == b,
    decreases a,
{
    lemma_decimal_digits(a);
    lemma_decimal_digits(b);
    if a < 10 && b < 10 {
        assert(decimal(a)[0] == decimal(b)[0]);
        assert(digit_char(a as int) as int == 48 + a);
        assert(digit_char(b as int) as int == 48 + b);
    } else if a < 10 {
        lemma_decimal_digits(b / 10);
        assert(decimal(a).len() == 1);
        assert(decimal(b).len() >= 2);
    } else if b < 10 {
        lemma_decimal_digits(a / 10);
        assert(decimal(b).len() == 1);
        assert(decimal(a).len() >= 2);
    } else {
        let da = decimal(a);
        assert(da.last() == digit_char((a % 10) as int));
        assert(decimal(b).last() == digit_char((b % 10) as int));
        assert(da.drop_last() =~= decimal(a / 10));
        assert(decimal(b).drop_last() =~= decimal(b / 10));
        lemma_decimal_injective(a / 10, b / 10);
        assert(digit_char((a % 10) as int) as int == 48 + a % 10);
        assert(digit_char((b % 10) as int) as int == 48 + b % 10);
        assert(a % 10 == b % 10);
        assert(a == 10 * (a / 10) + a % 10);
        assert(b == 10 * (b / 10) + b % 10);
    }
}

proof fn lemma_int_text_injective(a: int, b: int)
    requires
        int_text(a) == int_text(b),
    ensures
        a == b,
{
    if a < 0 {
        lemma_decimal_digits((-a) as nat);
    }
    if b < 0 {
        lemma_decimal_digits((-b) as nat);
    }
    if a >= 0 {
        lemma_decimal_digits(a as nat);
    }
    if b >= 0 {
        lemma_decimal_digits(b as nat);
    }
    if a < 0 && b < 0 {
        assert(int_text(a).drop_first() =~= decimal((-a) as nat));
        assert(int_text(b).drop_first() =~= decimal((-b) as nat));
        lemma_decimal_injective((-a) as nat, (-b) as nat);
        assert(-a == -b);
    } else if a < 0 {
        assert(int_text(a)[0] == '-');
        assert('0' <= decimal(b as nat)[0]);
        assert(int_text(a)[0] == int_text(b)[0]);
    } else if b < 0 {
        assert(int_text(b)[0] == '-');
        assert('0' <= decimal(a as nat)[0]);
        assert(int_text(a)[0] == int_text(b)[0]);
    } else {
        lemma_decimal_injective(a as nat, b as nat);
    }
}

proof fn lemma_int_text_no_comma(n: int)
    ensures
        forall|i: int| 0 <= i < int_text(n).len() ==> #[trigger] int_text(n)[i] != ',',
{
    if n < 0 {
        lemma_decimal_digits((-n) as nat);
        assert forall|i: int| 0 <= i < int_text(n).len() implies #[trigger] int_text(n)[i] != ',' by {
            if i > 0 {
                assert(int_text(n)[i] == decimal((-n) as nat)[i - 1]);
            }
        }
    } else {
        lemma_decimal_digits(n as nat);
    }
}

proof fn lemma_joined_int(a: int, b: int, r1: Seq<char>, r2: Seq<char>)
    requires
        joined(int_text(a), r1) == joined(int_text(b), r2),
    ensures
        a == b,
        r1 == r2,
{
    lemma_int_text_no_comma(a);
    lemma_int_text_no_comma(b);
    let p1 = int_text(a);
    let p2 = int_text(b);
    let t = joined(p1, r1);
    assert(t[p1.len() as int] == ',');
    assert(joined(p2, r2)[p2.len() as int] == ',');
    if p1.len() < p2.len() {
        assert(joined(p2, r2)[p1.len() as int] == p2[p1.len() as int]);
    }
    if p2.len() < p1.len() {
        assert(t[p2.len() as int] == p1[p2.len() as int]);
    }
    assert(p1 =~= t.subrange(0, p1.len() as int));
    assert(p2 =~= joined(p2, r2).subrange(0, p2.len() as int));
    lemma_int_text_injective(a, b);
    assert(r1 =~= t.skip(p1.len() as int + 1));
    assert(r2 =~= joined(p2, r2).skip(p2.len() as int + 1));
}

/// The numeric value of a lower-case hex digit.
spec fn hex_value(c: char) -> int {
    if c <= '9' {
        c as int - 48
    } else {
        c as int - 87
    }
}

/// The character that a JSON string's text begins with, and how many
/// characters its escape takes.
spec fn unescape_first(t: Seq<char>) -> (char, int) {
    if t[0] != '\\' {
        (t[0], 1)
    } else if t[1] == '"' {
        ('"', 2)
    } else if t[1] == '\\' {
        ('\\', 2)
    } else if t[1] == 'b' {
        ('\x08', 2)
    } else if t[1] == 't' {
        ('\t', 2)
    } else if t[1] == 'n' {
        ('\n', 2)
    } else if t[1] == 'f' {
        ('\x0C', 2)
    } else if t[1] == 'r' {
        ('\r', 2)
    } else {
        ((hex_value(t[4]) * 16 + hex_value(t[5])) as char, 6)
    }
}

proof fn lemma_unescape_escaped(c: char, x: Seq<char>)
    ensures
        unescape_first(escaped(c) + x) == (c, escaped(c).len() as int),
        escaped(c).len() >= 1,
        escaped(c)[0] != '"',
{
    let t = escaped(c) + x;
    if c != '"' && c != '\\' && c != '\x08' && c != '\t' && c != '\n' && c != '\x0C' && c != '\r'
        && (c as int) < 0x20 {
        let hi = c as int / 16;
        let lo = c as int % 16;
        assert(t[4] == hex_char(hi));
        assert(t[5] == hex_char(lo));
        assert(hex_value(hex_char(hi)) == hi);
        assert(hex_value(hex_char(lo)) == lo);
        assert(hi * 16 + lo == c as int);
        assert(((c as int) as char) == c);
    } else {
        assert(t[0] == escaped(c)[0]);
        if escaped(c).len() >= 2 {
            assert(t[1] == escaped(c)[1]);
        }
    }
}

proof fn lemma_escaped_prefix(a: char, b: char, x: Seq<char>, y: Seq<char>)
    requires
        escaped(a) + x == escaped(b) + y,
    ensures
        a == b,
        x == y,
{
    lemma_unescape_escaped(a, x);
    lemma_unescape_escaped(b, y);
    let n = escaped(a).len() as int;
    assert(x =~= (escaped(a) + x).skip(n));
    assert(y =~= (escaped(b) + y).skip(n));
}

proof fn lemma_escaped_all_prefix(s1: Seq<char>, s2: Seq<char>, r1: Seq<char>, r2: Seq<char>)
    requires
        escaped_all(s1) + (seq!['"'] + r1) == escaped_all(s2) + (seq!['"'] + r2),
    ensures
        s1 == s2,
        r1 == r2,
    decreases s1.len() + s2.len(),
{
    let t1 = escaped_all(s1) + (seq!['"'] + r1);
    let t2 = escaped_all(s2) + (seq!['"'] + r2);
    if s1.len() == 0 && s2.len() == 0 {
        assert(r1 =~= t1.drop_first());
        assert(r2 =~= t2.drop_first());
    } else if s1.len() == 0 {
        lemma_unescape_escaped(s2[0], escaped_all(s2.drop_first()));
        assert(t2[0] == escaped(s2[0])[0]);
        assert(t1[0] == '"');
    } else if s2.len() == 0 {
        lemma_unescape_escaped(s1[0], escaped_all(s1.drop_first()));
        assert(t1[0] == escaped(s1[0])[0]);
        assert(t2[0] == '"');
    } else {
        let x = escaped_all(s1.drop_first()) + (seq!['"'] + r1);
        let y = escaped_all(s2.drop_first()) + (seq!['"'] + r2);
        assert(t1 =~= escaped(s1[0]) + x);
        assert(t2 =~= escaped(s2[0]) + y);
        lemma_escaped_prefix(s1[0], s2[0], x, y);
        lemma_escaped_all_prefix(s1.drop_first(), s2.drop_first(), r1, r2);
        assert(s1 =~= seq![s1[0]] + s1.drop_first());
        assert(s2 =~= seq![s2[0]] + s2.drop_first());
    }
}

proof fn lemma_quoted_prefix(s1: Seq<char>, s2: Seq<char>, r1: Seq<char>, r2: Seq<char>)
    requires
        quoted(s1) + r1 == quoted(s2) + r2,
    ensures
        s1 == s2,
        r1 == r2,
{
    let t1 = quoted(s1) + r1;
    let t2 = quoted(s2) + r2;
    assert(t1.drop_first() =~= escaped_all(s1) + (seq!['"'] + r1));
    assert(t2.drop_first() =~= escaped_all(s2) + (seq!['"'] + r2));
    lemma_escaped_all_prefix(s1, s2, r1, r2);
}

proof fn lemma_joined_quoted(a: Seq<char>, b: Seq<char>, r1: Seq<char>, r2: Seq<char>)
    requires
        joined(quoted(a), r1) == joined(quoted(b), r2),
    ensures
        a == b,
        r1 == r2,
{
    lemma_quoted_prefix(a, b, seq![','] + r1, seq![','] + r2);
    assert(r1 =~= (seq![','] + r1).drop_first());
    assert(r2 =~= (seq![','] + r2).drop_first());
}

proof fn lemma_joined_optional(a: Option<Seq<char>>, b: Option<Seq<char>>, r1: Seq<char>, r2: Seq<char>)
    requires
        joined(optional_text(a), r1) == joined(optional_text(b), r2),
    ensures
        a == b,
        r1 == r2,
{
    let t1 = joined(optional_text(a), r1);
    let t2 = joined(optional_text(b), r2);
    match (a, b) {
        (None, None) => {
            assert(r1 =~= t1.skip(5));
            assert(r2 =~= t2.skip(5));
        },
        (Some(x), Some(y)) => {
            lemma_joined_quoted(x, y, r1, r2);
        },
        (None, Some(y)) => {
            assert(t1[0] == 'n');
            assert(t2[0] == '"');
        },
        (Some(x), None) => {
            assert(t1[0] == '"');
            assert(t2[0] == 'n');
        },
    }
}

/// Distinct field values have distinct canonical JSON: the text can be read
/// back field by field, and UTF-8 encoding loses nothing.
pub proof fn lemma_canonical_json_injective(
    sequence: (i64, i64),
    occurred_at_ms: (i64, i64),
    kind: (Seq<char>, Seq<char>),
    device_path: (Seq<char>, Seq<char>),
    interface_class: (Seq<char>, Seq<char>),
    vendor_id: (Option<Seq<char>>, Option<Seq<char>>),
    product_id: (Option<Seq<char>>, Option<Seq<char>>),
    risk: (Seq<char>, Seq<char>),
    reason: (Seq<char>, Seq<char>),
    previous_hash: (Seq<char>, Seq<char>),
)
    requires
        canonical_json(
            sequence.0,
            occurred_at_ms.0,
            kind.0,
            device_path.0,
            interface_class.0,
            vendor_id.0,
            product_id.0,
            risk.0,
            reason.0,
            previous_hash.0,
        ) == canonical_json(
            sequence.1,
            occurred_at_ms.1,
            kind.1,
            device_path.1,
            interface_class.1,
            vendor_id.1,
            product_id.1,
            risk.1,
            reason.1,
            previous_hash.1,
        ),
    ensures
        sequence.0 == sequence.1,
        occurred_at_ms.0 == occurred_at_ms.1,
        kind.0 == kind.1,
        device_path.0 == device_path.1,
        interface_class.0 == interface_class.1,
        vendor_id.0 == vendor_id.1,
        product_id.0 == product_id.1,
        risk.0 == risk.1,
        reason.0 == reason.1,
        previous_hash.0 == previous_hash.1,
{
    let t1 = canonical_text(
        sequence.0,
        occurred_at_ms.0,
        kind.0,
        device_path.0,
        interface_class.0,
        vendor_id.0,
        product_id.0,
        risk.0,
        reason.0,
        previous_hash.0,
    );
    let t2 = canonical_text(
        sequence.1,
        occurred_at_ms.1,
        kind.1,
        device_path.1,
        interface_class.1,
        vendor_id.1,
        product_id.1,
        risk.1,
        reason.1,
        previous_hash.1,
    );
    encode_utf8_decode_utf8(t1);
    encode_utf8_decode_utf8(t2);
    assert(t1 == t2);
    let f9 = quoted(previous_hash.0) + seq![']'];
    let g9 = quoted(previous_hash.1) + seq![']'];
    let f8 = joined(quoted(reason.0), f9);
    let g8 = joined(quoted(reason.1), g9);
    let f7 = joined(quoted(risk.0), f8);
    let g7 = joined(quoted(risk.1), g8);
    let f6 = joined(optional_text(product_id.0), f7);
    let g6 = joined(optional_text(product_id.1), g7);
    let f5 = joined(optional_text(vendor_id.0), f6);
    let g5 = joined(optional_text(vendor_id.1), g6);
    let f4 = joined(quoted(interface_class.0), f5);
    let g4 = joined(quoted(interface_class.1), g5);
    let f3 = joined(quoted(device_path.0), f4);
    let g3 = joined(quoted(device_path.1), g4);
    let f2 = joined(quoted(kind.0), f3);
    let g2 = joined(quoted(kind.1), g3);
    let f1 = joined(int_text(occurred_at_ms.0 as int), f2);
    let g1 = joined(int_text(occurred_at_ms.1 as int), g2);
    let f0 = joined(int_text(sequence.0 as int), f1);
    let g0 = joined(int_text(sequence.1 as int), g1);
    assert(f0 =~= t1.drop_first());
    assert(g0 =~= t2.drop_first());
    lemma_joined_int(sequence.0 as int, sequence.1 as int, f1, g1);
    lemma_joined_int(occurred_at_ms.0 as int, occurred_at_ms.1 as int, f2, g2);
    lemma_joined_quoted(kind.0, kind.1, f3, g3);
    lemma_joined_quoted(device_path.0, device_path.1, f4, g4);
    lemma_joined_quoted(interface_class.0, interface_class.1, f5, g5);
    lemma_joined_optional(vendor_id.0, vendor_id.1, f6, g6);
    lemma_joined_optional(product_id.0, product_id.1, f7, g7);
    lemma_joined_quoted(risk.0, risk.1, f8, g8);
    lemma_joined_quoted(reason.0, reason.1, f9, g9);
    lemma_quoted_prefix(previous_hash.0, previous_hash.1, seq![']'], seq![']']);
}

} // verus!
