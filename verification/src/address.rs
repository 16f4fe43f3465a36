//! MAC address codec: parsing colon-hex text into a 48-bit address and
//! formatting it back as uppercase colon-hex text.

use vstd::prelude::*;
use vstd::string::StrSliceExecFns;
use vstd::string::StringExecFns;

verus! {

/// Error produced when parsing a MAC address from text.
#[derive(Clone, Copy, Debug, PartialEq, Eq, Structural)]
pub enum BluetoothAddressParseError {
    /// The text does not split on `:` into exactly six segments.
    IncorrectSegments,
    /// A segment is not a valid base-16 byte value.
    InvalidNumber,
}

/// A MAC address for Bluetooth devices: a 48-bit value held in a `u64`
/// (top two bytes zero for every parsed address).
#[derive(Clone, Copy, Debug, PartialEq, Eq, Hash, Structural)]
pub struct BluetoothAddress(pub u64);

/// A character that is a base-16 digit.
pub open spec fn is_hex_digit(c: char) -> bool {
    (48 <= c as u32 && c as u32 <= 57)  // '0' ..= '9'
    || (97 <= c as u32 && c as u32 <= 102)  // 'a' ..= 'f'
    || (65 <= c as u32 && c as u32 <= 70)  // 'A' ..= 'F'
}

/// The value of a base-16 digit; 16 for any other character.
pub open spec fn hex_digit_value(c: char) -> int {
    if 48 <= c as u32 && c as u32 <= 57 {
        c as u32 - 48
    } else if 97 <= c as u32 && c as u32 <= 102 {
        c as u32 - 87
    } else if 65 <= c as u32 && c as u32 <= 70 {
        c as u32 - 55
    } else {
        16
    }
}

/// The numeric value of a segment read as base-16, most significant digit
/// first.
pub open spec fn segment_value(s: Seq<char>) -> int
    decreases s.len(),
{
    if s.len() == 0 {
        0
    } else {
        segment_value(s.drop_last()) * 16 + hex_digit_value(s.last())
    }
}

/// A segment that parses as a base-16 byte: non-empty, all base-16 digits,
/// value at most 255.
pub open spec fn segment_ok(s: Seq<char>) -> bool {
    &&& s.len() > 0
    &&& forall|i: int| 0 <= i < s.len() ==> is_hex_digit(#[trigger] s[i])
    &&& segment_value(s) <= 255
}

/// The segments of `s` split on `:`, as `str::split` produces them: an empty
/// text gives one empty segment, and every `:` opens a new segment.
pub open spec fn split_colon(s: Seq<char>) -> Seq<Seq<char>>
    decreases s.len(),
{
    if s.len() == 0 {
        seq![Seq::<char>::empty()]
    } else {
        let rest = split_colon(s.drop_last());
        if s.last() == ':' {
            rest.push(Seq::<char>::empty())
        } else {
            rest.update(rest.len() - 1, rest.last().push(s.last()))
        }
    }
}

pub proof fn lemma_split_colon_nonempty(s: Seq<char>)
    ensures
        split_colon(s).len() >= 1,
    decreases s.len(),
{
    if s.len() > 0 {
        lemma_split_colon_nonempty(s.drop_last());
    }
}

/// The numeric value of six text segments, most significant byte first.
pub open spec fn mac_value(segs: Seq<Seq<char>>) -> int {
    segment_value(segs[0]) * 0x100_0000_0000
    + segment_value(segs[1]) * 0x1_0000_0000
    + segment_value(segs[2]) * 0x100_0000
    + segment_value(segs[3]) * 0x1_0000
    + segment_value(segs[4]) * 0x100
    + segment_value(segs[5])
}

/// The six bytes of an address value, most significant first; bits above the
/// 48th are ignored.
pub open spec fn mac_bytes(v: u64) -> Seq<u8> {
    seq![
        ((v >> 40) & 0xFF) as u8,
        ((v >> 32) & 0xFF) as u8,
        ((v >> 24) & 0xFF) as u8,
        ((v >> 16) & 0xFF) as u8,
        ((v >> 8) & 0xFF) as u8,
        (v & 0xFF) as u8,
    ]
}

pub proof fn lemma_segment_value_nonneg(s: Seq<char>)
    ensures
        segment_value(s) >= 0,
    decreases s.len(),
{
    if s.len() > 0 {
        lemma_segment_value_nonneg(s.drop_last());
    }
}

/// Appending digits never lowers a segment's value: the value of any prefix
/// bounds the value of the whole segment from below.
pub proof fn lemma_segment_value_prefix(s: Seq<char>, i: int)
    requires
        0 <= i <= s.len(),
    ensures
        segment_value(s.take(i)) <= segment_value(s),
    decreases s.len() - i,
{
    if i < s.len() {
        lemma_segment_value_prefix(s, i + 1);
        assert(s.take(i + 1).drop_last() =~= s.take(i));
        assert(s.take(i + 1).last() == s[i]);
        lemma_segment_value_nonneg(s.take(i));
    } else {
        assert(s.take(i) =~= s);
    }
}

/// The characters of `s`, in order.
fn chars_of(s: &str) -> (v: Vec<char>)
    ensures
        v@ == s@,
{
    let n = s.unicode_len();
    let mut v: Vec<char> = Vec::new();
    let mut i: usize = 0;
    while i < n
        invariant
            n == s@.len(),
            i <= n,
            v@ == s@.take(i as int),
        decreases n - i,
    {
        let c = s.get_char(i);
        v.push(c);
        proof {
            assert(v@ =~= s@.take(i + 1));
        }
        i += 1;
    }
    proof {
        assert(v@ =~= s@);
    }
    v
}

/// Parse one segment as a base-16 byte.
fn hex_byte(seg: &Vec<char>) -> (r: Option<u8>)
    ensures
        r is Some <==> segment_ok(seg@),
        r matches Some(b) ==> b == segment_value(seg@),
{
    if seg.len() == 0 {
        return None;
    }
    let mut acc: u32 = 0;
    let mut i: usize = 0;
    while i < seg.len()
        invariant
            i <= seg.len(),
            forall|j: int| 0 <= j < i ==> is_hex_digit(#[trigger] seg@[j]),
            acc == segment_value(seg@.take(i as int)),
            acc <= 255,
        decreases seg.len() - i,
    {
        let c = seg[i];
        let x = c as u32;
        let d: u32 = if 48 <= x && x <= 57 {
            x - 48
        } else if 97 <= x && x <= 102 {
            x - 87
        } else if 65 <= x && x <= 70 {
            x - 55
        } else {
            // a character that is no base-16 digit ends the segment as invalid
            return None;
        };
        let next = acc * 16 + d;
        proof {
            assert(seg@.take(i + 1).drop_last() =~= seg@.take(i as int));
            assert(seg@.take(i + 1).last() == seg@[i as int]);
        }
        if next > 255 {
            proof {
                lemma_segment_value_prefix(seg@, i + 1);
            }
            return None;
        }
        acc = next;
        i += 1;
    }
    proof {
        assert(seg@.take(seg@.len() as int) =~= seg@);
    }
    Some(acc as u8)
}

/// The uppercase base-16 digit for a value below 16.
pub open spec fn hex_char(d: int) -> char {
    if d == 0 { '0' }
    else if d == 1 { '1' }
    else if d == 2 { '2' }
    else if d == 3 { '3' }
    else if d == 4 { '4' }
    else if d == 5 { '5' }
    else if d == 6 { '6' }
    else if d == 7 { '7' }
    else if d == 8 { '8' }
    else if d == 9 { '9' }
    else if d == 10 { 'A' }
    else if d == 11 { 'B' }
    else if d == 12 { 'C' }
    else if d == 13 { 'D' }
    else if d == 14 { 'E' }
    else if d == 15 { 'F' }
    else { '0' }
}

/// The two uppercase base-16 digits of one byte.
pub open spec fn byte_text(b: u8) -> Seq<char> {
    seq![hex_char(b as int / 16), hex_char(b as int % 16)]
}

/// The colon-joined uppercase text of six bytes, most significant first.
pub open spec fn mac_text(bs: Seq<u8>) -> Seq<char> {
    byte_text(bs[0]) + seq![':'] + byte_text(bs[1]) + seq![':'] + byte_text(bs[2]) + seq![':']
        + byte_text(bs[3]) + seq![':'] + byte_text(bs[4]) + seq![':'] + byte_text(bs[5])
}

/// The segments joined back with `:` between them.
pub open spec fn join_colon(segs: Seq<Seq<char>>) -> Seq<char>
    decreases segs.len(),
{
    if segs.len() == 0 {
        Seq::<char>::empty()
    } else if segs.len() == 1 {
        segs[0]
    } else {
        join_colon(segs.drop_last()) + seq![':'] + segs.last()
    }
}

/// Splitting on `:` loses nothing: joining the segments with `:` gives the
/// text back.
pub proof fn lemma_split_join(s: Seq<char>)
    ensures
        join_colon(split_colon(s)) == s,
    decreases s.len(),
{
    if s.len() == 0 {
        assert(join_colon(split_colon(s)) =~= s);
    } else {
        lemma_split_join(s.drop_last());
        lemma_split_colon_nonempty(s.drop_last());
        let rest = split_colon(s.drop_last());
        if s.last() == ':' {
            assert(rest.push(Seq::<char>::empty()).drop_last() =~= rest);
            assert(join_colon(split_colon(s)) =~= s);
        } else {
            let upd = rest.update(rest.len() - 1, rest.last().push(s.last()));
            if rest.len() == 1 {
                assert(split_colon(s) == upd);
                assert(upd.len() == 1);
                assert(upd[0] == rest[0].push(s.last()));
                assert(join_colon(upd) == rest[0].push(s.last()));
                assert(join_colon(rest) == rest[0]);
                assert(rest[0] == s.drop_last());
                assert(s.drop_last().push(s.last()) =~= s);
                assert(join_colon(split_colon(s)) == s);
            } else {
                assert(split_colon(s) == upd);
                assert(upd.len() == rest.len() && upd.len() >= 2);
                assert(upd.drop_last() =~= rest.drop_last());
                assert(upd.last() == rest.last().push(s.last()));
                assert(join_colon(upd) == join_colon(rest.drop_last()) + seq![':']
                    + rest.last().push(s.last()));
                assert(join_colon(rest) == join_colon(rest.drop_last()) + seq![':'] + rest.last());
                assert(join_colon(rest) == s.drop_last());
                assert(join_colon(upd) =~= (join_colon(rest.drop_last()) + seq![':']
                    + rest.last()).push(s.last()));
                assert((join_colon(rest.drop_last()) + seq![':'] + rest.last()).push(s.last())
                    == s.drop_last().push(s.last()));
                assert(s.drop_last().push(s.last()) =~= s);
                assert(join_colon(split_colon(s)) == s);
            }
        }
    }
}

/// The uppercase of one character of base-16 text: a lowercase base-16 letter
/// raised, everything else kept.
pub open spec fn upper_hex_char(c: char) -> char {
    if c == 'a' { 'A' }
    else if c == 'b' { 'B' }
    else if c == 'c' { 'C' }
    else if c == 'd' { 'D' }
    else if c == 'e' { 'E' }
    else if c == 'f' { 'F' }
    else { c }
}

/// The uppercase of a base-16 text.
pub open spec fn hex_upper(s: Seq<char>) -> Seq<char> {
    s.map_values(|c: char| upper_hex_char(c))
}

/// A segment of exactly two base-16 digits.
pub open spec fn two_hex_digits(seg: Seq<char>) -> bool {
    seg.len() == 2 && is_hex_digit(seg[0]) && is_hex_digit(seg[1])
}

/// Text in the canonical shape an address formats to (up to letter case): six
/// colon-separated segments of exactly two base-16 digits.
pub open spec fn well_formed_mac_text(s: Seq<char>) -> bool {
    &&& split_colon(s).len() == 6
    &&& forall|k: int| 0 <= k < 6 ==> two_hex_digits(#[trigger] split_colon(s)[k])
}

/// The uppercase digit of a value below 16 is the uppercase of any base-16
/// digit with that value.
proof fn lemma_hex_char_of_digit(c: char)
    requires
        is_hex_digit(c),
    ensures
        hex_char(hex_digit_value(c)) == upper_hex_char(c),
{
}

/// A two-digit segment is a valid byte whose two formatted digits are the
/// uppercase of the two it was written with.
proof fn lemma_segment_pair(seg: Seq<char>)
    requires
        two_hex_digits(seg),
    ensures
        segment_ok(seg),
        0 <= segment_value(seg) <= 255,
        byte_text(segment_value(seg) as u8) == seq![
            upper_hex_char(seg[0]),
            upper_hex_char(seg[1]),
        ],
{
    let c0 = seg[0];
    let c1 = seg[1];
    assert(seg.drop_last() =~= seq![c0]);
    assert(seq![c0].drop_last() =~= Seq::<char>::empty());
    assert(seq![c0].last() == c0);
    assert(segment_value(Seq::<char>::empty()) == 0);
    assert(segment_value(seq![c0]) == hex_digit_value(c0));
    assert(seg.last() == c1);
    assert(segment_value(seg) == hex_digit_value(c0) * 16 + hex_digit_value(c1));
    let v = segment_value(seg);
    assert(v / 16 == hex_digit_value(c0) && v % 16 == hex_digit_value(c1)) by (nonlinear_arith)
        requires
            v == hex_digit_value(c0) * 16 + hex_digit_value(c1),
            0 <= hex_digit_value(c0) < 16,
            0 <= hex_digit_value(c1) < 16,
    ;
    lemma_hex_char_of_digit(c0);
    lemma_hex_char_of_digit(c1);
    assert forall|i: int| 0 <= i < seg.len() implies is_hex_digit(#[trigger] seg[i]) by {
        assert(i == 0 || i == 1);
    }
    assert(byte_text(v as u8) =~= seq![upper_hex_char(c0), upper_hex_char(c1)]);
}

/// The six bytes of the assembled value are the six values it was assembled
/// from.
proof fn lemma_mac_bytes_assemble(v: u64, x0: u64, x1: u64, x2: u64, x3: u64, x4: u64, x5: u64)
    by (bit_vector)
    requires
        x0 <= 255,
        x1 <= 255,
        x2 <= 255,
        x3 <= 255,
        x4 <= 255,
        x5 <= 255,
        v == x0 * 0x100_0000_0000 + x1 * 0x1_0000_0000 + x2 * 0x100_0000 + x3 * 0x1_0000 + x4
            * 0x100 + x5,
    ensures
        (v >> 40) & 0xFF == x0,
        (v >> 32) & 0xFF == x1,
        (v >> 24) & 0xFF == x2,
        (v >> 16) & 0xFF == x3,
        (v >> 8) & 0xFF == x4,
        v & 0xFF == x5,
{
}

/// Six segments joined are the first, a colon, the second, and so on.
proof fn lemma_join_six(segs: Seq<Seq<char>>)
    requires
        segs.len() == 6,
    ensures
        join_colon(segs) == segs[0] + seq![':'] + segs[1] + seq![':'] + segs[2] + seq![':']
            + segs[3] + seq![':'] + segs[4] + seq![':'] + segs[5],
{
    let p5 = segs.drop_last();
    let p4 = p5.drop_last();
    let p3 = p4.drop_last();
    let p2 = p3.drop_last();
    let p1 = p2.drop_last();
    assert(p1.len() == 1 && p1[0] == segs[0]);
    assert(join_colon(p1) == segs[0]);
    assert(p2.last() == segs[1]);
    assert(join_colon(p2) == join_colon(p1) + seq![':'] + segs[1]);
    assert(p3.last() == segs[2]);
    assert(join_colon(p3) == join_colon(p2) + seq![':'] + segs[2]);
    assert(p4.last() == segs[3]);
    assert(join_colon(p4) == join_colon(p3) + seq![':'] + segs[3]);
    assert(p5.last() == segs[4]);
    assert(join_colon(p5) == join_colon(p4) + seq![':'] + segs[4]);
    assert(segs.last() == segs[5]);
    assert(join_colon(segs) == join_colon(p5) + seq![':'] + segs[5]);
    assert(join_colon(segs) =~= segs[0] + seq![':'] + segs[1] + seq![':'] + segs[2] + seq![':']
        + segs[3] + seq![':'] + segs[4] + seq![':'] + segs[5]);
}

/// Round trip: parsing well-formed colon-hex text and formatting the result
/// gives the same text raised to uppercase.  Every segment of such text is a
/// valid byte, so parsing is owed to succeed, and the value it yields formats
/// segment for segment to the uppercase of the input.
pub proof fn lemma_parse_format_round_trip(s: Seq<char>)
    requires
        well_formed_mac_text(s),
    ensures
        forall|k: int| 0 <= k < 6 ==> segment_ok(#[trigger] split_colon(s)[k]),
        0 <= mac_value(split_colon(s)) < 0x1_0000_0000_0000,
        mac_text(mac_bytes(mac_value(split_colon(s)) as u64)) == hex_upper(s),
{
    let segs = split_colon(s);
    assert forall|k: int| 0 <= k < 6 implies segment_ok(#[trigger] segs[k]) by {
        lemma_segment_pair(segs[k]);
    }
    lemma_segment_pair(segs[0]);
    lemma_segment_pair(segs[1]);
    lemma_segment_pair(segs[2]);
    lemma_segment_pair(segs[3]);
    lemma_segment_pair(segs[4]);
    lemma_segment_pair(segs[5]);
    let v = mac_value(segs) as u64;
    assert(v == mac_value(segs));
    lemma_mac_bytes_assemble(
        v,
        segment_value(segs[0]) as u64,
        segment_value(segs[1]) as u64,
        segment_value(segs[2]) as u64,
        segment_value(segs[3]) as u64,
        segment_value(segs[4]) as u64,
        segment_value(segs[5]) as u64,
    );
    assert(mac_bytes(v) =~= seq![
        segment_value(segs[0]) as u8,
        segment_value(segs[1]) as u8,
        segment_value(segs[2]) as u8,
        segment_value(segs[3]) as u8,
        segment_value(segs[4]) as u8,
        segment_value(segs[5]) as u8,
    ]);
    lemma_split_join(s);
    lemma_join_six(segs);
    assert(mac_text(mac_bytes(v)) =~= hex_upper(s));
}

/// An uppercase base-16 digit is a base-16 digit with the value it was
/// written for, and never a colon.
proof fn lemma_hex_char_value(d: int)
    requires
        0 <= d < 16,
    ensures
        is_hex_digit(hex_char(d)),
        hex_digit_value(hex_char(d)) == d,
        hex_char(d) != ':',
{
}

/// A byte's two formatted digits are a colon-free segment that parses back to
/// the byte.
proof fn lemma_byte_text_value(b: u8)
    ensures
        byte_text(b).len() == 2,
        forall|i: int| 0 <= i < byte_text(b).len() ==> #[trigger] byte_text(b)[i] != ':',
        two_hex_digits(byte_text(b)),
        segment_value(byte_text(b)) == b,
        segment_ok(byte_text(b)),
{
    lemma_hex_char_value(b as int / 16);
    lemma_hex_char_value(b as int % 16);
    let t = byte_text(b);
    assert(t.drop_last() =~= seq![t[0]]);
    assert(seq![t[0]].drop_last() =~= Seq::<char>::empty());
    assert(seq![t[0]].last() == t[0]);
    assert(segment_value(Seq::<char>::empty()) == 0);
    assert(segment_value(seq![t[0]]) == hex_digit_value(t[0]));
    assert(t.last() == t[1]);
    assert(segment_value(t) == (b as int / 16) * 16 + (b as int % 16));
    assert((b as int / 16) * 16 + (b as int % 16) == b) by (nonlinear_arith);
    assert forall|i: int| 0 <= i < t.len() implies is_hex_digit(#[trigger] t[i]) by {
        assert(i == 0 || i == 1);
    }
}

/// Appending a colon opens a new, empty segment.
proof fn lemma_split_append_colon(s: Seq<char>)
    ensures
        split_colon(s.push(':')) == split_colon(s).push(Seq::<char>::empty()),
{
    assert(s.push(':').drop_last() =~= s);
    assert(s.push(':').last() == ':');
}

/// Appending colon-free text extends the last segment and nothing else.
proof fn lemma_split_append_free(s: Seq<char>, t: Seq<char>)
    requires
        forall|i: int| 0 <= i < t.len() ==> #[trigger] t[i] != ':',
    ensures
        split_colon(s + t) == split_colon(s).update(
            split_colon(s).len() - 1,
            split_colon(s).last() + t,
        ),
    decreases t.len(),
{
    lemma_split_colon_nonempty(s);
    let r = split_colon(s);
    if t.len() == 0 {
        assert(s + t =~= s);
        assert(r.last() + t =~= r.last());
        assert(r.update(r.len() - 1, r.last() + t) =~~= r);
    } else {
        lemma_split_append_free(s, t.drop_last());
        assert((s + t).drop_last() =~= s + t.drop_last());
        assert((s + t).last() == t.last());
        assert(t.last() != ':');
        let r1 = split_colon(s + t.drop_last());
        assert(r1 == r.update(r.len() - 1, r.last() + t.drop_last()));
        assert(r1.len() == r.len());
        assert(r1.last() == r.last() + t.drop_last());
        assert(split_colon(s + t) == r1.update(r1.len() - 1, r1.last().push(t.last())));
        assert((r.last() + t.drop_last()).push(t.last()) =~= r.last() + t);
        assert(split_colon(s + t) =~~= r.update(r.len() - 1, r.last() + t));
    }
}

/// The formatted text of six bytes splits back into the six two-digit
/// segments it was joined from.
proof fn lemma_split_mac_text(bs: Seq<u8>)
    requires
        bs.len() == 6,
    ensures
        split_colon(mac_text(bs)) == seq![
            byte_text(bs[0]),
            byte_text(bs[1]),
            byte_text(bs[2]),
            byte_text(bs[3]),
            byte_text(bs[4]),
            byte_text(bs[5]),
        ],
{
    lemma_byte_text_value(bs[0]);
    lemma_byte_text_value(bs[1]);
    lemma_byte_text_value(bs[2]);
    lemma_byte_text_value(bs[3]);
    lemma_byte_text_value(bs[4]);
    lemma_byte_text_value(bs[5]);
    let t0 = byte_text(bs[0]);
    let t1 = byte_text(bs[1]);
    let t2 = byte_text(bs[2]);
    let t3 = byte_text(bs[3]);
    let t4 = byte_text(bs[4]);
    let t5 = byte_text(bs[5]);
    let e = Seq::<char>::empty();
    assert(split_colon(e) =~~= seq![e]);
    lemma_split_append_free(e, t0);
    assert(e + t0 =~= t0);
    assert(split_colon(t0) =~~= seq![t0]);
    let u1 = t0.push(':');
    lemma_split_append_colon(t0);
    assert(split_colon(u1) =~~= seq![t0, e]);
    let u2 = u1 + t1;
    lemma_split_append_free(u1, t1);
    assert(e + t1 =~= t1);
    assert(split_colon(u2) =~~= seq![t0, t1]);
    let u3 = u2.push(':');
    lemma_split_append_colon(u2);
    assert(split_colon(u3) =~~= seq![t0, t1, e]);
    let u4 = u3 + t2;
    lemma_split_append_free(u3, t2);
    assert(e + t2 =~= t2);
    assert(split_colon(u4) =~~= seq![t0, t1, t2]);
    let u5 = u4.push(':');
    lemma_split_append_colon(u4);
    assert(split_colon(u5) =~~= seq![t0, t1, t2, e]);
    let u6 = u5 + t3;
    lemma_split_append_free(u5, t3);
    assert(e + t3 =~= t3);
    assert(split_colon(u6) =~~= seq![t0, t1, t2, t3]);
    let u7 = u6.push(':');
    lemma_split_append_colon(u6);
    assert(split_colon(u7) =~~= seq![t0, t1, t2, t3, e]);
    let u8 = u7 + t4;
    lemma_split_append_free(u7, t4);
    assert(e + t4 =~= t4);
    assert(split_colon(u8) =~~= seq![t0, t1, t2, t3, t4]);
    let u9 = u8.push(':');
    lemma_split_append_colon(u8);
    assert(split_colon(u9) =~~= seq![t0, t1, t2, t3, t4, e]);
    let u10 = u9 + t5;
    lemma_split_append_free(u9, t5);
    assert(e + t5 =~= t5);
    assert(split_colon(u10) =~~= seq![t0, t1, t2, t3, t4, t5]);
    assert(mac_text(bs) =~= u10);
}

/// The weighted sum of the six bytes of a 48-bit value is the value.
proof fn lemma_mac_value_of_bytes(v: u64)
    by (bit_vector)
    requires
        v < 0x1_0000_0000_0000,
    ensures
        ((v >> 40) & 0xFF) * 0x100_0000_0000 + ((v >> 32) & 0xFF) * 0x1_0000_0000 + ((v >> 24)
            & 0xFF) * 0x100_0000 + ((v >> 16) & 0xFF) * 0x1_0000 + ((v >> 8) & 0xFF) * 0x100 + (v
            & 0xFF) == v,
        (v >> 40) & 0xFF <= 255,
        (v >> 32) & 0xFF <= 255,
        (v >> 24) & 0xFF <= 255,
        (v >> 16) & 0xFF <= 255,
        (v >> 8) & 0xFF <= 255,
        v & 0xFF <= 255,
{
}

/// Round trip the other way: the text an address formats to is well formed,
/// and parsing it yields the address's value again, for every 48-bit value.
pub proof fn lemma_format_parse_round_trip(v: u64)
    requires
        v < 0x1_0000_0000_0000,
    ensures
        well_formed_mac_text(mac_text(mac_bytes(v))),
        forall|k: int| 0 <= k < 6 ==> segment_ok(#[trigger] split_colon(mac_text(mac_bytes(v)))[k]),
        mac_value(split_colon(mac_text(mac_bytes(v)))) == v,
{
    let bs = mac_bytes(v);
    lemma_split_mac_text(bs);
    lemma_byte_text_value(bs[0]);
    lemma_byte_text_value(bs[1]);
    lemma_byte_text_value(bs[2]);
    lemma_byte_text_value(bs[3]);
    lemma_byte_text_value(bs[4]);
    lemma_byte_text_value(bs[5]);
    let segs = split_colon(mac_text(bs));
    assert forall|k: int| 0 <= k < 6 implies two_hex_digits(#[trigger] segs[k]) by {
        assert(segs[k] == byte_text(bs[k]));
    }
    assert forall|k: int| 0 <= k < 6 implies segment_ok(#[trigger] segs[k]) by {
        assert(segs[k] == byte_text(bs[k]));
    }
    lemma_mac_value_of_bytes(v);
    assert(mac_value(segs) == bs[0] * 0x100_0000_0000 + bs[1] * 0x1_0000_0000 + bs[2] * 0x100_0000
        + bs[3] * 0x1_0000 + bs[4] * 0x100 + bs[5]);
}

/// The uppercase base-16 digit for a value below 16, as text.
fn hex_char_str(d: u8) -> (r: &'static str)
    requires
        d < 16,
    ensures
        r@ == seq![hex_char(d as int)],
{
    let r: &'static str = match d {
        0 => "0",
        1 => "1",
        2 => "2",
        3 => "3",
        4 => "4",
        5 => "5",
        6 => "6",
        7 => "7",
        8 => "8",
        9 => "9",
        10 => "A",
        11 => "B",
        12 => "C",
        13 => "D",
        14 => "E",
        _ => "F",
    };
    proof {
        reveal_strlit("0");
        reveal_strlit("1");
        reveal_strlit("2");
        reveal_strlit("3");
        reveal_strlit("4");
        reveal_strlit("5");
        reveal_strlit("6");
        reveal_strlit("7");
        reveal_strlit("8");
        reveal_strlit("9");
        reveal_strlit("A");
        reveal_strlit("B");
        reveal_strlit("C");
        reveal_strlit("D");
        reveal_strlit("E");
        reveal_strlit("F");
        assert(r@ =~= seq![hex_char(d as int)]);
    }
    r
}

/// Append one byte as two uppercase base-16 digits.
fn push_byte_hex(out: &mut String, b: u8)
    ensures
        final(out)@ == old(out)@ + byte_text(b),
{
    let hi = b / 16;
    let lo = b % 16;
    out.append(hex_char_str(hi));
    out.append(hex_char_str(lo));
    proof {
        assert(out@ =~= old(out)@ + byte_text(b));
    }
}

impl BluetoothAddressParseError {
    /// A short description of the error.
    pub fn message(&self) -> (r: &'static str)
        ensures
            r@ == match self {
                BluetoothAddressParseError::IncorrectSegments => "MAC address has incorrect number of segments"@,
                BluetoothAddressParseError::InvalidNumber => "MAC segment was not valid base-16 number"@,
            },
    {
        match self {
            BluetoothAddressParseError::IncorrectSegments => "MAC address has incorrect number of segments",
            BluetoothAddressParseError::InvalidNumber => "MAC segment was not valid base-16 number",
        }
    }
}

impl core::str::FromStr for BluetoothAddress {
    type Err = BluetoothAddressParseError;

    fn from_str(s: &str) -> Result<Self, Self::Err> {
        BluetoothAddress::parse(s)
    }
}

impl BluetoothAddress {
    /// Parse colon-hex text into an address.  The text must split on `:` into
    /// exactly six segments, most significant byte first, each a base-16 byte
    /// value; otherwise the matching error is returned.
    pub fn parse(s: &str) -> (r: Result<BluetoothAddress, BluetoothAddressParseError>)
        ensures
            ({
                let segs = split_colon(s@);
                match r {
                    Ok(a) => {
                        &&& segs.len() == 6
                        &&& forall|k: int| 0 <= k < 6 ==> segment_ok(#[trigger] segs[k])
                        &&& a.0 == mac_value(segs)
                        &&& a.0 < 0x1_0000_0000_0000
                    },
                    Err(BluetoothAddressParseError::IncorrectSegments) => segs.len() != 6,
                    Err(BluetoothAddressParseError::InvalidNumber) => {
                        &&& segs.len() == 6
                        &&& exists|k: int| 0 <= k < 6 && !segment_ok(#[trigger] segs[k])
                    },
                }
            }),
    {
        let v = chars_of(s);
        let n = v.len();
        let mut segs: Vec<Vec<char>> = Vec::new();
        segs.push(Vec::new());
        let mut i: usize = 0;
        proof {
            assert(v@.take(0) =~= Seq::<char>::empty());
            assert(segs.deep_view() =~~= split_colon(v@.take(0)));
        }
        while i < n
            invariant
                i <= n,
                n == v@.len(),
                segs.deep_view() == split_colon(v@.take(i as int)),
                segs@.len() >= 1,
            decreases n - i,
        {
            let ghost pre = v@.take(i as int);
            proof {
                assert(v@.take(i + 1).drop_last() =~= pre);
                assert(v@.take(i + 1).last() == v@[i as int]);
            }
            let c = v[i];
            if c == ':' {
                segs.push(Vec::new());
                proof {
                    assert(segs.deep_view() =~~= split_colon(v@.take(i + 1)));
                }
            } else {
                let mut last = segs.pop().unwrap();
                last.push(c);
                segs.push(last);
                proof {
                    assert(segs.deep_view() =~~= split_colon(v@.take(i + 1)));
                }
            }
            i += 1;
        }
        proof {
            assert(v@.take(n as int) =~= s@);
        }
        let ghost spec_segs = split_colon(s@);
        if segs.len() != 6 {
            return Err(BluetoothAddressParseError::IncorrectSegments);
        }
        let mut vals: Vec<u8> = Vec::new();
        let mut k: usize = 0;
        while k < 6
            invariant
                k <= 6,
                spec_segs == split_colon(s@),
                segs.deep_view() == spec_segs,
                segs@.len() == 6,
                vals@.len() == k,
                forall|j: int| 0 <= j < k ==> segment_ok(#[trigger] spec_segs[j]),
                forall|j: int| 0 <= j < k ==> vals@[j] == segment_value(#[trigger] spec_segs[j]),
            decreases 6 - k,
        {
            proof {
                assert(segs@[k as int]@ =~= segs.deep_view()[k as int]);
            }
            match hex_byte(&segs[k]) {
                Some(b) => {
                    vals.push(b);
                },
                None => {
                    proof {
                        assert(!segment_ok(spec_segs[k as int]));
                    }
                    return Err(BluetoothAddressParseError::InvalidNumber);
                },
            }
            k += 1;
        }
        let value: u64 = (vals[0] as u64) * 0x100_0000_0000 + (vals[1] as u64) * 0x1_0000_0000
            + (vals[2] as u64) * 0x100_0000 + (vals[3] as u64) * 0x1_0000 + (vals[4] as u64) * 0x100
            + (vals[5] as u64);
        Ok(BluetoothAddress(value))
    }

    /// Get the bytes contained within the address, most significant first.
    pub fn bytes(&self) -> (r: [u8; 6])
        ensures
            r@ == mac_bytes(self.0),
    {
        let v = self.0;
        let r: [u8; 6] = [
            ((v >> 40) & 0xFF) as u8,
            ((v >> 32) & 0xFF) as u8,
            ((v >> 24) & 0xFF) as u8,
            ((v >> 16) & 0xFF) as u8,
            ((v >> 8) & 0xFF) as u8,
            (v & 0xFF) as u8,
        ];
        proof {
            assert(r@ =~= mac_bytes(v));
        }
        r
    }

    /// Get an uppercase and colon separated String representing the address.
    pub fn hex_string(&self) -> (r: String)
        ensures
            r@ == mac_text(mac_bytes(self.0)),
    {
        let bs = self.bytes();
        let mut out = String::new();
        push_byte_hex(&mut out, bs[0]);
        out.append(":");
        push_byte_hex(&mut out, bs[1]);
        out.append(":");
        push_byte_hex(&mut out, bs[2]);
        out.append(":");
        push_byte_hex(&mut out, bs[3]);
        out.append(":");
        push_byte_hex(&mut out, bs[4]);
        out.append(":");
        push_byte_hex(&mut out, bs[5]);
        proof {
            reveal_strlit(":");
            assert(out@ =~= mac_text(mac_bytes(self.0)));
        }
        out
    }
}

} // verus!
