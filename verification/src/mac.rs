//! The MAC address value type: six raw bytes with equality, canonical
//! uppercase-hex rendering, and parsing.

use vstd::prelude::*;

use crate::errors::MacParseError;

verus! {

/// Contains the individual bytes of the MAC address.
#[derive(Debug, Clone, Copy, PartialEq)]
pub struct MacAddress {
    bytes: [u8; 6],
}

impl View for MacAddress {
    type V = Seq<u8>;

    closed spec fn view(&self) -> Seq<u8> {
        self.bytes@
    }
}

impl MacAddress {
    /// Creates a new `MacAddress` struct from the given bytes.
    pub fn new(bytes: [u8; 6]) -> (r: MacAddress)
        ensures
            r@ == bytes@,
    {
        MacAddress { bytes }
    }

    /// Returns the array of MAC address bytes.
    pub fn bytes(self) -> (r: [u8; 6])
        ensures
            r@ == self@,
    {
        self.bytes
    }
}

/// The ASCII code of the uppercase hex digit for a nibble.
pub open spec fn hex_code(n: u8) -> u8
    recommends
        n < 16,
{
    if n < 10 {
        (48 + n) as u8
    } else {
        (55 + n) as u8
    }
}

/// The two ASCII codes that render one byte: high nibble first, zero-padded.
pub open spec fn ascii_pair(b: u8) -> Seq<u8> {
    seq![hex_code(b / 16), hex_code(b % 16)]
}

/// The ASCII rendering of a 6-byte MAC address: uppercase hex pairs joined
/// by colons.
pub open spec fn mac_ascii(bytes: Seq<u8>) -> Seq<u8>
    recommends
        bytes.len() == 6,
{
    ascii_pair(bytes[0]) + seq![58u8] + ascii_pair(bytes[1]) + seq![58u8] + ascii_pair(bytes[2])
        + seq![58u8] + ascii_pair(bytes[3]) + seq![58u8] + ascii_pair(bytes[4]) + seq![58u8]
        + ascii_pair(bytes[5])
}

/// The canonical text of a 6-byte MAC address, as characters.
pub open spec fn mac_text(bytes: Seq<u8>) -> Seq<char> {
    mac_ascii(bytes).map_values(|b: u8| b as char)
}

/// Relies on `String::from_utf8`: a byte sequence that holds only ASCII
/// codes decodes to the string of exactly those characters.
#[verifier::external_body]
fn ascii_to_string(bytes: Vec<u8>) -> (r: String)
    requires
        forall|i: int| 0 <= i < bytes@.len() ==> bytes@[i] < 128,
    ensures
        r@ == bytes@.map_values(|b: u8| b as char),
{
    String::from_utf8(bytes).unwrap_or_default()
}

/// Appends the two uppercase hex digits of one byte.
fn push_hex_pair(out: &mut Vec<u8>, b: u8)
    ensures
        final(out)@ == old(out)@ + ascii_pair(b),
        (forall|i: int| 0 <= i < old(out)@.len() ==> old(out)@[i] < 128) ==> (forall|i: int|
            0 <= i < final(out)@.len() ==> final(out)@[i] < 128),
{
    let hi = b / 16;
    let lo = b % 16;
    let hi_code: u8 = if hi < 10 {
        48 + hi
    } else {
        55 + hi
    };
    let lo_code: u8 = if lo < 10 {
        48 + lo
    } else {
        55 + lo
    };
    out.push(hi_code);
    out.push(lo_code);
    assert(out@ =~= old(out)@ + ascii_pair(b));
}

impl MacAddress {
    /// Renders the address in its canonical form: six uppercase hex pairs
    /// separated by colons, each byte as exactly two digits.
    pub fn to_text(&self) -> (r: String)
        ensures
            r@ == mac_text(self@),
    {
        let mut out: Vec<u8> = Vec::new();
        push_hex_pair(&mut out, self.bytes[0]);
        out.push(58);
        push_hex_pair(&mut out, self.bytes[1]);
        out.push(58);
        push_hex_pair(&mut out, self.bytes[2]);
        out.push(58);
        push_hex_pair(&mut out, self.bytes[3]);
        out.push(58);
        push_hex_pair(&mut out, self.bytes[4]);
        out.push(58);
        push_hex_pair(&mut out, self.bytes[5]);
        assert(out@ =~= mac_ascii(self@));
        ascii_to_string(out)
    }
}

/// A separator between two hex pairs: the parser accepts a colon or a
/// hyphen at every position, even mixed within one string.
pub open spec fn is_sep(c: char) -> bool {
    c == ':' || c == '-'
}

/// A hexadecimal digit, either case, stated over the character's code
/// point: a decimal digit, a lowercase letter `a` to `f`, or an uppercase
/// letter `A` to `F`.
pub open spec fn is_hex_digit(c: char) -> bool {
    (48 <= c as u32 && c as u32 <= 57) || (97 <= c as u32 && c as u32 <= 102) || (65 <= c as u32
        && c as u32 <= 70)
}

/// The numeric value of a hexadecimal digit.
pub open spec fn hex_digit_value(c: char) -> nat
    recommends
        is_hex_digit(c),
{
    if 48 <= c as u32 && c as u32 <= 57 {
        (c as u32 - 48) as nat
    } else if 97 <= c as u32 && c as u32 <= 102 {
        (c as u32 - 87) as nat
    } else {
        (c as u32 - 55) as nat
    }
}

/// The text split at every separator; a text without separators is one
/// group, so the result always holds at least one group.
pub open spec fn split_groups(s: Seq<char>) -> Seq<Seq<char>>
    decreases s.len(),
{
    if s.len() == 0 {
        seq![Seq::<char>::empty()]
    } else if is_sep(s[0]) {
        seq![Seq::<char>::empty()] + split_groups(s.skip(1))
    } else {
        let rest = split_groups(s.skip(1));
        seq![seq![s[0]] + rest[0]] + rest.skip(1)
    }
}

/// One leading plus sign is tolerated, as `u8::from_str_radix` would
/// tolerate one.
pub open spec fn strip_sign(g: Seq<char>) -> Seq<char> {
    if g.len() > 0 && g[0] == '+' {
        g.skip(1)
    } else {
        g
    }
}

pub open spec fn all_hex_digits(g: Seq<char>) -> bool {
    forall|i: int| 0 <= i < g.len() ==> is_hex_digit(#[trigger] g[i])
}

/// The value of a string of hex digits, most significant first.
pub open spec fn hex_value(g: Seq<char>) -> nat
    recommends
        all_hex_digits(g),
    decreases g.len(),
{
    if g.len() == 0 {
        0
    } else {
        hex_value(g.take(g.len() - 1)) * 16 + hex_digit_value(g.last())
    }
}

/// Whether one group denotes a byte: after an optional sign, at least one
/// hex digit, and a value that fits in eight bits.
pub open spec fn group_parses(g: Seq<char>) -> bool {
    let d = strip_sign(g);
    d.len() > 0 && all_hex_digits(d) && hex_value(d) <= 255
}

/// The byte a parsable group denotes.
pub open spec fn group_byte(g: Seq<char>) -> u8 {
    hex_value(strip_sign(g)) as u8
}

/// What parsing a list of groups yields, `nth` of the six bytes already
/// taken: a malformed group fails with `InvalidDigit`, a seventh group or a
/// count short of six fails with `InvalidLength`, and the length check of a
/// seventh group comes before that group is read.
pub open spec fn parse_groups(gs: Seq<Seq<char>>, nth: int) -> Result<Seq<u8>, MacParseError>
    decreases gs.len(),
{
    if gs.len() == 0 {
        if nth == 6 {
            Ok(Seq::<u8>::empty())
        } else {
            Err(MacParseError::InvalidLength)
        }
    } else if nth == 6 {
        Err(MacParseError::InvalidLength)
    } else if !group_parses(gs[0]) {
        Err(MacParseError::InvalidDigit)
    } else {
        match parse_groups(gs.skip(1), nth + 1) {
            Ok(rest) => Ok(seq![group_byte(gs[0])] + rest),
            Err(e) => Err(e),
        }
    }
}

/// What parsing a whole text yields: its groups, taken in order.
pub open spec fn parse_text(s: Seq<char>) -> Result<Seq<u8>, MacParseError> {
    parse_groups(split_groups(s), 0)
}

/// The value of a digit string never drops when more digits follow.
proof fn lemma_hex_value_prefix(d: Seq<char>, j: int)
    requires
        0 <= j <= d.len(),
    ensures
        hex_value(d) >= hex_value(d.take(j)),
    decreases d.len() - j,
{
    if j == d.len() {
        assert(d.take(j) =~= d);
    } else {
        assert(d.take(j + 1).take(j) =~= d.take(j));
        assert(d.take(j + 1).last() == d[j]);
        lemma_hex_value_prefix(d, j + 1);
    }
}

/// How `split_groups` decomposes at the first separator: a text whose first
/// `k` characters are no separators is one group up to `k`, followed by the
/// groups of what stands after the separator at `k`, if any.
proof fn lemma_split_at(s: Seq<char>, k: int)
    requires
        0 <= k <= s.len(),
        forall|i: int| 0 <= i < k ==> !is_sep(#[trigger] s[i]),
        k < s.len() ==> is_sep(s[k]),
    ensures
        k == s.len() ==> split_groups(s) == seq![s],
        k < s.len() ==> split_groups(s) == seq![s.take(k)] + split_groups(s.skip(k + 1)),
    decreases s.len(),
{
    if s.len() == 0 {
        assert(s =~= Seq::<char>::empty());
        assert(split_groups(s) == seq![s]);
    } else if k == 0 {
        if k < s.len() {
            assert(s.take(0) =~= Seq::<char>::empty());
            assert(split_groups(s) =~= seq![s.take(0)] + split_groups(s.skip(1)));
        }
    } else {
        let t = s.skip(1);
        assert(forall|i: int| 0 <= i < k - 1 ==> !is_sep(#[trigger] t[i]));
        lemma_split_at(t, k - 1);
        let rest = split_groups(t);
        if k == s.len() {
            assert(rest == seq![t]);
            assert(seq![s[0]] + rest[0] =~= s);
            assert(split_groups(s) =~= seq![s]);
        } else {
            assert(rest == seq![t.take(k - 1)] + split_groups(t.skip(k)));
            assert(rest[0] == t.take(k - 1));
            assert(seq![s[0]] + t.take(k - 1) =~= s.take(k));
            assert(rest.skip(1) =~= split_groups(t.skip(k)));
            assert(t.skip(k) =~= s.skip(k + 1));
            assert(split_groups(s) =~= seq![s.take(k)] + split_groups(s.skip(k + 1)));
        }
    }
}

/// Parses the characters between `start` and `end` as one hex group, with
/// the tolerance of `u8::from_str_radix` in base 16: an optional plus
/// sign, then hex digits whose value fits in a byte; anything else is an
/// invalid digit.
#[verifier::loop_isolation(false)]
fn parse_group_exec(chars: &Vec<char>, start: usize, end: usize) -> (r: Result<u8, MacParseError>)
    requires
        start <= end <= chars@.len(),
    ensures
        ({
            let g = chars@.subrange(start as int, end as int);
            match r {
                Ok(b) => group_parses(g) && b == group_byte(g),
                Err(e) => !group_parses(g) && e == MacParseError::InvalidDigit,
            }
        }),
{
    let ghost g = chars@.subrange(start as int, end as int);
    let mut digit_start = start;
    if start < end && chars[start] == '+' {
        digit_start = start + 1;
        proof {
            assert(g.skip(1) =~= chars@.subrange(start + 1, end as int));
        }
    }
    let ghost d = strip_sign(g);
    assert(d =~= chars@.subrange(digit_start as int, end as int));
    if digit_start == end {
        return Err(MacParseError::InvalidDigit);
    }
    let mut j = digit_start;
    let mut acc: u32 = 0;
    while j < end
        invariant
            digit_start <= j <= end <= chars@.len(),
            d == chars@.subrange(digit_start as int, end as int),
            all_hex_digits(d.take(j - digit_start)),
            acc == hex_value(d.take(j - digit_start)),
            acc <= 255,
        decreases end - j,
    {
        let c = chars[j];
        let code = c as u32;
        let v: u32 = if 48 <= code && code <= 57 {
            code - 48
        } else if 97 <= code && code <= 102 {
            code - 87
        } else if 65 <= code && code <= 70 {
            code - 55
        } else {
            assert(!is_hex_digit(d[j - digit_start]));
            return Err(MacParseError::InvalidDigit);
        };
        proof {
            assert(d[j - digit_start] == c);
            assert(is_hex_digit(c));
            assert(v == hex_digit_value(c));
            assert(d.take(j - digit_start + 1).take(j - digit_start) =~= d.take(j - digit_start));
            assert(d.take(j - digit_start + 1).last() == d[j - digit_start]);
        }
        acc = acc * 16 + v;
        if acc > 255 {
            proof {
                lemma_hex_value_prefix(d, j - digit_start + 1);
            }
            return Err(MacParseError::InvalidDigit);
        }
        j += 1;
    }
    assert(d.take(end - digit_start) =~= d);
    Ok(acc as u8)
}

/// Parses a whole character list as a MAC address.
fn parse_chars(chars: &Vec<char>) -> (r: Result<MacAddress, MacParseError>)
    ensures
        ({
            match r {
                Ok(m) => parse_text(chars@) == Ok::<Seq<u8>, MacParseError>(m@),
                Err(e) => parse_text(chars@) == Err::<Seq<u8>, MacParseError>(e),
            }
        }),
{
    let n = chars.len();
    let mut bytes: Vec<u8> = Vec::new();
    let mut pos: usize = 0;
    proof {
        assert(chars@.skip(0) =~= chars@);
        if parse_groups(split_groups(chars@), 0) is Ok {
            let rest = parse_groups(split_groups(chars@), 0)->Ok_0;
            assert(Seq::<u8>::empty() + rest =~= rest);
        }
    }
    loop
        invariant_except_break
            pos <= n,
            n == chars@.len(),
            bytes@.len() <= 6,
            ({
                match parse_groups(split_groups(chars@.skip(pos as int)), bytes@.len() as int) {
                    Ok(rest) => parse_text(chars@) == Ok::<Seq<u8>, MacParseError>(bytes@ + rest),
                    Err(e) => parse_text(chars@) == Err::<Seq<u8>, MacParseError>(e),
                }
            }),
        ensures
            bytes@.len() == 6 ==> parse_text(chars@) == Ok::<Seq<u8>, MacParseError>(bytes@),
            bytes@.len() != 6 ==> parse_text(chars@) == Err::<Seq<u8>, MacParseError>(
                MacParseError::InvalidLength,
            ),
        decreases n - pos,
    {
        let ghost s = chars@.skip(pos as int);
        let ghost m = bytes@.len() as int;
        let mut k = pos;
        while k < n && !(chars[k] == ':' || chars[k] == '-')
            invariant
                pos <= k <= n,
                n == chars@.len(),
                forall|i: int| pos <= i < k ==> !is_sep(#[trigger] chars@[i]),
            decreases n - k,
        {
            k += 1;
        }
        let ghost g = chars@.subrange(pos as int, k as int);
        let ghost gs = split_groups(s);
        proof {
            assert(forall|i: int| 0 <= i < k - pos ==> !is_sep(#[trigger] s[i]));
            lemma_split_at(s, k - pos);
            assert(s.take(k - pos) =~= g);
            if k == n {
                assert(s =~= g);
                assert(gs == seq![s]);
            }
            assert(gs.len() > 0 && gs[0] == g);
        }
        if bytes.len() == 6 {
            return Err(MacParseError::InvalidLength);
        }
        let b = match parse_group_exec(chars, pos, k) {
            Ok(b) => b,
            Err(_) => {
                return Err(MacParseError::InvalidDigit);
            },
        };
        let ghost old_bytes = bytes@;
        bytes.push(b);
        proof {
            assert(bytes@ =~= old_bytes + seq![b]);
            let sub = parse_groups(gs.skip(1), m + 1);
            assert(parse_groups(gs, m) == (match sub {
                Ok(rest) => Ok::<Seq<u8>, MacParseError>(seq![b] + rest),
                Err(e) => Err::<Seq<u8>, MacParseError>(e),
            }));
            if sub is Ok {
                assert(old_bytes + (seq![b] + sub->Ok_0) =~= bytes@ + sub->Ok_0);
            }
        }
        if k == n {
            proof {
                assert(gs.skip(1) =~= Seq::<Seq<char>>::empty());
                if m + 1 == 6 {
                    assert(parse_groups(gs.skip(1), m + 1) == Ok::<Seq<u8>, MacParseError>(
                        Seq::<u8>::empty(),
                    ));
                    assert(bytes@ + Seq::<u8>::empty() =~= bytes@);
                } else {
                    assert(parse_groups(gs.skip(1), m + 1) == Err::<Seq<u8>, MacParseError>(
                        MacParseError::InvalidLength,
                    ));
                }
            }
            break;
        }
        proof {
            let tail = split_groups(s.skip(k - pos + 1));
            assert(gs == seq![g] + tail);
            assert(gs.skip(1) =~= tail);
            assert(s.skip(k - pos + 1) =~= chars@.skip(k + 1));
        }
        pos = k + 1;
    }
    if bytes.len() == 6 {
        let arr = [bytes[0], bytes[1], bytes[2], bytes[3], bytes[4], bytes[5]];
        assert(arr@ =~= bytes@);
        Ok(MacAddress::new(arr))
    } else {
        Err(MacParseError::InvalidLength)
    }
}

impl MacAddress {
    /// Parses a MAC address from text: six hex byte groups joined by colons
    /// or hyphens. Too many or too few groups fail with `InvalidLength`; a
    /// group that does not denote a byte fails with `InvalidDigit`.
    pub fn parse(input: &str) -> (r: Result<MacAddress, MacParseError>)
        ensures
            ({
                match r {
                    Ok(m) => parse_text(input@) == Ok::<Seq<u8>, MacParseError>(m@),
                    Err(e) => parse_text(input@) == Err::<Seq<u8>, MacParseError>(e),
                }
            }),
    {
        let n = input.unicode_len();
        let mut chars: Vec<char> = Vec::new();
        let mut i: usize = 0;
        while i < n
            invariant
                i <= n,
                n == input@.len(),
                chars@ == input@.take(i as int),
            decreases n - i,
        {
            let c = input.get_char(i);
            chars.push(c);
            assert(chars@ =~= input@.take(i + 1));
            i += 1;
        }
        assert(chars@ =~= input@);
        parse_chars(&chars)
    }
}

/// The two characters that render one byte.
pub open spec fn char_pair(b: u8) -> Seq<char> {
    ascii_pair(b).map_values(|x: u8| x as char)
}

/// The code of an uppercase hex digit: a decimal digit or an uppercase
/// letter, never lowercase.
pub proof fn lemma_hex_code_uppercase(n: u8)
    requires
        n < 16,
    ensures
        48 <= hex_code(n) <= 57 || 65 <= hex_code(n) <= 70,
{
}

/// One rendered pair is a parsable group and denotes the byte it rendered.
proof fn lemma_char_pair_parses(b: u8)
    ensures
        group_parses(char_pair(b)),
        group_byte(char_pair(b)) == b,
        !is_sep(char_pair(b)[0]),
        !is_sep(char_pair(b)[1]),
        char_pair(b).len() == 2,
{
    let g = char_pair(b);
    let hi = b / 16;
    let lo = b % 16;
    assert(g.len() == 2);
    assert(g[0] == (hex_code(hi) as char));
    assert(g[1] == (hex_code(lo) as char));
    assert((g[0] as u32) == hex_code(hi));
    assert((g[1] as u32) == hex_code(lo));
    assert(strip_sign(g) == g);
    assert(is_hex_digit(g[0]) && hex_digit_value(g[0]) == hi);
    assert(is_hex_digit(g[1]) && hex_digit_value(g[1]) == lo);
    assert(g.take(1).take(0) =~= Seq::<char>::empty());
    assert(g.take(1).last() == g[0]);
    assert(hex_value(Seq::<char>::empty()) == 0);
    assert(hex_value(g.take(1)) == hex_digit_value(g[0]));
    assert(g.take(2) =~= g);
    assert(hex_value(g) == hex_digit_value(g[0]) * 16 + hex_digit_value(g[1]));
    assert(hex_value(g) == b);
    assert(all_hex_digits(g));
}

/// Groups that all denote bytes parse to exactly those bytes, when they
/// complete a six-group address.
proof fn lemma_parse_groups_all_ok(gs: Seq<Seq<char>>, nth: int)
    requires
        0 <= nth,
        gs.len() + nth == 6,
        forall|i: int| 0 <= i < gs.len() ==> group_parses(#[trigger] gs[i]),
    ensures
        parse_groups(gs, nth) == Ok::<Seq<u8>, MacParseError>(
            gs.map_values(|g: Seq<char>| group_byte(g)),
        ),
    decreases gs.len(),
{
    let f = |g: Seq<char>| group_byte(g);
    if gs.len() == 0 {
        assert(gs.map_values(f) =~= Seq::<u8>::empty());
    } else {
        lemma_parse_groups_all_ok(gs.skip(1), nth + 1);
        assert(gs.map_values(f) =~= seq![group_byte(gs[0])] + gs.skip(1).map_values(f));
    }
}

/// Rendering then parsing gives the six bytes back: the canonical text of
/// any 6-byte address parses to exactly that address.
pub proof fn lemma_parse_format_roundtrip(bytes: Seq<u8>)
    requires
        bytes.len() == 6,
    ensures
        parse_text(mac_text(bytes)) == Ok::<Seq<u8>, MacParseError>(bytes),
{
    let t = mac_text(bytes);
    let a = mac_ascii(bytes);
    assert(a.len() == 17);
    let g0 = char_pair(bytes[0]);
    let g1 = char_pair(bytes[1]);
    let g2 = char_pair(bytes[2]);
    let g3 = char_pair(bytes[3]);
    let g4 = char_pair(bytes[4]);
    let g5 = char_pair(bytes[5]);
    lemma_char_pair_parses(bytes[0]);
    lemma_char_pair_parses(bytes[1]);
    lemma_char_pair_parses(bytes[2]);
    lemma_char_pair_parses(bytes[3]);
    lemma_char_pair_parses(bytes[4]);
    lemma_char_pair_parses(bytes[5]);
    assert(t =~= g0 + seq![':'] + g1 + seq![':'] + g2 + seq![':'] + g3 + seq![':'] + g4
        + seq![':'] + g5);
    let t1 = t.skip(3);
    let t2 = t.skip(6);
    let t3 = t.skip(9);
    let t4 = t.skip(12);
    let t5 = t.skip(15);
    assert(!is_sep(t[0]) && !is_sep(t[1]) && is_sep(t[2]));
    lemma_split_at(t, 2);
    assert(t.take(2) =~= g0);
    assert(!is_sep(t1[0]) && !is_sep(t1[1]) && is_sep(t1[2]));
    lemma_split_at(t1, 2);
    assert(t1.take(2) =~= g1);
    assert(t1.skip(3) =~= t2);
    assert(!is_sep(t2[0]) && !is_sep(t2[1]) && is_sep(t2[2]));
    lemma_split_at(t2, 2);
    assert(t2.take(2) =~= g2);
    assert(t2.skip(3) =~= t3);
    assert(!is_sep(t3[0]) && !is_sep(t3[1]) && is_sep(t3[2]));
    lemma_split_at(t3, 2);
    assert(t3.take(2) =~= g3);
    assert(t3.skip(3) =~= t4);
    assert(!is_sep(t4[0]) && !is_sep(t4[1]) && is_sep(t4[2]));
    lemma_split_at(t4, 2);
    assert(t4.take(2) =~= g4);
    assert(t4.skip(3) =~= t5);
    assert(t5.len() == 2 && !is_sep(t5[0]) && !is_sep(t5[1]));
    lemma_split_at(t5, 2);
    assert(t5 =~= g5);
    let gs = seq![g0, g1, g2, g3, g4, g5];
    assert(split_groups(t) =~= gs) by {
        assert(split_groups(t5) == seq![t5]);
        assert(split_groups(t4) == seq![g4] + seq![g5]);
        assert(split_groups(t3) == seq![g3] + (seq![g4] + seq![g5]));
        assert(split_groups(t2) == seq![g2] + (seq![g3] + (seq![g4] + seq![g5])));
        assert(split_groups(t1) == seq![g1] + (seq![g2] + (seq![g3] + (seq![g4] + seq![g5]))));
        assert(split_groups(t) == seq![g0] + (seq![g1] + (seq![g2] + (seq![g3] + (seq![g4]
            + seq![g5])))));
    }
    assert(forall|i: int| 0 <= i < gs.len() ==> group_parses(#[trigger] gs[i]));
    lemma_parse_groups_all_ok(gs, 0);
    assert(gs.map_values(|g: Seq<char>| group_byte(g)) =~= bytes);
}

/// Splitting sees only the separator class, not which separator: two texts
/// that differ only in separator characters split into the same groups.
proof fn lemma_split_sep_class(s: Seq<char>, t: Seq<char>)
    requires
        s.len() == t.len(),
        forall|i: int|
            0 <= i < s.len() ==> s[i] == t[i] || (is_sep(s[i]) && is_sep(#[trigger] t[i])),
    ensures
        split_groups(s) == split_groups(t),
    decreases s.len(),
{
    if s.len() == 0 {
        assert(s =~= t);
    } else {
        assert(forall|i: int|
            0 <= i < s.skip(1).len() ==> s.skip(1)[i] == t.skip(1)[i] || (is_sep(s.skip(1)[i])
                && is_sep(#[trigger] t.skip(1)[i])));
        lemma_split_sep_class(s.skip(1), t.skip(1));
        if !is_sep(s[0]) {
            assert(s[0] == t[0]);
        }
    }
}

/// Separator tolerance: a colon and a hyphen are interchangeable at every
/// position — two texts that differ only in which separator they use
/// parse to the same result.
pub proof fn lemma_separator_tolerance(s: Seq<char>, t: Seq<char>)
    requires
        s.len() == t.len(),
        forall|i: int|
            0 <= i < s.len() ==> s[i] == t[i] || (is_sep(s[i]) && is_sep(#[trigger] t[i])),
    ensures
        parse_text(s) == parse_text(t),
{
    lemma_split_sep_class(s, t);
}

/// Every byte renders as exactly two uppercase hex digits, zero-padded, at
/// a fixed position, with a colon after each pair but the last: the
/// rendered text is always 17 characters wide.
pub proof fn lemma_format_fixed_width(bytes: Seq<u8>)
    requires
        bytes.len() == 6,
    ensures
        mac_text(bytes).len() == 17,
        forall|i: int|
            0 <= i < 6 ==> #[trigger] mac_text(bytes)[3 * i] == (hex_code(bytes[i] / 16) as char),
        forall|i: int|
            0 <= i < 6 ==> #[trigger] mac_text(bytes)[3 * i + 1] == (hex_code(
                bytes[i] % 16,
            ) as char),
        forall|i: int| 0 <= i < 5 ==> #[trigger] mac_text(bytes)[3 * i + 2] == ':',
{
    let t = mac_text(bytes);
    let g0 = char_pair(bytes[0]);
    let g1 = char_pair(bytes[1]);
    let g2 = char_pair(bytes[2]);
    let g3 = char_pair(bytes[3]);
    let g4 = char_pair(bytes[4]);
    let g5 = char_pair(bytes[5]);
    assert(t =~= g0 + seq![':'] + g1 + seq![':'] + g2 + seq![':'] + g3 + seq![':'] + g4
        + seq![':'] + g5);
    assert forall|i: int| 0 <= i < 6 implies #[trigger] t[3 * i] == (hex_code(
        bytes[i] / 16,
    ) as char) && t[3 * i + 1] == (hex_code(bytes[i] % 16) as char) by {
        if i == 0 {
        } else if i == 1 {
        } else if i == 2 {
        } else if i == 3 {
        } else if i == 4 {
        } else {
            assert(i == 5);
        }
    }
    assert forall|i: int| 0 <= i < 5 implies #[trigger] t[3 * i + 2] == ':' by {
        if i == 0 {
        } else if i == 1 {
        } else if i == 2 {
        } else if i == 3 {
        } else {
            assert(i == 4);
        }
    }
}

impl From<[u8; 6]> for MacAddress {
    fn from(v: [u8; 6]) -> (r: MacAddress) {
        MacAddress { bytes: v }
    }
}

impl vstd::std_specs::convert::FromSpecImpl<[u8; 6]> for MacAddress {
    open spec fn obeys_from_spec() -> bool {
        true
    }

    closed spec fn from_spec(v: [u8; 6]) -> MacAddress {
        MacAddress { bytes: v }
    }
}

impl core::str::FromStr for MacAddress {
    type Err = MacParseError;

    fn from_str(input: &str) -> Result<MacAddress, MacParseError> {
        MacAddress::parse(input)
    }
}

} // verus!
