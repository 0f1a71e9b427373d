//! Internet socket addresses in text: `0.0.0.0:80`, `[::1]:80`.

use crate::number;
use crate::number::{decimal_string, parse_uint};
use crate::text;
use crate::text::{char_code, join_by, split, split_once, split_pair, string_of};
use vstd::prelude::*;
use vstd::slice::slice_subrange;

verus! {

/// An internet address and a port.
#[derive(Debug, PartialEq, Eq)]
pub enum InetAddr {
    /// IPv4.
    V4 {
        /// The four octets.
        octets: (u8, u8, u8, u8),
        /// The port.
        port: u16,
    },
    /// IPv6.
    V6 {
        /// The eight segments.
        segments: Vec<u16>,
        /// The port.
        port: u16,
        /// The numeric scope, zero where there is none.
        scope_id: u32,
    },
}

/// An [`InetAddr`] with its segments in a sequence.
pub enum InetView {
    V4 { octets: (u8, u8, u8, u8), port: u16 },
    V6 { segments: Seq<u16>, port: u16, scope_id: u32 },
}

impl View for InetAddr {
    type V = InetView;

    open spec fn view(&self) -> InetView {
        match *self {
            InetAddr::V4 { octets, port } => InetView::V4 { octets, port },
            InetAddr::V6 { segments, port, scope_id } => InetView::V6 {
                segments: segments@,
                port,
                scope_id,
            },
        }
    }
}

impl Clone for InetAddr {
    fn clone(&self) -> (r: Self)
        ensures
            r@ == self@,
    {
        match self {
            InetAddr::V4 { octets, port } => InetAddr::V4 { octets: *octets, port: *port },
            InetAddr::V6 { segments, port, scope_id } => {
                let mut out: Vec<u16> = Vec::new();
                let mut i: usize = 0;
                while i < segments.len()
                    invariant
                        i <= segments.len(),
                        out@ =~= segments@.take(i as int),
                    decreases segments.len() - i,
                {
                    out.push(segments[i]);
                    i = i + 1;
                }
                proof {
                    assert(segments@.take(segments@.len() as int) =~= segments@);
                }
                InetAddr::V6 { segments: out, port: *port, scope_id: *scope_id }
            },
        }
    }
}

// ---------------------------------------------------------------------
// Numbers
// ---------------------------------------------------------------------

/// A number in digits alone, up to `max`.
pub open spec fn plain_number(s: Seq<char>, max: nat) -> Option<nat> {
    if s.len() == 0 || s[0] == '+' {
        None
    } else {
        match number::uint_of(s, 10, max) {
            Ok(n) => Some(n),
            Err(_) => None,
        }
    }
}

/// One octet: up to three digits, without a leading zero.
pub open spec fn octet_of(s: Seq<char>) -> Option<u8> {
    if s.len() > 3 || (s.len() > 1 && s[0] == '0') {
        None
    } else {
        match plain_number(s, 255) {
            Some(n) => Some(n as u8),
            None => None,
        }
    }
}

/// The value of a hexadecimal digit, in either case.
pub open spec fn hex_value(c: char) -> Option<nat> {
    if 48 <= c as u32 && c as u32 <= 57 {
        Some((c as u32 - 48) as nat)
    } else if 97 <= c as u32 && c as u32 <= 102 {
        Some((c as u32 - 87) as nat)
    } else if 65 <= c as u32 && c as u32 <= 70 {
        Some((c as u32 - 55) as nat)
    } else {
        None
    }
}

/// The value of hexadecimal digits.
pub open spec fn hex_number(s: Seq<char>) -> Option<nat>
    decreases s.len(),
{
    if s.len() == 0 {
        Some(0)
    } else {
        match (hex_number(s.drop_last()), hex_value(s.last())) {
            (Some(n), Some(d)) => Some(n * 16 + d),
            _ => None,
        }
    }
}

/// One segment: one to four hexadecimal digits.
pub open spec fn segment_of(s: Seq<char>) -> Option<u16> {
    if s.len() == 0 || s.len() > 4 {
        None
    } else {
        match hex_number(s) {
            Some(n) => Some(n as u16),
            None => None,
        }
    }
}

fn read_plain(s: &[char], max: u64) -> (r: Option<u64>)
    ensures
        match r {
            Some(n) => plain_number(s@, max as nat) == Some(n as nat) && n <= max,
            None => plain_number(s@, max as nat) is None,
        },
{
    if s.len() == 0 || s[0] == '+' {
        return None;
    }
    match parse_uint(s, 10, max) {
        Ok(n) => Some(n),
        Err(_) => None,
    }
}

fn read_octet(s: &[char]) -> (r: Option<u8>)
    ensures
        r == octet_of(s@),
{
    if s.len() > 3 || (s.len() > 1 && s[0] == '0') {
        return None;
    }
    match read_plain(s, 255) {
        Some(n) => Some(n as u8),
        None => None,
    }
}

fn read_hex(c: char) -> (r: Option<u32>)
    ensures
        match r {
            Some(d) => hex_value(c) == Some(d as nat) && d < 16,
            None => hex_value(c) is None,
        },
{
    let n: u32 = char_code(c);
    if 48 <= n && n <= 57 {
        Some(n - 48)
    } else if 97 <= n && n <= 102 {
        Some(n - 87)
    } else if 65 <= n && n <= 70 {
        Some(n - 55)
    } else {
        None
    }
}

proof fn lemma_hex_error(s: Seq<char>, n: int)
    requires
        0 <= n <= s.len(),
        hex_number(s.take(n)) is None,
    ensures
        hex_number(s) is None,
    decreases s.len() - n,
{
    if n == s.len() {
        assert(s.take(n) =~= s);
    } else {
        assert(s.take(n + 1).drop_last() =~= s.take(n));
        lemma_hex_error(s, n + 1);
    }
}

fn read_segment(s: &[char]) -> (r: Option<u16>)
    ensures
        r == segment_of(s@),
{
    if s.len() == 0 || s.len() > 4 {
        return None;
    }
    let mut acc: u32 = 0;
    let mut i: usize = 0;
    let mut bound: u32 = 1;
    while i < s.len()
        invariant
            i <= s.len(),
            s.len() <= 4,
            hex_number(s@.take(i as int)) == Some(acc as nat),
            acc < bound,
            i == 0 ==> bound == 1,
            i == 1 ==> bound == 16,
            i == 2 ==> bound == 256,
            i == 3 ==> bound == 4096,
            i == 4 ==> bound == 65536,
        decreases s.len() - i,
    {
        proof {
            assert(s@.take(i + 1).drop_last() =~= s@.take(i as int));
        }
        match read_hex(s[i]) {
            Some(d) => {
                acc = acc * 16 + d;
            },
            None => {
                proof {
                    lemma_hex_error(s@, i + 1);
                }
                return None;
            },
        }
        bound = bound * 16;
        i = i + 1;
    }
    proof {
        assert(s@.take(s@.len() as int) =~= s@);
    }
    Some(acc as u16)
}

// ---------------------------------------------------------------------
// Addresses
// ---------------------------------------------------------------------

/// An IPv4 address: four octets with dots between them.
pub open spec fn v4_of(s: Seq<char>) -> Option<(u8, u8, u8, u8)> {
    let p = text::split_parts(s, '.');
    if p.len() != 4 {
        None
    } else {
        match (octet_of(p[0]), octet_of(p[1]), octet_of(p[2]), octet_of(p[3])) {
            (Some(a), Some(b), Some(c), Some(d)) => Some((a, b, c, d)),
            _ => None,
        }
    }
}

/// The segments of a list in which each part is one.
pub open spec fn segments_of(parts: Seq<Seq<char>>) -> Option<Seq<u16>>
    decreases parts.len(),
{
    if parts.len() == 0 {
        Some(seq![])
    } else {
        match (segments_of(parts.drop_last()), segment_of(parts.last())) {
            (Some(before), Some(g)) => Some(before.push(g)),
            _ => None,
        }
    }
}

/// The segments of a list whose last part may be an IPv4 address, which stands
/// for two.
pub open spec fn tail_segments(parts: Seq<Seq<char>>) -> Option<Seq<u16>> {
    if parts.len() == 0 {
        Some(seq![])
    } else {
        match segments_of(parts.drop_last()) {
            None => None,
            Some(before) => match v4_of(parts.last()) {
                Some((a, b, c, d)) => Some(
                    before.push((a * 256 + b) as u16).push((c * 256 + d) as u16),
                ),
                None => match segment_of(parts.last()) {
                    Some(g) => Some(before.push(g)),
                    None => None,
                },
            },
        }
    }
}

/// The parts between colons; none of an empty text.
pub open spec fn colon_parts(s: Seq<char>) -> Seq<Seq<char>> {
    if s.len() == 0 {
        seq![]
    } else {
        text::split_parts(s, ':')
    }
}

/// An IPv6 address: eight segments, or fewer with one `::` for the zeros that
/// are missing.
pub open spec fn v6_of(s: Seq<char>) -> Option<Seq<u16>> {
    match text::split_at_pair(s, ':') {
        None => match tail_segments(colon_parts(s)) {
            Some(g) => if g.len() == 8 {
                Some(g)
            } else {
                None
            },
            None => None,
        },
        Some((head, tail)) => match (
            segments_of(colon_parts(head)),
            tail_segments(colon_parts(tail)),
        ) {
            (Some(a), Some(b)) => if a.len() + b.len() <= 7 {
                Some(a + Seq::new((8 - a.len() - b.len()) as nat, |i: int| 0u16) + b)
            } else {
                None
            },
            _ => None,
        },
    }
}

/// `address:port`, with an IPv4 address.
pub open spec fn v4_socket(s: Seq<char>) -> Option<InetView> {
    match text::split_at_first(s, ':') {
        None => None,
        Some((addr, port)) => match (v4_of(addr), plain_number(port, 0xffff)) {
            (Some(octets), Some(p)) => Some(InetView::V4 { octets, port: p as u16 }),
            _ => None,
        },
    }
}

/// The address and the scope of what stands between the brackets.
pub open spec fn scoped_v6(s: Seq<char>) -> Option<(Seq<u16>, u32)> {
    match text::split_at_first(s, '%') {
        None => match v6_of(s) {
            Some(g) => Some((g, 0)),
            None => None,
        },
        Some((addr, scope)) => match (v6_of(addr), plain_number(scope, 0xffff_ffff)) {
            (Some(g), Some(n)) => Some((g, n as u32)),
            _ => None,
        },
    }
}

/// `[address]:port`, with an IPv6 address.
pub open spec fn v6_socket(s: Seq<char>) -> Option<InetView> {
    if s.len() == 0 || s[0] != '[' {
        None
    } else {
        match text::split_at_first(s.skip(1), ']') {
            None => None,
            Some((inner, rest)) => if rest.len() == 0 || rest[0] != ':' {
                None
            } else {
                match (scoped_v6(inner), plain_number(rest.skip(1), 0xffff)) {
                    (Some((segments, scope_id)), Some(p)) => Some(
                        InetView::V6 { segments, port: p as u16, scope_id },
                    ),
                    _ => None,
                }
            },
        }
    }
}

/// The socket address that a text stands for.
pub open spec fn inet_of(s: Seq<char>) -> Option<InetView> {
    match v4_socket(s) {
        Some(a) => Some(a),
        None => v6_socket(s),
    }
}

fn read_v4(s: &[char]) -> (r: Option<(u8, u8, u8, u8)>)
    ensures
        r == v4_of(s@),
{
    let p = split(s, '.');
    if p.len() != 4 {
        return None;
    }
    let ghost all = text::slices(p@);
    proof {
        assert(all[0] == p@[0]@ && all[1] == p@[1]@ && all[2] == p@[2]@ && all[3] == p@[3]@);
    }
    match (read_octet(p[0]), read_octet(p[1]), read_octet(p[2]), read_octet(p[3])) {
        (Some(a), Some(b), Some(c), Some(d)) => Some((a, b, c, d)),
        _ => None,
    }
}

/// The view of an optional list of segments.
pub open spec fn opt_segments(o: Option<Vec<u16>>) -> Option<Seq<u16>> {
    match o {
        Some(v) => Some(v@),
        None => None,
    }
}

proof fn lemma_segments_error(parts: Seq<Seq<char>>, n: int)
    requires
        0 <= n <= parts.len(),
        segments_of(parts.take(n)) is None,
    ensures
        segments_of(parts) is None,
    decreases parts.len() - n,
{
    if n == parts.len() {
        assert(parts.take(n) =~= parts);
    } else {
        assert(parts.take(n + 1).drop_last() =~= parts.take(n));
        lemma_segments_error(parts, n + 1);
    }
}

/// Reads the first `n` parts as segments.
fn read_segments(parts: &Vec<&[char]>, n: usize) -> (r: Option<Vec<u16>>)
    requires
        n <= parts@.len(),
    ensures
        opt_segments(r) == segments_of(text::slices(parts@).take(n as int)),
{
    let mut out: Vec<u16> = Vec::new();
    let mut i: usize = 0;
    let ghost all = text::slices(parts@);
    proof {
        assert(out@ =~= seq![]);
    }
    while i < n
        invariant
            i <= n <= parts@.len(),
            all == text::slices(parts@),
            segments_of(all.take(i as int)) == Some(out@),
        decreases n - i,
    {
        proof {
            assert(all.take(i + 1).drop_last() =~= all.take(i as int));
            assert(all.take(i + 1).last() == parts@[i as int]@);
        }
        match read_segment(parts[i]) {
            Some(g) => {
                out.push(g);
            },
            None => {
                proof {
                    assert(all.take(n as int).take(i + 1) =~= all.take(i + 1));
                    lemma_segments_error(all.take(n as int), i + 1);
                }
                return None;
            },
        }
        i = i + 1;
    }
    Some(out)
}

fn parts_of(s: &[char]) -> (r: Vec<&[char]>)
    ensures
        text::slices(r@) == colon_parts(s@),
{
    if s.len() == 0 {
        let none: Vec<&[char]> = Vec::new();
        proof {
            assert(text::slices(none@) =~= seq![]);
        }
        none
    } else {
        split(s, ':')
    }
}

fn read_tail(parts: &Vec<&[char]>) -> (r: Option<Vec<u16>>)
    ensures
        opt_segments(r) == tail_segments(text::slices(parts@)),
{
    let n: usize = parts.len();
    let ghost all = text::slices(parts@);
    if n == 0 {
        let out: Vec<u16> = Vec::new();
        proof {
            assert(out@ =~= seq![]);
        }
        return Some(out);
    }
    proof {
        assert(all.drop_last() =~= all.take(n - 1));
        assert(all.last() == parts@[n - 1]@);
    }
    match read_segments(parts, n - 1) {
        None => None,
        Some(mut out) => {
            match read_v4(parts[n - 1]) {
                Some((a, b, c, d)) => {
                    out.push(a as u16 * 256 + b as u16);
                    out.push(c as u16 * 256 + d as u16);
                    Some(out)
                },
                None => match read_segment(parts[n - 1]) {
                    Some(g) => {
                        out.push(g);
                        Some(out)
                    },
                    None => None,
                },
            }
        },
    }
}

fn read_v6(s: &[char]) -> (r: Option<Vec<u16>>)
    ensures
        opt_segments(r) == v6_of(s@),
{
    match split_pair(s, ':') {
        None => match read_tail(&parts_of(s)) {
            Some(g) => {
                if g.len() == 8 {
                    Some(g)
                } else {
                    None
                }
            },
            None => None,
        },
        Some((head, tail)) => {
            let hp = parts_of(head);
            proof {
                assert(text::slices(hp@).take(hp@.len() as int) =~= text::slices(hp@));
            }
            match (read_segments(&hp, hp.len()), read_tail(&parts_of(tail))) {
                (Some(a), Some(b)) => {
                    if a.len() > 7 || b.len() > 7 || a.len() + b.len() > 7 {
                        return None;
                    }
                    let ghost av = a@;
                    let zeros: usize = 8 - a.len() - b.len();
                    let mut out = a;
                    let mut k: usize = 0;
                    while k < zeros
                        invariant
                            k <= zeros,
                            out@ =~= av + Seq::new(k as nat, |i: int| 0u16),
                        decreases zeros - k,
                    {
                        out.push(0);
                        k = k + 1;
                    }
                    let mut tail_groups = b;
                    out.append(&mut tail_groups);
                    Some(out)
                },
                _ => None,
            }
        },
    }
}

fn read_scoped(s: &[char]) -> (r: Option<(Vec<u16>, u32)>)
    ensures
        match r {
            Some(p) => scoped_v6(s@) == Some((p.0@, p.1)),
            None => scoped_v6(s@) is None,
        },
{
    match split_once(s, '%') {
        None => match read_v6(s) {
            Some(g) => Some((g, 0)),
            None => None,
        },
        Some((addr, scope)) => match (read_v6(addr), read_plain(scope, 0xffff_ffff)) {
            (Some(g), Some(n)) => Some((g, n as u32)),
            _ => None,
        },
    }
}

/// The view of an optional address.
pub open spec fn opt_inet(o: Option<InetAddr>) -> Option<InetView> {
    match o {
        Some(a) => Some(a@),
        None => None,
    }
}

fn parse_v4_socket(s: &[char]) -> (r: Option<InetAddr>)
    ensures
        opt_inet(r) == v4_socket(s@),
{
    match split_once(s, ':') {
        None => None,
        Some((addr, port)) => match (read_v4(addr), read_plain(port, 0xffff)) {
            (Some(octets), Some(p)) => Some(InetAddr::V4 { octets, port: p as u16 }),
            _ => None,
        },
    }
}

fn parse_v6_socket(s: &[char]) -> (r: Option<InetAddr>)
    ensures
        opt_inet(r) == v6_socket(s@),
{
    if s.len() == 0 || s[0] != '[' {
        return None;
    }
    proof {
        assert(s@.skip(1) =~= s@.subrange(1, s@.len() as int));
    }
    match split_once(slice_subrange(s, 1, s.len()), ']') {
        None => None,
        Some((inner, rest)) => {
            if rest.len() == 0 || rest[0] != ':' {
                return None;
            }
            proof {
                assert(rest@.skip(1) =~= rest@.subrange(1, rest@.len() as int));
            }
            match (read_scoped(inner), read_plain(slice_subrange(rest, 1, rest.len()), 0xffff)) {
                (Some((segments, scope_id)), Some(p)) => Some(
                    InetAddr::V6 { segments, port: p as u16, scope_id },
                ),
                _ => None,
            }
        },
    }
}

impl InetAddr {
    /// Reads `host:port`, with brackets around an IPv6 host.
    pub fn parse(s: &[char]) -> (r: Option<Self>)
        ensures
            opt_inet(r) == inet_of(s@),
    {
        match parse_v4_socket(s) {
            Some(a) => Some(a),
            None => parse_v6_socket(s),
        }
    }
}

/// An IPv6 address has eight segments.
pub proof fn v6_has_eight_segments(s: Seq<char>)
    requires
        v6_of(s) is Some,
    ensures
        v6_of(s)->Some_0.len() == 8,
{
}

// ---------------------------------------------------------------------
// Text
// ---------------------------------------------------------------------

/// The character of a hexadecimal digit, in lower case.
pub open spec fn hex_char(d: nat) -> char {
    if d < 10 {
        (48 + d) as char
    } else {
        (87 + d) as char
    }
}

/// The hexadecimal form of a number.
pub open spec fn hex(n: nat) -> Seq<char>
    decreases n,
{
    if n < 16 {
        seq![hex_char(n)]
    } else {
        hex(n / 16).push(hex_char(n % 16))
    }
}

/// Segments in hexadecimal, with colons between them.
pub open spec fn segments_text(s: Seq<u16>) -> Seq<char> {
    text::joined_by(s.map_values(|n: u16| hex(n as nat)), ":"@)
}

/// How many zeros end a list of segments.
pub open spec fn zeros_at_end(s: Seq<u16>) -> nat
    decreases s.len(),
{
    if s.len() == 0 || s.last() != 0 {
        0
    } else {
        1 + zeros_at_end(s.drop_last())
    }
}

/// Where the longest run of zeros begins, and its length: the first of several
/// of that length.
pub open spec fn longest_run(s: Seq<u16>) -> (int, nat)
    decreases s.len(),
{
    if s.len() == 0 {
        (0, 0)
    } else {
        let before = longest_run(s.drop_last());
        let n = zeros_at_end(s);
        if n > before.1 {
            (s.len() - n, n)
        } else {
            before
        }
    }
}

/// Four octets in decimal, with dots between them.
pub open spec fn octets_text(o: (u8, u8, u8, u8)) -> Seq<char> {
    number::decimal(o.0 as nat) + "."@ + number::decimal(o.1 as nat) + "."@ + number::decimal(
        o.2 as nat,
    ) + "."@ + number::decimal(o.3 as nat)
}

/// Whether eight segments stand for an IPv4 address.
pub open spec fn is_mapped(s: Seq<u16>) -> bool {
    &&& s.len() == 8
    &&& s[0] == 0 && s[1] == 0 && s[2] == 0 && s[3] == 0 && s[4] == 0
    &&& s[5] == 0xffff
}

/// The octets of two segments.
pub open spec fn octets_of(a: u16, b: u16) -> (u8, u8, u8, u8) {
    ((a / 256) as u8, (a % 256) as u8, (b / 256) as u8, (b % 256) as u8)
}

/// An IPv6 address in text: its longest run of zeros is left out, where it is
/// longer than one.
pub open spec fn v6_text(s: Seq<u16>) -> Seq<char> {
    if is_mapped(s) {
        "::ffff:"@ + octets_text(octets_of(s[6], s[7]))
    } else {
        let (start, n) = longest_run(s);
        if n > 1 {
            segments_text(s.take(start)) + "::"@ + segments_text(s.skip(start + n))
        } else {
            segments_text(s)
        }
    }
}

/// An address with its port: `0.0.0.0:80`, `[::1]:80`. A scope is not shown.
pub open spec fn endpoint_text(a: InetView) -> Seq<char> {
    match a {
        InetView::V4 { octets, port } => octets_text(octets) + ":"@ + number::decimal(port as nat),
        InetView::V6 { segments, port, .. } => "["@ + v6_text(segments) + "]:"@ + number::decimal(
            port as nat,
        ),
    }
}

fn hex_chars(n: u16) -> (r: Vec<char>)
    ensures
        r@ == hex(n as nat),
    decreases n,
{
    let d: u16 = n % 16;
    let b: u8 = if d < 10 {
        (48 + d) as u8
    } else {
        (87 + d) as u8
    };
    let c = b as char;
    if n < 16 {
        let mut v: Vec<char> = Vec::new();
        v.push(c);
        proof {
            assert(v@ =~= seq![hex_char(n as nat)]);
        }
        v
    } else {
        let mut v = hex_chars(n / 16);
        v.push(c);
        v
    }
}

fn push_segments(out: &mut String, s: &[u16])
    ensures
        final(out)@ == old(out)@ + segments_text(s@),
{
    let ghost all = s@.map_values(|n: u16| hex(n as nat));
    let mut parts: Vec<String> = Vec::new();
    let mut i: usize = 0;
    proof {
        assert(text::texts(parts@) =~= all.take(0));
    }
    while i < s.len()
        invariant
            i <= s.len(),
            all == s@.map_values(|n: u16| hex(n as nat)),
            text::texts(parts@) == all.take(i as int),
        decreases s.len() - i,
    {
        let ghost before = parts@;
        let h = hex_chars(s[i]);
        parts.push(string_of(h.as_slice()));
        proof {
            assert(text::texts(parts@) =~= text::texts(before).push(all[i as int]));
            assert(all.take(i + 1) =~= all.take(i as int).push(all[i as int]));
        }
        i = i + 1;
    }
    proof {
        assert(all.take(all.len() as int) =~= all);
    }
    out.append(join_by(&parts, ":").as_str());
}

fn find_run(s: &Vec<u16>) -> (r: (usize, usize))
    ensures
        (r.0 as int, r.1 as nat) == longest_run(s@),
        r.0 + r.1 <= s@.len(),
{
    let mut start: usize = 0;
    let mut len: usize = 0;
    let mut run: usize = 0;
    let mut i: usize = 0;
    while i < s.len()
        invariant
            i <= s.len(),
            run <= i,
            run == zeros_at_end(s@.take(i as int)),
            (start as int, len as nat) == longest_run(s@.take(i as int)),
            start + len <= i,
        decreases s.len() - i,
    {
        proof {
            assert(s@.take(i + 1).drop_last() =~= s@.take(i as int));
            assert(s@.take(i + 1).last() == s@[i as int]);
        }
        if s[i] == 0 {
            run = run + 1;
        } else {
            run = 0;
        }
        i = i + 1;
        if run > len {
            start = i - run;
            len = run;
        }
    }
    proof {
        assert(s@.take(s@.len() as int) =~= s@);
    }
    (start, len)
}

fn push_octets(out: &mut String, o: (u8, u8, u8, u8))
    ensures
        final(out)@ == old(out)@ + octets_text(o),
{
    out.append(decimal_string(o.0 as u64).as_str());
    out.append(".");
    out.append(decimal_string(o.1 as u64).as_str());
    out.append(".");
    out.append(decimal_string(o.2 as u64).as_str());
    out.append(".");
    out.append(decimal_string(o.3 as u64).as_str());
    proof {
        assert(out@ =~= old(out)@ + octets_text(o));
    }
}

fn push_v6(out: &mut String, s: &Vec<u16>)
    ensures
        final(out)@ == old(out)@ + v6_text(s@),
{
    if s.len() == 8 && s[0] == 0 && s[1] == 0 && s[2] == 0 && s[3] == 0 && s[4] == 0 && s[5]
        == 0xffff {
        out.append("::ffff:");
        let a: u16 = s[6];
        let b: u16 = s[7];
        push_octets(out, ((a / 256) as u8, (a % 256) as u8, (b / 256) as u8, (b % 256) as u8));
        proof {
            assert(out@ =~= old(out)@ + v6_text(s@));
        }
        return;
    }
    let (start, len) = find_run(s);
    if len > 1 {
        proof {
            assert(s@.subrange(0, start as int) =~= s@.take(start as int));
            assert(s@.subrange(start + len, s@.len() as int) =~= s@.skip(start + len));
        }
        push_segments(out, slice_subrange(s.as_slice(), 0, start));
        out.append("::");
        push_segments(out, slice_subrange(s.as_slice(), start + len, s.len()));
    } else {
        push_segments(out, s.as_slice());
    }
    proof {
        assert(out@ =~= old(out)@ + v6_text(s@));
    }
}

impl InetAddr {
    /// The address with its port.
    pub fn to_text(&self) -> (r: String)
        ensures
            r@ == endpoint_text(self@),
    {
        let mut out = String::new();
        proof {
            assert(out@ =~= seq![]);
        }
        match self {
            InetAddr::V4 { octets, port } => {
                push_octets(&mut out, *octets);
                out.append(":");
                out.append(decimal_string(*port as u64).as_str());
            },
            InetAddr::V6 { segments, port, .. } => {
                out.append("[");
                push_v6(&mut out, segments);
                out.append("]:");
                out.append(decimal_string(*port as u64).as_str());
            },
        }
        proof {
            assert(out@ =~= endpoint_text(self@));
        }
        out
    }
}

} // verus!
