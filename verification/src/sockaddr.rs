//! Which texts name a socket address, as `SocketAddr`'s `FromStr` reads
//! them: `a.b.c.d:port`, or `[ipv6]:port` with an optional `%scope` inside
//! the brackets.

use vstd::prelude::*;
use crate::text::{
    all_digits, digit_of, digits_value, lemma_split_concat, lemma_split_without_sep, split_on,
    split_text,
};

verus! {

/// A decimal field: at least one digit, at most `max_digits` of them when
/// that is not zero, no leading zero unless `zero_prefix` allows it (a
/// lone `0` is always fine), and a value of at most `max`.
pub open spec fn dec_field(t: Seq<char>, max: nat, max_digits: nat, zero_prefix: bool) -> bool {
    &&& t.len() > 0
    &&& all_digits(t, 10)
    &&& (max_digits == 0 || t.len() <= max_digits)
    &&& (zero_prefix || !(t[0] == '0' && t.len() > 1))
    &&& digits_value(t, 10) <= max
}

/// One octet of an IPv4 address: up to three digits, no leading zero, at most 255.
pub open spec fn octet_ok(t: Seq<char>) -> bool {
    dec_field(t, 255, 3, false)
}

/// A port: digits, leading zeros allowed, at most 65535.
pub open spec fn port_ok(t: Seq<char>) -> bool {
    dec_field(t, 65535, 0, true)
}

/// A scope id: digits, leading zeros allowed, at most `u32::MAX`.
pub open spec fn scope_ok(t: Seq<char>) -> bool {
    dec_field(t, u32::MAX as nat, 0, true)
}

/// Four octets separated by dots.
pub open spec fn ipv4_ok(t: Seq<char>) -> bool {
    let parts = split_on(t, '.');
    &&& parts.len() == 4
    &&& forall|i: int| 0 <= i < 4 ==> octet_ok(#[trigger] parts[i])
}

/// A group of an IPv6 address: one to four hex digits.
pub open spec fn hex_group_ok(t: Seq<char>) -> bool {
    t.len() > 0 && t.len() <= 4 && all_digits(t, 16)
}

/// How many 16-bit groups a colon separated list of hex groups writes, the
/// last of which may be an IPv4 address standing for two; `None` when the
/// text is not such a list. The empty text is the empty list.
pub open spec fn list_slots(t: Seq<char>) -> Option<nat> {
    if t.len() == 0 {
        Some(0)
    } else {
        let parts = split_on(t, ':');
        let n = parts.len();
        if forall|i: int| 0 <= i < n - 1 ==> hex_group_ok(#[trigger] parts[i]) {
            if hex_group_ok(parts[n - 1]) {
                Some(n)
            } else if ipv4_ok(parts[n - 1]) {
                Some(n + 1)
            } else {
                None
            }
        } else {
            None
        }
    }
}

/// How many groups a colon separated list of hex groups (no IPv4 part)
/// writes; `None` when the text is not such a list.
pub open spec fn head_slots(t: Seq<char>) -> Option<nat> {
    if t.len() == 0 {
        Some(0)
    } else {
        let parts = split_on(t, ':');
        if forall|i: int| 0 <= i < parts.len() ==> hex_group_ok(#[trigger] parts[i]) {
            Some(parts.len())
        } else {
            None
        }
    }
}

/// The first place from `from` on where `::` stands.
pub open spec fn double_colon_from(t: Seq<char>, from: int) -> Option<int>
    decreases t.len() - from,
{
    if from < 0 || from + 1 >= t.len() {
        None
    } else if t[from] == ':' && t[from + 1] == ':' {
        Some(from)
    } else {
        double_colon_from(t, from + 1)
    }
}

/// An IPv6 address: eight groups, or fewer around one `::` that stands for
/// at least one zero group; an IPv4 address may close the groups.
pub open spec fn ipv6_ok(t: Seq<char>) -> bool {
    match double_colon_from(t, 0) {
        None => list_slots(t) == Some(8nat),
        Some(i) => match (head_slots(t.take(i)), list_slots(t.skip(i + 2))) {
            (Some(k), Some(m)) => k + m <= 7,
            _ => false,
        },
    }
}

/// `a.b.c.d:port`.
pub open spec fn v4_socket_ok(s: Seq<char>) -> bool {
    let parts = split_on(s, ':');
    parts.len() == 2 && ipv4_ok(parts[0]) && port_ok(parts[1])
}

/// `[ipv6]:port` or `[ipv6%scope]:port`.
pub open spec fn v6_socket_ok(s: Seq<char>) -> bool {
    &&& s.len() > 0
    &&& s[0] == '['
    &&& {
        let parts = split_on(s.skip(1), ']');
        &&& parts.len() == 2
        &&& parts[1].len() > 0
        &&& parts[1][0] == ':'
        &&& port_ok(parts[1].skip(1))
        &&& {
            let inner = split_on(parts[0], '%');
            &&& (inner.len() == 1 || (inner.len() == 2 && scope_ok(inner[1])))
            &&& ipv6_ok(inner[0])
        }
    }
}

/// The text names a socket address.
pub open spec fn socket_addr_ok(s: Seq<char>) -> bool {
    v4_socket_ok(s) || v6_socket_ok(s)
}

fn dec_field_text(t: &str, max: u64, max_digits: usize, zero_prefix: bool) -> (ok: bool)
    requires
        max >= 9,
    ensures
        ok == dec_field(t@, max as nat, max_digits as nat, zero_prefix),
{
    let n = t.unicode_len();
    if n == 0 {
        return false;
    }
    if max_digits != 0 && n > max_digits {
        return false;
    }
    if !zero_prefix && t.get_char(0) == '0' && n > 1 {
        return false;
    }
    let mut acc: u64 = 0;
    let mut too_big = false;
    let mut i: usize = 0;
    assert(t@.take(0) =~= Seq::<char>::empty());
    while i < n
        invariant
            i <= n,
            n == t@.len(),
            n > 0,
            all_digits(t@.take(i as int), 10),
            max >= 9,
            !too_big ==> acc as nat == digits_value(t@.take(i as int), 10) && acc <= max,
            too_big ==> digits_value(t@.take(i as int), 10) > max,
        decreases n - i,
    {
        let c = t.get_char(i);
        assert(t@.take(i + 1).drop_last() =~= t@.take(i as int));
        assert(t@.take(i + 1).last() == c);
        let d: u64 = if '0' <= c && c <= '9' {
            (c as u32 - '0' as u32) as u64
        } else {
            assert(!all_digits(t@, 10)) by {
                assert(digit_of(t@[i as int], 10) is None);
            }
            return false;
        };
        assert(digit_of(c, 10) == Some(d as nat));
        assert(all_digits(t@.take(i + 1), 10)) by {
            assert forall|q: int| 0 <= q < i + 1 implies (#[trigger] digit_of(
                t@.take(i + 1)[q],
                10,
            )) is Some by {
                if q < i {
                    assert(t@.take(i + 1)[q] == t@.take(i as int)[q]);
                }
            }
        }
        if too_big {
            proof {
                let v = digits_value(t@.take(i as int), 10);
                assert(v * 10 >= v) by (nonlinear_arith);
            }
        } else if acc > (max - d) / 10 {
            too_big = true;
            assert(acc * 10 + d > max) by (nonlinear_arith)
                requires
                    acc > (max - d) / 10,
                    d <= max || d > max,
            ;
        } else {
            assert(acc * 10 + d <= max) by (nonlinear_arith)
                requires
                    acc <= (max - d) / 10,
                    d <= max,
            ;
            acc = acc * 10 + d;
        }
        i = i + 1;
    }
    assert(t@.take(n as int) =~= t@);
    !too_big
}

fn octet_text(t: &str) -> (ok: bool)
    ensures
        ok == octet_ok(t@),
{
    dec_field_text(t, 255, 3, false)
}

fn port_text(t: &str) -> (ok: bool)
    ensures
        ok == port_ok(t@),
{
    dec_field_text(t, 65535, 0, true)
}

fn scope_text(t: &str) -> (ok: bool)
    ensures
        ok == scope_ok(t@),
{
    dec_field_text(t, u32::MAX as u64, 0, true)
}

fn ipv4_text(t: &str) -> (ok: bool)
    ensures
        ok == ipv4_ok(t@),
{
    let parts = split_text(t, '.');
    if parts.len() != 4 {
        return false;
    }
    let mut i: usize = 0;
    while i < 4
        invariant
            i <= 4,
            parts.len() == 4,
            split_on(t@, '.').len() == 4,
            forall|q: int| 0 <= q < 4 ==> #[trigger] parts[q]@ == split_on(t@, '.')[q],
            forall|q: int| 0 <= q < i ==> octet_ok(#[trigger] split_on(t@, '.')[q]),
        decreases 4 - i,
    {
        if !octet_text(parts[i]) {
            return false;
        }
        i = i + 1;
    }
    true
}

fn hex_group_text(t: &str) -> (ok: bool)
    ensures
        ok == hex_group_ok(t@),
{
    let n = t.unicode_len();
    if n == 0 || n > 4 {
        return false;
    }
    let mut i: usize = 0;
    while i < n
        invariant
            i <= n,
            n == t@.len(),
            forall|q: int| 0 <= q < i ==> (#[trigger] digit_of(t@[q], 16)) is Some,
        decreases n - i,
    {
        let c = t.get_char(i);
        if !(('0' <= c && c <= '9') || ('a' <= c && c <= 'f') || ('A' <= c && c <= 'F')) {
            assert(digit_of(t@[i as int], 16) is None);
            return false;
        }
        i = i + 1;
    }
    true
}

/// The colon separated list (its last part may be an IPv4 address) writes
/// at most `limit` groups.
fn list_fits(t: &str, limit: usize) -> (ok: bool)
    ensures
        ok == (list_slots(t@) matches Some(m) && m <= limit),
{
    if t.unicode_len() == 0 {
        return true;
    }
    let parts = split_text(t, ':');
    let ghost sp = split_on(t@, ':');
    let n = parts.len();
    proof {
        crate::text::lemma_split_nonempty(t@, ':');
    }
    let mut i: usize = 0;
    while i + 1 < n
        invariant
            n == parts.len(),
            n == sp.len(),
            n >= 1,
            i < n,
            sp == split_on(t@, ':'),
            forall|q: int| 0 <= q < n ==> #[trigger] parts[q]@ == sp[q],
            forall|q: int| 0 <= q < i ==> hex_group_ok(#[trigger] sp[q]),
        decreases n - i,
    {
        if !hex_group_text(parts[i]) {
            return false;
        }
        i = i + 1;
    }
    if hex_group_text(parts[n - 1]) {
        return n <= limit;
    }
    if ipv4_text(parts[n - 1]) {
        return n < limit;
    }
    false
}

/// The number of hex groups before a `::`, when they are a list of at most
/// seven hex groups.
fn head_count(t: &str) -> (r: Option<usize>)
    ensures
        r == (if head_slots(t@) matches Some(k) && k <= 7 {
            Some(head_slots(t@)->Some_0 as usize)
        } else {
            None::<usize>
        }),
{
    if t.unicode_len() == 0 {
        return Some(0);
    }
    let parts = split_text(t, ':');
    let ghost sp = split_on(t@, ':');
    let n = parts.len();
    let mut i: usize = 0;
    while i < n
        invariant
            n == parts.len(),
            n == sp.len(),
            i <= n,
            t@.len() > 0,
            sp == split_on(t@, ':'),
            forall|q: int| 0 <= q < n ==> #[trigger] parts[q]@ == sp[q],
            forall|q: int| 0 <= q < i ==> hex_group_ok(#[trigger] sp[q]),
        decreases n - i,
    {
        if !hex_group_text(parts[i]) {
            assert(!hex_group_ok(sp[i as int]));
            return None;
        }
        i = i + 1;
    }
    if n <= 7 {
        Some(n)
    } else {
        None
    }
}

proof fn lemma_double_colon_bounds(t: Seq<char>, from: int)
    ensures
        double_colon_from(t, from) matches Some(i) ==> from <= i && i + 1 < t.len(),
    decreases t.len() - from,
{
    if from >= 0 && from + 1 < t.len() && !(t[from] == ':' && t[from + 1] == ':') {
        lemma_double_colon_bounds(t, from + 1);
    }
}

fn double_colon_text(t: &str) -> (r: Option<usize>)
    ensures
        r == match double_colon_from(t@, 0) {
            Some(i) => Some(i as usize),
            None => None::<usize>,
        },
{
    let n = t.unicode_len();
    let mut i: usize = 0;
    while i < n && i + 1 < n
        invariant
            n == t@.len(),
            i <= n,
            double_colon_from(t@, 0) == double_colon_from(t@, i as int),
        decreases n - i,
    {
        if t.get_char(i) == ':' && t.get_char(i + 1) == ':' {
            return Some(i);
        }
        i = i + 1;
    }
    None
}

fn ipv6_text(t: &str) -> (ok: bool)
    ensures
        ok == ipv6_ok(t@),
{
    proof {
        lemma_double_colon_bounds(t@, 0);
    }
    match double_colon_text(t) {
        None => list_fits(t, 8) && !list_fits(t, 7),
        Some(i) => {
            let n = t.unicode_len();
            let head = t.substring_char(0, i);
            let tail = t.substring_char(i + 2, n);
            assert(head@ =~= t@.take(i as int));
            assert(tail@ =~= t@.skip(i + 2));
            match head_count(head) {
                Some(k) => list_fits(tail, 7 - k),
                None => false,
            }
        },
    }
}

fn v4_socket_text(s: &str) -> (ok: bool)
    ensures
        ok == v4_socket_ok(s@),
{
    let parts = split_text(s, ':');
    parts.len() == 2 && ipv4_text(parts[0]) && port_text(parts[1])
}

fn v6_socket_text(s: &str) -> (ok: bool)
    ensures
        ok == v6_socket_ok(s@),
{
    let n = s.unicode_len();
    if n == 0 || s.get_char(0) != '[' {
        return false;
    }
    let rest = s.substring_char(1, n);
    assert(rest@ =~= s@.skip(1));
    let parts = split_text(rest, ']');
    if parts.len() != 2 {
        return false;
    }
    let after = parts[1];
    let m = after.unicode_len();
    if m == 0 || after.get_char(0) != ':' {
        return false;
    }
    let port = after.substring_char(1, m);
    assert(port@ =~= after@.skip(1));
    if !port_text(port) {
        return false;
    }
    let inner = split_text(parts[0], '%');
    if inner.len() == 2 {
        if !scope_text(inner[1]) {
            return false;
        }
    } else if inner.len() != 1 {
        return false;
    }
    ipv6_text(inner[0])
}

/// The shipped metrics address `127.0.0.1:9207` is a socket address.
pub(crate) proof fn lemma_default_listen_is_socket_addr()
    ensures
        socket_addr_ok(seq!['1', '2', '7', '.', '0', '.', '0', '.', '1', ':', '9', '2', '0', '7']),
{
    let a = seq!['1', '2', '7'];
    let z = seq!['0'];
    let o = seq!['1'];
    let port = seq!['9', '2', '0', '7'];
    let ip = a + seq!['.'] + (z + seq!['.'] + (z + seq!['.'] + o));
    assert(seq!['1', '2', '7', '.', '0', '.', '0', '.', '1', ':', '9', '2', '0', '7'] =~= ip + seq![
        ':',
    ] + port);
    lemma_split_without_sep(ip, ':');
    lemma_split_without_sep(port, ':');
    lemma_split_concat(ip, port, ':');
    lemma_split_without_sep(a, '.');
    lemma_split_without_sep(z, '.');
    lemma_split_without_sep(o, '.');
    lemma_split_concat(z, o, '.');
    lemma_split_concat(z, z + seq!['.'] + o, '.');
    lemma_split_concat(a, z + seq!['.'] + (z + seq!['.'] + o), '.');
    let parts = split_on(ip, '.');
    assert(parts =~= seq![a, z, z, o]);
    reveal_with_fuel(digits_value, 5);
    assert(a.drop_last() =~= seq!['1', '2']);
    assert(a.drop_last().drop_last() =~= o);
    assert(o.drop_last() =~= Seq::<char>::empty());
    assert(z.drop_last() =~= Seq::<char>::empty());
    assert(port.drop_last() =~= seq!['9', '2', '0']);
    assert(port.drop_last().drop_last() =~= seq!['9', '2']);
    assert(port.drop_last().drop_last().drop_last() =~= seq!['9']);
    assert(seq!['9'].drop_last() =~= Seq::<char>::empty());
    assert(octet_ok(parts[0]) && octet_ok(parts[1]) && octet_ok(parts[2]) && octet_ok(parts[3]));
    assert(port_ok(port));
}

/// Whether the text names a socket address, as `SocketAddr`'s `FromStr`
/// decides it.
pub fn is_socket_addr(s: &str) -> (ok: bool)
    ensures
        ok == socket_addr_ok(s@),
{
    v4_socket_text(s) || v6_socket_text(s)
}

} // verus!
