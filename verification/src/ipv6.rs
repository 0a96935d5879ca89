//! IPv6 addresses and how they are read from text.
//!
//! An address is eight groups of sixteen bits. Its text is made of fields
//! separated by colons. A field is a group of one to four hexadecimal
//! digits; the last field may be an IPv4 address in dotted decimal, which
//! fills two groups. One `::` may stand for one or more groups of zeros.

use vstd::prelude::*;
use vstd::string::StrSliceExecFns;
use crate::address::{Ipv4Address, ipv4_of};
use crate::text::{all_digits, decimal_value, is_digit, lemma_decimal_value_grows};

verus! {

/// An IPv6 address, held as its eight groups in network order.
#[derive(Clone, Copy, Debug, PartialEq, Eq, Structural, Hash)]
pub struct Ipv6Address {
    pub g0: u16,
    pub g1: u16,
    pub g2: u16,
    pub g3: u16,
    pub g4: u16,
    pub g5: u16,
    pub g6: u16,
    pub g7: u16,
}

/// An IPv6 address together with a port and the scope that the address
/// belongs to (0 where the text names none).
#[derive(Clone, Copy, Debug, PartialEq, Eq, Structural, Hash)]
pub struct SocketAddressV6 {
    pub ip: Ipv6Address,
    pub port: u16,
    pub scope_id: u32,
}

/// Whether `c` is a hexadecimal digit, in either case.
pub open spec fn is_hex_digit(c: char) -> bool {
    ||| '0' <= c <= '9'
    ||| 'a' <= c <= 'f'
    ||| 'A' <= c <= 'F'
}

/// The value of the hexadecimal digit `c`.
pub open spec fn hex_digit_value(c: char) -> nat {
    if '0' <= c <= '9' {
        (c as nat - 48) as nat
    } else if 'a' <= c <= 'f' {
        (c as nat - 87) as nat
    } else {
        (c as nat - 55) as nat
    }
}

/// The number that the hexadecimal digits `s` write.
pub open spec fn hex_value(s: Seq<char>) -> nat
    decreases s.len(),
{
    if s.len() == 0 {
        0
    } else {
        16 * hex_value(s.drop_last()) + hex_digit_value(s.last())
    }
}

/// Whether `s` writes one group: one to four hexadecimal digits.
pub open spec fn is_group_text(s: Seq<char>) -> bool {
    &&& 1 <= s.len() <= 4
    &&& forall|i: int| 0 <= i < s.len() ==> is_hex_digit(#[trigger] s[i])
}

/// The fields of `s`: what stands between the separators `sep`, in order.
/// A text without separator is one field; an empty text is one empty field.
pub open spec fn split(s: Seq<char>, sep: char) -> Seq<Seq<char>>
    decreases s.len(),
{
    if s.len() == 0 {
        seq![Seq::<char>::empty()]
    } else {
        let before = split(s.drop_last(), sep);
        if s.last() == sep {
            before.push(Seq::<char>::empty())
        } else {
            before.drop_last().push(before.last().push(s.last()))
        }
    }
}

/// The place of the first empty field of `fields`, or their number where
/// none is empty.
pub open spec fn first_empty(fields: Seq<Seq<char>>) -> int
    decreases fields.len(),
{
    if fields.len() == 0 {
        0
    } else {
        let k = first_empty(fields.drop_last());
        if k < fields.len() - 1 {
            k
        } else if fields.last().len() == 0 {
            fields.len() - 1
        } else {
            fields.len() as int
        }
    }
}

/// The place of the first `c` in `s`, or the length of `s` where it holds none.
pub open spec fn first_index(s: Seq<char>, c: char) -> int
    decreases s.len(),
{
    if s.len() == 0 {
        0
    } else {
        let k = first_index(s.drop_last(), c);
        if k < s.len() - 1 {
            k
        } else if s.last() == c {
            s.len() - 1
        } else {
            s.len() as int
        }
    }
}

/// The groups that `fields` write where each of them is a group of
/// hexadecimal digits.
pub open spec fn hex_groups_of(fields: Seq<Seq<char>>) -> Option<Seq<u16>> {
    if forall|i: int| 0 <= i < fields.len() ==> is_group_text(#[trigger] fields[i]) {
        Some(Seq::new(fields.len(), |i: int| hex_value(fields[i]) as u16))
    } else {
        None
    }
}

/// The two groups that an IPv4 address fills at the end of an IPv6 address.
pub open spec fn embedded(ip: Ipv4Address) -> Seq<u16> {
    seq![(ip.a * 256 + ip.b) as u16, (ip.c * 256 + ip.d) as u16]
}

/// The groups that `fields` write where the last of them may also be an
/// IPv4 address.
pub open spec fn groups_of(fields: Seq<Seq<char>>) -> Option<Seq<u16>> {
    if fields.len() == 0 {
        Some(Seq::<u16>::empty())
    } else {
        match hex_groups_of(fields.drop_last()) {
            None => None,
            Some(init) => if is_group_text(fields.last()) {
                Some(init.push(hex_value(fields.last()) as u16))
            } else {
                match ipv4_of(fields.last()) {
                    Some(ip) => Some(init + embedded(ip)),
                    None => None,
                }
            },
        }
    }
}

/// `n` groups of zeros.
pub open spec fn zeros(n: int) -> Seq<u16> {
    Seq::new(n as nat, |i: int| 0u16)
}

/// The eight groups of an address that is written with `::` between the
/// groups `head` and `tail`: the `::` stands for one group at least.
pub open spec fn elided(head: Option<Seq<u16>>, tail: Option<Seq<u16>>) -> Option<Seq<u16>> {
    match (head, tail) {
        (Some(h), Some(t)) => if h.len() + t.len() <= 7 {
            Some(h + zeros(8 - h.len() - t.len()) + t)
        } else {
            None
        },
        _ => None,
    }
}

/// The eight groups that the text `s` writes, if it writes an address.
///
/// Without an empty field, the fields write all eight groups. Otherwise the
/// first empty field marks the `::`: at the very start it takes the two
/// empty fields before the first colon pair, and a text that ends with it
/// has one more empty field, after which nothing follows.
pub open spec fn ipv6_groups(s: Seq<char>) -> Option<Seq<u16>> {
    let f = split(s, ':');
    let n = f.len() as int;
    let h = first_empty(f);
    if h == n {
        match groups_of(f) {
            Some(g) => if g.len() == 8 {
                Some(g)
            } else {
                None
            },
            None => None,
        }
    } else {
        let start = if h == 0 {
            2
        } else {
            h + 1
        };
        if h == 0 && !(n >= 2 && f[1].len() == 0) {
            None
        } else if start >= n {
            None
        } else {
            let tail = if start == n - 1 && f[n - 1].len() == 0 {
                Seq::<Seq<char>>::empty()
            } else {
                f.subrange(start, n)
            };
            elided(hex_groups_of(f.subrange(0, h)), groups_of(tail))
        }
    }
}

/// The address of eight groups.
pub open spec fn address_of(groups: Seq<u16>) -> Ipv6Address {
    Ipv6Address {
        g0: groups[0],
        g1: groups[1],
        g2: groups[2],
        g3: groups[3],
        g4: groups[4],
        g5: groups[5],
        g6: groups[6],
        g7: groups[7],
    }
}

/// The address that `s` writes, if it writes one.
pub open spec fn ipv6_of(s: Seq<char>) -> Option<Ipv6Address> {
    match ipv6_groups(s) {
        Some(groups) => Some(address_of(groups)),
        None => None,
    }
}

/// The number that `t` writes in decimal where it is at most `limit`: at
/// least one digit, digits only, leading zeros allowed.
pub open spec fn number_of(t: Seq<char>, limit: nat) -> Option<nat> {
    if t.len() >= 1 && all_digits(t) && decimal_value(t) <= limit {
        Some(decimal_value(t))
    } else {
        None
    }
}

/// The socket address that `s` writes, if it writes one: the address in
/// square brackets, with `%` and a scope number before the closing bracket
/// where it names a scope, then a colon and the port.
pub open spec fn socket_v6_of(s: Seq<char>) -> Option<SocketAddressV6> {
    let close = first_index(s, ']');
    if s.len() == 0 || s[0] != '[' || close >= s.len() {
        None
    } else {
        let body = s.subrange(1, close);
        let pct = first_index(body, '%');
        let ip = ipv6_of(body.subrange(0, pct));
        let scope = if pct < body.len() {
            number_of(body.subrange(pct + 1, body.len() as int), u32::MAX as nat)
        } else {
            Some(0nat)
        };
        if close + 1 >= s.len() || s[close + 1] != ':' {
            None
        } else {
            let port = number_of(s.subrange(close + 2, s.len() as int), u16::MAX as nat);
            match (ip, scope, port) {
                (Some(ip), Some(scope), Some(port)) => Some(
                    SocketAddressV6 { ip, port: port as u16, scope_id: scope as u32 },
                ),
                _ => None,
            }
        }
    }
}

/// What the fields `fields` hold, in their order.
pub open spec fn texts(fields: Seq<Vec<char>>) -> Seq<Seq<char>> {
    fields.map_values(|f: Vec<char>| f@)
}

/// A text has one field at least.
proof fn lemma_split_is_not_empty(s: Seq<char>, sep: char)
    ensures
        split(s, sep).len() >= 1,
    decreases s.len(),
{
    if s.len() > 0 {
        lemma_split_is_not_empty(s.drop_last(), sep);
    }
}

/// The characters of `text`.
fn chars_of(text: &str) -> (chars: Vec<char>)
    ensures
        chars@ == text@,
{
    let n = text.unicode_len();
    let mut chars: Vec<char> = Vec::new();
    let mut i: usize = 0;
    while i < n
        invariant
            n == text@.len(),
            i <= n,
            chars@ == text@.take(i as int),
        decreases n - i,
    {
        chars.push(text.get_char(i));
        assert(chars@ =~= text@.take(i as int + 1));
        i += 1;
    }
    assert(text@.take(n as int) =~= text@);
    chars
}

/// The fields of the characters from `lo` to `hi`.
fn split_fields(chars: &Vec<char>, lo: usize, hi: usize, sep: char) -> (fields: Vec<Vec<char>>)
    requires
        lo <= hi <= chars@.len(),
    ensures
        texts(fields@) == split(chars@.subrange(lo as int, hi as int), sep),
        fields@.len() >= 1,
{
    let mut done: Vec<Vec<char>> = Vec::new();
    let mut cur: Vec<char> = Vec::new();
    let mut i: usize = lo;
    assert(chars@.subrange(lo as int, lo as int) =~= Seq::<char>::empty());
    assert(texts(done@).push(cur@) =~= seq![Seq::<char>::empty()]);
    while i < hi
        invariant
            lo <= i <= hi <= chars@.len(),
            texts(done@).push(cur@) == split(chars@.subrange(lo as int, i as int), sep),
        decreases hi - i,
    {
        let c = chars[i];
        let ghost before = split(chars@.subrange(lo as int, i as int), sep);
        proof {
            let next = chars@.subrange(lo as int, i as int + 1);
            assert(next.drop_last() =~= chars@.subrange(lo as int, i as int));
            assert(next.last() == c);
            assert(before.last() == cur@);
            assert(before.drop_last() =~= texts(done@));
        }
        if c == sep {
            done.push(cur);
            cur = Vec::new();
            assert(texts(done@).push(cur@) =~= before.push(Seq::<char>::empty()));
        } else {
            cur.push(c);
            assert(texts(done@).push(cur@) =~= before.drop_last().push(before.last().push(c)));
        }
        i += 1;
    }
    let ghost all = texts(done@).push(cur@);
    done.push(cur);
    assert(texts(done@) =~= all);
    done
}

/// The place of the first empty field.
fn find_empty(fields: &Vec<Vec<char>>) -> (k: usize)
    ensures
        k == first_empty(texts(fields@)),
        k <= fields@.len(),
{
    let ghost f = texts(fields@);
    let mut k: usize = 0;
    let mut i: usize = 0;
    assert(f.take(0) =~= Seq::<Seq<char>>::empty());
    while i < fields.len()
        invariant
            i <= fields@.len(),
            f == texts(fields@),
            k == first_empty(f.take(i as int)),
            k <= i,
        decreases fields@.len() - i,
    {
        proof {
            assert(f.take(i as int + 1).drop_last() =~= f.take(i as int));
            assert(f.take(i as int + 1).last() == fields@[i as int]@);
        }
        if k == i && fields[i].len() != 0 {
            k = i + 1;
        }
        i += 1;
    }
    assert(f.take(fields@.len() as int) =~= f);
    k
}

/// The place of the first `c` among the characters from `lo` to `hi`,
/// counted from `lo`.
fn find_char(chars: &Vec<char>, lo: usize, hi: usize, c: char) -> (k: usize)
    requires
        lo <= hi <= chars@.len(),
    ensures
        k == first_index(chars@.subrange(lo as int, hi as int), c),
        k <= hi - lo,
        k < hi - lo ==> chars@[lo + k] == c,
{
    let ghost s = chars@.subrange(lo as int, hi as int);
    let mut k: usize = 0;
    let mut i: usize = 0;
    assert(s.take(0) =~= Seq::<char>::empty());
    while i < hi - lo
        invariant
            lo <= hi <= chars@.len(),
            i <= hi - lo,
            s == chars@.subrange(lo as int, hi as int),
            k == first_index(s.take(i as int), c),
            k <= i,
            k < i ==> chars@[lo + k] == c,
        decreases hi - lo - i,
    {
        proof {
            assert(s.take(i as int + 1).drop_last() =~= s.take(i as int));
            assert(s.take(i as int + 1).last() == chars@[lo + i]);
        }
        if k == i && chars[lo + i] != c {
            k = i + 1;
        }
        i += 1;
    }
    assert(s.take((hi - lo) as int) =~= s);
    k
}

/// The value of one hexadecimal digit.
fn hex_digit(c: char) -> (d: Option<u16>)
    ensures
        match d {
            Some(v) => is_hex_digit(c) && v == hex_digit_value(c) && v < 16,
            None => !is_hex_digit(c),
        },
{
    if c >= '0' && c <= '9' {
        Some(((c as u32) - 48) as u16)
    } else if c >= 'a' && c <= 'f' {
        Some(((c as u32) - 87) as u16)
    } else if c >= 'A' && c <= 'F' {
        Some(((c as u32) - 55) as u16)
    } else {
        None
    }
}

/// The group that one field writes.
fn read_group(field: &Vec<char>) -> (group: Option<u16>)
    ensures
        match group {
            Some(v) => is_group_text(field@) && v == hex_value(field@),
            None => !is_group_text(field@),
        },
{
    let n = field.len();
    if n == 0 || n > 4 {
        return None;
    }
    let mut value: u32 = 0;
    let mut i: usize = 0;
    assert(field@.take(0) =~= Seq::<char>::empty());
    while i < n
        invariant
            n == field@.len(),
            1 <= n <= 4,
            i <= n,
            value == hex_value(field@.take(i as int)),
            value < pow16(i as nat),
            forall|j: int| 0 <= j < i ==> is_hex_digit(#[trigger] field@[j]),
        decreases n - i,
    {
        proof {
            assert(field@.take(i as int + 1).drop_last() =~= field@.take(i as int));
            assert(field@.take(i as int + 1).last() == field@[i as int]);
            reveal_with_fuel(pow16, 5);
        }
        match hex_digit(field[i]) {
            Some(d) => {
                value = value * 16 + d as u32;
            },
            None => {
                return None;
            },
        }
        i += 1;
    }
    proof {
        assert(field@.take(n as int) =~= field@);
        reveal_with_fuel(pow16, 5);
    }
    Some(value as u16)
}

/// Sixteen to the power of `n`.
pub open spec fn pow16(n: nat) -> nat
    decreases n,
{
    if n == 0 {
        1
    } else {
        16 * pow16((n - 1) as nat)
    }
}

/// The groups that the fields from `lo` to `hi` write, each being a group
/// of hexadecimal digits.
fn read_hex_groups(fields: &Vec<Vec<char>>, lo: usize, hi: usize) -> (groups: Option<Vec<u16>>)
    requires
        lo <= hi <= fields@.len(),
    ensures
        match groups {
            Some(g) => hex_groups_of(texts(fields@).subrange(lo as int, hi as int)) == Some(g@),
            None => hex_groups_of(texts(fields@).subrange(lo as int, hi as int)) is None,
        },
{
    let ghost part = texts(fields@).subrange(lo as int, hi as int);
    let mut out: Vec<u16> = Vec::new();
    let mut i: usize = lo;
    while i < hi
        invariant
            lo <= i <= hi <= fields@.len(),
            part == texts(fields@).subrange(lo as int, hi as int),
            out@.len() == i - lo,
            forall|j: int| 0 <= j < i - lo ==> is_group_text(#[trigger] part[j]),
            forall|j: int| 0 <= j < i - lo ==> #[trigger] out@[j] == hex_value(part[j]) as u16,
        decreases hi - i,
    {
        assert(part[i - lo] == fields@[i as int]@);
        match read_group(&fields[i]) {
            Some(v) => {
                out.push(v);
            },
            None => {
                assert(!is_group_text(part[i - lo]));
                return None;
            },
        }
        i += 1;
    }
    assert(out@ =~= Seq::new(part.len(), |j: int| hex_value(part[j]) as u16));
    Some(out)
}

/// The text that the characters of a field spell.
fn text_of_field(field: &Vec<char>) -> (text: String)
    ensures
        text@ == field@,
{
    let mut text = String::new();
    let mut i: usize = 0;
    while i < field.len()
        invariant
            i <= field@.len(),
            text@ == field@.take(i as int),
        decreases field@.len() - i,
    {
        text.push(field[i]);
        assert(text@ =~= field@.take(i as int + 1));
        i += 1;
    }
    assert(field@.take(field@.len() as int) =~= field@);
    text
}

/// The groups that the fields from `lo` to `hi` write, the last of which
/// may be an IPv4 address.
fn read_groups(fields: &Vec<Vec<char>>, lo: usize, hi: usize) -> (groups: Option<Vec<u16>>)
    requires
        lo <= hi <= fields@.len(),
    ensures
        match groups {
            Some(g) => groups_of(texts(fields@).subrange(lo as int, hi as int)) == Some(g@),
            None => groups_of(texts(fields@).subrange(lo as int, hi as int)) is None,
        },
{
    let ghost part = texts(fields@).subrange(lo as int, hi as int);
    if lo == hi {
        assert(part =~= Seq::<Seq<char>>::empty());
        return Some(Vec::new());
    }
    proof {
        assert(part.drop_last() =~= texts(fields@).subrange(lo as int, hi - 1));
        assert(part.last() == fields@[hi - 1]@);
    }
    let mut init = match read_hex_groups(fields, lo, hi - 1) {
        Some(init) => init,
        None => {
            return None;
        },
    };
    let ghost before = init@;
    match read_group(&fields[hi - 1]) {
        Some(v) => {
            init.push(v);
            Some(init)
        },
        None => {
            let text = text_of_field(&fields[hi - 1]);
            match Ipv4Address::parse(text.as_str()) {
                Some(ip) => {
                    init.push(ip.a as u16 * 256 + ip.b as u16);
                    init.push(ip.c as u16 * 256 + ip.d as u16);
                    assert(init@ =~= before + embedded(ip));
                    Some(init)
                },
                None => None,
            }
        },
    }
}

/// The number that the characters from `lo` to `hi` write in decimal,
/// where it is at most `limit`.
fn read_number(chars: &Vec<char>, lo: usize, hi: usize, limit: u64) -> (number: Option<u64>)
    requires
        lo <= hi <= chars@.len(),
        limit <= u32::MAX,
    ensures
        match number {
            Some(v) => number_of(chars@.subrange(lo as int, hi as int), limit as nat) == Some(
                v as nat,
            ),
            None => number_of(chars@.subrange(lo as int, hi as int), limit as nat) is None,
        },
{
    let ghost t = chars@.subrange(lo as int, hi as int);
    if lo == hi {
        return None;
    }
    let mut i: usize = lo;
    while i < hi
        invariant
            lo <= i <= hi <= chars@.len(),
            t == chars@.subrange(lo as int, hi as int),
            forall|j: int| 0 <= j < i - lo ==> is_digit(#[trigger] t[j]),
        decreases hi - i,
    {
        let c = chars[i];
        assert(t[i - lo] == c);
        if !(c >= '0' && c <= '9') {
            return None;
        }
        i += 1;
    }
    assert(all_digits(t));
    let mut value: u64 = 0;
    let mut i: usize = lo;
    assert(t.subrange(0, 0) =~= Seq::<char>::empty());
    while i < hi
        invariant
            lo <= i <= hi <= chars@.len(),
            t == chars@.subrange(lo as int, hi as int),
            all_digits(t),
            limit <= u32::MAX,
            value <= limit,
            value == decimal_value(t.subrange(0, i - lo)),
        decreases hi - i,
    {
        let c = chars[i];
        proof {
            assert(t[i - lo] == c);
            assert(is_digit(c));
            let next = t.subrange(0, i - lo + 1);
            assert(next.drop_last() =~= t.subrange(0, i - lo));
            assert(next.last() == c);
        }
        value = value * 10 + ((c as u32) - 48) as u64;
        if value > limit {
            proof {
                lemma_decimal_value_grows(t, i - lo + 1);
            }
            return None;
        }
        i += 1;
    }
    assert(t.subrange(0, hi - lo) =~= t);
    Some(value)
}

/// Reads the address that the characters from `lo` to `hi` write.
fn read_ipv6(chars: &Vec<char>, lo: usize, hi: usize) -> (r: Option<Ipv6Address>)
    requires
        lo <= hi <= chars@.len(),
    ensures
        r == ipv6_of(chars@.subrange(lo as int, hi as int)),
{
    let fields = split_fields(chars, lo, hi, ':');
    let ghost f = texts(fields@);
    let n = fields.len();
    let h = find_empty(&fields);
    let groups: Vec<u16> = if h == n {
        proof {
            assert(f.subrange(0, n as int) =~= f);
        }
        match read_groups(&fields, 0, n) {
            Some(g) => {
                if g.len() != 8 {
                    return None;
                }
                g
            },
            None => {
                return None;
            },
        }
    } else {
        let start: usize = if h == 0 {
            2
        } else {
            h + 1
        };
        if h == 0 && !(n >= 2 && fields[1].len() == 0) {
            return None;
        }
        if start >= n {
            return None;
        }
        let head = read_hex_groups(&fields, 0, h);
        let tail = if start == n - 1 && fields[n - 1].len() == 0 {
            proof {
                assert(f.subrange(n as int, n as int) =~= Seq::<Seq<char>>::empty());
            }
            read_groups(&fields, n, n)
        } else {
            read_groups(&fields, start, n)
        };
        match (head, tail) {
            (Some(h), Some(t)) => {
                if h.len() > 7 || t.len() > 7 || h.len() + t.len() > 7 {
                    return None;
                }
                let mut all = h;
                let ghost first = all@;
                let gap = 8 - all.len() - t.len();
                let mut z: usize = 0;
                while z < gap
                    invariant
                        z <= gap,
                        gap + first.len() + t@.len() == 8,
                        all@ == first + zeros(z as int),
                    decreases gap - z,
                {
                    all.push(0);
                    assert(all@ =~= first + zeros(z as int + 1));
                    z += 1;
                }
                let ghost middle = all@;
                let mut k: usize = 0;
                while k < t.len()
                    invariant
                        k <= t@.len(),
                        all@ == middle + t@.take(k as int),
                    decreases t@.len() - k,
                {
                    all.push(t[k]);
                    assert(all@ =~= middle + t@.take(k as int + 1));
                    k += 1;
                }
                assert(t@.take(t@.len() as int) =~= t@);
                all
            },
            _ => {
                return None;
            },
        }
    };
    Some(
        Ipv6Address {
            g0: groups[0],
            g1: groups[1],
            g2: groups[2],
            g3: groups[3],
            g4: groups[4],
            g5: groups[5],
            g6: groups[6],
            g7: groups[7],
        },
    )
}

impl Ipv6Address {
    /// The address of the eight groups.
    pub fn new(groups: [u16; 8]) -> (ip: Ipv6Address)
        ensures
            ip == address_of(groups@),
    {
        Ipv6Address {
            g0: groups[0],
            g1: groups[1],
            g2: groups[2],
            g3: groups[3],
            g4: groups[4],
            g5: groups[5],
            g6: groups[6],
            g7: groups[7],
        }
    }

    /// The eight groups.
    pub fn groups(&self) -> (groups: [u16; 8])
        ensures
            *self == address_of(groups@),
    {
        [self.g0, self.g1, self.g2, self.g3, self.g4, self.g5, self.g6, self.g7]
    }

    /// Reads an address: `Some(ip)` exactly where `text` writes `ip`.
    pub fn parse(text: &str) -> (r: Option<Ipv6Address>)
        ensures
            r == ipv6_of(text@),
    {
        let chars = chars_of(text);
        assert(chars@.subrange(0, chars@.len() as int) =~= chars@);
        read_ipv6(&chars, 0, chars.len())
    }
}

impl SocketAddressV6 {
    /// The address `[ip]:port` in no scope.
    pub fn new(ip: Ipv6Address, port: u16) -> (addr: SocketAddressV6)
        ensures
            addr == (SocketAddressV6 { ip, port, scope_id: 0 }),
    {
        SocketAddressV6 { ip, port, scope_id: 0 }
    }

    /// Reads a socket address: `Some(addr)` exactly where `text` writes `addr`.
    pub fn parse(text: &str) -> (r: Option<SocketAddressV6>)
        ensures
            r == socket_v6_of(text@),
    {
        let chars = chars_of(text);
        let n = chars.len();
        let ghost s = chars@;
        assert(s.subrange(0, n as int) =~= s);
        let close = find_char(&chars, 0, n, ']');
        if n == 0 || chars[0] != '[' || close >= n {
            return None;
        }
        let ghost body = s.subrange(1, close as int);
        let pct = find_char(&chars, 1, close, '%');
        proof {
            assert(body.subrange(0, pct as int) =~= s.subrange(1, 1 + pct));
            if pct < body.len() {
                assert(body.subrange(pct + 1, body.len() as int) =~= s.subrange(
                    pct + 2,
                    close as int,
                ));
            }
        }
        let ip = read_ipv6(&chars, 1, 1 + pct);
        let scope: Option<u64> = if pct < close - 1 {
            read_number(&chars, pct + 2, close, 0xffff_ffff)
        } else {
            Some(0)
        };
        if close + 1 >= n || chars[close + 1] != ':' {
            return None;
        }
        let port = read_number(&chars, close + 2, n, 0xffff);
        match (ip, scope, port) {
            (Some(ip), Some(scope), Some(port)) => Some(
                SocketAddressV6 { ip, port: port as u16, scope_id: scope as u32 },
            ),
            _ => None,
        }
    }
}

} // verus!
