//! Settings that a replica derives from its configuration values.

use vstd::prelude::*;
use crate::g_set::views_of;
use crate::text::{decimal, digit_char, trimmed, trimmed_text};

verus! {

/// Whether `c` is one of the ASCII digits `0` to `9`.
pub open spec fn is_digit(c: char) -> bool {
    '0' <= c <= '9'
}

/// The value of digit character `c`.
pub open spec fn digit_value(c: char) -> nat {
    (c as u32 - 48) as nat
}

/// The ASCII digits of `s`, in order.
pub open spec fn digits_of(s: Seq<char>) -> Seq<char>
    decreases s.len(),
{
    if s.len() == 0 {
        s
    } else if is_digit(s.last()) {
        digits_of(s.drop_last()).push(s.last())
    } else {
        digits_of(s.drop_last())
    }
}

/// The number that a string of decimal digits denotes.
pub open spec fn numeral_value(d: Seq<char>) -> nat
    decreases d.len(),
{
    if d.len() == 0 {
        0
    } else {
        numeral_value(d.drop_last()) * 10 + digit_value(d.last())
    }
}

/// The clock id that a replica with peer id `peer_id` takes: the number
/// that the ASCII digits of its peer id spell, or 1 when there are none
/// or that number does not fit in 64 bits.
pub open spec fn replica_id_of(peer_id: Seq<char>) -> u64 {
    let d = digits_of(peer_id);
    if d.len() > 0 && numeral_value(d) <= u64::MAX {
        numeral_value(d) as u64
    } else {
        1
    }
}

/// The clock id for peer id `peer_id`: its ASCII digits read as a decimal
/// number, or 1 when it has none or they overflow.
pub fn replica_id_from_peer_id(peer_id: &str) -> (r: u64)
    ensures
        r == replica_id_of(peer_id@),
{
    let ghost chars = peer_id@;
    let mut value: u64 = 0;
    let mut any_digit = false;
    let mut overflow = false;
    for c in it: peer_id.chars()
        invariant
            it.seq() == chars,
            any_digit == (digits_of(chars.take(it.index())).len() > 0),
            !overflow ==> value == numeral_value(digits_of(chars.take(it.index()))),
            overflow ==> numeral_value(digits_of(chars.take(it.index()))) > u64::MAX,
    {
        let ghost k = it.index();
        proof {
            assert(chars.take(k + 1).drop_last() =~= chars.take(k));
            assert(chars.take(k + 1).last() == c);
        }
        let ghost pre = digits_of(chars.take(k));
        proof {
            if is_digit(c) {
                assert(digits_of(chars.take(k + 1)) == pre.push(c));
                assert(pre.push(c).drop_last() =~= pre);
                assert(numeral_value(pre.push(c)) == numeral_value(pre) * 10 + digit_value(c));
            } else {
                assert(digits_of(chars.take(k + 1)) == pre);
            }
        }
        if '0' <= c && c <= '9' {
            any_digit = true;
            let d = (c as u32 - 48) as u64;
            if !overflow {
                match value.checked_mul(10) {
                    Some(v) => match v.checked_add(d) {
                        Some(w) => {
                            value = w;
                        },
                        None => {
                            overflow = true;
                        },
                    },
                    None => {
                        overflow = true;
                    },
                }
            }
        }
    }
    proof {
        assert(chars.take(chars.len() as int) =~= chars);
    }
    if any_digit && !overflow {
        value
    } else {
        1
    }
}

/// The port the sync layer listens on: the configured one, or the HTTP
/// port plus 1000.
pub fn sync_port_for(port: u16, configured: Option<u16>) -> (p: u16)
    requires
        configured is None ==> port + 1000 <= u16::MAX,
    ensures
        p == match configured {
            Some(q) => q,
            None => (port + 1000) as u16,
        },
{
    match configured {
        Some(q) => q,
        None => port + 1000,
    }
}

/// The pieces of `s` between commas, in order; a string without commas is
/// one piece.
pub open spec fn comma_pieces(s: Seq<char>) -> Seq<Seq<char>>
    decreases s.len(),
{
    if s.len() == 0 {
        seq![Seq::empty()]
    } else {
        let p = comma_pieces(s.drop_last());
        if s.last() == ',' {
            p.push(Seq::empty())
        } else {
            p.update(p.len() - 1, p.last().push(s.last()))
        }
    }
}

/// A piece that holds more than white space.
pub open spec fn not_blank(p: Seq<char>) -> bool {
    p.len() > 0
}

/// The entries of a comma-separated list of peer addresses: each piece
/// trimmed, blank ones dropped.
pub open spec fn peer_entries_of(s: Seq<char>) -> Seq<Seq<char>> {
    comma_pieces(s).map_values(|p: Seq<char>| trimmed(p)).filter(|p: Seq<char>| not_blank(p))
}

/// The entries that trimming and dropping blank pieces of `done` gives.
spec fn kept(done: Seq<Seq<char>>) -> Seq<Seq<char>> {
    done.map_values(|p: Seq<char>| trimmed(p)).filter(|p: Seq<char>| not_blank(p))
}

/// Keeping one more piece appends it, trimmed, unless it is blank.
proof fn lemma_kept_push(done: Seq<Seq<char>>, p: Seq<char>)
    ensures
        kept(done.push(p)) == if not_blank(trimmed(p)) {
            kept(done).push(trimmed(p))
        } else {
            kept(done)
        },
{
    let f = |q: Seq<char>| trimmed(q);
    let g = |q: Seq<char>| not_blank(q);
    assert(done.push(p).map_values(f) =~= done.map_values(f).push(trimmed(p)));
    reveal_with_fuel(Seq::filter, 1);
    assert(done.map_values(f).push(trimmed(p)).drop_last() =~= done.map_values(f));
}

/// The comma-separated entries of `list`, each trimmed, blank ones dropped.
pub fn peer_entries(list: &str) -> (v: Vec<String>)
    ensures
        views_of(v@) == peer_entries_of(list@),
{
    let ghost s = list@;
    let n = list.unicode_len();
    let mut out: Vec<String> = Vec::new();
    let mut start: usize = 0;
    let ghost mut done: Seq<Seq<char>> = Seq::empty();
    proof {
        assert(s.take(0) =~= Seq::<char>::empty());
        assert(s.subrange(0, 0) =~= Seq::<char>::empty());
        assert(views_of(out@) =~= kept(done)) by {
            reveal_with_fuel(Seq::filter, 1);
        }
    }
    for i in 0..n
        invariant
            n == s.len(),
            s == list@,
            start <= i,
            comma_pieces(s.take(i as int)) == done.push(s.subrange(start as int, i as int)),
            views_of(out@) == kept(done),
    {
        let c = list.get_char(i);
        proof {
            assert(s.take(i + 1).drop_last() =~= s.take(i as int));
            assert(s.take(i + 1).last() == c);
        }
        if c == ',' {
            let piece = list.substring_char(start, i);
            let ghost before = out@;
            match trimmed_text(piece) {
                Some(t) => {
                    out.push(t);
                },
                None => {},
            }
            proof {
                lemma_kept_push(done, s.subrange(start as int, i as int));
                if out@.len() > before.len() {
                    assert(views_of(out@) =~= views_of(before).push(trimmed(s.subrange(start as int, i as int))));
                }
                done = done.push(s.subrange(start as int, i as int));
                assert(s.subrange(i + 1, i + 1) =~= Seq::<char>::empty());
            }
            start = i + 1;
        } else {
            proof {
                assert(s.subrange(start as int, i + 1) =~= s.subrange(start as int, i as int).push(c));
                assert(comma_pieces(s.take(i + 1)) =~= done.push(s.subrange(start as int, i + 1)));
            }
        }
    }
    let piece = list.substring_char(start, n);
    let ghost before = out@;
    match trimmed_text(piece) {
        Some(t) => {
            out.push(t);
        },
        None => {},
    }
    proof {
        assert(s.take(n as int) =~= s);
        lemma_kept_push(done, s.subrange(start as int, n as int));
        if out@.len() > before.len() {
            assert(views_of(out@) =~= views_of(before).push(trimmed(s.subrange(start as int, n as int))));
        }
    }
    out
}

} // verus!

verus! {

/// The decimal numeral of `n` is made of ASCII digits that denote `n`, and
/// starts with `0` only when it is the numeral of zero, `0` itself.
pub proof fn lemma_decimal_denotes(n: nat)
    ensures
        decimal(n).len() >= 1,
        forall|i: int| 0 <= i < decimal(n).len() ==> is_digit(#[trigger] decimal(n)[i]),
        numeral_value(decimal(n)) == n,
        decimal(n)[0] == '0' ==> decimal(n) == seq!['0'],
        n < 10 <==> decimal(n).len() == 1,
    decreases n,
{
    let d = decimal(n);
    if n < 10 {
        assert(d[0] == digit_char(n));
        assert(digit_char(n) as u32 == 48 + n);
        assert(d.drop_last() =~= Seq::<char>::empty());
        assert(numeral_value(d) == numeral_value(d.drop_last()) * 10 + digit_value(d.last()));
        assert(digit_value(d.last()) == n);
        if d[0] == '0' {
            assert(d =~= seq!['0']);
        }
    } else {
        lemma_decimal_denotes(n / 10);
        let e = decimal(n / 10);
        assert(d == e.push(digit_char(n % 10)));
        assert(digit_char(n % 10) as u32 == 48 + n % 10);
        assert(d.drop_last() =~= e);
        assert(numeral_value(d) == numeral_value(e) * 10 + digit_value(d.last()));
        assert(digit_value(d.last()) == n % 10);
        assert((n / 10) * 10 + n % 10 == n) by (nonlinear_arith);
        assert forall|i: int| 0 <= i < d.len() implies is_digit(#[trigger] d[i]) by {
            if i < e.len() {
                assert(d[i] == e[i]);
                assert(is_digit(e[i]));
            }
        }
        assert(d[0] == e[0]);
        if e[0] == '0' {
            assert(e == seq!['0']);
            assert(n / 10 == 0) by {
                assert(numeral_value(e) == n / 10);
                assert(e.drop_last() =~= Seq::<char>::empty());
            }
        }
    }
}

} // verus!

verus! {

/// A string without ASCII digits has none to read.
proof fn lemma_digits_of_none(p: Seq<char>)
    requires
        forall|k: int| 0 <= k < p.len() ==> !is_digit(#[trigger] p[k]),
    ensures
        digits_of(p) == Seq::<char>::empty(),
    decreases p.len(),
{
    if p.len() > 0 {
        assert(!is_digit(p[p.len() - 1]));
        lemma_digits_of_none(p.drop_last());
    }
}

/// The digits of a digit-free prefix followed by digits are those digits.
proof fn lemma_digits_of_suffix(p: Seq<char>, d: Seq<char>)
    requires
        forall|k: int| 0 <= k < p.len() ==> !is_digit(#[trigger] p[k]),
        forall|k: int| 0 <= k < d.len() ==> is_digit(#[trigger] d[k]),
    ensures
        digits_of(p + d) == d,
    decreases d.len(),
{
    if d.len() == 0 {
        assert(p + d =~= p);
        lemma_digits_of_none(p);
    } else {
        let e = d.drop_last();
        assert((p + d).drop_last() =~= p + e);
        assert((p + d).last() == d.last());
        assert(is_digit(d[d.len() - 1]));
        lemma_digits_of_suffix(p, e);
        assert(e.push(d.last()) =~= d);
    }
}

/// A replica whose peer id is a name without digits followed by a number,
/// such as `peer-3`, takes that number as its clock id, when it fits in 64
/// bits; a peer id without digits gives clock id 1.
pub proof fn lemma_replica_id_of_numbered(name: Seq<char>, n: nat)
    requires
        forall|k: int| 0 <= k < name.len() ==> !is_digit(#[trigger] name[k]),
    ensures
        n <= u64::MAX ==> replica_id_of(name + decimal(n)) == n,
        replica_id_of(name) == 1,
{
    lemma_decimal_denotes(n);
    lemma_digits_of_suffix(name, decimal(n));
    lemma_digits_of_none(name);
}

} // verus!
