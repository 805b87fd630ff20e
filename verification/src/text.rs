//! Text helpers: trimming, decimal numbers, and the byte order of strings.

use vstd::prelude::*;
use vstd::utf8::{encode_utf8, encode_utf8_decode_utf8};

verus! {

/// Whether `c` has the Unicode `White_Space` property.
pub open spec fn is_white_space(c: char) -> bool {
    let u = c as u32;
    ||| 0x09 <= u <= 0x0d
    ||| u == 0x20
    ||| u == 0x85
    ||| u == 0xa0
    ||| u == 0x1680
    ||| 0x2000 <= u <= 0x200a
    ||| u == 0x2028
    ||| u == 0x2029
    ||| u == 0x202f
    ||| u == 0x205f
    ||| u == 0x3000
}

/// `s` without its leading white space.
pub open spec fn trim_start(s: Seq<char>) -> Seq<char>
    decreases s.len(),
{
    if s.len() > 0 && is_white_space(s[0]) {
        trim_start(s.drop_first())
    } else {
        s
    }
}

/// `s` without its trailing white space.
pub open spec fn trim_end(s: Seq<char>) -> Seq<char>
    decreases s.len(),
{
    if s.len() > 0 && is_white_space(s.last()) {
        trim_end(s.drop_last())
    } else {
        s
    }
}

/// `s` without leading and trailing white space.
pub open spec fn trimmed(s: Seq<char>) -> Seq<char> {
    trim_end(trim_start(s))
}

/// The character of decimal digit `d`.
pub open spec fn digit_char(d: nat) -> char {
    (48 + d) as char
}

/// The decimal numeral of `n`, without leading zeros.
pub open spec fn decimal(n: nat) -> Seq<char>
    decreases n,
{
    if n < 10 {
        seq![digit_char(n)]
    } else {
        decimal(n / 10).push(digit_char(n % 10))
    }
}

/// Whether byte string `x` comes strictly before byte string `y` in
/// lexicographic order, a proper prefix coming first.
pub open spec fn lex_less(x: Seq<u8>, y: Seq<u8>) -> bool
    decreases x.len(),
{
    if y.len() == 0 {
        false
    } else if x.len() == 0 {
        true
    } else if x[0] != y[0] {
        x[0] < y[0]
    } else {
        lex_less(x.drop_first(), y.drop_first())
    }
}

/// Whether string `a` comes strictly before string `b` in the byte order
/// of their UTF-8 encodings.
pub open spec fn str_before(a: Seq<char>, b: Seq<char>) -> bool {
    lex_less(encode_utf8(a), encode_utf8(b))
}

/// No byte string comes before itself, and of two byte strings at most one
/// comes before the other.
pub proof fn lemma_lex_asymmetric(x: Seq<u8>, y: Seq<u8>)
    ensures
        lex_less(x, y) ==> !lex_less(y, x),
    decreases x.len(),
{
    if x.len() > 0 && y.len() > 0 && x[0] == y[0] {
        lemma_lex_asymmetric(x.drop_first(), y.drop_first());
    }
}

/// The lexicographic order is transitive.
pub proof fn lemma_lex_transitive(x: Seq<u8>, y: Seq<u8>, z: Seq<u8>)
    requires
        lex_less(x, y),
        lex_less(y, z),
    ensures
        lex_less(x, z),
    decreases x.len(),
{
    if x.len() > 0 && x[0] == y[0] && y[0] == z[0] {
        lemma_lex_transitive(x.drop_first(), y.drop_first(), z.drop_first());
    }
}

/// Of two different byte strings, one comes before the other.
pub proof fn lemma_lex_total(x: Seq<u8>, y: Seq<u8>)
    requires
        x != y,
    ensures
        lex_less(x, y) || lex_less(y, x),
    decreases x.len(),
{
    if x.len() == 0 && y.len() == 0 {
        assert(x =~= y);
    } else if x.len() > 0 && y.len() > 0 && x[0] == y[0] {
        if x.drop_first() == y.drop_first() {
            assert(x =~= y.drop_first().insert(0, y[0]));
            assert(y =~= y.drop_first().insert(0, y[0]));
        }
        lemma_lex_total(x.drop_first(), y.drop_first());
    }
}

/// Of two different strings, one comes before the other in byte order, and
/// never both.
pub proof fn lemma_str_before_total(a: Seq<char>, b: Seq<char>)
    requires
        a != b,
    ensures
        str_before(a, b) || str_before(b, a),
        !(str_before(a, b) && str_before(b, a)),
{
    encode_utf8_decode_utf8(a);
    encode_utf8_decode_utf8(b);
    lemma_lex_total(encode_utf8(a), encode_utf8(b));
    lemma_lex_asymmetric(encode_utf8(a), encode_utf8(b));
}

/// No string comes before itself in byte order.
pub proof fn lemma_str_before_irreflexive(a: Seq<char>)
    ensures
        !str_before(a, a),
{
    lemma_lex_asymmetric(encode_utf8(a), encode_utf8(a));
}

/// The byte order of strings is transitive.
pub proof fn lemma_str_before_transitive(a: Seq<char>, b: Seq<char>, c: Seq<char>)
    requires
        str_before(a, b),
        str_before(b, c),
    ensures
        str_before(a, c),
{
    lemma_lex_transitive(encode_utf8(a), encode_utf8(b), encode_utf8(c));
}

/// Whether `a` comes strictly before `b` in the byte order of their UTF-8
/// encodings.
pub fn str_less(a: &String, b: &String) -> (r: bool)
    ensures
        r == str_before(a@, b@),
{
    let x = a.as_str().as_bytes();
    let y = b.as_str().as_bytes();
    let mut i: usize = 0;
    proof {
        assert(x@.skip(0) =~= x@);
        assert(y@.skip(0) =~= y@);
    }
    while i < x.len() && i < y.len()
        invariant
            x@ == encode_utf8(a@),
            y@ == encode_utf8(b@),
            i <= x@.len(),
            i <= y@.len(),
            lex_less(x@, y@) == lex_less(x@.skip(i as int), y@.skip(i as int)),
        decreases x@.len() - i,
    {
        if x[i] != y[i] {
            return x[i] < y[i];
        }
        proof {
            assert(x@.skip(i as int).drop_first() =~= x@.skip(i as int + 1));
            assert(y@.skip(i as int).drop_first() =~= y@.skip(i as int + 1));
        }
        i = i + 1;
    }
    i == x.len() && i < y.len()
}

/// Whether `c` has the Unicode `White_Space` property.
fn white_space(c: char) -> (b: bool)
    ensures
        b == is_white_space(c),
{
    let u = c as u32;
    (0x09 <= u && u <= 0x0d) || u == 0x20 || u == 0x85 || u == 0xa0 || u == 0x1680 || (0x2000 <= u
        && u <= 0x200a) || u == 0x2028 || u == 0x2029 || u == 0x202f || u == 0x205f || u == 0x3000
}

/// `s` without leading and trailing white space.
fn trim_white_space(s: &str) -> (t: &str)
    ensures
        t@ == trimmed(s@),
{
    let ghost v = s@;
    let n = s.unicode_len();
    let mut start: usize = 0;
    proof {
        assert(v.skip(0) =~= v);
    }
    while start < n && white_space(s.get_char(start))
        invariant
            v == s@,
            n == v.len(),
            start <= n,
            trim_start(v) == trim_start(v.skip(start as int)),
        decreases n - start,
    {
        proof {
            assert(v.skip(start as int).drop_first() =~= v.skip(start as int + 1));
        }
        start = start + 1;
    }
    proof {
        assert(v.skip(start as int) =~= v.subrange(start as int, n as int));
    }
    let mut end: usize = n;
    while end > start && white_space(s.get_char(end - 1))
        invariant
            v == s@,
            n == v.len(),
            start <= end <= n,
            trim_start(v) == v.subrange(start as int, n as int),
            trim_end(v.subrange(start as int, n as int)) == trim_end(
                v.subrange(start as int, end as int),
            ),
        decreases end - start,
    {
        proof {
            assert(v.subrange(start as int, end as int).drop_last() =~= v.subrange(
                start as int,
                end as int - 1,
            ));
        }
        end = end - 1;
    }
    s.substring_char(start, end)
}

/// Whether `text` holds anything but white space, and if so that text
/// with leading and trailing white space removed.
pub fn trimmed_text(text: &str) -> (r: Option<String>)
    ensures
        match r {
            Some(t) => trimmed(text@).len() > 0 && t@ == trimmed(text@),
            None => trimmed(text@).len() == 0,
        },
{
    let t = trim_white_space(text);
    if t.is_empty() {
        None
    } else {
        Some(t.to_string())
    }
}

/// The one-character numeral of digit `d`.
fn digit_str(d: u64) -> (s: &'static str)
    requires
        d < 10,
    ensures
        s@ == seq![digit_char(d as nat)],
{
    match d {
        0 => {
            proof {
                reveal_strlit("0");
            }
            "0"
        },
        1 => {
            proof {
                reveal_strlit("1");
            }
            "1"
        },
        2 => {
            proof {
                reveal_strlit("2");
            }
            "2"
        },
        3 => {
            proof {
                reveal_strlit("3");
            }
            "3"
        },
        4 => {
            proof {
                reveal_strlit("4");
            }
            "4"
        },
        5 => {
            proof {
                reveal_strlit("5");
            }
            "5"
        },
        6 => {
            proof {
                reveal_strlit("6");
            }
            "6"
        },
        7 => {
            proof {
                reveal_strlit("7");
            }
            "7"
        },
        8 => {
            proof {
                reveal_strlit("8");
            }
            "8"
        },
        _ => {
            proof {
                reveal_strlit("9");
            }
            "9"
        },
    }
}

/// The decimal numeral of `n`.
fn decimal_string(n: u64) -> (s: String)
    ensures
        s@ == decimal(n as nat),
    decreases n,
{
    if n < 10 {
        String::from_str(digit_str(n))
    } else {
        let mut s = decimal_string(n / 10);
        s.append(digit_str(n % 10));
        s
    }
}

/// The identifier of a replica's `n`-th todo: its peer id, a dash, and `n`
/// in decimal.
pub fn todo_id(peer: &String, n: u64) -> (s: String)
    ensures
        s@ == peer@ + seq!['-'] + decimal(n as nat),
{
    let mut s = peer.clone();
    s.append("-");
    let digits = decimal_string(n);
    s.append(digits.as_str());
    proof {
        reveal_strlit("-");
    }
    s
}

/// The display name of a peer: `Peer ` followed by its id.
pub fn peer_name(peer: &String) -> (s: String)
    ensures
        s@ == seq!['P', 'e', 'e', 'r', ' '] + peer@,
{
    let mut s = String::from_str("Peer ");
    s.append(peer.as_str());
    proof {
        reveal_strlit("Peer ");
    }
    s
}

} // verus!

verus! {

/// A decimal numeral has at least one character, and no dash.
pub proof fn lemma_decimal_no_dash(n: nat)
    ensures
        decimal(n).len() >= 1,
        forall|i: int| 0 <= i < decimal(n).len() ==> decimal(n)[i] != '-',
    decreases n,
{
    if n >= 10 {
        lemma_decimal_no_dash(n / 10);
    }
}

/// Different numbers have different decimal numerals.
pub proof fn lemma_decimal_injective(n: nat, m: nat)
    requires
        decimal(n) == decimal(m),
    ensures
        n == m,
    decreases n,
{
    lemma_decimal_no_dash(n);
    lemma_decimal_no_dash(m);
    if n < 10 && m < 10 {
        assert(decimal(n)[0] == digit_char(n));
        assert(decimal(m)[0] == digit_char(m));
        assert(digit_char(n) as u32 == 48 + n);
        assert(digit_char(m) as u32 == 48 + m);
    } else if n < 10 {
        lemma_decimal_no_dash(m / 10);
        assert(decimal(m).len() >= 2);
    } else if m < 10 {
        lemma_decimal_no_dash(n / 10);
        assert(decimal(n).len() >= 2);
    } else {
        assert(decimal(n).last() == digit_char(n % 10));
        assert(decimal(m).last() == digit_char(m % 10));
        assert(digit_char(n % 10) as u32 == 48 + n % 10);
        assert(digit_char(m % 10) as u32 == 48 + m % 10);
        assert(decimal(n).drop_last() =~= decimal(n / 10));
        assert(decimal(m).drop_last() =~= decimal(m / 10));
        lemma_decimal_injective(n / 10, m / 10);
    }
}

} // verus!

verus! {

/// Where the leading white space of `s` ends.
proof fn lemma_trim_start_at(s: Seq<char>) -> (i: int)
    ensures
        0 <= i <= s.len(),
        trim_start(s) == s.subrange(i, s.len() as int),
        forall|k: int| 0 <= k < i ==> is_white_space(#[trigger] s[k]),
        i < s.len() ==> !is_white_space(s[i]),
    decreases s.len(),
{
    if s.len() > 0 && is_white_space(s[0]) {
        let t = s.drop_first();
        let i0 = lemma_trim_start_at(t);
        assert(t.subrange(i0, t.len() as int) =~= s.subrange(i0 + 1, s.len() as int));
        assert forall|k: int| 0 <= k < i0 + 1 implies is_white_space(#[trigger] s[k]) by {
            if k > 0 {
                assert(s[k] == t[k - 1]);
            }
        }
        i0 + 1
    } else {
        assert(s.subrange(0, s.len() as int) =~= s);
        0
    }
}

/// Where the trailing white space of `s` begins.
proof fn lemma_trim_end_at(s: Seq<char>) -> (j: int)
    ensures
        0 <= j <= s.len(),
        trim_end(s) == s.subrange(0, j),
        forall|k: int| j <= k < s.len() ==> is_white_space(#[trigger] s[k]),
        j > 0 ==> !is_white_space(s[j - 1]),
    decreases s.len(),
{
    if s.len() > 0 && is_white_space(s.last()) {
        let t = s.drop_last();
        let j0 = lemma_trim_end_at(t);
        assert(t.subrange(0, j0) =~= s.subrange(0, j0));
        assert forall|k: int| j0 <= k < s.len() implies is_white_space(#[trigger] s[k]) by {
            if k < t.len() {
                assert(s[k] == t[k]);
            }
        }
        j0
    } else {
        assert(s.subrange(0, s.len() as int) =~= s);
        s.len() as int
    }
}

/// Trimming keeps one stretch of the text: what it drops at either end is
/// all white space, and what it keeps is empty or begins and ends with a
/// character that is not white space. So the trimmed text is empty exactly
/// when the text is all white space.
pub proof fn lemma_trimmed_shape(s: Seq<char>)
    ensures
        exists|i: int, j: int|
            0 <= i <= j <= s.len() && trimmed(s) == s.subrange(i, j) && (forall|k: int|
                0 <= k < i ==> is_white_space(#[trigger] s[k])) && (forall|k: int|
                j <= k < s.len() ==> is_white_space(#[trigger] s[k])),
        trimmed(s).len() > 0 ==> !is_white_space(trimmed(s)[0]) && !is_white_space(
            trimmed(s).last(),
        ),
        trimmed(s).len() == 0 <==> forall|k: int| 0 <= k < s.len() ==> is_white_space(#[trigger] s[k]),
{
    let i = lemma_trim_start_at(s);
    let t = trim_start(s);
    let j = lemma_trim_end_at(t);
    assert(trimmed(s) =~= s.subrange(i, i + j));
    assert forall|k: int| i + j <= k < s.len() implies is_white_space(#[trigger] s[k]) by {
        assert(s[k] == t[k - i]);
    }
    if trimmed(s).len() > 0 {
        assert(trimmed(s)[0] == s[i]);
        assert(trimmed(s).last() == t[j - 1]);
        assert(!(forall|k: int| 0 <= k < s.len() ==> is_white_space(#[trigger] s[k]))) by {
            assert(!is_white_space(s[i]));
        }
    } else {
        assert forall|k: int| 0 <= k < s.len() implies is_white_space(#[trigger] s[k]) by {
            if i <= k < i + j {
            }
        }
    }
}

} // verus!
