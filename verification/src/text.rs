//! String helpers over `&str` with contracts on the characters they hold.

use vstd::prelude::*;
use vstd::string::StringSliceAdditionalSpecFns;
use vstd::utf8::{encode_utf8, encode_utf8_decode_utf8};
use vstd::string::StrSliceExecFns;
use crate::routing::routes::decimal_text;

verus! {

/// Whether two strings hold the same characters.
pub fn str_eq(a: &str, b: &str) -> (r: bool)
    ensures
        r == (a@ == b@),
{
    let x = a.as_bytes();
    let y = b.as_bytes();
    proof {
        encode_utf8_decode_utf8(a@);
        encode_utf8_decode_utf8(b@);
    }
    if x.len() != y.len() {
        return false;
    }
    let mut i: usize = 0;
    while i < x.len()
        invariant
            x@ == encode_utf8(a@),
            y@ == encode_utf8(b@),
            x@.len() == y@.len(),
            i <= x@.len(),
            forall|j: int| 0 <= j < i ==> x@[j] == y@[j],
        decreases x@.len() - i,
    {
        if x[i] != y[i] {
            return false;
        }
        i = i + 1;
    }
    assert(x@ =~= y@);
    true
}


/// Unicode `White_Space`, the set `char::is_whitespace` and `str::trim` use.
pub open spec fn is_white_space(c: char) -> bool {
    let u = c as u32;
    ||| 0x09 <= u <= 0x0d
    ||| u == 0x20
    ||| u == 0x85
    ||| u == 0xa0
    ||| u == 0x1680
    ||| 0x2000 <= u <= 0x200a
    ||| u == 0x2028
    ||| u == 0x2029
    ||| u == 0x202f
    ||| u == 0x205f
    ||| u == 0x3000
}

/// Whether `c` is Unicode white space.
pub fn is_whitespace(c: char) -> (b: bool)
    ensures
        b == is_white_space(c),
{
    let u = c as u32;
    (0x09 <= u && u <= 0x0d) || u == 0x20 || u == 0x85 || u == 0xa0 || u == 0x1680 || (0x2000 <= u && u
        <= 0x200a) || u == 0x2028 || u == 0x2029 || u == 0x202f || u == 0x205f || u == 0x3000
}

/// `s` without its leading white space.
pub open spec fn trim_start(s: Seq<char>) -> Seq<char>
    decreases s.len(),
{
    if s.len() > 0 && is_white_space(s[0]) { trim_start(s.drop_first()) } else { s }
}

/// `s` without its trailing white space.
pub open spec fn trim_end(s: Seq<char>) -> Seq<char>
    decreases s.len(),
{
    if s.len() > 0 && is_white_space(s.last()) { trim_end(s.drop_last()) } else { s }
}

/// `s` without leading and trailing white space, as `str::trim` gives it.
pub open spec fn trimmed(s: Seq<char>) -> Seq<char> {
    trim_end(trim_start(s))
}

/// `s` without leading and trailing white space.
pub fn trim(s: &str) -> (r: &str)
    ensures
        r@ == trimmed(s@),
{
    let n = s.unicode_len();
    let mut a: usize = 0;
    assert(s@.skip(0) =~= s@);
    while a < n && is_whitespace(s.get_char(a))
        invariant
            n == s@.len(),
            a <= n,
            trim_start(s@) == trim_start(s@.skip(a as int)),
        decreases n - a,
    {
        assert(s@.skip(a as int).drop_first() =~= s@.skip(a + 1));
        a = a + 1;
    }
    let ghost t = s@.skip(a as int);
    assert(trim_start(s@) == t) by {
        if a < n {
            assert(t[0] == s@[a as int]);
        }
    }
    let mut b: usize = n;
    assert(t.take((b - a) as int) =~= t);
    while b > a && is_whitespace(s.get_char(b - 1))
        invariant
            n == s@.len(),
            a <= b <= n,
            t == s@.skip(a as int),
            trim_end(t) == trim_end(t.take((b - a) as int)),
        decreases b,
    {
        let ghost u = t.take((b - a) as int);
        assert(u.last() == s@[b - 1]);
        assert(u.drop_last() =~= t.take((b - 1 - a) as int));
        b = b - 1;
    }
    let ghost u = t.take((b - a) as int);
    assert(trim_end(u) == u) by {
        if b > a {
            assert(u.last() == s@[b - 1]);
        }
    }
    assert(u =~= s@.subrange(a as int, b as int));
    s.substring_char(a, b)
}

/// Whether `s` contains `c`.
pub fn contains_char(s: &str, c: char) -> (b: bool)
    ensures
        b == s@.contains(c),
{
    let n = s.unicode_len();
    let mut i: usize = 0;
    while i < n
        invariant
            n == s@.len(),
            i <= n,
            forall|j: int| 0 <= j < i ==> s@[j] != c,
        decreases n - i,
    {
        if s.get_char(i) == c {
            assert(s@[i as int] == c);
            return true;
        }
        i = i + 1;
    }
    false
}

/// The index of the first `c` in `s`, or the length of `s` when there is none.
pub open spec fn first_index(s: Seq<char>, c: char) -> int
    decreases s.len(),
{
    if s.len() == 0 {
        0
    } else if s[0] == c {
        0
    } else {
        1 + first_index(s.drop_first(), c)
    }
}

/// The pieces of `s` between occurrences of `sep`, as `str::split` gives them.
pub open spec fn split_spec(s: Seq<char>, sep: char) -> Seq<Seq<char>>
    decreases s.len(),
{
    let i = first_index(s, sep);
    if i >= s.len() {
        seq![s]
    } else {
        proof {
            lemma_first_index_bounds(s, sep);
        }
        seq![s.take(i)] + split_spec(s.skip(i + 1), sep)
    }
}

/// The first index lies within the sequence, and only `c` stops it.
pub proof fn lemma_first_index_bounds(s: Seq<char>, c: char)
    ensures
        0 <= first_index(s, c) <= s.len(),
        first_index(s, c) < s.len() ==> s[first_index(s, c)] == c,
        forall|j: int| 0 <= j < first_index(s, c) ==> s[j] != c,
    decreases s.len(),
{
    if s.len() > 0 && s[0] != c {
        lemma_first_index_bounds(s.drop_first(), c);
        assert forall|j: int| 0 <= j < first_index(s, c) implies s[j] != c by {
            if j > 0 {
                assert(s[j] == s.drop_first()[j - 1]);
            }
        }
    }
}

/// Where no `c` occurs before `i` and `c` (or the end) is at `i`, the first
/// index is `i`.
proof fn lemma_first_index_at(s: Seq<char>, c: char, i: int)
    requires
        0 <= i <= s.len(),
        forall|j: int| 0 <= j < i ==> s[j] != c,
        i < s.len() ==> s[i] == c,
    ensures
        first_index(s, c) == i,
    decreases s.len(),
{
    if s.len() > 0 && i > 0 {
        assert forall|j: int| 0 <= j < i - 1 implies s.drop_first()[j] != c by {
            assert(s.drop_first()[j] == s[j + 1]);
        }
        lemma_first_index_at(s.drop_first(), c, i - 1);
    }
}

/// Where `c` does not occur, splitting at `c` leaves `s` whole.
pub proof fn lemma_first_index_at_end(s: Seq<char>, c: char)
    requires
        forall|j: int| 0 <= j < s.len() ==> s[j] != c,
    ensures
        first_index(s, c) == s.len(),
        split_spec(s, c) == seq![s],
{
    lemma_first_index_at(s, c, s.len() as int);
}

/// The pieces of `s` between occurrences of `sep`.
pub fn split_char(s: &str, sep: char) -> (r: Vec<&str>)
    ensures
        r@.map_values(|p: &str| p@) == split_spec(s@, sep),
{
    let n = s.unicode_len();
    let mut pieces: Vec<&str> = Vec::new();
    let mut start: usize = 0;
    let mut i: usize = 0;
    assert(s@.skip(0) =~= s@);
    assert(pieces@.map_values(|p: &str| p@) + split_spec(s@.skip(0), sep) =~= split_spec(s@, sep));
    while i < n
        invariant
            n == s@.len(),
            start <= i <= n,
            forall|j: int| start <= j < i ==> s@[j] != sep,
            pieces@.map_values(|p: &str| p@) + split_spec(s@.skip(start as int), sep) == split_spec(s@, sep),
        decreases n - i,
    {
        if s.get_char(i) == sep {
            let piece = s.substring_char(start, i);
            let ghost rest = s@.skip(start as int);
            proof {
                assert forall|j: int| 0 <= j < i - start implies rest[j] != sep by {
                    assert(rest[j] == s@[start + j]);
                }
                assert(rest[i - start] == s@[i as int]);
                lemma_first_index_at(rest, sep, i - start);
                assert(rest.take(i - start) =~= piece@);
                assert(rest.skip(i - start + 1) =~= s@.skip(i + 1));
                assert(split_spec(rest, sep) == seq![rest.take(i - start)] + split_spec(rest.skip(i - start + 1), sep));
            }
            let ghost before = pieces@.map_values(|p: &str| p@);
            pieces.push(piece);
            assert(pieces@.map_values(|p: &str| p@) =~= before.push(piece@));
            assert(pieces@.map_values(|p: &str| p@) + split_spec(s@.skip(i + 1), sep) =~= before + split_spec(rest, sep));
            start = i + 1;
        }
        i = i + 1;
    }
    let piece = s.substring_char(start, n);
    let ghost rest = s@.skip(start as int);
    proof {
        assert forall|j: int| 0 <= j < n - start implies rest[j] != sep by {
            assert(rest[j] == s@[start + j]);
        }
        lemma_first_index_at(rest, sep, n - start);
        assert(rest =~= piece@);
    }
    let ghost before = pieces@.map_values(|p: &str| p@);
    pieces.push(piece);
    assert(pieces@.map_values(|p: &str| p@) =~= before.push(piece@));
    pieces
}


/// Whether `c` is an ASCII decimal digit.
pub open spec fn is_digit(c: char) -> bool {
    '0' <= c <= '9'
}

/// The value of a string of decimal digits.
pub open spec fn digits_value(d: Seq<char>) -> nat
    decreases d.len(),
{
    if d.len() == 0 {
        0
    } else {
        digits_value(d.drop_last()) * 10 + ((d.last() as u32) - 48) as nat
    }
}

/// The digits of an unsigned number's text: without its leading '+', if any.
pub open spec fn unsigned_digits(t: Seq<char>) -> Seq<char> {
    if t.len() > 0 && t[0] == '+' { t.drop_first() } else { t }
}

/// Whether `str::parse::<u16>` accepts `t`: an optional '+' followed by at
/// least one ASCII digit, with a value of at most 65535.
pub open spec fn parses_as_u16(t: Seq<char>) -> bool {
    let d = unsigned_digits(t);
    &&& d.len() > 0
    &&& forall|i: int| 0 <= i < d.len() ==> is_digit(#[trigger] d[i])
    &&& digits_value(d) <= 65535
}

/// The decimal digits are exactly the characters '0' to '9' (code points 48
/// to 57).
pub proof fn lemma_digits_are_0_to_9(c: char)
    ensures
        is_digit(c) <==> (48 <= c as u32 && c as u32 <= 57),
{
}

/// The decimal text of any number is a run of decimal digits, not starting
/// with '+', whose value is that number.
pub proof fn lemma_decimal_text_value(n: nat)
    ensures
        decimal_text(n).len() >= 1,
        decimal_text(n)[0] != '+',
        forall|i: int| 0 <= i < decimal_text(n).len() ==> is_digit(#[trigger] decimal_text(n)[i]),
        digits_value(decimal_text(n)) == n,
    decreases n,
{
    let t = decimal_text(n);
    if n < 10 {
        assert(t.drop_last() =~= Seq::<char>::empty());
        assert(((48 + n) as char) as u32 == 48 + n);
        assert(t.last() == (48 + n) as char);
        assert(digits_value(t) == digits_value(t.drop_last()) * 10 + ((t.last() as u32) - 48) as nat);
    } else {
        let q = n / 10;
        let r = n % 10;
        lemma_decimal_text_value(q);
        let head = decimal_text(q);
        assert(t == head + seq![(48 + r) as char]);
        assert(t.drop_last() =~= head);
        assert(((48 + r) as char) as u32 == 48 + r);
        assert(t.last() == (48 + r) as char);
        assert(digits_value(t) == digits_value(head) * 10 + r);
        assert(t[0] == head[0]);
        assert forall|i: int| 0 <= i < t.len() implies is_digit(#[trigger] t[i]) by {
            if i < head.len() {
                assert(t[i] == head[i]);
            }
        }
        assert(q * 10 + r == n) by (nonlinear_arith)
            requires
                q == n / 10,
                r == n % 10,
        ;
    }
}

/// Every port number's decimal text is accepted as a `u16`, and no larger
/// number's text is: `parses_as_u16` accepts exactly 0 to 65535 written in
/// decimal.
pub proof fn lemma_port_text_parses(p: nat)
    ensures
        parses_as_u16(decimal_text(p)) <==> p <= 65535,
{
    lemma_decimal_text_value(p);
    assert(unsigned_digits(decimal_text(p)) == decimal_text(p));
}

/// The text after the last `c` is a suffix of `s` that holds no `c`; when it
/// is shorter than `s`, the character just before it is `c` (so it is all
/// of `s` exactly when `s` holds no `c`).
pub proof fn lemma_after_last_is_tail(s: Seq<char>, c: char)
    ensures
        after_last(s, c).len() <= s.len(),
        after_last(s, c) == s.skip(s.len() - after_last(s, c).len()),
        !after_last(s, c).contains(c),
        after_last(s, c).len() < s.len() ==> s[s.len() - after_last(s, c).len() - 1] == c,
        !s.contains(c) ==> after_last(s, c) == s,
    decreases s.len(),
{
    if s.len() > 0 {
        let init = s.drop_last();
        lemma_after_last_is_tail(init, c);
        if s.last() == c {
            assert(s.skip(s.len() as int) =~= Seq::<char>::empty());
            assert(s.contains(c)) by {
                assert(s[s.len() - 1] == c);
            }
        } else {
            let t = after_last(init, c);
            let r = t.push(s.last());
            assert(r =~= s.skip(s.len() - r.len())) by {
                assert forall|i: int| 0 <= i < r.len() implies r[i] == s.skip(s.len() - r.len())[i] by {
                    if i < t.len() {
                        assert(t[i] == init.skip(init.len() - t.len())[i]);
                    }
                }
            }
            assert(!r.contains(c)) by {
                assert forall|i: int| 0 <= i < r.len() implies r[i] != c by {
                    if i < t.len() {
                        assert(r[i] == t[i]);
                        assert(!t.contains(c));
                    }
                }
            }
            if r.len() < s.len() {
                assert(s[s.len() - r.len() - 1] == init[init.len() - t.len() - 1]);
            }
            if !s.contains(c) {
                assert(!init.contains(c)) by {
                    assert forall|i: int| 0 <= i < init.len() implies init[i] != c by {
                        assert(init[i] == s[i]);
                    }
                }
                assert(r =~= s);
            }
        }
    }
}

/// The white space among ASCII characters is exactly the space and the
/// control characters tab, line feed, vertical tab, form feed and carriage
/// return (9 to 13); letters, digits and punctuation are not white space.
pub proof fn lemma_ascii_white_space(c: char)
    ensures
        (c as u32) < 128 ==> (is_white_space(c) <==> (c as u32 == 32 || (9 <= c as u32 && c as u32 <= 13))),
{
}

/// Trimming keeps a middle slice of `s`: what it cuts off at either end is
/// white space, and what it keeps neither starts nor ends with white space.
pub proof fn lemma_trimmed_is_core(s: Seq<char>)
    ensures
        exists|a: int, b: int|
            0 <= a <= b <= s.len() && trimmed(s) == s.subrange(a, b) && (forall|i: int|
                0 <= i < a ==> is_white_space(#[trigger] s[i])) && (forall|i: int|
                b <= i < s.len() ==> is_white_space(#[trigger] s[i])),
        trimmed(s).len() > 0 ==> !is_white_space(trimmed(s)[0]) && !is_white_space(trimmed(s).last()),
{
    lemma_trim_start_is_tail(s);
    let t = trim_start(s);
    let a = s.len() - t.len();
    lemma_trim_end_is_head(t);
    let u = trim_end(t);
    let b = a + u.len();
    assert(u =~= s.subrange(a, b)) by {
        assert forall|i: int| 0 <= i < u.len() implies u[i] == s.subrange(a, b)[i] by {
            assert(u[i] == t[i]);
            assert(t[i] == s[a + i]);
        }
    }
    assert forall|i: int| b <= i < s.len() implies is_white_space(#[trigger] s[i]) by {
        assert(s[i] == t[i - a]);
    }
    if u.len() > 0 {
        assert(u[0] == t[0]);
    }
}

proof fn lemma_trim_start_is_tail(s: Seq<char>)
    ensures
        trim_start(s).len() <= s.len(),
        trim_start(s) == s.skip(s.len() - trim_start(s).len()),
        forall|i: int| 0 <= i < s.len() - trim_start(s).len() ==> is_white_space(#[trigger] s[i]),
        trim_start(s).len() > 0 ==> !is_white_space(trim_start(s)[0]),
    decreases s.len(),
{
    if s.len() > 0 && is_white_space(s[0]) {
        let rest = s.drop_first();
        lemma_trim_start_is_tail(rest);
        assert(rest.skip(rest.len() - trim_start(rest).len()) =~= s.skip(s.len() - trim_start(rest).len()));
        assert forall|i: int| 0 <= i < s.len() - trim_start(s).len() implies is_white_space(#[trigger] s[i]) by {
            if i > 0 {
                assert(s[i] == rest[i - 1]);
            }
        }
    } else {
        assert(s.skip(0) =~= s);
    }
}

proof fn lemma_trim_end_is_head(s: Seq<char>)
    ensures
        trim_end(s).len() <= s.len(),
        trim_end(s) == s.take(trim_end(s).len() as int),
        forall|i: int| trim_end(s).len() <= i < s.len() ==> is_white_space(#[trigger] s[i]),
        trim_end(s).len() > 0 ==> !is_white_space(trim_end(s).last()),
    decreases s.len(),
{
    if s.len() > 0 && is_white_space(s.last()) {
        let init = s.drop_last();
        lemma_trim_end_is_head(init);
        assert(init.take(trim_end(init).len() as int) =~= s.take(trim_end(init).len() as int));
        assert forall|i: int| trim_end(s).len() <= i < s.len() implies is_white_space(#[trigger] s[i]) by {
            if i < s.len() - 1 {
                assert(s[i] == init[i]);
            }
        }
    } else {
        assert(s.take(s.len() as int) =~= s);
    }
}

/// Text that neither starts nor ends with white space is left whole by
/// trimming.
pub proof fn lemma_trim_keeps(t: Seq<char>)
    requires
        t.len() > 0,
        !is_white_space(t[0]),
        !is_white_space(t.last()),
    ensures
        trimmed(t) == t,
{
    lemma_trimmed_is_core(t);
    let (a, b) = choose|a: int, b: int|
        0 <= a <= b <= t.len() && trimmed(t) == t.subrange(a, b) && (forall|i: int|
            0 <= i < a ==> is_white_space(#[trigger] t[i])) && (forall|i: int|
            b <= i < t.len() ==> is_white_space(#[trigger] t[i]));
    if a > 0 {
        assert(is_white_space(t[0]));
    }
    if b < t.len() {
        assert(is_white_space(t[t.len() - 1]));
    }
    assert(trimmed(t) =~= t);
}

/// What follows the last `c` of `h`, `c`, `d` is `d`, when `d` holds no `c`.
pub proof fn lemma_after_last_of(h: Seq<char>, c: char, d: Seq<char>)
    requires
        !d.contains(c),
    ensures
        after_last(h + seq![c] + d, c) == d,
{
    let t = h + seq![c] + d;
    let at = h.len() as int;
    assert(t[at] == c);
    lemma_after_last_is_tail(t, c);
    let r = after_last(t, c);
    let l = r.len() as int;
    if l > d.len() {
        assert(r[at - (t.len() - l)] == t[at]);
        assert(r.contains(c));
    }
    if l < d.len() {
        assert(t[t.len() - l - 1] == c);
        assert(t[t.len() - l - 1] == d[t.len() - l - 1 - at - 1]);
        assert(d.contains(c));
    }
    assert(r =~= d) by {
        assert forall|i: int| 0 <= i < d.len() implies r[i] == d[i] by {
            assert(r[i] == t.skip(t.len() - l)[i]);
            assert(t[at + 1 + i] == d[i]);
        }
    }
}

/// The pieces joined back with the separator between neighbours.
pub open spec fn join_pieces(pieces: Seq<Seq<char>>, sep: char) -> Seq<char>
    decreases pieces.len(),
{
    if pieces.len() <= 1 {
        if pieces.len() == 1 { pieces[0] } else { Seq::empty() }
    } else {
        pieces[0] + seq![sep] + join_pieces(pieces.drop_first(), sep)
    }
}

/// Splitting loses nothing and cuts only at the separator: there is at
/// least one piece, no piece holds the separator, and the pieces joined
/// with the separator give `s` back.
pub proof fn lemma_split_rejoins(s: Seq<char>, sep: char)
    ensures
        split_spec(s, sep).len() >= 1,
        forall|k: int| 0 <= k < split_spec(s, sep).len() ==> !(#[trigger] split_spec(s, sep)[k]).contains(sep),
        join_pieces(split_spec(s, sep), sep) == s,
    decreases s.len(),
{
    lemma_first_index_bounds(s, sep);
    let i = first_index(s, sep);
    if i >= s.len() {
        assert(!s.contains(sep)) by {
            assert forall|j: int| 0 <= j < s.len() implies s[j] != sep by {}
        }
    } else {
        let rest = s.skip(i + 1);
        lemma_split_rejoins(rest, sep);
        let head = s.take(i);
        let pieces = split_spec(s, sep);
        assert(pieces == seq![head] + split_spec(rest, sep));
        assert(pieces.drop_first() =~= split_spec(rest, sep));
        assert(!head.contains(sep)) by {
            assert forall|j: int| 0 <= j < head.len() implies head[j] != sep by {}
        }
        assert forall|k: int| 0 <= k < pieces.len() implies !(#[trigger] pieces[k]).contains(sep) by {
            if k > 0 {
                assert(pieces[k] == split_spec(rest, sep)[k - 1]);
            }
        }
        assert(head + seq![sep] + rest =~= s);
    }
}

/// Whether `t` parses as a `u16`; see `parses_as_u16`.
pub fn is_valid_u16(t: &str) -> (b: bool)
    ensures
        b == parses_as_u16(t@),
{
    let n = t.unicode_len();
    let mut i: usize = 0;
    if n > 0 && t.get_char(0) == '+' {
        i = 1;
    }
    let ghost d = unsigned_digits(t@);
    if i >= n {
        return false;
    }
    let ghost first = i;
    assert(d =~= t@.skip(first as int));
    let mut acc: u32 = 0;
    assert(d.take(0) =~= Seq::<char>::empty());
    while i < n
        invariant
            n == t@.len(),
            first <= i <= n,
            d == t@.skip(first as int),
            d == unsigned_digits(t@),
            forall|j: int| 0 <= j < i - first ==> is_digit(#[trigger] d[j]),
            acc as nat == if digits_value(d.take(i - first)) < 65536 { digits_value(d.take(i - first)) } else { 65536 },
        decreases n - i,
    {
        let c = t.get_char(i);
        if !('0' <= c && c <= '9') {
            assert(d[i - first] == c);
            assert(!is_digit(d[i - first]));
            return false;
        }
        let ghost pre = d.take(i - first);
        let ghost next = d.take(i - first + 1);
        assert(next.drop_last() =~= pre);
        assert(next.last() == c);
        let digit = (c as u32) - 48;
        let v = acc * 10 + digit;
        acc = if v > 65536 { 65536 } else { v };
        assert(digits_value(next) == digits_value(pre) * 10 + digit as nat);
        i = i + 1;
    }
    assert(d.take(n - first) =~= d);
    acc <= 65535
}


/// The text after the last `c` in `s` (all of `s` when there is none), as
/// `s.rsplit(c).next()` gives it.
pub open spec fn after_last(s: Seq<char>, c: char) -> Seq<char>
    decreases s.len(),
{
    if s.len() == 0 {
        s
    } else if s.last() == c {
        Seq::empty()
    } else {
        after_last(s.drop_last(), c).push(s.last())
    }
}

/// The text after the last `c` in `s`; see `after_last`.
pub fn after_last_char(s: &str, c: char) -> (r: &str)
    ensures
        r@ == after_last(s@, c),
{
    let n = s.unicode_len();
    let mut i: usize = n;
    assert(s@.subrange(0, n as int) =~= s@);
    assert(s@.subrange(n as int, n as int) =~= Seq::<char>::empty());
    while i > 0 && s.get_char(i - 1) != c
        invariant
            n == s@.len(),
            i <= n,
            after_last(s@, c) == after_last(s@.subrange(0, i as int), c) + s@.subrange(i as int, n as int),
        decreases i,
    {
        let ghost pre = s@.subrange(0, i as int);
        assert(pre.last() == s@[i - 1]);
        assert(pre.drop_last() =~= s@.subrange(0, i - 1));
        assert(s@.subrange(i - 1, n as int) =~= seq![s@[i - 1]] + s@.subrange(i as int, n as int));
        assert(after_last(pre, c) == after_last(s@.subrange(0, i - 1), c).push(s@[i - 1]));
        assert(after_last(s@.subrange(0, i - 1), c).push(s@[i - 1]) + s@.subrange(i as int, n as int)
            =~= after_last(s@.subrange(0, i - 1), c) + s@.subrange(i - 1, n as int));
        i = i - 1;
    }
    proof {
        let pre = s@.subrange(0, i as int);
        if i > 0 {
            assert(pre.last() == s@[i - 1]);
        }
        assert(after_last(pre, c) =~= Seq::<char>::empty());
        assert(after_last(s@, c) =~= s@.subrange(i as int, n as int));
    }
    s.substring_char(i, n)
}


/// The character of a digit below 16: '0'..'9', then 'a'..'f'.
pub open spec fn digit_char(d: nat) -> char {
    if d < 10 { (48 + d) as char } else { (87 + d) as char }
}

/// The one-character text of a digit below 16 (lower-case hexadecimal).
pub fn digit_str(d: u32) -> (s: &'static str)
    requires
        d < 16,
    ensures
        s@ == seq![digit_char(d as nat)],
{
    if d == 0 {
        proof { reveal_strlit("0"); }
        "0"
    } else if d == 1 {
        proof { reveal_strlit("1"); }
        "1"
    } else if d == 2 {
        proof { reveal_strlit("2"); }
        "2"
    } else if d == 3 {
        proof { reveal_strlit("3"); }
        "3"
    } else if d == 4 {
        proof { reveal_strlit("4"); }
        "4"
    } else if d == 5 {
        proof { reveal_strlit("5"); }
        "5"
    } else if d == 6 {
        proof { reveal_strlit("6"); }
        "6"
    } else if d == 7 {
        proof { reveal_strlit("7"); }
        "7"
    } else if d == 8 {
        proof { reveal_strlit("8"); }
        "8"
    } else if d == 9 {
        proof { reveal_strlit("9"); }
        "9"
    } else if d == 10 {
        proof { reveal_strlit("a"); }
        "a"
    } else if d == 11 {
        proof { reveal_strlit("b"); }
        "b"
    } else if d == 12 {
        proof { reveal_strlit("c"); }
        "c"
    } else if d == 13 {
        proof { reveal_strlit("d"); }
        "d"
    } else if d == 14 {
        proof { reveal_strlit("e"); }
        "e"
    } else {
        proof { reveal_strlit("f"); }
        "f"
    }
}


/// The digit characters, in explicit terms: digit `d` below 16 is character
/// number `d` of "0123456789abcdef".
pub proof fn lemma_digit_chars(d: nat)
    requires
        d < 16,
    ensures
        digit_char(d) == "0123456789abcdef"@[d as int],
{
    reveal_strlit("0123456789abcdef");
    assert(digit_char(0) == "0123456789abcdef"@[0]);
    assert(digit_char(1) == "0123456789abcdef"@[1]);
    assert(digit_char(2) == "0123456789abcdef"@[2]);
    assert(digit_char(3) == "0123456789abcdef"@[3]);
    assert(digit_char(4) == "0123456789abcdef"@[4]);
    assert(digit_char(5) == "0123456789abcdef"@[5]);
    assert(digit_char(6) == "0123456789abcdef"@[6]);
    assert(digit_char(7) == "0123456789abcdef"@[7]);
    assert(digit_char(8) == "0123456789abcdef"@[8]);
    assert(digit_char(9) == "0123456789abcdef"@[9]);
    assert(digit_char(10) == "0123456789abcdef"@[10]);
    assert(digit_char(11) == "0123456789abcdef"@[11]);
    assert(digit_char(12) == "0123456789abcdef"@[12]);
    assert(digit_char(13) == "0123456789abcdef"@[13]);
    assert(digit_char(14) == "0123456789abcdef"@[14]);
    assert(digit_char(15) == "0123456789abcdef"@[15]);
}

} // verus!
