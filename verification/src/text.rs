//! Text as sequences of characters: decimal numerals, ordering, searching and
//! the few std string functions the rest of the library leans on.
pub mod laws;

use vstd::prelude::*;
use vstd::string::*;

verus! {

// ---------------------------------------------------------------------------
// Numerals
// ---------------------------------------------------------------------------

/// The character of the decimal digit `d`.
pub open spec fn digit_char(d: int) -> char {
    (48 + d) as char
}

pub open spec fn is_digit(c: char) -> bool {
    '0' <= c && c <= '9'
}

/// The shortest decimal numeral of `n`.
pub open spec fn dec(n: nat) -> Seq<char>
    decreases n,
{
    if n < 10 {
        seq![digit_char(n as int)]
    } else {
        dec(n / 10).push(digit_char((n % 10) as int))
    }
}

/// `k` zero characters.
pub open spec fn zeros(k: nat) -> Seq<char> {
    Seq::new(k, |i: int| '0')
}

/// The numeral of `n`, padded on the left with zeros to at least `width`.
pub open spec fn padded(n: nat, width: nat) -> Seq<char> {
    if dec(n).len() < width {
        zeros((width - dec(n).len()) as nat) + dec(n)
    } else {
        dec(n)
    }
}

pub open spec fn all_digits(s: Seq<char>) -> bool {
    forall|i: int| 0 <= i < s.len() ==> is_digit(#[trigger] s[i])
}

/// The number a digit string denotes.
pub open spec fn digits_value(s: Seq<char>) -> nat
    decreases s.len(),
{
    if s.len() == 0 {
        0
    } else {
        digits_value(s.drop_last()) * 10 + ((s.last() as nat) - 48) as nat
    }
}

/// What an unsigned integer parse accepts: an optional `+`, then one or more
/// digits whose value does not exceed `max`.
pub open spec fn parse_uint(s: Seq<char>, max: nat) -> Option<nat> {
    let body = if s.len() > 0 && s[0] == '+' {
        s.drop_first()
    } else {
        s
    };
    if body.len() > 0 && all_digits(body) && digits_value(body) <= max {
        Some(digits_value(body))
    } else {
        None
    }
}

proof fn lemma_digits_monotone(s: Seq<char>, k: int)
    requires
        0 <= k <= s.len(),
        all_digits(s),
    ensures
        digits_value(s.take(k)) <= digits_value(s),
    decreases s.len() - k,
{
    if k == s.len() {
        assert(s.take(k) =~= s);
    } else {
        lemma_digits_monotone(s, k + 1);
        assert(s.take(k + 1).drop_last() =~= s.take(k));
        assert(is_digit(s[k]));
    }
}

/// Every numeral is non-empty, all digits, and denotes its number.
pub proof fn lemma_dec(n: nat)
    ensures
        dec(n).len() >= 1,
        all_digits(dec(n)),
        digits_value(dec(n)) == n,
    decreases n,
{
    if n < 10 {
        let s = dec(n);
        assert(s.drop_last() =~= Seq::<char>::empty());
        assert(digits_value(s.drop_last()) == 0);
    } else {
        lemma_dec(n / 10);
        let s = dec(n);
        assert(s.drop_last() =~= dec(n / 10));
    }
}

proof fn lemma_leading_zeros(k: nat, s: Seq<char>)
    requires
        all_digits(s),
    ensures
        all_digits(zeros(k) + s),
        digits_value(zeros(k) + s) == digits_value(s),
    decreases s.len(), k,
{
    let z = zeros(k) + s;
    if s.len() > 0 {
        assert(z.drop_last() =~= zeros(k) + s.drop_last());
        assert(all_digits(s.drop_last()));
        lemma_leading_zeros(k, s.drop_last());
    } else if k > 0 {
        assert(z.drop_last() =~= zeros((k - 1) as nat) + s);
        lemma_leading_zeros((k - 1) as nat, s);
    } else {
        assert(z =~= s);
    }
}

/// A padded numeral is non-empty, all digits, and denotes its number.
pub proof fn lemma_padded(n: nat, width: nat)
    ensures
        padded(n, width).len() >= 1,
        padded(n, width).len() >= width,
        all_digits(padded(n, width)),
        digits_value(padded(n, width)) == n,
{
    lemma_dec(n);
    if dec(n).len() < width {
        lemma_leading_zeros((width - dec(n).len()) as nat, dec(n));
    }
}

/// Reading a padded numeral gives its number back.
pub proof fn law_padded_parses(n: nat, width: nat, max: nat)
    requires
        n <= max,
    ensures
        parse_uint(padded(n, width), max) == Some(n),
{
    lemma_padded(n, width);
    assert(is_digit(padded(n, width)[0]));
}

/// Reading a numeral gives its number back.
pub proof fn law_dec_parses(n: nat, max: nat)
    requires
        n <= max,
    ensures
        parse_uint(dec(n), max) == Some(n),
{
    lemma_dec(n);
    assert(is_digit(dec(n)[0]));
}

/// std's `String::push`: the character goes to the end.
pub assume_specification[ String::push ](s: &mut String, c: char)
    ensures
        final(s)@ == old(s)@.push(c),
;

/// Append the decimal numeral of `n`.
pub fn push_u64(s: &mut String, n: u64)
    ensures
        final(s)@ == old(s)@ + dec(n as nat),
    decreases n,
{
    if n >= 10 {
        push_u64(s, n / 10);
    }
    let d: u8 = (n % 10) as u8;
    s.push((48 + d) as char);
    proof {
        if n < 10 {
            assert(old(s)@.push(digit_char(d as int)) =~= old(s)@ + dec(n as nat));
        } else {
            assert(s@ =~= old(s)@ + dec(n as nat));
        }
    }
}

/// The decimal numeral of `n`.
pub fn u64_text(n: u64) -> (r: String)
    ensures
        r@ == dec(n as nat),
{
    let mut s: String = String::new();
    push_u64(&mut s, n);
    assert(s@ =~= dec(n as nat));
    s
}

/// The decimal numeral of an integer, with a sign where it is negative.
pub open spec fn int_text(n: int) -> Seq<char> {
    if n >= 0 {
        dec(n as nat)
    } else {
        "-"@ + dec((-n) as nat)
    }
}

/// The decimal numeral of a signed number.
pub fn i64_text(n: i64) -> (r: String)
    ensures
        r@ == int_text(n as int),
{
    if n >= 0 {
        u64_text(n as u64)
    } else {
        let mut s: String = "-".to_owned();
        let magnitude: u64 = (-(n + 1)) as u64 + 1;
        push_u64(&mut s, magnitude);
        s
    }
}

/// Append the numeral of `n`, zero-padded to at least `width`.
pub fn push_padded(s: &mut String, n: u64, width: usize)
    ensures
        final(s)@ == old(s)@ + padded(n as nat, width as nat),
{
    let digits: String = u64_text(n);
    let len: usize = digits.as_str().unicode_len();
    let mut k: usize = len;
    while k < width
        invariant
            len <= k,
            k <= width || k == len,
            len == dec(n as nat).len(),
            s@ == old(s)@ + zeros((k - len) as nat),
        decreases width - k,
    {
        s.push('0');
        k = k + 1;
        assert(s@ =~= old(s)@ + zeros((k - len) as nat));
    }
    s.append(digits.as_str());
    assert(s@ =~= old(s)@ + padded(n as nat, width as nat));
}

/// Parse an unsigned integer no larger than `max`, as std's integer parsers
/// do: an optional `+`, then one or more ASCII digits.
pub fn parse_bounded(s: &str, max: u64) -> (r: Option<u64>)
    ensures
        match parse_uint(s@, max as nat) {
            Some(v) => r == Some(v as u64),
            None => r.is_none(),
        },
{
    let n: usize = s.unicode_len();
    let mut i: usize = 0;
    if n > 0 && s.get_char(0) == '+' {
        i = 1;
    }
    let ghost body = if s@.len() > 0 && s@[0] == '+' {
        s@.drop_first()
    } else {
        s@
    };
    let ghost start = i as int;
    if i == n {
        return None;
    }
    let mut v: u64 = 0;
    while i < n
        invariant
            n == s@.len(),
            0 <= start <= i <= n,
            body.len() == n - start,
            body.len() > 0,
            body == s@.skip(start),
            body == (if s@.len() > 0 && s@[0] == '+' {
                s@.drop_first()
            } else {
                s@
            }),
            all_digits(body.take(i - start)),
            v == digits_value(body.take(i - start)),
            v <= max,
        decreases n - i,
    {
        let c: char = s.get_char(i);
        let ghost k = i - start;
        assert(body[k] == c);
        if !('0' <= c && c <= '9') {
            assert(!is_digit(body[k]));
            return None;
        }
        let d: u64 = (c as u32 - 48) as u64;
        assert(body.take(k + 1).drop_last() =~= body.take(k));
        assert(digits_value(body.take(k + 1)) == v * 10 + d);
        if d > max || v > (max - d) / 10 {
            proof {
                assert(v * 10 + d > max);
                if all_digits(body) {
                    lemma_digits_monotone(body, k + 1);
                }
            }
            return None;
        }
        v = v * 10 + d;
        i = i + 1;
    }
    assert(body.take(n - start) =~= body);
    Some(v)
}

// ---------------------------------------------------------------------------
// Equality and order
// ---------------------------------------------------------------------------

/// Whether two strings hold the same characters.
pub fn same(a: &str, b: &str) -> (r: bool)
    ensures
        r == (a@ == b@),
{
    let x: String = a.to_owned();
    let y: String = b.to_owned();
    x == y
}

/// Whether two optional strings are both absent or hold the same characters.
pub fn same_opt(a: &Option<String>, b: &Option<String>) -> (r: bool)
    ensures
        r == (opt_view(*a) == opt_view(*b)),
{
    match (a, b) {
        (Some(x), Some(y)) => same(x.as_str(), y.as_str()),
        (None, None) => true,
        _ => false,
    }
}

/// The characters of an optional string.
pub open spec fn opt_view(s: Option<String>) -> Option<Seq<char>> {
    match s {
        Some(t) => Some(t@),
        None => None,
    }
}

/// The characters of each string.
pub open spec fn views(v: Seq<String>) -> Seq<Seq<char>> {
    v.map_values(|s: String| s@)
}

/// Dictionary order by character: `a` comes strictly before `b`.
pub open spec fn lex_lt(a: Seq<char>, b: Seq<char>) -> bool
    decreases a.len(),
{
    if b.len() == 0 {
        false
    } else if a.len() == 0 {
        true
    } else if a[0] != b[0] {
        a[0] < b[0]
    } else {
        lex_lt(a.drop_first(), b.drop_first())
    }
}

pub open spec fn lex_le(a: Seq<char>, b: Seq<char>) -> bool {
    !lex_lt(b, a)
}

/// The order is total: of two different strings one comes first.
pub proof fn law_lex_total(a: Seq<char>, b: Seq<char>)
    ensures
        lex_lt(a, b) || lex_lt(b, a) || a == b,
        !(lex_lt(a, b) && lex_lt(b, a)),
        !lex_lt(a, a),
    decreases a.len(),
{
    if a.len() > 0 {
        law_lex_total(a.drop_first(), a.drop_first());
    }
    if a.len() > 0 && b.len() > 0 && a[0] == b[0] {
        law_lex_total(a.drop_first(), b.drop_first());
        if a.drop_first() == b.drop_first() {
            assert(a =~= seq![a[0]] + a.drop_first());
            assert(b =~= seq![b[0]] + b.drop_first());
        }
    } else if a.len() == 0 && b.len() == 0 {
        assert(a =~= b);
    }
}

/// The order is transitive.
pub proof fn law_lex_transitive(a: Seq<char>, b: Seq<char>, c: Seq<char>)
    requires
        lex_lt(a, b),
        lex_lt(b, c),
    ensures
        lex_lt(a, c),
    decreases a.len(),
{
    if a.len() > 0 && a[0] == b[0] && b[0] == c[0] {
        law_lex_transitive(a.drop_first(), b.drop_first(), c.drop_first());
    }
}

/// Whether `a` comes strictly before `b` in dictionary order.
pub fn before(a: &str, b: &str) -> (r: bool)
    ensures
        r == lex_lt(a@, b@),
{
    let n: usize = a.unicode_len();
    let m: usize = b.unicode_len();
    let mut i: usize = 0;
    assert(a@.skip(0) =~= a@ && b@.skip(0) =~= b@);
    while i < n && i < m
        invariant
            n == a@.len(),
            m == b@.len(),
            i <= n,
            i <= m,
            lex_lt(a@, b@) == lex_lt(a@.skip(i as int), b@.skip(i as int)),
        decreases n - i,
    {
        let c: char = a.get_char(i);
        let d: char = b.get_char(i);
        let ghost p = a@.skip(i as int);
        let ghost q = b@.skip(i as int);
        if c != d {
            return c < d;
        }
        assert(p.drop_first() =~= a@.skip(i + 1));
        assert(q.drop_first() =~= b@.skip(i + 1));
        i = i + 1;
    }
    n <= i && i < m
}

// ---------------------------------------------------------------------------
// Searching
// ---------------------------------------------------------------------------

/// Whether `t` stands in `s` at character `k`.
pub open spec fn occurs_at(s: Seq<char>, t: Seq<char>, k: int) -> bool {
    0 <= k && k + t.len() <= s.len() && s.subrange(k, k + t.len()) == t
}

/// Whether `t` stands somewhere in `s`.
pub open spec fn has_text(s: Seq<char>, t: Seq<char>) -> bool {
    exists|k: int| #[trigger] occurs_at(s, t, k)
}

/// Whether `s` ends in `t`.
pub open spec fn ends_in(s: Seq<char>, t: Seq<char>) -> bool {
    occurs_at(s, t, s.len() - t.len())
}

fn stands_at(s: &str, t: &str, k: usize) -> (r: bool)
    ensures
        r == occurs_at(s@, t@, k as int),
{
    let n: usize = s.unicode_len();
    let m: usize = t.unicode_len();
    if m > n || k > n - m {
        return false;
    }
    let mut j: usize = 0;
    while j < m
        invariant
            n == s@.len(),
            m == t@.len(),
            k + m <= n,
            j <= m,
            forall|i: int| 0 <= i < j ==> s@[k + i] == t@[i],
        decreases m - j,
    {
        if s.get_char(k + j) != t.get_char(j) {
            assert(s@.subrange(k as int, k + m)[j as int] != t@[j as int]);
            return false;
        }
        j = j + 1;
    }
    assert(s@.subrange(k as int, k + m) =~= t@);
    true
}

/// Whether `t` stands somewhere in `s`.
pub fn contains_text(s: &str, t: &str) -> (r: bool)
    ensures
        r == has_text(s@, t@),
{
    let n: usize = s.unicode_len();
    let mut k: usize = 0;
    loop
        invariant
            n == s@.len(),
            k <= n,
            forall|i: int| 0 <= i < k ==> !occurs_at(s@, t@, i),
        decreases n - k,
    {
        if stands_at(s, t, k) {
            return true;
        }
        if k == n {
            assert(forall|i: int| !occurs_at(s@, t@, i));
            return false;
        }
        k = k + 1;
    }
}

/// Whether `s` ends in `t`.
pub fn ends_with_text(s: &str, t: &str) -> (r: bool)
    ensures
        r == ends_in(s@, t@),
{
    let n: usize = s.unicode_len();
    let m: usize = t.unicode_len();
    m <= n && stands_at(s, t, n - m)
}

/// The characters of `s` before its first `c`; all of them where there is none.
pub open spec fn before_first(s: Seq<char>, c: char) -> Seq<char>
    decreases s.len(),
{
    if s.len() == 0 || s[0] == c {
        Seq::empty()
    } else {
        seq![s[0]] + before_first(s.drop_first(), c)
    }
}

/// The characters of `s` after its first `c`.
pub open spec fn after_first(s: Seq<char>, c: char) -> Seq<char> {
    s.skip(before_first(s, c).len() as int + 1)
}

/// A string is split at its first separator whatever stands behind it.
pub proof fn law_split_at_first(a: Seq<char>, c: char, b: Seq<char>)
    requires
        !a.contains(c),
    ensures
        before_first(a + seq![c] + b, c) == a,
        after_first(a + seq![c] + b, c) == b,
    decreases a.len(),
{
    let s = a + seq![c] + b;
    if a.len() == 0 {
        assert(s[0] == c);
        assert(before_first(s, c) =~= a);
    } else {
        assert(a[0] != c) by {
            if a[0] == c {
                assert(a.contains(c));
            }
        }
        assert(s[0] == a[0]);
        let t = a.drop_first();
        assert(s.drop_first() =~= t + seq![c] + b);
        assert(!t.contains(c)) by {
            if t.contains(c) {
                let i = t.index_of(c);
                assert(a[i + 1] == c);
            }
        }
        law_split_at_first(t, c, b);
        assert(before_first(s, c) =~= a);
    }
    assert(after_first(s, c) =~= b);
}

/// The characters `from..to` of a string.
pub fn piece(s: &str, from: usize, to: usize) -> (r: String)
    requires
        from <= to <= s@.len(),
    ensures
        r@ == s@.subrange(from as int, to as int),
{
    let mut r: String = String::new();
    let mut i: usize = from;
    while i < to
        invariant
            from <= i <= to <= s@.len(),
            r@ == s@.subrange(from as int, i as int),
        decreases to - i,
    {
        r.push(s.get_char(i));
        i = i + 1;
        assert(r@ =~= s@.subrange(from as int, i as int));
    }
    r
}

/// Split a string at its first `c`.
pub fn split_first(s: &str, c: char) -> (r: Option<(String, String)>)
    ensures
        match r {
            Some((a, b)) => s@.contains(c) && a@ == before_first(s@, c) && b@ == after_first(
                s@,
                c,
            ),
            None => !s@.contains(c),
        },
{
    let n: usize = s.unicode_len();
    let mut i: usize = 0;
    while i < n
        invariant
            n == s@.len(),
            i <= n,
            forall|j: int| 0 <= j < i ==> s@[j] != c,
        decreases n - i,
    {
        if s.get_char(i) == c {
            let a: String = piece(s, 0, i);
            let b: String = piece(s, i + 1, n);
            proof {
                assert(s@ =~= a@ + seq![c] + b@);
                assert(s@[i as int] == c);
                law_split_at_first(a@, c, b@);
            }
            return Some((a, b));
        }
        i = i + 1;
    }
    None
}

/// Whether `s` begins with `t`.
pub open spec fn begins_with(s: Seq<char>, t: Seq<char>) -> bool {
    occurs_at(s, t, 0)
}

/// Whether `s` begins with `t`.
pub fn begins_with_text(s: &str, t: &str) -> (r: bool)
    ensures
        r == begins_with(s@, t@),
{
    stands_at(s, t, 0)
}

/// The string without `t` at its end, if it ends in `t`.
pub fn strip_tail(s: &str, t: &str) -> (r: Option<String>)
    ensures
        match r {
            Some(x) => ends_in(s@, t@) && x@ == s@.take(s@.len() - t@.len()),
            None => !ends_in(s@, t@),
        },
{
    let n: usize = s.unicode_len();
    let m: usize = t.unicode_len();
    if ends_with_text(s, t) {
        let x: String = piece(s, 0, n - m);
        assert(x@ =~= s@.take(s@.len() - t@.len()));
        Some(x)
    } else {
        None
    }
}

/// How many bytes a character takes in UTF-8.
pub open spec fn utf8_width(c: char) -> nat {
    if (c as u32) < 0x80 {
        1
    } else if (c as u32) < 0x800 {
        2
    } else if (c as u32) < 0x1_0000 {
        3
    } else {
        4
    }
}

/// How many bytes a string takes in UTF-8.
pub open spec fn utf8_len(s: Seq<char>) -> nat
    decreases s.len(),
{
    if s.len() == 0 {
        0
    } else {
        utf8_len(s.drop_last()) + utf8_width(s.last())
    }
}

/// Of the beginnings of `s` that have at least `k` characters, the one that takes
/// `n` bytes.
pub open spec fn bytes_from(s: Seq<char>, n: nat, k: nat) -> Option<Seq<char>>
    decreases s.len() + 1 - k,
{
    if k > s.len() {
        None
    } else if utf8_len(s.take(k as int)) == n {
        Some(s.take(k as int))
    } else {
        bytes_from(s, n, k + 1)
    }
}

/// The first `n` bytes of a string, if that many are there and end with a
/// character.
pub open spec fn first_bytes(s: Seq<char>, n: nat) -> Option<Seq<char>> {
    bytes_from(s, n, 0)
}

proof fn lemma_past(s: Seq<char>, n: nat, k: nat)
    requires
        k <= s.len() ==> utf8_len(s.take(k as int)) > n,
    ensures
        bytes_from(s, n, k) is None,
    decreases s.len() - k,
{
    if k < s.len() {
        lemma_utf8_grows(s, k as int, k as int + 1);
        lemma_past(s, n, k + 1);
    } else if k == s.len() {
        assert(bytes_from(s, n, k + 1) is None);
    }
}

/// The first `n` bytes of a string.
pub fn byte_prefix(s: &str, n: usize) -> (r: Option<String>)
    ensures
        opt_view(r) == first_bytes(s@, n as nat),
{
    let len: usize = s.unicode_len();
    let mut width: usize = 0;
    let mut i: usize = 0;
    assert(utf8_len(s@.take(0)) == 0);
    while i < len && width < n
        invariant
            len == s@.len(),
            i <= len,
            width == utf8_len(s@.take(i as int)),
            width <= n,
            first_bytes(s@, n as nat) == bytes_from(s@, n as nat, i as nat),
        decreases len - i,
    {
        let c: u32 = s.get_char(i) as u32;
        proof {
            assert(s@.take(i + 1).drop_last() =~= s@.take(i as int));
            assert(s@.take(i + 1).last() == s@[i as int]);
        }
        let w: usize = if c < 0x80 {
            1
        } else if c < 0x800 {
            2
        } else if c < 0x1_0000 {
            3
        } else {
            4
        };
        if n - width < w {
            proof {
                lemma_past(s@, n as nat, (i + 1) as nat);
            }
            return None;
        }
        width = width + w;
        i = i + 1;
    }
    if width == n {
        let x: String = piece(s, 0, i);
        assert(x@ =~= s@.take(i as int));
        Some(x)
    } else {
        assert(bytes_from(s@, n as nat, (i + 1) as nat) is None);
        None
    }
}

proof fn lemma_utf8_grows(s: Seq<char>, i: int, k: int)
    requires
        0 <= i <= k <= s.len(),
    ensures
        utf8_len(s.take(i)) <= utf8_len(s.take(k)),
    decreases k - i,
{
    if i < k {
        lemma_utf8_grows(s, i, k - 1);
        assert(s.take(k).drop_last() =~= s.take(k - 1));
    }
}

// ---------------------------------------------------------------------------
// std's Unicode case mappings and its quoted form
// ---------------------------------------------------------------------------

/// What `str::to_lowercase` makes of a string.
pub uninterp spec fn lowercase(s: Seq<char>) -> Seq<char>;

/// What `str::to_uppercase` makes of a string.
pub uninterp spec fn uppercase(s: Seq<char>) -> Seq<char>;

/// What the `{:?}` form of a string is: quoted and escaped.
pub uninterp spec fn quoted(s: Seq<char>) -> Seq<char>;

/// std's `str::to_lowercase`; its Unicode tables are not spelled out here, the
/// result only gets a name.
#[verifier::external_body]
pub(crate) fn to_lower(s: &str) -> (r: String)
    ensures
        r@ == lowercase(s@),
{
    s.to_lowercase()
}

/// std's `str::to_uppercase`; its Unicode tables are not spelled out here, the
/// result only gets a name.
#[verifier::external_body]
pub(crate) fn to_upper(s: &str) -> (r: String)
    ensures
        r@ == uppercase(s@),
{
    s.to_uppercase()
}

/// The `Debug` form of a string, which quotes and escapes it; the escaping
/// rules are not spelled out here, the result only gets a name.
#[verifier::external_body]
pub(crate) fn quote(s: &str) -> (r: String)
    ensures
        r@ == quoted(s@),
{
    format!("{:?}", s)
}

} // verus!
