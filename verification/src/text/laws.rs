//! What the order of texts and keys is, and what it is to be part of a text.
use super::{
    bytes_from, first_bytes, utf8_len, dec, ends_in, has_text, int_text, law_lex_total, lex_lt, occurs_at,
};
use crate::timed::key_lt;
use vstd::prelude::*;
use vstd::string::*;

verus! {

/// In dictionary order the first character that differs decides, whatever stands
/// behind it.
pub proof fn law_first_difference_decides(
    p: Seq<char>,
    x: char,
    y: char,
    s: Seq<char>,
    t: Seq<char>,
)
    requires
        x != y,
    ensures
        lex_lt(p + seq![x] + s, p + seq![y] + t) <==> x < y,
    decreases p.len(),
{
    let a = p + seq![x] + s;
    let b = p + seq![y] + t;
    if p.len() == 0 {
        assert(a[0] == x && b[0] == y);
    } else {
        assert(a[0] == p[0] && b[0] == p[0]);
        assert(a.drop_first() =~= p.drop_first() + seq![x] + s);
        assert(b.drop_first() =~= p.drop_first() + seq![y] + t);
        law_first_difference_decides(p.drop_first(), x, y, s, t);
    }
}

/// A text comes before every text that it begins.
pub proof fn law_beginnings_come_first(p: Seq<char>, s: Seq<char>)
    requires
        s.len() > 0,
    ensures
        lex_lt(p, p + s),
        !lex_lt(p + s, p),
    decreases p.len(),
{
    let b = p + s;
    if p.len() > 0 {
        assert(b[0] == p[0]);
        assert(b.drop_first() =~= p.drop_first() + s);
        law_beginnings_come_first(p.drop_first(), s);
    }
}

/// A text is found in every text that it is a part of, and only there.
pub proof fn law_parts_are_found(s: Seq<char>, t: Seq<char>, a: Seq<char>, b: Seq<char>)
    ensures
        has_text(a + t + b, t),
        ends_in(a + t, t),
        has_text(s, t) ==> exists|x: Seq<char>, y: Seq<char>| s == #[trigger] (x + t + y),
        ends_in(s, t) ==> s == s.take(s.len() - t.len()) + t,
{
    let n = a.len() as int;
    assert((a + t + b).subrange(n, n + t.len()) =~= t);
    assert(occurs_at(a + t + b, t, n));
    assert((a + t).subrange(n, n + t.len()) =~= t);
    if has_text(s, t) {
        let k = choose|k: int| #[trigger] occurs_at(s, t, k);
        let x = s.take(k);
        let y = s.skip(k + t.len());
        assert(s =~= x + s.subrange(k, k + t.len()) + y);
        assert(s == x + t + y);
    }
    if ends_in(s, t) {
        assert(s =~= s.take(s.len() - t.len()) + s.subrange(s.len() - t.len(), s.len() as int));
    }
}

proof fn lemma_ascii_len(p: Seq<char>)
    requires
        forall|i: int| 0 <= i < p.len() ==> (#[trigger] p[i] as u32) < 0x80,
    ensures
        utf8_len(p) == p.len(),
    decreases p.len(),
{
    if p.len() > 0 {
        let front = p.drop_last();
        assert(forall|i: int| 0 <= i < front.len() ==> #[trigger] front[i] == p[i]);
        assert(p.last() == p[p.len() - 1]);
        lemma_ascii_len(front);
    }
}

proof fn lemma_ascii_bytes_from(p: Seq<char>, s: Seq<char>, k: nat)
    requires
        forall|i: int| 0 <= i < p.len() ==> (#[trigger] p[i] as u32) < 0x80,
        k <= p.len(),
    ensures
        bytes_from(p + s, p.len(), k) == Some(p),
    decreases p.len() - k,
{
    let t = (p + s).take(k as int);
    assert(t =~= p.take(k as int));
    assert(forall|i: int| 0 <= i < t.len() ==> #[trigger] t[i] == p[i]);
    lemma_ascii_len(t);
    if k < p.len() {
        lemma_ascii_bytes_from(p, s, k + 1);
    } else {
        assert(t =~= p);
    }
}

/// Of a text that begins with so many ASCII characters the first bytes are these
/// characters, whatever follows.
pub proof fn law_first_bytes_of_ascii(p: Seq<char>, s: Seq<char>)
    requires
        forall|i: int| 0 <= i < p.len() ==> (#[trigger] p[i] as u32) < 0x80,
    ensures
        first_bytes(p + s, p.len()) == Some(p),
{
    lemma_ascii_bytes_from(p, s, 0);
}

/// A numeral has a sign exactly where the number is negative, and behind it stands
/// the numeral of the same number without one.
pub proof fn law_negative_numbers_are_signed(n: int)
    ensures
        n >= 0 ==> int_text(n) == dec(n as nat),
        n > 0 ==> int_text(-n) == seq!['-'] + int_text(n),
{
    reveal_strlit("-");
    assert("-"@ =~= seq!['-']);
}

/// Of two keys the one of the earlier time comes first; at one time the one of the
/// name that comes first.
pub proof fn law_time_comes_before_name(a: (u64, Seq<char>), b: (u64, Seq<char>))
    ensures
        a.0 < b.0 ==> key_lt(a, b) && !key_lt(b, a),
        a.0 == b.0 ==> (key_lt(a, b) <==> lex_lt(a.1, b.1)),
{
    law_lex_total(a.1, b.1);
}

} // verus!
