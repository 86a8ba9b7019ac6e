//! The frame format byte by byte, and what a search through damaged bytes finds.
use super::frame::{
    body, crc32, decoded, frame, frame_ok, header_len, le_bytes, le_value, lemma_frame, magic_at,
    WireError,
};
use super::reader::{may_follow, next_magic, scan, stepped, Found, Progress, ReaderView};
use vstd::prelude::*;

verus! {

/// A frame, byte by byte: the magic, the version, the length, the checksum of
/// version, length and payload, and the payload.
pub proof fn law_frame_layout(payload: Seq<u8>)
    requires
        payload.len() <= 16_777_216,
    ensures
        frame(payload).len() == 13 + payload.len(),
        frame(payload).take(4) == seq![87u8, 65u8, 76u8, 49u8],
        frame(payload)[4] == 1,
        frame(payload)[5] + 256 * frame(payload)[6] + 65_536 * frame(payload)[7] + 16_777_216
            * frame(payload)[8] == payload.len(),
        frame(payload)[9] + 256 * frame(payload)[10] + 65_536 * frame(payload)[11] + 16_777_216
            * frame(payload)[12] == crc32(frame(payload).subrange(4, 9) + payload),
        frame(payload).skip(13) == payload,
{
    let f = frame(payload);
    lemma_frame(payload, Seq::empty());
    assert(f + Seq::<u8>::empty() =~= f);
    assert(f.skip(13) =~= payload);
    assert(f.subrange(4, 9) =~= seq![1u8] + le_bytes(payload.len() as int));
    assert(f.subrange(5, 9) =~= le_bytes(payload.len() as int));
    let c = crc32(f.subrange(4, 9) + payload) as int;
    assert(f.subrange(9, 13) =~= le_bytes(c));
    super::frame::law_le_round_trip(payload.len() as int);
    super::frame::law_le_round_trip(c);
    assert(f[5] == f.subrange(5, 9)[0] && f[6] == f.subrange(5, 9)[1] && f[7] == f.subrange(
        5,
        9,
    )[2] && f[8] == f.subrange(5, 9)[3]);
    assert(f[9] == f.subrange(9, 13)[0] && f[10] == f.subrange(9, 13)[1] && f[11] == f.subrange(
        9,
        13,
    )[2] && f[12] == f.subrange(9, 13)[3]);
}

/// The number four bytes spell, least significant first.
pub open spec fn word(b: Seq<u8>, at: int) -> int {
    b[at] + 256 * b[at + 1] + 65_536 * b[at + 2] + 16_777_216 * b[at + 3]
}

/// What is wrong with the bytes at the front is told in the order of the header:
/// a header that is not there whole, a wrong magic, another version, an absurd
/// length, a payload that is not there whole, a wrong checksum. What is without
/// fault is the payload.
pub proof fn law_decoding_by_the_bytes(b: Seq<u8>, r: Result<(Vec<u8>, usize), WireError>)
    requires
        decoded(b, r),
    ensures
        b.len() < 13 ==> r matches Err(WireError::InsufficientData),
        b.len() >= 13 && b.take(4) != seq![87u8, 65u8, 76u8, 49u8] ==> (r matches Err(
            WireError::BadMagic { offset },
        ) && offset == 0),
        b.len() >= 13 && b.take(4) == seq![87u8, 65u8, 76u8, 49u8] && b[4] != 1 ==> (r matches Err(
            WireError::BadVersion(v),
        ) && v == b[4]),
        b.len() >= 13 && b.take(4) == seq![87u8, 65u8, 76u8, 49u8] && b[4] == 1 ==> (if word(b, 5)
            > 16_777_216 {
            r matches Err(WireError::FrameTooLarge { len }) && len == word(b, 5)
        } else if b.len() < 13 + word(b, 5) {
            r matches Err(WireError::InsufficientData)
        } else if crc32(b.subrange(4, 9) + b.subrange(13, 13 + word(b, 5))) != word(b, 9) {
            r matches Err(WireError::BadCrc)
        } else {
            r matches Ok((p, n)) && p@ == b.subrange(13, 13 + word(b, 5)) && n == 13 + word(b, 5)
        }),
{
    if b.len() >= 13 {
        assert(b.take(4) =~= b.subrange(0, 4));
        assert(header_len(b) == word(b, 5));
        assert(le_value(b.subrange(9, 13)) == word(b, 9));
    }
}

proof fn lemma_no_magic_until(b: Seq<u8>, from: int, k: int)
    requires
        0 <= from <= k < next_magic(b, from),
    ensures
        !magic_at(b, k),
    decreases b.len() - from,
{
    if from + 4 <= b.len() && !magic_at(b, from) && k > from {
        lemma_no_magic_until(b, from + 1, k);
    }
}

proof fn lemma_next_magic_bounds(b: Seq<u8>, from: int)
    requires
        0 <= from <= b.len(),
    ensures
        from <= next_magic(b, from) <= b.len(),
    decreases b.len() - from,
{
    if from + 4 <= b.len() && !magic_at(b, from) {
        lemma_next_magic_bounds(b, from + 1);
    }
}

proof fn lemma_magic_moves(b: Seq<u8>, m: int, k: int)
    requires
        0 <= m <= b.len(),
        0 <= k,
    ensures
        magic_at(b.skip(m), k) == magic_at(b, m + k),
{
    if k + 4 <= b.skip(m).len() {
        assert(b.skip(m).subrange(k, k + 4) =~= b.subrange(m + k, m + k + 4));
    }
}

/// No intact frame begins at the position.
pub open spec fn nothing_at(b: Seq<u8>, j: int) -> bool {
    !frame_ok(b.skip(j))
}

proof fn lemma_found_behind(b: Seq<u8>, m: int, in_resync: bool)
    requires
        0 < m <= b.len(),
        !frame_ok(b),
        forall|k: int| 0 < k < m ==> !magic_at(b, k),
        scan(b, in_resync).found == scan(b.skip(m), true).found,
        scan(b, in_resync).rest == scan(b.skip(m), true).rest,
        scan(b, in_resync).skipped == scan(b.skip(m), true).skipped + m,
        scan(b.skip(m), true).found is Frame ==> ({
            let t = scan(b.skip(m), true);
            let c = b.skip(m).skip(t.skipped as int);
            &&& t.skipped <= b.skip(m).len()
            &&& frame_ok(c)
            &&& t.found == Found::Frame(body(c))
            &&& t.rest == c.skip(13 + header_len(c))
            &&& forall|j: int| 0 <= j < t.skipped ==> nothing_at(b.skip(m), j)
        }),
    ensures
        scan(b, in_resync).found is Frame ==> ({
            let s = scan(b, in_resync);
            let c = b.skip(s.skipped as int);
            &&& s.skipped <= b.len()
            &&& frame_ok(c)
            &&& s.found == Found::Frame(body(c))
            &&& s.rest == c.skip(13 + header_len(c))
            &&& forall|j: int| 0 <= j < s.skipped ==> nothing_at(b, j)
        }),
{
    if scan(b, in_resync).found is Frame {
        let t = scan(b.skip(m), true);
        assert(b.skip(m).skip(t.skipped as int) =~= b.skip(m + t.skipped));
        assert forall|j: int| 0 <= j < t.skipped + m implies nothing_at(b, j) by {
            if j == 0 {
                assert(b.skip(0) =~= b);
            } else if j < m {
                lemma_magic_moves(b, j, 0);
            } else {
                assert(nothing_at(b.skip(m), j - m));
                assert(b.skip(m).skip(j - m) =~= b.skip(j));
            }
        }
    }
}

/// The frame a search finds is the first intact one: it stands where the skipped
/// bytes end, no intact frame begins before it, and what is left begins right
/// behind it.
pub proof fn law_found_frame_is_the_first_intact_one(b: Seq<u8>, in_resync: bool)
    ensures
        scan(b, in_resync).found is Frame ==> ({
            let s = scan(b, in_resync);
            let c = b.skip(s.skipped as int);
            &&& s.skipped <= b.len()
            &&& frame_ok(c)
            &&& s.found == Found::Frame(body(c))
            &&& s.rest == c.skip(13 + header_len(c))
            &&& forall|j: int| 0 <= j < s.skipped ==> nothing_at(b, j)
        }),
    decreases b.len(),
{
    if b.len() < 13 {
    } else if !magic_at(b, 0) {
        let m = next_magic(b, 1);
        lemma_next_magic_bounds(b, 1);
        assert forall|k: int| 0 < k < m implies !magic_at(b, k) by {
            lemma_no_magic_until(b, 1, k);
        }
        law_found_frame_is_the_first_intact_one(b.skip(m), true);
        lemma_found_behind(b, m, in_resync);
    } else if frame_ok(b) {
        assert(b.skip(0) =~= b);
    } else {
        law_found_frame_is_the_first_intact_one(b.skip(1), true);
        if scan(b, in_resync).found is Frame {
            lemma_found_behind(b, 1, in_resync);
        }
    }
}

/// Inside a search nothing is fatal and nothing counts as cut off: bytes that
/// happen to spell a magic are passed. One stretch of damage is one search.
pub proof fn law_search_takes_nothing_at_its_word(b: Seq<u8>)
    ensures
        !(scan(b, true).found is Version),
        !scan(b, true).truncated,
        scan(b, true).resyncs == 0,
        scan(b, false).resyncs <= 1,
        scan(b, false).resyncs == 1 ==> !scan(b, false).truncated && !(scan(b, false).found is Version),
    decreases b.len(),
{
    if b.len() >= 13 {
        if !magic_at(b, 0) {
            lemma_next_magic_bounds(b, 1);
            law_search_takes_nothing_at_its_word(b.skip(next_magic(b, 1)));
        } else if !frame_ok(b) {
            law_search_takes_nothing_at_its_word(b.skip(1));
        }
    }
}

/// Looking for a frame counts none: a frame is counted once it is settled. A frame
/// that is handed out, and the end, cost the bytes that were passed before them;
/// with nothing passed the counters stand still.
pub proof fn law_looking_counts_no_frame(
    o: ReaderView,
    n: ReaderView,
    r: Result<Progress, WireError>,
)
    requires
        stepped(o, n, r),
    ensures
        n.stats.frames_ok == o.stats.frames_ok,
        n.stats.undecodable_frames == o.stats.undecodable_frames,
        n.stats.skipped_bytes >= o.stats.skipped_bytes,
        n.stats.resyncs >= o.stats.resyncs,
        o.stats.truncated_tail ==> n.stats.truncated_tail,
        r matches Ok(Progress::Frame(p)) ==> o.unread.len() == (n.stats.skipped_bytes
            - o.stats.skipped_bytes) + 13 + p@.len() + n.unread.len(),
        r matches Ok(Progress::End) ==> o.unread.len() == n.stats.skipped_bytes
            - o.stats.skipped_bytes,
{
    let none = Seq::<u8>::empty();
    assert(may_follow(o, none));
    assert(o.unread + none =~= o.unread);
    assert(n.unread + none =~= n.unread);
    super::reader::law_every_byte_is_accounted_for(o.unread, o.in_resync);
}

/// More bytes are asked for only where those at hand do not make a frame: less
/// than a header, or less than the header announces.
pub proof fn law_whole_frames_are_not_held_back(
    o: ReaderView,
    n: ReaderView,
    r: Result<Progress, WireError>,
)
    requires
        stepped(o, n, r),
        r matches Ok(Progress::NeedBytes),
    ensures
        !o.ended,
        !frame_ok(n.unread),
        n.unread.len() < 13 || n.unread.len() < 13 + word(n.unread, 5),
{
    if n.unread.len() >= 13 {
        assert(header_len(n.unread) == word(n.unread, 5));
    }
}

} // verus!
