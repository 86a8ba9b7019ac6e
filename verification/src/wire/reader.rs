//! Streaming, self-healing frame reader.
//!
//! Recovery policy:
//! - wrong magic, wrong checksum or an absurd length starts a search for the
//!   next magic at the following byte: a damaged length never decides how far
//!   to jump, and every candidate is checked in full before it is trusted;
//! - a frame that is intact but whose payload means nothing to the caller is
//!   skipped exactly;
//! - a foreign version byte outside a search is fatal and stays so; inside a
//!   search it only means that payload bytes happened to spell the magic.
//!
//! The reader does no input of its own: bytes are handed to it with `fill`, and
//! `next_frame` says when it needs more of them.
use crate::wire::frame::{
    announced_len, body, crc_ok, frame, frame_ok, header_len, header_ok, intact, is_magic, lemma_frame,
    magic_at, WireError, HEADER_LEN, MAX_FRAME_LEN, WIRE_VERSION,
};
use vstd::prelude::*;
use vstd::slice::slice_subrange;
use vstd::slice::slice_to_vec;

verus! {

#[derive(Debug, Clone, Copy, PartialEq, Eq, Structural)]
pub struct FrameReaderStats {
    /// Frames decoded successfully.
    pub frames_ok: u64,
    /// Bytes discarded while searching for the next magic.
    pub skipped_bytes: u64,
    /// Damaged spots that started a search.
    pub resyncs: u64,
    /// Intact frames whose payload did not decode.
    pub undecodable_frames: u64,
    /// The bytes ended inside a frame, outside a search.
    pub truncated_tail: bool,
}

// ---------------------------------------------------------------------------
// What reading a byte string means
// ---------------------------------------------------------------------------

/// What stands next in a byte string.
pub enum Found {
    /// An intact frame with this payload.
    Frame(Seq<u8>),
    /// Nothing more.
    End,
    /// A frame of another version.
    Version(u8),
}

/// The outcome of looking for the next frame: what was found, what is left
/// behind it, whether the search is still on, and what it cost.
pub struct Scan {
    pub found: Found,
    pub rest: Seq<u8>,
    pub in_resync: bool,
    pub skipped: nat,
    pub resyncs: nat,
    pub truncated: bool,
}

/// The first position at or after `from` where the magic stands, or the end.
pub open spec fn next_magic(b: Seq<u8>, from: int) -> int
    decreases b.len() - from,
{
    if from + 4 > b.len() {
        b.len() as int
    } else if magic_at(b, from) {
        from
    } else {
        next_magic(b, from + 1)
    }
}

/// `s`, reached after dropping `n` more bytes and entering `k` more searches.
pub open spec fn behind(s: Scan, n: nat, k: nat) -> Scan {
    Scan { skipped: s.skipped + n, resyncs: s.resyncs + k, ..s }
}

/// Entering a search counts once until a frame ends it.
pub open spec fn entered(in_resync: bool) -> nat {
    if in_resync {
        0
    } else {
        1
    }
}

/// The next frame of `b`, a complete byte string, with or without a search
/// already going on.
pub open spec fn scan(b: Seq<u8>, in_resync: bool) -> Scan
    decreases b.len(),
    via scan_shrinks
{
    if b.len() < HEADER_LEN {
        Scan {
            found: Found::End,
            rest: Seq::empty(),
            in_resync,
            skipped: b.len(),
            resyncs: 0,
            truncated: b.len() > 0 && !in_resync,
        }
    } else if !magic_at(b, 0) {
        let m = next_magic(b, 1);
        behind(scan(b.skip(m), true), m as nat, entered(in_resync))
    } else if b[4] != WIRE_VERSION {
        if in_resync {
            behind(scan(b.skip(1), true), 1, 0)
        } else {
            Scan {
                found: Found::Version(b[4]),
                rest: b,
                in_resync,
                skipped: 0,
                resyncs: 0,
                truncated: false,
            }
        }
    } else if header_len(b) > MAX_FRAME_LEN {
        behind(scan(b.skip(1), true), 1, entered(in_resync))
    } else if b.len() < HEADER_LEN + header_len(b) {
        if in_resync {
            behind(scan(b.skip(1), true), 1, 0)
        } else {
            Scan {
                found: Found::End,
                rest: Seq::empty(),
                in_resync,
                skipped: b.len(),
                resyncs: 0,
                truncated: true,
            }
        }
    } else if !crc_ok(b) {
        behind(scan(b.skip(1), true), 1, entered(in_resync))
    } else {
        Scan {
            found: Found::Frame(body(b)),
            rest: b.skip(HEADER_LEN + header_len(b)),
            in_resync: false,
            skipped: 0,
            resyncs: 0,
            truncated: false,
        }
    }
}

#[via_fn]
proof fn scan_shrinks(b: Seq<u8>, in_resync: bool) {
    lemma_next_magic(b, 1);
}

proof fn lemma_next_magic(b: Seq<u8>, from: int)
    requires
        0 <= from,
    ensures
        from <= b.len() ==> from <= next_magic(b, from) <= b.len(),
        from > b.len() ==> next_magic(b, from) == b.len(),
        forall|k: int| from <= k < next_magic(b, from) ==> !magic_at(b, k),
        next_magic(b, from) < b.len() ==> magic_at(b, next_magic(b, from)),
    decreases b.len() - from,
{
    if from + 4 <= b.len() && !magic_at(b, from) {
        lemma_next_magic(b, from + 1);
    }
}

proof fn lemma_next_magic_is(b: Seq<u8>, from: int, m: int)
    requires
        0 <= from <= m <= b.len(),
        forall|k: int| from <= k < m ==> !magic_at(b, k),
        m < b.len() ==> magic_at(b, m),
    ensures
        next_magic(b, from) == m,
{
    lemma_next_magic(b, from);
    let n = next_magic(b, from);
    if n < m {
        assert(!magic_at(b, n));
    } else if m < n {
        assert(!magic_at(b, m));
    }
}

/// Where no magic stands before `d`, dropping `d` bytes first changes nothing
/// but the order of the work.
proof fn lemma_scan_drop(b: Seq<u8>, d: int, r: bool)
    requires
        b.len() >= HEADER_LEN,
        1 <= d <= b.len(),
        forall|k: int| 0 <= k < d ==> !magic_at(b, k),
    ensures
        scan(b, r) == behind(scan(b.skip(d), true), d as nat, entered(r)),
{
    let m = next_magic(b, 1);
    lemma_next_magic(b, 1);
    assert(!magic_at(b, 0));
    if m < d {
        assert(!magic_at(b, m));
    }
    let t = b.skip(d);
    let u = b.skip(m);
    assert(u =~= t.skip(m - d));
    assert forall|k: int| 0 <= k implies magic_at(t, k) == magic_at(b, d + k) by {
        if k + 4 <= t.len() {
            assert(t.subrange(k, k + 4) =~= b.subrange(d + k, d + k + 4));
        }
    }
    assert(scan(b, r) == behind(scan(u, true), m as nat, entered(r)));
    if t.len() < HEADER_LEN {
        assert(scan(u, true).found == Found::End);
        assert(scan(t, true) == behind(scan(u, true), (m - d) as nat, 0));
    } else if magic_at(t, 0) {
        assert(magic_at(b, d));
        if d < m {
            assert(!magic_at(b, d));
        }
        assert(u =~= t);
    } else {
        if m < b.len() {
            assert(magic_at(t, m - d));
        }
        if m == d {
            assert(m == b.len());
        } else {
            assert forall|k: int| 1 <= k < m - d implies !magic_at(t, k) by {
                assert(!magic_at(b, d + k));
            }
            lemma_next_magic_is(t, 1, m - d);
            assert(scan(t, true) == behind(scan(u, true), (m - d) as nat, 0));
        }
    }
}

// ---------------------------------------------------------------------------
// The reader
// ---------------------------------------------------------------------------

/// What a reader knows.
pub struct ReaderView {
    /// Bytes handed in and not yet passed.
    pub unread: Seq<u8>,
    /// No more bytes will come.
    pub ended: bool,
    pub in_resync: bool,
    /// The foreign version that ended the reading for good.
    pub fatal: Option<u8>,
    /// A frame was handed out and its verdict is owed.
    pub pending: bool,
    pub stats: FrameReaderStats,
    /// Bytes handed in so far.
    pub fed: nat,
}

pub struct FrameReader {
    buf: Vec<u8>,
    start: usize,
    eof: bool,
    in_resync: bool,
    fatal_version: Option<u8>,
    pending: bool,
    stats: FrameReaderStats,
    fed: u64,
}

/// One step of reading.
#[derive(Debug)]
pub enum Progress {
    /// An intact frame with this payload; `settle` it before going on.
    Frame(Vec<u8>),
    /// The bytes so far do not tell; `fill` and ask again.
    NeedBytes,
    /// End of file.
    End,
}

/// `ext` may still follow what has been handed in.
pub open spec fn may_follow(v: ReaderView, ext: Seq<u8>) -> bool {
    v.ended ==> ext.len() == 0
}

/// The counters after a scan.
pub open spec fn counted(o: FrameReaderStats, s: Scan, n: FrameReaderStats) -> bool {
    &&& n.frames_ok == o.frames_ok
    &&& n.undecodable_frames == o.undecodable_frames
    &&& n.skipped_bytes == o.skipped_bytes + s.skipped
    &&& n.resyncs == o.resyncs + s.resyncs
    &&& n.truncated_tail == (o.truncated_tail || s.truncated)
}

/// The bytes left do not make a frame, for all one can tell before the end.
pub open spec fn too_short(b: Seq<u8>) -> bool {
    b.len() < HEADER_LEN || (header_ok(b) && b.len() < HEADER_LEN + header_len(b))
}

/// The reader has dropped some bytes and found nothing yet: whatever bytes may
/// still follow, going on from here finds what going on from there would have.
pub open spec fn moved_on(o: ReaderView, n: ReaderView) -> bool {
    &&& o.fatal is None && n.fatal is None
    &&& !n.pending
    &&& n.ended == o.ended
    &&& n.fed == o.fed
    &&& n.stats.skipped_bytes >= o.stats.skipped_bytes
    &&& n.stats.resyncs >= o.stats.resyncs
    &&& n.stats == FrameReaderStats {
        skipped_bytes: n.stats.skipped_bytes,
        resyncs: n.stats.resyncs,
        ..o.stats
    }
    &&& forall|ext: Seq<u8>| #[trigger]
        may_follow(o, ext) ==> scan(o.unread + ext, o.in_resync) == behind(
            scan(n.unread + ext, n.in_resync),
            (n.stats.skipped_bytes - o.stats.skipped_bytes) as nat,
            (n.stats.resyncs - o.stats.resyncs) as nat,
        )
}

/// What one step of reading does, whatever bytes may still follow.
pub open spec fn stepped(o: ReaderView, n: ReaderView, r: Result<Progress, WireError>) -> bool {
    &&& n.ended == o.ended
    &&& n.fed == o.fed
    &&& match r {
        Ok(Progress::Frame(p)) => {
            &&& o.fatal is None && n.fatal is None
            &&& n.pending
            &&& !n.in_resync
            &&& forall|ext: Seq<u8>| #[trigger]
                may_follow(o, ext) ==> {
                    let s = scan(o.unread + ext, o.in_resync);
                    s.found == Found::Frame(p@) && s.rest == n.unread + ext && counted(
                        o.stats,
                        s,
                        n.stats,
                    )
                }
        },
        Ok(Progress::NeedBytes) => !o.ended && too_short(n.unread) && moved_on(o, n),
        Ok(Progress::End) => {
            &&& o.fatal is None && n.fatal is None
            &&& !n.pending
            &&& o.ended
            &&& n.unread.len() == 0
            &&& scan(o.unread, o.in_resync).found == Found::End
            &&& n.in_resync == scan(o.unread, o.in_resync).in_resync
            &&& counted(o.stats, scan(o.unread, o.in_resync), n.stats)
        },
        Err(e) => {
            &&& !n.pending
            &&& match o.fatal {
                Some(v) => e == WireError::BadVersion(v) && n == o,
                None => {
                    &&& n.fatal matches Some(v)
                    &&& e == WireError::BadVersion(v)
                    &&& forall|ext: Seq<u8>| #[trigger]
                        may_follow(o, ext) ==> {
                            let s = scan(o.unread + ext, o.in_resync);
                            s.found == Found::Version(v) && s.rest == n.unread + ext && counted(
                                o.stats,
                                s,
                                n.stats,
                            )
                        }
                },
            }
        },
    }
}

impl View for FrameReader {
    type V = ReaderView;

    closed spec fn view(&self) -> ReaderView {
        ReaderView {
            unread: self.buf@.skip(self.start as int),
            ended: self.eof,
            in_resync: self.in_resync,
            fatal: self.fatal_version,
            pending: self.pending,
            stats: self.stats,
            fed: self.fed as nat,
        }
    }
}

impl FrameReader {
    /// Every byte handed in is skipped, part of a frame, or still unread, and a
    /// search always costs a byte.
    pub closed spec fn wf(self) -> bool {
        &&& self.start <= self.buf@.len()
        &&& self.stats.resyncs <= self.stats.skipped_bytes
        &&& self.stats.skipped_bytes + HEADER_LEN * (self.stats.frames_ok
            + self.stats.undecodable_frames + (if self.pending {
            1int
        } else {
            0
        })) + (self.buf@.len() - self.start) <= self.fed
    }

    pub fn new() -> (r: FrameReader)
        ensures
            r.wf(),
            r@.unread.len() == 0,
            !r@.ended && !r@.in_resync && !r@.pending,
            r@.fatal is None,
            r@.fed == 0,
            r@.stats == (FrameReaderStats {
                frames_ok: 0,
                skipped_bytes: 0,
                resyncs: 0,
                undecodable_frames: 0,
                truncated_tail: false,
            }),
    {
        FrameReader {
            buf: Vec::new(),
            start: 0,
            eof: false,
            in_resync: false,
            fatal_version: None,
            pending: false,
            stats: FrameReaderStats {
                frames_ok: 0,
                skipped_bytes: 0,
                resyncs: 0,
                undecodable_frames: 0,
                truncated_tail: false,
            },
            fed: 0,
        }
    }

    pub fn stats(&self) -> (r: &FrameReaderStats)
        ensures
            *r == self@.stats,
    {
        &self.stats
    }

    /// Hand in the next bytes of the file; an empty chunk says that there are
    /// none.
    pub fn fill(&mut self, chunk: &[u8])
        requires
            old(self).wf(),
            !old(self)@.ended,
            old(self)@.fed + chunk@.len() <= u64::MAX,
        ensures
            final(self).wf(),
            final(self)@ == (ReaderView {
                unread: old(self)@.unread + chunk@,
                ended: chunk@.len() == 0,
                fed: old(self)@.fed + chunk@.len(),
                ..old(self)@
            }),
    {
        if self.start > 0 {
            self.buf = slice_to_vec(
                slice_subrange(self.buf.as_slice(), self.start, self.buf.len()),
            );
            self.start = 0;
        }
        if chunk.len() == 0 {
            self.eof = true;
        } else {
            let mut more: Vec<u8> = slice_to_vec(chunk);
            self.buf.append(&mut more);
            self.fed = self.fed + chunk.len() as u64;
        }
        assert(self@.unread =~= old(self)@.unread + chunk@);
    }

    fn enter_resync(&mut self)
        requires
            old(self).stats.resyncs < u64::MAX,
        ensures
            *final(self) == (FrameReader {
                in_resync: true,
                stats: FrameReaderStats {
                    resyncs: (old(self).stats.resyncs + entered(old(self).in_resync)) as u64,
                    ..old(self).stats
                },
                ..*old(self)
            }),
    {
        if !self.in_resync {
            self.in_resync = true;
            self.stats.resyncs = self.stats.resyncs + 1;
        }
    }

    /// Discard `n` bytes as unrecoverable.
    fn skip(&mut self, n: usize)
        requires
            old(self).start + n <= old(self).buf.len(),
            old(self).stats.skipped_bytes + n <= u64::MAX,
        ensures
            *final(self) == (FrameReader {
                start: (old(self).start + n) as usize,
                stats: FrameReaderStats {
                    skipped_bytes: (old(self).stats.skipped_bytes + n) as u64,
                    ..old(self).stats
                },
                ..*old(self)
            }),
    {
        self.start = self.start + n;
        self.stats.skipped_bytes = self.stats.skipped_bytes + n as u64;
    }

    /// Where the magic next stands in the buffer behind the current byte.
    fn find_magic(&self) -> (r: Option<usize>)
        requires
            self.start + HEADER_LEN <= self.buf@.len(),
        ensures
            match r {
                Some(m) => 1 <= m && magic_at(self@.unread, m as int) && forall|k: int|
                    1 <= k < m ==> !magic_at(self@.unread, k),
                None => forall|k: int| 1 <= k ==> !magic_at(self@.unread, k),
            },
    {
        let b: &[u8] = slice_subrange(self.buf.as_slice(), self.start, self.buf.len());
        assert(b@ =~= self@.unread);
        let mut m: usize = 1;
        while m <= b.len() - 4
            invariant
                1 <= m,
                b@.len() >= HEADER_LEN,
                b@ == self@.unread,
                forall|k: int| 1 <= k < m ==> !magic_at(self@.unread, k),
            decreases b@.len() - m,
        {
            if is_magic(b, m) {
                return Some(m);
            }
            m = m + 1;
        }
        None
    }

    /// One look at the front of the unread bytes. `None`: some were dropped and
    /// it is worth looking again.
    #[verifier::rlimit(60)]
    fn look(&mut self) -> (r: Option<Result<Progress, WireError>>)
        requires
            old(self).wf(),
            !old(self)@.pending,
            old(self)@.fatal is None,
        ensures
            final(self).wf(),
            match r {
                Some(p) => stepped(old(self)@, final(self)@, p),
                None => moved_on(old(self)@, final(self)@) && final(self)@.unread.len() < old(
                    self,
                )@.unread.len(),
            },
    {
        let ghost o = self@;
        let avail: usize = self.buf.len() - self.start;
        if avail < HEADER_LEN {
            if !self.eof {
                return Some(Ok(Progress::NeedBytes));
            }
            assert(o.unread + Seq::<u8>::empty() =~= o.unread);
            if avail > 0 {
                if !self.in_resync {
                    self.stats.truncated_tail = true;
                }
                self.skip(avail);
            }
            return Some(Ok(Progress::End));
        }
        let b: &[u8] = slice_subrange(self.buf.as_slice(), self.start, self.buf.len());
        assert(b@ =~= o.unread);
        if !is_magic(b, 0) {
            let d: usize = match self.find_magic() {
                Some(m) => m,
                None => if self.eof {
                    avail
                } else {
                    // The magic may straddle the next fill.
                    avail - 3
                },
            };
            self.enter_resync();
            self.skip(d);
            proof {
                assert(self@.unread =~= o.unread.skip(d as int));
                assert forall|ext: Seq<u8>| #[trigger] may_follow(o, ext) implies scan(
                    o.unread + ext,
                    o.in_resync,
                ) == behind(scan(self@.unread + ext, true), d as nat, entered(o.in_resync)) by {
                    lemma_dropped(o.unread, ext, d as int, o.in_resync);
                }
            }
            return None;
        }
        proof {
            assert forall|ext: Seq<u8>| #[trigger] may_follow(o, ext) implies same_head(
                o.unread,
                o.unread + ext,
            ) by {
                lemma_same_head(o.unread, ext);
            }
        }
        let version: u8 = b[4];
        if version != WIRE_VERSION {
            if self.in_resync {
                self.skip(1);
                proof {
                    lemma_skipped_one(o, self@);
                }
                return None;
            }
            self.fatal_version = Some(version);
            return Some(Err(WireError::BadVersion(version)));
        }
        let len: usize = announced_len(b);
        if len > MAX_FRAME_LEN {
            self.enter_resync();
            self.skip(1);
            proof {
                lemma_skipped_one(o, self@);
            }
            return None;
        }
        if avail < HEADER_LEN + len {
            if !self.eof {
                return Some(Ok(Progress::NeedBytes));
            }
            assert(o.unread + Seq::<u8>::empty() =~= o.unread);
            if self.in_resync {
                self.skip(1);
                proof {
                    assert forall|ext: Seq<u8>| #[trigger] may_follow(o, ext) implies o.unread + ext
                        == o.unread by {
                        assert(o.unread + ext =~= o.unread);
                    }
                    lemma_skipped_one(o, self@);
                }
                return None;
            }
            self.stats.truncated_tail = true;
            self.skip(avail);
            return Some(Ok(Progress::End));
        }
        proof {
            assert forall|ext: Seq<u8>| #[trigger] may_follow(o, ext) implies same_frame(
                o.unread,
                o.unread + ext,
            ) by {
                lemma_same_frame(o.unread, ext);
            }
        }
        if !intact(b) {
            self.enter_resync();
            self.skip(1);
            proof {
                lemma_skipped_one(o, self@);
            }
            return None;
        }
        let payload: Vec<u8> = slice_to_vec(slice_subrange(b, HEADER_LEN, HEADER_LEN + len));
        self.start = self.start + (HEADER_LEN + len);
        self.in_resync = false;
        self.pending = true;
        proof {
            assert forall|ext: Seq<u8>| #[trigger] may_follow(o, ext) implies ({
                let s = scan(o.unread + ext, o.in_resync);
                s.found == Found::Frame(payload@) && s.rest == self@.unread + ext && counted(
                    o.stats,
                    s,
                    self@.stats,
                )
            }) by {
                assert((o.unread + ext).skip(HEADER_LEN + len) =~= self@.unread + ext);
            }
        }
        Some(Ok(Progress::Frame(payload)))
    }

    /// Look for the next frame, healing past damage.
    pub fn next_frame(&mut self) -> (r: Result<Progress, WireError>)
        requires
            old(self).wf(),
            !old(self)@.pending,
        ensures
            final(self).wf(),
            stepped(old(self)@, final(self)@, r),
    {
        if let Some(v) = self.fatal_version {
            return Err(WireError::BadVersion(v));
        }
        loop
            invariant
                self.wf(),
                moved_on(old(self)@, self@),
            decreases self@.unread.len(),
        {
            let ghost cur = self@;
            match self.look() {
                Some(r) => {
                    proof {
                        lemma_moved_then_stepped(old(self)@, cur, self@, r);
                    }
                    return r;
                },
                None => {
                    proof {
                        lemma_moved_twice(old(self)@, cur, self@);
                    }
                },
            }
        }
    }

    /// The verdict on the frame just handed out: whether its payload meant
    /// something.
    pub fn settle(&mut self, decodes: bool)
        requires
            old(self).wf(),
            old(self)@.pending,
        ensures
            final(self).wf(),
            final(self)@ == (ReaderView {
                pending: false,
                stats: if decodes {
                    FrameReaderStats {
                        frames_ok: (old(self)@.stats.frames_ok + 1) as u64,
                        ..old(self)@.stats
                    }
                } else {
                    FrameReaderStats {
                        undecodable_frames: (old(self)@.stats.undecodable_frames + 1) as u64,
                        ..old(self)@.stats
                    }
                },
                ..old(self)@
            }),
            decodes ==> final(self)@.stats.frames_ok == old(self)@.stats.frames_ok + 1,
            !decodes ==> final(self)@.stats.undecodable_frames
                == old(self)@.stats.undecodable_frames + 1,
    {
        self.pending = false;
        if decodes {
            self.stats.frames_ok = self.stats.frames_ok + 1;
        } else {
            self.stats.undecodable_frames = self.stats.undecodable_frames + 1;
        }
    }
}

/// Dropping one byte where `scan` does so too.
proof fn lemma_skipped_one(o: ReaderView, n: ReaderView)
    requires
        o.unread.len() >= 1,
        n.unread =~= o.unread.skip(1),
        forall|ext: Seq<u8>| #[trigger]
            may_follow(o, ext) ==> scan(o.unread + ext, o.in_resync) == behind(
                scan((o.unread + ext).skip(1), true),
                1,
                entered(o.in_resync),
            ),
    ensures
        forall|ext: Seq<u8>| #[trigger]
            may_follow(o, ext) ==> scan(o.unread + ext, o.in_resync) == behind(
                scan(n.unread + ext, true),
                1,
                entered(o.in_resync),
            ),
{
    assert forall|ext: Seq<u8>| #[trigger] may_follow(o, ext) implies scan(
        o.unread + ext,
        o.in_resync,
    ) == behind(scan(n.unread + ext, true), 1, entered(o.in_resync)) by {
        assert((o.unread + ext).skip(1) =~= n.unread + ext);
    }
}

proof fn lemma_moved_twice(o: ReaderView, c: ReaderView, n: ReaderView)
    requires
        moved_on(o, c),
        moved_on(c, n),
    ensures
        moved_on(o, n),
{
    assert forall|ext: Seq<u8>| #[trigger] may_follow(o, ext) implies scan(
        o.unread + ext,
        o.in_resync,
    ) == behind(
        scan(n.unread + ext, n.in_resync),
        (n.stats.skipped_bytes - o.stats.skipped_bytes) as nat,
        (n.stats.resyncs - o.stats.resyncs) as nat,
    ) by {
        assert(may_follow(c, ext));
    }
}

proof fn lemma_moved_then_stepped(
    o: ReaderView,
    c: ReaderView,
    n: ReaderView,
    r: Result<Progress, WireError>,
)
    requires
        moved_on(o, c),
        stepped(c, n, r),
    ensures
        stepped(o, n, r),
{
    assert(forall|ext: Seq<u8>| may_follow(o, ext) ==> #[trigger] may_follow(c, ext));
    assert(may_follow(o, Seq::<u8>::empty()));
    assert(o.unread + Seq::<u8>::empty() =~= o.unread);
    assert(c.unread + Seq::<u8>::empty() =~= c.unread);
    match r {
        Ok(Progress::Frame(p)) => {
            assert forall|ext: Seq<u8>| #[trigger] may_follow(o, ext) implies ({
                let s = scan(o.unread + ext, o.in_resync);
                s.found == Found::Frame(p@) && s.rest == n.unread + ext && counted(
                    o.stats,
                    s,
                    n.stats,
                )
            }) by {
                assert(may_follow(c, ext));
            }
        },
        Ok(Progress::NeedBytes) => {
            assert(moved_on(c, n));
            lemma_moved_twice(o, c, n);
        },
        Ok(Progress::End) => {},
        Err(e) => {
            let v = n.fatal->Some_0;
            assert forall|ext: Seq<u8>| #[trigger] may_follow(o, ext) implies ({
                let s = scan(o.unread + ext, o.in_resync);
                s.found == Found::Version(v) && s.rest == n.unread + ext && counted(
                    o.stats,
                    s,
                    n.stats,
                )
            }) by {
                assert(may_follow(c, ext));
            }
        },
    }
}

/// The header reads the same in a longer byte string.
spec fn same_head(b: Seq<u8>, c: Seq<u8>) -> bool {
    magic_at(c, 0) == magic_at(b, 0) && c[4] == b[4] && header_len(c) == header_len(b)
}

proof fn lemma_same_head(b: Seq<u8>, ext: Seq<u8>)
    requires
        b.len() >= HEADER_LEN,
    ensures
        same_head(b, b + ext),
{
    assert((b + ext).subrange(0, 4) =~= b.subrange(0, 4));
    assert((b + ext).subrange(5, 9) =~= b.subrange(5, 9));
}

/// A whole frame reads the same in a longer byte string.
spec fn same_frame(b: Seq<u8>, c: Seq<u8>) -> bool {
    body(c) == body(b) && crc_ok(c) == crc_ok(b)
}

proof fn lemma_same_frame(b: Seq<u8>, ext: Seq<u8>)
    requires
        b.len() >= HEADER_LEN,
        0 <= header_len(b),
        b.len() >= HEADER_LEN + header_len(b),
    ensures
        same_frame(b, b + ext),
{
    lemma_same_head(b, ext);
    assert(body(b + ext) =~= body(b));
    assert((b + ext).subrange(4, 9) =~= b.subrange(4, 9));
    assert((b + ext).subrange(9, 13) =~= b.subrange(9, 13));
}

/// `lemma_scan_drop` with more bytes behind.
proof fn lemma_dropped(b: Seq<u8>, ext: Seq<u8>, d: int, r: bool)
    requires
        b.len() >= HEADER_LEN,
        1 <= d <= b.len(),
        d + 3 <= b.len() || ext.len() == 0 || magic_at(b, d),
        forall|k: int| 0 <= k < d ==> !magic_at(b, k),
    ensures
        scan(b + ext, r) == behind(scan(b.skip(d) + ext, true), d as nat, entered(r)),
{
    let c = b + ext;
    assert forall|k: int| 0 <= k < d implies !magic_at(c, k) by {
        assert(!magic_at(b, k));
        if k + 4 <= b.len() {
            assert(c.subrange(k, k + 4) =~= b.subrange(k, k + 4));
        }
    }
    lemma_scan_drop(c, d, r);
    assert(c.skip(d) =~= b.skip(d) + ext);
}

// ---------------------------------------------------------------------------
// Laws
// ---------------------------------------------------------------------------

/// Reading to the end: the payloads of all frames, in order, up to the end or a
/// frame of another version.
pub open spec fn read_all(b: Seq<u8>, in_resync: bool) -> Seq<Seq<u8>>
    decreases b.len(),
    via read_all_shrinks
{
    let s = scan(b, in_resync);
    match s.found {
        Found::Frame(p) => seq![p] + read_all(s.rest, s.in_resync),
        _ => Seq::empty(),
    }
}

#[via_fn]
proof fn read_all_shrinks(b: Seq<u8>, in_resync: bool) {
    law_every_byte_is_accounted_for(b, in_resync);
}

/// The frames around the payloads, one behind the other.
pub open spec fn log(payloads: Seq<Seq<u8>>) -> Seq<u8>
    decreases payloads.len(),
{
    if payloads.len() == 0 {
        Seq::empty()
    } else {
        frame(payloads[0]) + log(payloads.drop_first())
    }
}

/// Every byte is skipped, left over, or part of the frame found; a search is
/// entered at most once per byte skipped.
pub proof fn law_every_byte_is_accounted_for(b: Seq<u8>, in_resync: bool)
    ensures
        ({
            let s = scan(b, in_resync);
            &&& s.resyncs <= s.skipped
            &&& match s.found {
                Found::Frame(p) => b.len() == s.skipped + HEADER_LEN + p.len() + s.rest.len(),
                Found::End => b.len() == s.skipped && s.rest.len() == 0,
                Found::Version(v) => b.len() == s.skipped + s.rest.len(),
            }
        }),
    decreases b.len(),
{
    if b.len() >= HEADER_LEN {
        if !magic_at(b, 0) {
            lemma_next_magic(b, 1);
            law_every_byte_is_accounted_for(b.skip(next_magic(b, 1)), true);
        } else {
            law_every_byte_is_accounted_for(b.skip(1), true);
        }
    }
}

/// An intact frame at the front is found as it is, at no cost, and what follows
/// it is untouched.
pub proof fn law_intact_frame_is_found(payload: Seq<u8>, rest: Seq<u8>, in_resync: bool)
    requires
        payload.len() <= MAX_FRAME_LEN,
    ensures
        scan(frame(payload) + rest, in_resync) == (Scan {
            found: Found::Frame(payload),
            rest,
            in_resync: false,
            skipped: 0,
            resyncs: 0,
            truncated: false,
        }),
{
    lemma_frame(payload, rest);
}

/// What reading to the end costs: the bytes skipped, the searches entered, and
/// whether the end stood inside a frame.
pub struct Cost {
    pub skipped: nat,
    pub resyncs: nat,
    pub truncated: bool,
}

pub open spec fn cost_of(b: Seq<u8>, in_resync: bool) -> Cost
    decreases b.len(),
    via cost_shrinks
{
    let s = scan(b, in_resync);
    match s.found {
        Found::Frame(_) => {
            let c = cost_of(s.rest, s.in_resync);
            Cost {
                skipped: s.skipped + c.skipped,
                resyncs: s.resyncs + c.resyncs,
                truncated: s.truncated || c.truncated,
            }
        },
        _ => Cost { skipped: s.skipped, resyncs: s.resyncs, truncated: s.truncated },
    }
}

#[via_fn]
proof fn cost_shrinks(b: Seq<u8>, in_resync: bool) {
    law_every_byte_is_accounted_for(b, in_resync);
}

/// Payloads that frames can hold.
pub open spec fn all_short(payloads: Seq<Seq<u8>>) -> bool {
    forall|i: int| 0 <= i < payloads.len() ==> (#[trigger] payloads[i]).len() <= MAX_FRAME_LEN
}

/// Intact frames at the front of a file are read, and the reading goes on behind
/// them as if they were not there.
pub proof fn law_frames_before_are_read(payloads: Seq<Seq<u8>>, tail: Seq<u8>)
    requires
        all_short(payloads),
    ensures
        read_all(log(payloads) + tail, false) == payloads + read_all(tail, false),
        cost_of(log(payloads) + tail, false) == cost_of(tail, false),
    decreases payloads.len(),
{
    let b = log(payloads) + tail;
    if payloads.len() == 0 {
        assert(b =~= tail);
        assert(payloads + read_all(tail, false) =~= read_all(tail, false));
    } else {
        let rest = payloads.drop_first();
        law_intact_frame_is_found(payloads[0], log(rest) + tail, false);
        assert(b =~= frame(payloads[0]) + (log(rest) + tail));
        law_frames_before_are_read(rest, tail);
        assert(payloads + read_all(tail, false) =~= seq![payloads[0]] + (rest + read_all(
            tail,
            false,
        )));
    }
}

/// What was written is read back: a log of frames gives its payloads, all of
/// them and in order, at no cost.
pub proof fn law_log_reads_back(payloads: Seq<Seq<u8>>)
    requires
        all_short(payloads),
    ensures
        read_all(log(payloads), false) == payloads,
        cost_of(log(payloads), false) == (Cost { skipped: 0, resyncs: 0, truncated: false }),
{
    let none = Seq::<u8>::empty();
    law_frames_before_are_read(payloads, none);
    assert(log(payloads) + none =~= log(payloads));
    assert(payloads + read_all(none, false) =~= payloads);
}

/// No intact frame begins at any of the first `n` positions.
pub open spec fn broken_until(b: Seq<u8>, n: int) -> bool {
    forall|k: int| 0 <= k < n ==> !frame_ok(#[trigger] b.skip(k))
}

/// What stands at the front is told apart from a frame of another version and
/// from one that is merely cut off by the end of the file.
pub open spec fn plainly_damaged(b: Seq<u8>) -> bool {
    magic_at(b, 0) ==> b[4] == WIRE_VERSION && (header_len(b) > MAX_FRAME_LEN || HEADER_LEN
        + header_len(b) <= b.len())
}

/// Damage at the front begins a search, or goes on with one, and reading goes on
/// at `m`.
proof fn lemma_search_steps(b: Seq<u8>, in_resync: bool) -> (m: int)
    requires
        b.len() >= HEADER_LEN,
        !frame_ok(b),
        !in_resync ==> plainly_damaged(b),
    ensures
        1 <= m <= b.len(),
        forall|k: int| 1 <= k < m ==> !magic_at(b, k),
        scan(b, in_resync) == behind(scan(b.skip(m), true), m as nat, entered(in_resync)),
{
    if magic_at(b, 0) {
        1
    } else {
        lemma_next_magic(b, 1);
        next_magic(b, 1)
    }
}

/// The magic of a frame behind junk, seen from `j`.
proof fn lemma_magic_ahead(junk: Seq<u8>, payload: Seq<u8>, rest: Seq<u8>, j: int)
    requires
        payload.len() <= MAX_FRAME_LEN,
        0 <= j <= junk.len(),
    ensures
        magic_at((junk + frame(payload) + rest).skip(j), junk.len() - j),
        (junk + frame(payload) + rest).skip(j).len() >= junk.len() - j + HEADER_LEN,
{
    let c = (junk + frame(payload) + rest).skip(j);
    let f = frame(payload) + rest;
    let n = junk.len() - j;
    lemma_frame(payload, rest);
    assert(c.subrange(n, n + 4) =~= f.subrange(0, 4));
}

/// A search that comes to `j` goes on to the frame behind the junk.
proof fn lemma_search_heals(junk: Seq<u8>, payload: Seq<u8>, rest: Seq<u8>, j: int)
    requires
        payload.len() <= MAX_FRAME_LEN,
        0 <= j <= junk.len(),
        broken_until(junk + frame(payload) + rest, junk.len() as int),
    ensures
        scan((junk + frame(payload) + rest).skip(j), true) == (Scan {
            found: Found::Frame(payload),
            rest,
            in_resync: false,
            skipped: (junk.len() - j) as nat,
            resyncs: 0,
            truncated: false,
        }),
    decreases junk.len() - j,
{
    let b = junk + frame(payload) + rest;
    if j == junk.len() {
        assert(b.skip(j) =~= frame(payload) + rest);
        law_intact_frame_is_found(payload, rest, true);
    } else {
        let c = b.skip(j);
        lemma_magic_ahead(junk, payload, rest, j);
        let m = lemma_search_steps(c, true);
        assert(c.skip(m) =~= b.skip(j + m));
        lemma_search_heals(junk, payload, rest, j + m);
    }
}

/// Damage costs exactly the damaged bytes. Where junk in which no intact frame
/// begins stands before an intact frame, the junk is skipped, at most one search
/// is entered, and the frame is found: whatever the junk holds, a magic, a length
/// or a checksum that is wrong, and whatever length it announces.
///
/// Outside a search the junk must not pass for a frame of another version, which
/// is fatal, or for one that the end of the file cuts off.
pub proof fn law_reading_heals(
    junk: Seq<u8>,
    payload: Seq<u8>,
    rest: Seq<u8>,
    in_resync: bool,
)
    requires
        junk.len() > 0,
        payload.len() <= MAX_FRAME_LEN,
        broken_until(junk + frame(payload) + rest, junk.len() as int),
        !in_resync ==> plainly_damaged(junk + frame(payload) + rest),
    ensures
        scan(junk + frame(payload) + rest, in_resync) == (Scan {
            found: Found::Frame(payload),
            rest,
            in_resync: false,
            skipped: junk.len(),
            resyncs: entered(in_resync),
            truncated: false,
        }),
{
    let b = junk + frame(payload) + rest;
    assert(b.skip(0) =~= b);
    assert(!frame_ok(b.skip(0)));
    lemma_magic_ahead(junk, payload, rest, 0);
    let m = lemma_search_steps(b, in_resync);
    lemma_search_heals(junk, payload, rest, m);
}

/// A log heals: with junk between its frames in which no intact frame begins,
/// every frame before and behind it is read, and the junk and one search are all
/// it costs.
pub proof fn law_log_heals(before: Seq<Seq<u8>>, junk: Seq<u8>, after: Seq<Seq<u8>>)
    requires
        all_short(before),
        all_short(after),
        junk.len() > 0,
        after.len() > 0,
        broken_until(junk + log(after), junk.len() as int),
        plainly_damaged(junk + log(after)),
    ensures
        read_all(log(before) + junk + log(after), false) == before + after,
        cost_of(log(before) + junk + log(after), false) == (Cost {
            skipped: junk.len(),
            resyncs: 1,
            truncated: false,
        }),
{
    let tail = junk + log(after);
    assert(log(before) + junk + log(after) =~= log(before) + tail);
    law_frames_before_are_read(before, tail);
    lemma_tail_heals(junk, after);
}

proof fn lemma_tail_heals(junk: Seq<u8>, after: Seq<Seq<u8>>)
    requires
        all_short(after),
        junk.len() > 0,
        after.len() > 0,
        broken_until(junk + log(after), junk.len() as int),
        plainly_damaged(junk + log(after)),
    ensures
        read_all(junk + log(after), false) == after,
        cost_of(junk + log(after), false) == (Cost {
            skipped: junk.len(),
            resyncs: 1,
            truncated: false,
        }),
{
    let rest = after.drop_first();
    lemma_first_behind_junk(junk, after);
    law_log_reads_back(rest);
    lemma_one_read(junk + log(after), false, after[0], log(rest), junk.len(), 1);
    assert(seq![after[0]] + rest =~= after);
}

proof fn lemma_first_behind_junk(junk: Seq<u8>, after: Seq<Seq<u8>>)
    requires
        all_short(after),
        junk.len() > 0,
        after.len() > 0,
        broken_until(junk + log(after), junk.len() as int),
        plainly_damaged(junk + log(after)),
    ensures
        scan(junk + log(after), false) == (Scan {
            found: Found::Frame(after[0]),
            rest: log(after.drop_first()),
            in_resync: false,
            skipped: junk.len(),
            resyncs: 1,
            truncated: false,
        }),
{
    let rest = log(after.drop_first());
    lemma_associates(junk, frame(after[0]), rest);
    assert(junk + log(after) == junk + frame(after[0]) + rest);
    law_reading_heals(junk, after[0], rest, false);
}

proof fn lemma_associates(a: Seq<u8>, b: Seq<u8>, c: Seq<u8>)
    ensures
        a + (b + c) == a + b + c,
{
    assert(a + (b + c) =~= a + b + c);
}

/// Reading to the end, from the first frame on.
proof fn lemma_one_read(
    b: Seq<u8>,
    in_resync: bool,
    payload: Seq<u8>,
    rest: Seq<u8>,
    skipped: nat,
    resyncs: nat,
)
    requires
        scan(b, in_resync) == (Scan {
            found: Found::Frame(payload),
            rest,
            in_resync: false,
            skipped,
            resyncs,
            truncated: false,
        }),
    ensures
        read_all(b, in_resync) == seq![payload] + read_all(rest, false),
        cost_of(b, in_resync) == (Cost {
            skipped: skipped + cost_of(rest, false).skipped,
            resyncs: resyncs + cost_of(rest, false).resyncs,
            truncated: cost_of(rest, false).truncated,
        }),
{
}

/// Damage at the end of a log costs none of the frames before it.
pub proof fn law_damaged_tail_loses_no_frame(before: Seq<Seq<u8>>, junk: Seq<u8>)
    requires
        all_short(before),
        broken_until(junk, junk.len() as int),
    ensures
        read_all(log(before) + junk, false) == before,
{
    law_frames_before_are_read(before, junk);
    lemma_nothing_found(junk, false);
    assert(before + read_all(junk, false) =~= before);
}

proof fn lemma_nothing_found(b: Seq<u8>, in_resync: bool)
    requires
        broken_until(b, b.len() as int),
    ensures
        !(scan(b, in_resync).found is Frame),
    decreases b.len(),
{
    if b.len() >= HEADER_LEN {
        lemma_next_magic(b, 1);
        let m = if magic_at(b, 0) {
            1
        } else {
            next_magic(b, 1)
        };
        let c = b.skip(m);
        assert forall|k: int| 0 <= k < c.len() implies !frame_ok(#[trigger] c.skip(k)) by {
            assert(c.skip(k) =~= b.skip(m + k));
        }
        assert(b.skip(0) =~= b);
        assert(!frame_ok(b.skip(0)));
        lemma_nothing_found(c, true);
    }
}

/// A file that ends inside a frame is reported as truncated, and the partial
/// frame is all that is lost.
pub proof fn law_partial_frame_truncates(before: Seq<Seq<u8>>, payload: Seq<u8>, k: int)
    requires
        all_short(before),
        payload.len() <= MAX_FRAME_LEN,
        0 < k < frame(payload).len(),
    ensures
        scan(frame(payload).take(k), false) == (Scan {
            found: Found::End,
            rest: Seq::empty(),
            in_resync: false,
            skipped: k as nat,
            resyncs: 0,
            truncated: true,
        }),
        read_all(log(before) + frame(payload).take(k), false) == before,
        cost_of(log(before) + frame(payload).take(k), false) == (Cost {
            skipped: k as nat,
            resyncs: 0,
            truncated: true,
        }),
{
    lemma_frame(payload, Seq::<u8>::empty());
    let b = frame(payload) + Seq::<u8>::empty();
    assert(b =~= frame(payload));
    let t = frame(payload).take(k);
    if k >= HEADER_LEN {
        assert(t.subrange(0, 4) =~= b.subrange(0, 4));
        assert(t.subrange(5, 9) =~= b.subrange(5, 9));
    }
    law_frames_before_are_read(before, t);
    assert(before + read_all(t, false) =~= before);
}

/// A frame of another version at the front of a file ends the reading, and
/// nothing is skipped past it.
pub proof fn law_foreign_version_is_fatal(b: Seq<u8>)
    requires
        b.len() >= HEADER_LEN,
        magic_at(b, 0),
        b[4] != WIRE_VERSION,
    ensures
        scan(b, false).found == Found::Version(b[4]),
        scan(b, false).rest == b,
        scan(b, false).skipped == 0,
{
}

} // verus!
