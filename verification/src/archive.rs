//! The durable archive: chunk registry, OCR rows, audio-transcript rows, the
//! derived full-text rows and the tag relation.
//!
//! Rows address their media as `(chunk, offset)` into the chunk registry, and
//! `wf` states the referential integrity the store maintains: every row
//! resolves to a real unit of a registered chunk, row sequences are ordered
//! by capture timestamp, every OCR row has exactly one derived full-text row,
//! ids are unique, and chunk paths are distinct.

use vstd::pervasive::VecAdditionalExecFns;
use vstd::prelude::*;

use crate::text::nodup_labels;

verus! {

/// Which media stream a chunk file belongs to.
#[derive(Clone, Copy, PartialEq, Eq, Structural, Debug)]
pub enum StreamKind {
    Video,
    Audio,
}

/// Which kind of content id a tag operation addresses.
#[derive(Clone, Copy, PartialEq, Eq, Structural, Debug)]
pub enum TagContentType {
    Vision,
    Audio,
}

/// Why an archive operation was refused. Each operation's contract says
/// exactly when each variant is returned.
#[derive(Clone, Copy, PartialEq, Eq, Structural, Debug)]
pub enum ArchiveError {
    /// The `(chunk, offset)` address does not resolve to a unit of a
    /// registered chunk of the right stream.
    InvalidChunk,
    /// A chunk with this path is already registered.
    DuplicatePath,
    /// The chunk is not open, so no further unit can be recorded in it.
    ChunkClosed,
    /// The chunk has reached the largest representable unit count.
    ChunkFull,
    /// The row id counter has reached its largest value.
    IdSpaceExhausted,
    /// No row carries the requested content id.
    NotFound,
}

/// One container file holding a contiguous time range of one stream.
pub struct ChunkMeta {
    pub path: String,
    pub stream: StreamKind,
    pub units: u64,
    pub is_open: bool,
    pub opened_at: i64,
}

pub struct ChunkMetaV {
    pub path: Seq<char>,
    pub stream: StreamKind,
    pub units: u64,
    pub is_open: bool,
    pub opened_at: i64,
}

impl DeepView for ChunkMeta {
    type V = ChunkMetaV;

    open spec fn deep_view(&self) -> ChunkMetaV {
        ChunkMetaV {
            path: self.path@,
            stream: self.stream,
            units: self.units,
            is_open: self.is_open,
            opened_at: self.opened_at,
        }
    }
}

/// One recognized-text row of vision origin.
pub struct OcrRow {
    pub frame_id: i64,
    pub text: String,
    pub timestamp: i64,
    pub chunk: usize,
    pub offset_index: u64,
    pub app_name: String,
    pub window_name: String,
    pub tags: Vec<String>,
}

pub struct OcrRowV {
    pub frame_id: i64,
    pub text: Seq<char>,
    pub timestamp: i64,
    pub chunk: int,
    pub offset_index: u64,
    pub app_name: Seq<char>,
    pub window_name: Seq<char>,
    pub tags: Seq<Seq<char>>,
}

impl DeepView for OcrRow {
    type V = OcrRowV;

    open spec fn deep_view(&self) -> OcrRowV {
        OcrRowV {
            frame_id: self.frame_id,
            text: self.text@,
            timestamp: self.timestamp,
            chunk: self.chunk as int,
            offset_index: self.offset_index,
            app_name: self.app_name@,
            window_name: self.window_name@,
            tags: self.tags.deep_view(),
        }
    }
}

/// One transcript row of audio origin.
pub struct AudioRow {
    pub audio_chunk_id: i64,
    pub transcription: String,
    pub timestamp: i64,
    pub chunk: usize,
    pub offset_index: u64,
    pub tags: Vec<String>,
}

pub struct AudioRowV {
    pub audio_chunk_id: i64,
    pub transcription: Seq<char>,
    pub timestamp: i64,
    pub chunk: int,
    pub offset_index: u64,
    pub tags: Seq<Seq<char>>,
}

impl DeepView for AudioRow {
    type V = AudioRowV;

    open spec fn deep_view(&self) -> AudioRowV {
        AudioRowV {
            audio_chunk_id: self.audio_chunk_id,
            transcription: self.transcription@,
            timestamp: self.timestamp,
            chunk: self.chunk as int,
            offset_index: self.offset_index,
            tags: self.tags.deep_view(),
        }
    }
}

/// The denormalized full-text-search row derived from an OCR row.
pub struct FtsRow {
    pub text_id: i64,
    pub frame_id: i64,
    pub matched_text: String,
    pub timestamp: i64,
    pub app_name: String,
    pub window_name: String,
    pub chunk: usize,
    pub offset_index: u64,
    pub tags: Vec<String>,
}

pub struct FtsRowV {
    pub text_id: i64,
    pub frame_id: i64,
    pub matched_text: Seq<char>,
    pub timestamp: i64,
    pub app_name: Seq<char>,
    pub window_name: Seq<char>,
    pub chunk: int,
    pub offset_index: u64,
    pub tags: Seq<Seq<char>>,
}

impl DeepView for FtsRow {
    type V = FtsRowV;

    open spec fn deep_view(&self) -> FtsRowV {
        FtsRowV {
            text_id: self.text_id,
            frame_id: self.frame_id,
            matched_text: self.matched_text@,
            timestamp: self.timestamp,
            app_name: self.app_name@,
            window_name: self.window_name@,
            chunk: self.chunk as int,
            offset_index: self.offset_index,
            tags: self.tags.deep_view(),
        }
    }
}

/// The full-text row an OCR row must be mirrored by.
pub open spec fn fts_of(o: OcrRowV) -> FtsRowV {
    FtsRowV {
        text_id: o.frame_id,
        frame_id: o.frame_id,
        matched_text: o.text,
        timestamp: o.timestamp,
        app_name: o.app_name,
        window_name: o.window_name,
        chunk: o.chunk,
        offset_index: o.offset_index,
        tags: o.tags,
    }
}

/// The archive: the single store all capture loops write and retrieval reads.
pub struct Archive {
    chunks: Vec<ChunkMeta>,
    ocr: Vec<OcrRow>,
    audio: Vec<AudioRow>,
    fts: Vec<FtsRow>,
    next_id: i64,
}

/// The mathematical content of an [`Archive`].
pub struct ArchiveV {
    pub chunks: Seq<ChunkMetaV>,
    pub ocr: Seq<OcrRowV>,
    pub audio: Seq<AudioRowV>,
    pub fts: Seq<FtsRowV>,
    pub next_id: i64,
}

impl View for Archive {
    type V = ArchiveV;

    closed spec fn view(&self) -> ArchiveV {
        ArchiveV {
            chunks: self.chunks.deep_view(),
            ocr: self.ocr.deep_view(),
            audio: self.audio.deep_view(),
            fts: self.fts.deep_view(),
            next_id: self.next_id,
        }
    }
}

/// `(chunk, offset)` resolves to a unit of a registered chunk of `stream`.
pub open spec fn chunk_ref_ok(
    chunks: Seq<ChunkMetaV>,
    chunk: int,
    offset: u64,
    stream: StreamKind,
) -> bool {
    &&& 0 <= chunk < chunks.len()
    &&& chunks[chunk].stream == stream
    &&& offset < chunks[chunk].units
}

pub open spec fn ocr_row_ok(chunks: Seq<ChunkMetaV>, next_id: i64, r: OcrRowV) -> bool {
    &&& chunk_ref_ok(chunks, r.chunk, r.offset_index, StreamKind::Video)
    &&& 1 <= r.frame_id < next_id
    &&& nodup_labels(r.tags)
}

pub open spec fn audio_row_ok(chunks: Seq<ChunkMetaV>, next_id: i64, r: AudioRowV) -> bool {
    &&& chunk_ref_ok(chunks, r.chunk, r.offset_index, StreamKind::Audio)
    &&& 1 <= r.audio_chunk_id < next_id
    &&& nodup_labels(r.tags)
}

/// Rows ordered by capture timestamp (the archive's ordering key).
pub open spec fn ocr_sorted(s: Seq<OcrRowV>) -> bool {
    forall|i: int, j: int|
        0 <= i < j < s.len() ==> #[trigger] s[i].timestamp <= #[trigger] s[j].timestamp
}

pub open spec fn audio_sorted(s: Seq<AudioRowV>) -> bool {
    forall|i: int, j: int|
        0 <= i < j < s.len() ==> #[trigger] s[i].timestamp <= #[trigger] s[j].timestamp
}

/// Referential integrity of the whole store.
pub open spec fn wf_v(a: ArchiveV) -> bool {
    &&& 1 <= a.next_id
    &&& a.ocr.len() + a.audio.len() <= a.next_id - 1
    &&& forall|c: int|
        0 <= c < a.chunks.len() ==> (#[trigger] a.chunks[c]).units <= i64::MAX as u64
    &&& forall|i: int, j: int|
        0 <= i < j < a.chunks.len() ==> (#[trigger] a.chunks[i]).path != (
        #[trigger] a.chunks[j]).path
    &&& forall|i: int| 0 <= i < a.ocr.len() ==> ocr_row_ok(a.chunks, a.next_id, #[trigger] a.ocr[i])
    &&& forall|i: int|
        0 <= i < a.audio.len() ==> audio_row_ok(a.chunks, a.next_id, #[trigger] a.audio[i])
    &&& ocr_sorted(a.ocr)
    &&& audio_sorted(a.audio)
    &&& a.fts.len() == a.ocr.len()
    &&& forall|i: int| 0 <= i < a.ocr.len() ==> #[trigger] a.fts[i] == fts_of(a.ocr[i])
    &&& forall|i: int, j: int|
        0 <= i < j < a.ocr.len() ==> (#[trigger] a.ocr[i]).frame_id != (
        #[trigger] a.ocr[j]).frame_id
    &&& forall|i: int, j: int|
        0 <= i < j < a.audio.len() ==> (#[trigger] a.audio[i]).audio_chunk_id != (
        #[trigger] a.audio[j]).audio_chunk_id
}

/// Stable insert position for a new OCR row captured at `ts`: directly after
/// every row whose timestamp is at most `ts`.
pub open spec fn ocr_ipos(s: Seq<OcrRowV>, ts: i64) -> int
    decreases s.len(),
{
    if s.len() == 0 {
        0
    } else if s.last().timestamp <= ts {
        s.len() as int
    } else {
        ocr_ipos(s.drop_last(), ts)
    }
}

/// Stable insert position for a new audio row captured at `ts`.
pub open spec fn audio_ipos(s: Seq<AudioRowV>, ts: i64) -> int
    decreases s.len(),
{
    if s.len() == 0 {
        0
    } else if s.last().timestamp <= ts {
        s.len() as int
    } else {
        audio_ipos(s.drop_last(), ts)
    }
}

pub proof fn lemma_ocr_ipos(s: Seq<OcrRowV>, ts: i64)
    ensures
        0 <= ocr_ipos(s, ts) <= s.len(),
        forall|k: int| ocr_ipos(s, ts) <= k < s.len() ==> (#[trigger] s[k]).timestamp > ts,
        ocr_sorted(s) ==> forall|k: int|
            0 <= k < ocr_ipos(s, ts) ==> (#[trigger] s[k]).timestamp <= ts,
    decreases s.len(),
{
    if s.len() == 0 {
    } else if s.last().timestamp <= ts {
    } else {
        lemma_ocr_ipos(s.drop_last(), ts);
        if ocr_sorted(s) {
            assert forall|i: int, j: int| 0 <= i < j < s.drop_last().len() implies (
            #[trigger] s.drop_last()[i]).timestamp <= (#[trigger] s.drop_last()[j]).timestamp by {
                assert(s.drop_last()[i] == s[i]);
                assert(s.drop_last()[j] == s[j]);
            }
            assert forall|k: int| 0 <= k < ocr_ipos(s, ts) implies (
            #[trigger] s[k]).timestamp <= ts by {
                assert(s.drop_last()[k] == s[k]);
            }
        }
        assert forall|k: int| ocr_ipos(s, ts) <= k < s.len() implies (
        #[trigger] s[k]).timestamp > ts by {
            if k < s.len() - 1 {
                assert(s.drop_last()[k] == s[k]);
            }
        }
    }
}

pub proof fn lemma_audio_ipos(s: Seq<AudioRowV>, ts: i64)
    ensures
        0 <= audio_ipos(s, ts) <= s.len(),
        forall|k: int| audio_ipos(s, ts) <= k < s.len() ==> (#[trigger] s[k]).timestamp > ts,
        audio_sorted(s) ==> forall|k: int|
            0 <= k < audio_ipos(s, ts) ==> (#[trigger] s[k]).timestamp <= ts,
    decreases s.len(),
{
    if s.len() == 0 {
    } else if s.last().timestamp <= ts {
    } else {
        lemma_audio_ipos(s.drop_last(), ts);
        if audio_sorted(s) {
            assert forall|i: int, j: int| 0 <= i < j < s.drop_last().len() implies (
            #[trigger] s.drop_last()[i]).timestamp <= (#[trigger] s.drop_last()[j]).timestamp by {
                assert(s.drop_last()[i] == s[i]);
                assert(s.drop_last()[j] == s[j]);
            }
            assert forall|k: int| 0 <= k < audio_ipos(s, ts) implies (
            #[trigger] s[k]).timestamp <= ts by {
                assert(s.drop_last()[k] == s[k]);
            }
        }
        assert forall|k: int| audio_ipos(s, ts) <= k < s.len() implies (
        #[trigger] s[k]).timestamp > ts by {
            if k < s.len() - 1 {
                assert(s.drop_last()[k] == s[k]);
            }
        }
    }
}

/// Inserting into a sequence and taking deep views commutes.
pub proof fn lemma_deep_view_insert<T: DeepView>(v: Seq<T>, p: int, x: T)
    requires
        0 <= p <= v.len(),
    ensures
        Seq::new(v.insert(p, x).len(), |i: int| v.insert(p, x)[i].deep_view()) =~= Seq::new(
            v.len(),
            |i: int| v[i].deep_view(),
        ).insert(p, x.deep_view()),
{
    v.insert_ensures(p, x);
    Seq::new(v.len(), |i: int| v[i].deep_view()).insert_ensures(p, x.deep_view());
}

pub proof fn lemma_ocr_insert_sorted(s: Seq<OcrRowV>, r: OcrRowV)
    requires
        ocr_sorted(s),
    ensures
        ocr_sorted(s.insert(ocr_ipos(s, r.timestamp), r)),
{
    let p = ocr_ipos(s, r.timestamp);
    lemma_ocr_ipos(s, r.timestamp);
    s.insert_ensures(p, r);
    let t = s.insert(p, r);
    assert forall|i: int, j: int| 0 <= i < j < t.len() implies (#[trigger] t[i]).timestamp <= (
    #[trigger] t[j]).timestamp by {
        if i < p {
            assert(t[i] == s[i]);
        } else if i == p {
            assert(t[i] == r);
        } else {
            assert(t[i] == s[i - 1]);
        }
        if j < p {
            assert(t[j] == s[j]);
        } else if j == p {
            assert(t[j] == r);
        } else {
            assert(t[j] == s[j - 1]);
        }
    }
}

pub proof fn lemma_audio_insert_sorted(s: Seq<AudioRowV>, r: AudioRowV)
    requires
        audio_sorted(s),
    ensures
        audio_sorted(s.insert(audio_ipos(s, r.timestamp), r)),
{
    let p = audio_ipos(s, r.timestamp);
    lemma_audio_ipos(s, r.timestamp);
    s.insert_ensures(p, r);
    let t = s.insert(p, r);
    assert forall|i: int, j: int| 0 <= i < j < t.len() implies (#[trigger] t[i]).timestamp <= (
    #[trigger] t[j]).timestamp by {
        if i < p {
            assert(t[i] == s[i]);
        } else if i == p {
            assert(t[i] == r);
        } else {
            assert(t[i] == s[i - 1]);
        }
        if j < p {
            assert(t[j] == s[j]);
        } else if j == p {
            assert(t[j] == r);
        } else {
            assert(t[j] == s[j - 1]);
        }
    }
}

/// Inserting a fresh, well-addressed OCR row (and its derived full-text row)
/// at its stable position preserves the archive invariant.
proof fn lemma_insert_ocr_wf(pre: ArchiveV, post: ArchiveV, row: OcrRowV)
    requires
        wf_v(pre),
        row.frame_id == pre.next_id,
        pre.next_id < i64::MAX,
        chunk_ref_ok(pre.chunks, row.chunk, row.offset_index, StreamKind::Video),
        row.tags.len() == 0,
        post.chunks == pre.chunks,
        post.audio == pre.audio,
        post.next_id == pre.next_id + 1,
        post.ocr == pre.ocr.insert(ocr_ipos(pre.ocr, row.timestamp), row),
        post.fts == pre.fts.insert(ocr_ipos(pre.ocr, row.timestamp), fts_of(row)),
    ensures
        wf_v(post),
{
    let p = ocr_ipos(pre.ocr, row.timestamp);
    lemma_ocr_ipos(pre.ocr, row.timestamp);
    pre.ocr.insert_ensures(p, row);
    pre.fts.insert_ensures(p, fts_of(row));
    lemma_ocr_insert_sorted(pre.ocr, row);
    assert forall|i: int| 0 <= i < post.ocr.len() implies ocr_row_ok(
        post.chunks,
        post.next_id,
        #[trigger] post.ocr[i],
    ) by {
        if i < p {
            assert(post.ocr[i] == pre.ocr[i]);
        } else if i == p {
        } else {
            assert(post.ocr[i] == pre.ocr[i - 1]);
        }
    }
    assert forall|i: int| 0 <= i < post.audio.len() implies audio_row_ok(
        post.chunks,
        post.next_id,
        #[trigger] post.audio[i],
    ) by {}
    assert forall|i: int| 0 <= i < post.ocr.len() implies #[trigger] post.fts[i] == fts_of(
        post.ocr[i],
    ) by {
        if i < p {
            assert(post.ocr[i] == pre.ocr[i]);
            assert(post.fts[i] == pre.fts[i]);
        } else if i == p {
        } else {
            assert(post.ocr[i] == pre.ocr[i - 1]);
            assert(post.fts[i] == pre.fts[i - 1]);
        }
    }
    assert forall|i: int, j: int| 0 <= i < j < post.ocr.len() implies (
    #[trigger] post.ocr[i]).frame_id != (#[trigger] post.ocr[j]).frame_id by {
        if i < p {
            assert(post.ocr[i] == pre.ocr[i]);
        } else if i == p {
        } else {
            assert(post.ocr[i] == pre.ocr[i - 1]);
        }
        if j < p {
            assert(post.ocr[j] == pre.ocr[j]);
        } else if j == p {
        } else {
            assert(post.ocr[j] == pre.ocr[j - 1]);
        }
    }
}

/// Inserting a fresh, well-addressed audio row at its stable position
/// preserves the archive invariant.
proof fn lemma_insert_audio_wf(pre: ArchiveV, post: ArchiveV, row: AudioRowV)
    requires
        wf_v(pre),
        row.audio_chunk_id == pre.next_id,
        pre.next_id < i64::MAX,
        chunk_ref_ok(pre.chunks, row.chunk, row.offset_index, StreamKind::Audio),
        row.tags.len() == 0,
        post.chunks == pre.chunks,
        post.ocr == pre.ocr,
        post.fts == pre.fts,
        post.next_id == pre.next_id + 1,
        post.audio == pre.audio.insert(audio_ipos(pre.audio, row.timestamp), row),
    ensures
        wf_v(post),
{
    let p = audio_ipos(pre.audio, row.timestamp);
    lemma_audio_ipos(pre.audio, row.timestamp);
    pre.audio.insert_ensures(p, row);
    lemma_audio_insert_sorted(pre.audio, row);
    assert forall|i: int| 0 <= i < post.audio.len() implies audio_row_ok(
        post.chunks,
        post.next_id,
        #[trigger] post.audio[i],
    ) by {
        if i < p {
            assert(post.audio[i] == pre.audio[i]);
        } else if i == p {
        } else {
            assert(post.audio[i] == pre.audio[i - 1]);
        }
    }
    assert forall|i: int| 0 <= i < post.ocr.len() implies ocr_row_ok(
        post.chunks,
        post.next_id,
        #[trigger] post.ocr[i],
    ) by {}
    assert forall|i: int, j: int| 0 <= i < j < post.audio.len() implies (
    #[trigger] post.audio[i]).audio_chunk_id != (#[trigger] post.audio[j]).audio_chunk_id by {
        if i < p {
            assert(post.audio[i] == pre.audio[i]);
        } else if i == p {
        } else {
            assert(post.audio[i] == pre.audio[i - 1]);
        }
        if j < p {
            assert(post.audio[j] == pre.audio[j]);
        } else if j == p {
        } else {
            assert(post.audio[j] == pre.audio[j - 1]);
        }
    }
}

/// Deep views commute with push.
pub proof fn lemma_deep_view_push<T: DeepView>(v: Seq<T>, x: T)
    ensures
        Seq::new(v.push(x).len(), |i: int| v.push(x)[i].deep_view()) =~= Seq::new(
            v.len(),
            |i: int| v[i].deep_view(),
        ).push(x.deep_view()),
{
}

/// Deep views commute with removal.
pub proof fn lemma_deep_view_remove<T: DeepView>(v: Seq<T>, p: int)
    requires
        0 <= p < v.len(),
    ensures
        Seq::new(v.remove(p).len(), |i: int| v.remove(p)[i].deep_view()) =~= Seq::new(
            v.len(),
            |i: int| v[i].deep_view(),
        ).remove(p),
{
    v.remove_ensures(p);
    Seq::new(v.len(), |i: int| v[i].deep_view()).remove_ensures(p);
}

/// Deep views commute with update.
pub proof fn lemma_deep_view_update<T: DeepView>(v: Seq<T>, p: int, x: T)
    requires
        0 <= p < v.len(),
    ensures
        Seq::new(v.update(p, x).len(), |i: int| v.update(p, x)[i].deep_view()) =~= Seq::new(
            v.len(),
            |i: int| v[i].deep_view(),
        ).update(p, x.deep_view()),
{
}

/// The label sequence after attaching each label of `new` in order, skipping
/// the ones already present.
pub open spec fn add_labels(cur: Seq<Seq<char>>, new: Seq<Seq<char>>) -> Seq<Seq<char>>
    decreases new.len(),
{
    if new.len() == 0 {
        cur
    } else if cur.contains(new[0]) {
        add_labels(cur, new.drop_first())
    } else {
        add_labels(cur.push(new[0]), new.drop_first())
    }
}

/// One step of `add_labels`.
pub open spec fn label_step(cur: Seq<Seq<char>>, t: Seq<char>) -> Seq<Seq<char>> {
    if cur.contains(t) {
        cur
    } else {
        cur.push(t)
    }
}

/// `add_labels` consumes its label list one element at a time from the left,
/// so it also peels one element at a time off the right.
pub proof fn lemma_add_labels_push(cur: Seq<Seq<char>>, s: Seq<Seq<char>>, t: Seq<char>)
    ensures
        add_labels(cur, s.push(t)) == label_step(add_labels(cur, s), t),
    decreases s.len(),
{
    if s.len() == 0 {
        assert(s.push(t).drop_first() =~= s);
        assert(add_labels(cur, s.push(t)) == add_labels(label_step(cur, t), s));
    } else {
        assert(s.push(t)[0] == s[0]);
        assert(s.push(t).drop_first() =~= s.drop_first().push(t));
        lemma_add_labels_push(label_step(cur, s[0]), s.drop_first(), t);
    }
}

/// What `add_labels` holds: the union of both label sets, with no label
/// repeated if none was repeated before.
pub proof fn lemma_add_labels_props(cur: Seq<Seq<char>>, new: Seq<Seq<char>>)
    ensures
        forall|x: Seq<char>|
            #[trigger] add_labels(cur, new).contains(x) <==> cur.contains(x) || new.contains(x),
        nodup_labels(cur) ==> nodup_labels(add_labels(cur, new)),
    decreases new.len(),
{
    if new.len() == 0 {
        assert forall|x: Seq<char>| #[trigger]
            add_labels(cur, new).contains(x) <==> cur.contains(x) || new.contains(x) by {
            if new.contains(x) {
                let i = choose|i: int| 0 <= i < new.len() && new[i] == x;
            }
        }
    } else {
        let step = label_step(cur, new[0]);
        lemma_add_labels_props(step, new.drop_first());
        assert forall|x: Seq<char>| #[trigger] step.contains(x) <==> cur.contains(x) || x == new[0]
        by {
            if cur.contains(x) {
                let i = choose|i: int| 0 <= i < cur.len() && cur[i] == x;
                assert(step[i] == x);
            }
            if x == new[0] && !cur.contains(x) {
                assert(step[cur.len() as int] == x);
            }
            if step.contains(x) && !cur.contains(x) {
                let i = choose|i: int| 0 <= i < step.len() && step[i] == x;
                assert(i == cur.len());
            }
        }
        assert forall|x: Seq<char>| #[trigger]
            add_labels(cur, new).contains(x) <==> cur.contains(x) || new.contains(x) by {
            assert(add_labels(cur, new) == add_labels(step, new.drop_first()));
            if new.contains(x) {
                let i = choose|i: int| 0 <= i < new.len() && new[i] == x;
                if i > 0 {
                    assert(new.drop_first()[i - 1] == x);
                }
            }
            if new.drop_first().contains(x) {
                let i = choose|i: int| 0 <= i < new.drop_first().len() && new.drop_first()[i] == x;
                assert(new[i + 1] == x);
            }
        }
        if nodup_labels(cur) {
            if !cur.contains(new[0]) {
                assert forall|i: int, j: int| 0 <= i < j < step.len() implies step[i] != step[j] by {
                    if j < cur.len() {
                        assert(step[i] == cur[i] && step[j] == cur[j]);
                    } else {
                        assert(step[j] == new[0]);
                        assert(step[i] == cur[i]);
                        assert(!cur.contains(new[0]));
                    }
                }
            }
            assert(nodup_labels(step));
        }
    }
}

/// Attaching labels that are all already present changes nothing.
pub proof fn lemma_add_labels_absorbed(cur: Seq<Seq<char>>, new: Seq<Seq<char>>)
    requires
        forall|i: int| 0 <= i < new.len() ==> cur.contains(#[trigger] new[i]),
    ensures
        add_labels(cur, new) == cur,
    decreases new.len(),
{
    if new.len() > 0 {
        assert(cur.contains(new[0]));
        assert forall|i: int| 0 <= i < new.drop_first().len() implies cur.contains(
            #[trigger] new.drop_first()[i],
        ) by {
            assert(new.drop_first()[i] == new[i + 1]);
        }
        lemma_add_labels_absorbed(cur, new.drop_first());
    }
}

/// Tag idempotence: attaching the same labels twice leaves exactly what one
/// attachment left.
pub proof fn lemma_add_tags_idempotent(cur: Seq<Seq<char>>, new: Seq<Seq<char>>)
    ensures
        add_labels(add_labels(cur, new), new) == add_labels(cur, new),
{
    lemma_add_labels_props(cur, new);
    assert forall|i: int| 0 <= i < new.len() implies add_labels(cur, new).contains(
        #[trigger] new[i],
    ) by {
        assert(new.contains(new[i]));
    }
    lemma_add_labels_absorbed(add_labels(cur, new), new);
}

/// The label sequence after detaching every label of `rem`, keeping the
/// remaining labels in order.
pub open spec fn remove_labels(cur: Seq<Seq<char>>, rem: Seq<Seq<char>>) -> Seq<Seq<char>>
    decreases cur.len(),
{
    if cur.len() == 0 {
        Seq::empty()
    } else {
        let pre = remove_labels(cur.drop_last(), rem);
        if rem.contains(cur.last()) {
            pre
        } else {
            pre.push(cur.last())
        }
    }
}

/// What `remove_labels` holds: the labels of `cur` that are not in `rem`,
/// still without repetition.
pub proof fn lemma_remove_labels_props(cur: Seq<Seq<char>>, rem: Seq<Seq<char>>)
    ensures
        forall|x: Seq<char>|
            #[trigger] remove_labels(cur, rem).contains(x) <==> cur.contains(x) && !rem.contains(
                x,
            ),
        nodup_labels(cur) ==> nodup_labels(remove_labels(cur, rem)),
    decreases cur.len(),
{
    if cur.len() == 0 {
    } else {
        let d = cur.drop_last();
        let pre = remove_labels(d, rem);
        lemma_remove_labels_props(d, rem);
        assert forall|x: Seq<char>| #[trigger]
            remove_labels(cur, rem).contains(x) <==> cur.contains(x) && !rem.contains(x) by {
            if remove_labels(cur, rem).contains(x) {
                if rem.contains(cur.last()) {
                    assert(pre.contains(x));
                } else {
                    let i = choose|i: int|
                        0 <= i < remove_labels(cur, rem).len() && remove_labels(cur, rem)[i] == x;
                    if i < pre.len() {
                        assert(pre[i] == x);
                        assert(pre.contains(x));
                    } else {
                        assert(x == cur.last());
                    }
                }
                if pre.contains(x) {
                    assert(d.contains(x));
                    let i = choose|i: int| 0 <= i < d.len() && d[i] == x;
                    assert(cur[i] == x);
                }
                assert(cur.contains(x) && !rem.contains(x));
            }
            if cur.contains(x) && !rem.contains(x) {
                let i = choose|i: int| 0 <= i < cur.len() && cur[i] == x;
                if i < cur.len() - 1 {
                    assert(d[i] == x);
                    assert(d.contains(x));
                    assert(pre.contains(x));
                    if !rem.contains(cur.last()) {
                        let k = choose|k: int| 0 <= k < pre.len() && pre[k] == x;
                        assert(pre.push(cur.last())[k] == x);
                    }
                } else {
                    assert(x == cur.last());
                    assert(pre.push(cur.last())[pre.len() as int] == x);
                }
                assert(remove_labels(cur, rem).contains(x));
            }
        }
        if nodup_labels(cur) {
            assert forall|i: int, j: int| 0 <= i < j < d.len() implies #[trigger] d[i]
                != #[trigger] d[j] by {
                assert(d[i] == cur[i] && d[j] == cur[j]);
            }
            assert(nodup_labels(d));
            if !rem.contains(cur.last()) {
                assert forall|i: int, j: int|
                    0 <= i < j < pre.push(cur.last()).len() implies #[trigger] pre.push(
                    cur.last(),
                )[i] != #[trigger] pre.push(cur.last())[j] by {
                    if j < pre.len() {
                    } else {
                        assert(pre.push(cur.last())[j] == cur.last());
                        assert(pre.push(cur.last())[i] == pre[i]);
                        if pre.contains(cur.last()) {
                            assert(d.contains(cur.last()));
                            let k = choose|k: int| 0 <= k < d.len() && d[k] == cur.last();
                            assert(cur[k] == cur[cur.len() - 1]);
                        }
                        assert(pre.contains(pre[i]));
                    }
                }
            }
        }
    }
}

/// Detaching labels none of which is attached changes nothing.
pub proof fn lemma_remove_labels_absent(cur: Seq<Seq<char>>, rem: Seq<Seq<char>>)
    requires
        forall|i: int| 0 <= i < cur.len() ==> !rem.contains(#[trigger] cur[i]),
    ensures
        remove_labels(cur, rem) == cur,
    decreases cur.len(),
{
    if cur.len() > 0 {
        let d = cur.drop_last();
        assert forall|i: int| 0 <= i < d.len() implies !rem.contains(#[trigger] d[i]) by {
            assert(d[i] == cur[i]);
        }
        lemma_remove_labels_absent(d, rem);
        assert(!rem.contains(cur.last()));
        assert(remove_labels(cur, rem) == d.push(cur.last()));
        assert(d.push(cur.last()) =~= cur);
    }
}

/// Every row's `(chunk, offset)` address resolves to exactly one registered
/// chunk: the address is in range, the stream kind matches, and no other
/// chunk carries the same path.
pub open spec fn resolves_uniquely(
    chunks: Seq<ChunkMetaV>,
    chunk: int,
    offset: u64,
    stream: StreamKind,
) -> bool {
    &&& chunk_ref_ok(chunks, chunk, offset, stream)
    &&& forall|j: int|
        0 <= j < chunks.len() && (#[trigger] chunks[j]).path == chunks[chunk].path ==> j == chunk
}

/// Offset integrity: in a well-formed archive every OCR and audio row
/// resolves to exactly one existing unit of exactly one registered chunk.
pub proof fn lemma_offset_integrity(a: ArchiveV)
    requires
        wf_v(a),
    ensures
        forall|i: int|
            0 <= i < a.ocr.len() ==> resolves_uniquely(
                a.chunks,
                (#[trigger] a.ocr[i]).chunk,
                a.ocr[i].offset_index,
                StreamKind::Video,
            ),
        forall|i: int|
            0 <= i < a.audio.len() ==> resolves_uniquely(
                a.chunks,
                (#[trigger] a.audio[i]).chunk,
                a.audio[i].offset_index,
                StreamKind::Audio,
            ),
{
    assert forall|i: int| 0 <= i < a.ocr.len() implies resolves_uniquely(
        a.chunks,
        (#[trigger] a.ocr[i]).chunk,
        a.ocr[i].offset_index,
        StreamKind::Video,
    ) by {
        assert(ocr_row_ok(a.chunks, a.next_id, a.ocr[i]));
    }
    assert forall|i: int| 0 <= i < a.audio.len() implies resolves_uniquely(
        a.chunks,
        (#[trigger] a.audio[i]).chunk,
        a.audio[i].offset_index,
        StreamKind::Audio,
    ) by {
        assert(audio_row_ok(a.chunks, a.next_id, a.audio[i]));
    }
}

/// An OCR row with its labels replaced.
pub open spec fn ocr_with_tags(r: OcrRowV, tags: Seq<Seq<char>>) -> OcrRowV {
    OcrRowV { tags, ..r }
}

/// An audio row with its labels replaced.
pub open spec fn audio_with_tags(r: AudioRowV, tags: Seq<Seq<char>>) -> AudioRowV {
    AudioRowV { tags, ..r }
}

/// Replacing one OCR row's labels (and mirroring the change into its derived
/// full-text row) preserves the archive invariant.
proof fn lemma_update_ocr_tags_wf(pre: ArchiveV, post: ArchiveV, k: int, tags: Seq<Seq<char>>)
    requires
        wf_v(pre),
        0 <= k < pre.ocr.len(),
        nodup_labels(tags),
        post.chunks == pre.chunks,
        post.audio == pre.audio,
        post.next_id == pre.next_id,
        post.ocr == pre.ocr.update(k, ocr_with_tags(pre.ocr[k], tags)),
        post.fts == pre.fts.update(k, fts_of(ocr_with_tags(pre.ocr[k], tags))),
    ensures
        wf_v(post),
{
    assert forall|i: int| 0 <= i < post.ocr.len() implies ocr_row_ok(
        post.chunks,
        post.next_id,
        #[trigger] post.ocr[i],
    ) by {
        if i != k {
            assert(post.ocr[i] == pre.ocr[i]);
        }
    }
    assert forall|i: int| 0 <= i < post.ocr.len() implies #[trigger] post.fts[i] == fts_of(
        post.ocr[i],
    ) by {
        if i != k {
            assert(post.ocr[i] == pre.ocr[i]);
            assert(post.fts[i] == pre.fts[i]);
        }
    }
    assert forall|i: int, j: int| 0 <= i < j < post.ocr.len() implies (
    #[trigger] post.ocr[i]).timestamp <= (#[trigger] post.ocr[j]).timestamp by {
        assert(pre.ocr[i].timestamp <= pre.ocr[j].timestamp);
    }
    assert forall|i: int, j: int| 0 <= i < j < post.ocr.len() implies (
    #[trigger] post.ocr[i]).frame_id != (#[trigger] post.ocr[j]).frame_id by {
        assert(pre.ocr[i].frame_id != pre.ocr[j].frame_id);
    }
}

/// Replacing one audio row's labels preserves the archive invariant.
proof fn lemma_update_audio_tags_wf(pre: ArchiveV, post: ArchiveV, k: int, tags: Seq<Seq<char>>)
    requires
        wf_v(pre),
        0 <= k < pre.audio.len(),
        nodup_labels(tags),
        post.chunks == pre.chunks,
        post.ocr == pre.ocr,
        post.fts == pre.fts,
        post.next_id == pre.next_id,
        post.audio == pre.audio.update(k, audio_with_tags(pre.audio[k], tags)),
    ensures
        wf_v(post),
{
    assert forall|i: int| 0 <= i < post.audio.len() implies audio_row_ok(
        post.chunks,
        post.next_id,
        #[trigger] post.audio[i],
    ) by {
        if i != k {
            assert(post.audio[i] == pre.audio[i]);
        }
    }
    assert forall|i: int, j: int| 0 <= i < j < post.audio.len() implies (
    #[trigger] post.audio[i]).timestamp <= (#[trigger] post.audio[j]).timestamp by {
        assert(pre.audio[i].timestamp <= pre.audio[j].timestamp);
    }
    assert forall|i: int, j: int| 0 <= i < j < post.audio.len() implies (
    #[trigger] post.audio[i]).audio_chunk_id != (#[trigger] post.audio[j]).audio_chunk_id by {
        assert(pre.audio[i].audio_chunk_id != pre.audio[j].audio_chunk_id);
    }
}

/// A copy of a label list, label by label.
pub(crate) fn clone_labels(tags: &Vec<String>) -> (r: Vec<String>)
    ensures
        r.deep_view() == tags.deep_view(),
{
    let mut r: Vec<String> = Vec::new();
    let mut i: usize = 0;
    proof {
        assert(r.deep_view() =~= tags.deep_view().take(0));
    }
    while i < tags.len()
        invariant
            0 <= i <= tags.len(),
            r.deep_view() == tags.deep_view().take(i as int),
            r@.len() == i,
        decreases tags.len() - i,
    {
        let ghost prev = r@;
        r.push(tags[i].clone());
        proof {
            lemma_deep_view_push(prev, r@[i as int]);
            assert(r.deep_view() =~= tags.deep_view().take(i as int + 1));
        }
        i += 1;
    }
    proof {
        assert(tags.deep_view().take(tags@.len() as int) =~= tags.deep_view());
    }
    r
}

/// The timestamp of the most recent OCR row, if any.
pub open spec fn latest_frame_ts(a: ArchiveV) -> Option<i64> {
    if a.ocr.len() == 0 {
        None
    } else {
        Some(a.ocr.last().timestamp)
    }
}

/// The timestamp of the most recent audio row, if any.
pub open spec fn latest_audio_ts(a: ArchiveV) -> Option<i64> {
    if a.audio.len() == 0 {
        None
    } else {
        Some(a.audio.last().timestamp)
    }
}

impl Archive {
    pub open spec fn wf(&self) -> bool {
        wf_v(self@)
    }

    /// An empty archive: no chunks, no rows, ids start at 1.
    pub fn new() -> (r: Archive)
        ensures
            r.wf(),
            r@.chunks =~= Seq::<ChunkMetaV>::empty(),
            r@.ocr =~= Seq::<OcrRowV>::empty(),
            r@.audio =~= Seq::<AudioRowV>::empty(),
            r@.fts =~= Seq::<FtsRowV>::empty(),
            r@.next_id == 1,
    {
        Archive {
            chunks: Vec::new(),
            ocr: Vec::new(),
            audio: Vec::new(),
            fts: Vec::new(),
            next_id: 1,
        }
    }

    /// Registers a fresh, open, empty chunk file for `stream` and returns its
    /// id. Refused exactly when another chunk already carries the same path.
    pub fn open_chunk(&mut self, path: String, stream: StreamKind, now: i64) -> (r: Result<
        usize,
        ArchiveError,
    >)
        requires
            old(self).wf(),
        ensures
            final(self).wf(),
            final(self)@.ocr == old(self)@.ocr,
            final(self)@.audio == old(self)@.audio,
            final(self)@.fts == old(self)@.fts,
            final(self)@.next_id == old(self)@.next_id,
            match r {
                Ok(id) => {
                    &&& !(exists|j: int|
                        0 <= j < old(self)@.chunks.len() && (#[trigger] old(
                            self,
                        )@.chunks[j]).path == path@)
                    &&& id == old(self)@.chunks.len()
                    &&& final(self)@.chunks =~= old(self)@.chunks.push(
                        ChunkMetaV {
                            path: path@,
                            stream,
                            units: 0,
                            is_open: true,
                            opened_at: now,
                        },
                    )
                },
                Err(e) => {
                    &&& e == ArchiveError::DuplicatePath
                    &&& exists|j: int|
                        0 <= j < old(self)@.chunks.len() && (#[trigger] old(
                            self,
                        )@.chunks[j]).path == path@
                    &&& final(self)@ == old(self)@
                },
            },
    {
        let ghost pre = self@;
        let mut i: usize = 0;
        while i < self.chunks.len()
            invariant
                0 <= i <= self.chunks.len(),
                self@ == pre,
                pre == old(self)@,
                wf_v(pre),
                forall|j: int| 0 <= j < i ==> (#[trigger] pre.chunks[j]).path != path@,
            decreases self.chunks.len() - i,
        {
            if self.chunks[i].path.eq(&path) {
                assert(pre.chunks[i as int].path == path@);
                return Err(ArchiveError::DuplicatePath);
            }
            i += 1;
        }
        let meta = ChunkMeta { path, stream, units: 0, is_open: true, opened_at: now };
        let id = self.chunks.len();
        self.chunks.push(meta);
        assert(self@.chunks =~= pre.chunks.push(
            ChunkMetaV { path: meta.path@, stream, units: 0, is_open: true, opened_at: now },
        ));
        Ok(id)
    }

    /// Closes a chunk: it becomes immutable, and no mutating operation of the
    /// archive touches a closed chunk again. Closing a closed chunk is a
    /// no-op, not an error.
    pub fn finalize_chunk(&mut self, chunk: usize) -> (r: Result<(), ArchiveError>)
        requires
            old(self).wf(),
        ensures
            final(self).wf(),
            final(self)@.ocr == old(self)@.ocr,
            final(self)@.audio == old(self)@.audio,
            final(self)@.fts == old(self)@.fts,
            final(self)@.next_id == old(self)@.next_id,
            match r {
                Ok(()) => {
                    &&& chunk < old(self)@.chunks.len()
                    &&& final(self)@.chunks =~= old(self)@.chunks.update(
                        chunk as int,
                        ChunkMetaV { is_open: false, ..old(self)@.chunks[chunk as int] },
                    )
                },
                Err(e) => {
                    &&& e == ArchiveError::InvalidChunk
                    &&& chunk >= old(self)@.chunks.len()
                    &&& final(self)@ == old(self)@
                },
            },
    {
        let ghost pre = self@;
        if chunk >= self.chunks.len() {
            return Err(ArchiveError::InvalidChunk);
        }
        let mut meta = self.chunks.remove(chunk);
        meta.is_open = false;
        self.chunks.insert(chunk, meta);
        assert(self@.chunks =~= pre.chunks.update(
            chunk as int,
            ChunkMetaV { is_open: false, ..pre.chunks[chunk as int] },
        ));
        Ok(())
    }

    /// Records one more unit (frame or audio segment) in an open chunk and
    /// returns the unit's offset within the chunk. Offsets count up from zero
    /// per chunk; a unit is recorded exactly when `Ok` is returned.
    pub fn record_unit(&mut self, chunk: usize) -> (r: Result<u64, ArchiveError>)
        requires
            old(self).wf(),
        ensures
            final(self).wf(),
            final(self)@.ocr == old(self)@.ocr,
            final(self)@.audio == old(self)@.audio,
            final(self)@.fts == old(self)@.fts,
            final(self)@.next_id == old(self)@.next_id,
            match r {
                Ok(offset) => {
                    &&& chunk < old(self)@.chunks.len()
                    &&& old(self)@.chunks[chunk as int].is_open
                    &&& old(self)@.chunks[chunk as int].units < i64::MAX as u64
                    &&& offset == old(self)@.chunks[chunk as int].units
                    &&& final(self)@.chunks =~= old(self)@.chunks.update(
                        chunk as int,
                        ChunkMetaV {
                            units: (old(self)@.chunks[chunk as int].units + 1) as u64,
                            ..old(self)@.chunks[chunk as int]
                        },
                    )
                },
                Err(e) => {
                    &&& final(self)@ == old(self)@
                    &&& match e {
                        ArchiveError::InvalidChunk => chunk >= old(self)@.chunks.len(),
                        ArchiveError::ChunkClosed => chunk < old(self)@.chunks.len() && !old(
                            self,
                        )@.chunks[chunk as int].is_open,
                        ArchiveError::ChunkFull => chunk < old(self)@.chunks.len() && old(
                            self,
                        )@.chunks[chunk as int].is_open && old(self)@.chunks[chunk as int].units
                            >= i64::MAX as u64,
                        _ => false,
                    }
                },
            },
    {
        let ghost pre = self@;
        if chunk >= self.chunks.len() {
            return Err(ArchiveError::InvalidChunk);
        }
        if !self.chunks[chunk].is_open {
            return Err(ArchiveError::ChunkClosed);
        }
        if self.chunks[chunk].units >= i64::MAX as u64 {
            return Err(ArchiveError::ChunkFull);
        }
        let mut meta = self.chunks.remove(chunk);
        let offset = meta.units;
        meta.units = meta.units + 1;
        self.chunks.insert(chunk, meta);
        assert(self@.chunks =~= pre.chunks.update(
            chunk as int,
            ChunkMetaV {
                units: (pre.chunks[chunk as int].units + 1) as u64,
                ..pre.chunks[chunk as int]
            },
        ));
        Ok(offset)
    }

    /// The OCR row the successful insert of these fields produces.
    pub open spec fn ocr_row_of(
        id: i64,
        text: Seq<char>,
        timestamp: i64,
        chunk: int,
        offset_index: u64,
        app_name: Seq<char>,
        window_name: Seq<char>,
    ) -> OcrRowV {
        OcrRowV {
            frame_id: id,
            text,
            timestamp,
            chunk,
            offset_index,
            app_name,
            window_name,
            tags: Seq::empty(),
        }
    }

    /// Persists one recognized-text row together with its derived full-text
    /// row, at the row's place in timestamp order. The full-text row never
    /// exists without its source row and vice versa: both appear in this one
    /// call or not at all.
    pub fn insert_ocr(
        &mut self,
        text: String,
        timestamp: i64,
        chunk: usize,
        offset_index: u64,
        app_name: String,
        window_name: String,
    ) -> (r: Result<i64, ArchiveError>)
        requires
            old(self).wf(),
        ensures
            final(self).wf(),
            final(self)@.chunks == old(self)@.chunks,
            final(self)@.audio == old(self)@.audio,
            match r {
                Ok(id) => {
                    &&& chunk_ref_ok(
                        old(self)@.chunks,
                        chunk as int,
                        offset_index,
                        StreamKind::Video,
                    )
                    &&& old(self)@.next_id < i64::MAX
                    &&& id == old(self)@.next_id
                    &&& final(self)@.next_id == old(self)@.next_id + 1
                    &&& {
                        let row = Self::ocr_row_of(
                            id,
                            text@,
                            timestamp,
                            chunk as int,
                            offset_index,
                            app_name@,
                            window_name@,
                        );
                        let p = ocr_ipos(old(self)@.ocr, timestamp);
                        &&& final(self)@.ocr == old(self)@.ocr.insert(p, row)
                        &&& final(self)@.fts == old(self)@.fts.insert(p, fts_of(row))
                    }
                },
                Err(e) => {
                    &&& final(self)@ == old(self)@
                    &&& match e {
                        ArchiveError::InvalidChunk => !chunk_ref_ok(
                            old(self)@.chunks,
                            chunk as int,
                            offset_index,
                            StreamKind::Video,
                        ),
                        ArchiveError::IdSpaceExhausted => chunk_ref_ok(
                            old(self)@.chunks,
                            chunk as int,
                            offset_index,
                            StreamKind::Video,
                        ) && old(self)@.next_id == i64::MAX,
                        _ => false,
                    }
                },
            },
    {
        let ghost pre = self@;
        if chunk >= self.chunks.len() {
            return Err(ArchiveError::InvalidChunk);
        }
        if !(self.chunks[chunk].stream == StreamKind::Video) {
            return Err(ArchiveError::InvalidChunk);
        }
        if offset_index >= self.chunks[chunk].units {
            return Err(ArchiveError::InvalidChunk);
        }
        if self.next_id == i64::MAX {
            return Err(ArchiveError::IdSpaceExhausted);
        }
        let id = self.next_id;
        let p = self.ocr_insert_pos(timestamp);
        let fts_row = FtsRow {
            text_id: id,
            frame_id: id,
            matched_text: text.clone(),
            timestamp,
            app_name: app_name.clone(),
            window_name: window_name.clone(),
            chunk,
            offset_index,
            tags: Vec::new(),
        };
        let row = OcrRow {
            frame_id: id,
            text,
            timestamp,
            chunk,
            offset_index,
            app_name,
            window_name,
            tags: Vec::new(),
        };
        let ghost row_v = row.deep_view();
        let ghost old_ocr = self.ocr@;
        let ghost old_fts = self.fts@;
        self.ocr.insert(p, row);
        self.fts.insert(p, fts_row);
        self.next_id = id + 1;
        proof {
            let p_i = p as int;
            assert(row_v.tags =~= Seq::<Seq<char>>::empty());
            assert(row_v == Self::ocr_row_of(
                id,
                row_v.text,
                timestamp,
                chunk as int,
                offset_index,
                app_name@,
                window_name@,
            ));
            lemma_deep_view_insert(old_ocr, p_i, self.ocr@[p_i]);
            assert(self.ocr.deep_view() =~= pre.ocr.insert(p_i, row_v));
            lemma_deep_view_insert(old_fts, p_i, self.fts@[p_i]);
            assert(fts_of(row_v).tags =~= Seq::<Seq<char>>::empty());
            assert(self.fts@[p_i].deep_view() == fts_of(row_v));
            assert(self.fts.deep_view() =~= pre.fts.insert(p_i, fts_of(row_v)));
            lemma_insert_ocr_wf(pre, self@, row_v);
        }
        Ok(id)
    }

    /// The index at which a new OCR row captured at `timestamp` is inserted.
    fn ocr_insert_pos(&self, timestamp: i64) -> (p: usize)
        ensures
            p == ocr_ipos(self@.ocr, timestamp),
            p <= self.ocr@.len(),
    {
        let ghost rows = self@.ocr;
        let mut p: usize = self.ocr.len();
        proof {
            assert(rows.take(p as int) =~= rows);
        }
        while p > 0 && self.ocr[p - 1].timestamp > timestamp
            invariant
                0 <= p <= self.ocr.len(),
                rows == self@.ocr,
                rows.len() == self.ocr.len(),
                ocr_ipos(rows, timestamp) == ocr_ipos(rows.take(p as int), timestamp),
            decreases p,
        {
            proof {
                let t = rows.take(p as int);
                assert(t.last() == rows[p as int - 1]);
                assert(t.drop_last() =~= rows.take(p as int - 1));
                assert(rows[p as int - 1].timestamp > timestamp);
            }
            p -= 1;
        }
        proof {
            if p == 0 {
                assert(rows.take(0).len() == 0);
            } else {
                let t = rows.take(p as int);
                assert(t.last() == rows[p as int - 1]);
                assert(rows[p as int - 1].timestamp <= timestamp);
            }
            assert(rows.take(rows.len() as int) =~= rows);
        }
        p
    }

    /// The index at which a new audio row captured at `timestamp` is inserted.
    fn audio_insert_pos(&self, timestamp: i64) -> (p: usize)
        ensures
            p == audio_ipos(self@.audio, timestamp),
            p <= self.audio@.len(),
    {
        let ghost rows = self@.audio;
        let mut p: usize = self.audio.len();
        proof {
            assert(rows.take(p as int) =~= rows);
        }
        while p > 0 && self.audio[p - 1].timestamp > timestamp
            invariant
                0 <= p <= self.audio.len(),
                rows == self@.audio,
                rows.len() == self.audio.len(),
                audio_ipos(rows, timestamp) == audio_ipos(rows.take(p as int), timestamp),
            decreases p,
        {
            proof {
                let t = rows.take(p as int);
                assert(t.last() == rows[p as int - 1]);
                assert(t.drop_last() =~= rows.take(p as int - 1));
                assert(rows[p as int - 1].timestamp > timestamp);
            }
            p -= 1;
        }
        proof {
            if p == 0 {
                assert(rows.take(0).len() == 0);
            } else {
                let t = rows.take(p as int);
                assert(t.last() == rows[p as int - 1]);
                assert(rows[p as int - 1].timestamp <= timestamp);
            }
            assert(rows.take(rows.len() as int) =~= rows);
        }
        p
    }

    /// The audio row the successful insert of these fields produces.
    pub open spec fn audio_row_of(
        id: i64,
        transcription: Seq<char>,
        timestamp: i64,
        chunk: int,
        offset_index: u64,
    ) -> AudioRowV {
        AudioRowV {
            audio_chunk_id: id,
            transcription,
            timestamp,
            chunk,
            offset_index,
            tags: Seq::empty(),
        }
    }

    /// Persists one audio-transcript row at its place in timestamp order. An
    /// empty transcription is a valid row: a segment whose transcription
    /// failed permanently is persisted with empty text rather than dropped.
    pub fn insert_audio(
        &mut self,
        transcription: String,
        timestamp: i64,
        chunk: usize,
        offset_index: u64,
    ) -> (r: Result<i64, ArchiveError>)
        requires
            old(self).wf(),
        ensures
            final(self).wf(),
            final(self)@.chunks == old(self)@.chunks,
            final(self)@.ocr == old(self)@.ocr,
            final(self)@.fts == old(self)@.fts,
            match r {
                Ok(id) => {
                    &&& chunk_ref_ok(
                        old(self)@.chunks,
                        chunk as int,
                        offset_index,
                        StreamKind::Audio,
                    )
                    &&& old(self)@.next_id < i64::MAX
                    &&& id == old(self)@.next_id
                    &&& final(self)@.next_id == old(self)@.next_id + 1
                    &&& final(self)@.audio == old(self)@.audio.insert(
                        audio_ipos(old(self)@.audio, timestamp),
                        Self::audio_row_of(id, transcription@, timestamp, chunk as int, offset_index),
                    )
                },
                Err(e) => {
                    &&& final(self)@ == old(self)@
                    &&& match e {
                        ArchiveError::InvalidChunk => !chunk_ref_ok(
                            old(self)@.chunks,
                            chunk as int,
                            offset_index,
                            StreamKind::Audio,
                        ),
                        ArchiveError::IdSpaceExhausted => chunk_ref_ok(
                            old(self)@.chunks,
                            chunk as int,
                            offset_index,
                            StreamKind::Audio,
                        ) && old(self)@.next_id == i64::MAX,
                        _ => false,
                    }
                },
            },
    {
        let ghost pre = self@;
        if chunk >= self.chunks.len() {
            return Err(ArchiveError::InvalidChunk);
        }
        if !(self.chunks[chunk].stream == StreamKind::Audio) {
            return Err(ArchiveError::InvalidChunk);
        }
        if offset_index >= self.chunks[chunk].units {
            return Err(ArchiveError::InvalidChunk);
        }
        if self.next_id == i64::MAX {
            return Err(ArchiveError::IdSpaceExhausted);
        }
        let id = self.next_id;
        let p = self.audio_insert_pos(timestamp);
        let row = AudioRow {
            audio_chunk_id: id,
            transcription,
            timestamp,
            chunk,
            offset_index,
            tags: Vec::new(),
        };
        let ghost row_v = row.deep_view();
        let ghost old_audio = self.audio@;
        self.audio.insert(p, row);
        self.next_id = id + 1;
        proof {
            let p_i = p as int;
            assert(row_v.tags =~= Seq::<Seq<char>>::empty());
            assert(row_v == Self::audio_row_of(
                id,
                row_v.transcription,
                timestamp,
                chunk as int,
                offset_index,
            ));
            lemma_deep_view_insert(old_audio, p_i, self.audio@[p_i]);
            assert(self.audio.deep_view() =~= pre.audio.insert(p_i, row_v));
            lemma_insert_audio_wf(pre, self@, row_v);
        }
        Ok(id)
    }

    /// The timestamps of the most recent OCR row and the most recent audio
    /// row, the freshness signals the health status is derived from.
    pub fn get_latest_timestamps(&self) -> (r: (Option<i64>, Option<i64>))
        requires
            self.wf(),
        ensures
            r.0 == latest_frame_ts(self@),
            r.1 == latest_audio_ts(self@),
            forall|i: int|
                0 <= i < self@.ocr.len() ==> (#[trigger] self@.ocr[i]).timestamp
                    <= r.0.unwrap(),
            forall|i: int|
                0 <= i < self@.audio.len() ==> (#[trigger] self@.audio[i]).timestamp
                    <= r.1.unwrap(),
    {
        let frame = if self.ocr.len() == 0 {
            None
        } else {
            Some(self.ocr[self.ocr.len() - 1].timestamp)
        };
        let audio = if self.audio.len() == 0 {
            None
        } else {
            Some(self.audio[self.audio.len() - 1].timestamp)
        };
        (frame, audio)
    }

    /// How many chunks are registered.
    pub fn chunk_count(&self) -> (r: usize)
        ensures
            r == self@.chunks.len(),
    {
        self.chunks.len()
    }

    /// The path of a registered chunk.
    pub fn chunk_path(&self, chunk: usize) -> (r: &String)
        requires
            chunk < self@.chunks.len(),
        ensures
            r@ == self@.chunks[chunk as int].path,
    {
        &self.chunks[chunk].path
    }

    /// How many units a registered chunk holds.
    pub fn chunk_units(&self, chunk: usize) -> (r: u64)
        requires
            chunk < self@.chunks.len(),
        ensures
            r == self@.chunks[chunk as int].units,
    {
        self.chunks[chunk].units
    }

    /// Whether a registered chunk is still open.
    pub fn chunk_is_open(&self, chunk: usize) -> (r: bool)
        requires
            chunk < self@.chunks.len(),
        ensures
            r == self@.chunks[chunk as int].is_open,
    {
        self.chunks[chunk].is_open
    }

    /// Which stream a registered chunk belongs to.
    pub fn chunk_stream(&self, chunk: usize) -> (r: StreamKind)
        requires
            chunk < self@.chunks.len(),
        ensures
            r == self@.chunks[chunk as int].stream,
    {
        self.chunks[chunk].stream
    }

    /// When a registered chunk was opened.
    pub fn chunk_opened_at(&self, chunk: usize) -> (r: i64)
        requires
            chunk < self@.chunks.len(),
        ensures
            r == self@.chunks[chunk as int].opened_at,
    {
        self.chunks[chunk].opened_at
    }

    /// The id the next inserted row will get.
    pub fn next_row_id(&self) -> (r: i64)
        ensures
            r == self@.next_id,
    {
        self.next_id
    }

    /// How many OCR rows the archive holds.
    pub fn ocr_count(&self) -> (r: usize)
        ensures
            r == self@.ocr.len(),
    {
        self.ocr.len()
    }

    /// How many audio rows the archive holds.
    pub fn audio_count(&self) -> (r: usize)
        ensures
            r == self@.audio.len(),
    {
        self.audio.len()
    }

    /// How many derived full-text rows the archive holds.
    pub fn fts_count(&self) -> (r: usize)
        ensures
            r == self@.fts.len(),
    {
        self.fts.len()
    }

    /// One OCR row, by position in timestamp order.
    pub fn ocr_at(&self, i: usize) -> (r: &OcrRow)
        requires
            i < self@.ocr.len(),
        ensures
            r.deep_view() == self@.ocr[i as int],
    {
        &self.ocr[i]
    }

    /// One audio row, by position in timestamp order.
    pub fn audio_at(&self, i: usize) -> (r: &AudioRow)
        requires
            i < self@.audio.len(),
        ensures
            r.deep_view() == self@.audio[i as int],
    {
        &self.audio[i]
    }

    /// One derived full-text row, by position.
    pub fn fts_at(&self, i: usize) -> (r: &FtsRow)
        requires
            i < self@.fts.len(),
        ensures
            r.deep_view() == self@.fts[i as int],
    {
        &self.fts[i]
    }

    /// Keeps only the labels of `cur` that are not in `rem`.
    fn retain_labels(cur: &mut Vec<String>, rem: &Vec<String>)
        ensures
            final(cur).deep_view() == remove_labels(old(cur).deep_view(), rem.deep_view()),
    {
        let ghost cur0 = cur.deep_view();
        let mut kept: Vec<String> = Vec::new();
        let mut i: usize = 0;
        proof {
            assert(cur0.take(0) =~= Seq::<Seq<char>>::empty());
            assert(kept.deep_view() =~= remove_labels(cur0.take(0), rem.deep_view()));
        }
        while i < cur.len()
            invariant
                0 <= i <= cur.len(),
                cur.deep_view() == cur0,
                cur0.len() == cur@.len(),
                kept.deep_view() == remove_labels(cur0.take(i as int), rem.deep_view()),
            decreases cur.len() - i,
        {
            let t = &cur[i];
            let ghost prevd = kept.deep_view();
            let ghost prev = kept@;
            proof {
                assert(cur0.take(i as int + 1).drop_last() =~= cur0.take(i as int));
                assert(cur0.take(i as int + 1).last() == cur0[i as int]);
                assert(cur0[i as int] == t@);
            }
            if !crate::text::tags_contain(rem, t) {
                kept.push(t.clone());
                proof {
                    lemma_deep_view_push(prev, kept@[prev.len() as int]);
                    assert(kept.deep_view() =~= prevd.push(t@));
                }
            }
            i += 1;
        }
        proof {
            assert(cur0.take(cur@.len() as int) =~= cur0);
        }
        *cur = kept;
    }

    /// Detaches the given labels from the row carrying `id`. Idempotent:
    /// detaching an absent label is a no-op, not an error. Refused exactly
    /// when no row of the addressed kind carries `id`.
    pub fn remove_tags(&mut self, id: i64, content_type: TagContentType, tags: &Vec<String>) -> (r:
        Result<(), ArchiveError>)
        requires
            old(self).wf(),
        ensures
            final(self).wf(),
            final(self)@.chunks == old(self)@.chunks,
            final(self)@.next_id == old(self)@.next_id,
            match r {
                Ok(()) => match content_type {
                    TagContentType::Vision => {
                        &&& final(self)@.audio == old(self)@.audio
                        &&& exists|k: int|
                            {
                                &&& 0 <= k < old(self)@.ocr.len()
                                &&& (#[trigger] old(self)@.ocr[k]).frame_id == id
                                &&& final(self)@.ocr == old(self)@.ocr.update(
                                    k,
                                    ocr_with_tags(
                                        old(self)@.ocr[k],
                                        remove_labels(old(self)@.ocr[k].tags, tags.deep_view()),
                                    ),
                                )
                                &&& final(self)@.fts == old(self)@.fts.update(
                                    k,
                                    fts_of(
                                        ocr_with_tags(
                                            old(self)@.ocr[k],
                                            remove_labels(
                                                old(self)@.ocr[k].tags,
                                                tags.deep_view(),
                                            ),
                                        ),
                                    ),
                                )
                            }
                    },
                    TagContentType::Audio => {
                        &&& final(self)@.ocr == old(self)@.ocr
                        &&& final(self)@.fts == old(self)@.fts
                        &&& exists|k: int|
                            {
                                &&& 0 <= k < old(self)@.audio.len()
                                &&& (#[trigger] old(self)@.audio[k]).audio_chunk_id == id
                                &&& final(self)@.audio == old(self)@.audio.update(
                                    k,
                                    audio_with_tags(
                                        old(self)@.audio[k],
                                        remove_labels(
                                            old(self)@.audio[k].tags,
                                            tags.deep_view(),
                                        ),
                                    ),
                                )
                            }
                    },
                },
                Err(e) => {
                    &&& e == ArchiveError::NotFound
                    &&& final(self)@ == old(self)@
                    &&& match content_type {
                        TagContentType::Vision => forall|i: int|
                            0 <= i < old(self)@.ocr.len() ==> (#[trigger] old(
                                self,
                            )@.ocr[i]).frame_id != id,
                        TagContentType::Audio => forall|i: int|
                            0 <= i < old(self)@.audio.len() ==> (#[trigger] old(
                                self,
                            )@.audio[i]).audio_chunk_id != id,
                    }
                },
            },
    {
        let ghost pre = self@;
        match content_type {
            TagContentType::Vision => {
                let k = match self.find_ocr(id) {
                    Some(k) => k,
                    None => {
                        return Err(ArchiveError::NotFound);
                    },
                };
                let ghost old_ocr = self.ocr@;
                let ghost old_fts = self.fts@;
                let mut row = self.ocr.remove(k);
                let ghost row0 = row.deep_view();
                Self::retain_labels(&mut row.tags, tags);
                proof {
                    assert(row.deep_view() == ocr_with_tags(row0, remove_labels(row0.tags, tags.deep_view())));
                }
                let mut fts_row = self.fts.remove(k);
                fts_row.tags = clone_labels(&row.tags);
                self.ocr.insert(k, row);
                self.fts.insert(k, fts_row);
                proof {
                    let ki = k as int;
                    let tv = remove_labels(row0.tags, tags.deep_view());
                    assert(self.ocr@ =~= old_ocr.update(ki, self.ocr@[ki]));
                    assert(self.fts@ =~= old_fts.update(ki, self.fts@[ki]));
                    lemma_deep_view_update(old_ocr, ki, self.ocr@[ki]);
                    lemma_deep_view_update(old_fts, ki, self.fts@[ki]);
                    assert(self.ocr.deep_view() =~= pre.ocr.update(ki, ocr_with_tags(pre.ocr[ki], tv)));
                    assert(old_fts[ki].deep_view() == pre.fts[ki]);
                    assert(pre.fts[ki] == fts_of(pre.ocr[ki]));
                    assert(self.fts@[ki].deep_view().tags == tv);
                    assert(self.fts@[ki].deep_view() == fts_of(ocr_with_tags(pre.ocr[ki], tv)));
                    assert(self.fts.deep_view() =~= pre.fts.update(ki, fts_of(ocr_with_tags(pre.ocr[ki], tv))));
                    lemma_remove_labels_props(pre.ocr[ki].tags, tags.deep_view());
                    lemma_update_ocr_tags_wf(pre, self@, ki, tv);
                }
                Ok(())
            },
            TagContentType::Audio => {
                let k = match self.find_audio(id) {
                    Some(k) => k,
                    None => {
                        return Err(ArchiveError::NotFound);
                    },
                };
                let ghost old_audio = self.audio@;
                let mut row = self.audio.remove(k);
                let ghost row0 = row.deep_view();
                Self::retain_labels(&mut row.tags, tags);
                proof {
                    assert(row.deep_view() == audio_with_tags(row0, remove_labels(row0.tags, tags.deep_view())));
                }
                self.audio.insert(k, row);
                proof {
                    let ki = k as int;
                    let tv = remove_labels(row0.tags, tags.deep_view());
                    assert(self.audio@ =~= old_audio.update(ki, self.audio@[ki]));
                    lemma_deep_view_update(old_audio, ki, self.audio@[ki]);
                    assert(self.audio.deep_view() =~= pre.audio.update(ki, audio_with_tags(pre.audio[ki], tv)));
                    lemma_remove_labels_props(pre.audio[ki].tags, tags.deep_view());
                    lemma_update_audio_tags_wf(pre, self@, ki, tv);
                }
                Ok(())
            },
        }
    }

    /// The index of the OCR row carrying `id`, if any.
    fn find_ocr(&self, id: i64) -> (r: Option<usize>)
        ensures
            match r {
                Some(k) => k < self@.ocr.len() && self@.ocr[k as int].frame_id == id,
                None => forall|i: int|
                    0 <= i < self@.ocr.len() ==> (#[trigger] self@.ocr[i]).frame_id != id,
            },
    {
        let mut i: usize = 0;
        while i < self.ocr.len()
            invariant
                0 <= i <= self.ocr.len(),
                self@.ocr.len() == self.ocr@.len(),
                forall|k: int| 0 <= k < i ==> (#[trigger] self@.ocr[k]).frame_id != id,
            decreases self.ocr.len() - i,
        {
            if self.ocr[i].frame_id == id {
                return Some(i);
            }
            i += 1;
        }
        None
    }

    /// The index of the audio row carrying `id`, if any.
    fn find_audio(&self, id: i64) -> (r: Option<usize>)
        ensures
            match r {
                Some(k) => k < self@.audio.len() && self@.audio[k as int].audio_chunk_id == id,
                None => forall|i: int|
                    0 <= i < self@.audio.len() ==> (#[trigger] self@.audio[i]).audio_chunk_id
                        != id,
            },
    {
        let mut i: usize = 0;
        while i < self.audio.len()
            invariant
                0 <= i <= self.audio.len(),
                self@.audio.len() == self.audio@.len(),
                forall|k: int| 0 <= k < i ==> (#[trigger] self@.audio[k]).audio_chunk_id != id,
            decreases self.audio.len() - i,
        {
            if self.audio[i].audio_chunk_id == id {
                return Some(i);
            }
            i += 1;
        }
        None
    }

    /// Attaches `tags` to the row carrying `id`. Idempotent: a label already
    /// attached is not attached again. Refused exactly when no row of the
    /// addressed kind carries `id`.
    pub fn add_tags(&mut self, id: i64, content_type: TagContentType, tags: &Vec<String>) -> (r:
        Result<(), ArchiveError>)
        requires
            old(self).wf(),
        ensures
            final(self).wf(),
            final(self)@.chunks == old(self)@.chunks,
            final(self)@.next_id == old(self)@.next_id,
            match r {
                Ok(()) => match content_type {
                    TagContentType::Vision => {
                        &&& final(self)@.audio == old(self)@.audio
                        &&& exists|k: int|
                            {
                                &&& 0 <= k < old(self)@.ocr.len()
                                &&& (#[trigger] old(self)@.ocr[k]).frame_id == id
                                &&& final(self)@.ocr == old(self)@.ocr.update(
                                    k,
                                    ocr_with_tags(
                                        old(self)@.ocr[k],
                                        add_labels(old(self)@.ocr[k].tags, tags.deep_view()),
                                    ),
                                )
                                &&& final(self)@.fts == old(self)@.fts.update(
                                    k,
                                    fts_of(
                                        ocr_with_tags(
                                            old(self)@.ocr[k],
                                            add_labels(old(self)@.ocr[k].tags, tags.deep_view()),
                                        ),
                                    ),
                                )
                            }
                    },
                    TagContentType::Audio => {
                        &&& final(self)@.ocr == old(self)@.ocr
                        &&& final(self)@.fts == old(self)@.fts
                        &&& exists|k: int|
                            {
                                &&& 0 <= k < old(self)@.audio.len()
                                &&& (#[trigger] old(self)@.audio[k]).audio_chunk_id == id
                                &&& final(self)@.audio == old(self)@.audio.update(
                                    k,
                                    audio_with_tags(
                                        old(self)@.audio[k],
                                        add_labels(old(self)@.audio[k].tags, tags.deep_view()),
                                    ),
                                )
                            }
                    },
                },
                Err(e) => {
                    &&& e == ArchiveError::NotFound
                    &&& final(self)@ == old(self)@
                    &&& match content_type {
                        TagContentType::Vision => forall|i: int|
                            0 <= i < old(self)@.ocr.len() ==> (#[trigger] old(
                                self,
                            )@.ocr[i]).frame_id != id,
                        TagContentType::Audio => forall|i: int|
                            0 <= i < old(self)@.audio.len() ==> (#[trigger] old(
                                self,
                            )@.audio[i]).audio_chunk_id != id,
                    }
                },
            },
    {
        let ghost pre = self@;
        match content_type {
            TagContentType::Vision => {
                let k = match self.find_ocr(id) {
                    Some(k) => k,
                    None => {
                        return Err(ArchiveError::NotFound);
                    },
                };
                let ghost old_ocr = self.ocr@;
                let ghost old_fts = self.fts@;
                let mut row = self.ocr.remove(k);
                let ghost row0 = row.deep_view();
                Self::extend_labels(&mut row.tags, tags);
                proof {
                    assert(row.deep_view() == ocr_with_tags(row0, add_labels(row0.tags, tags.deep_view())));
                }
                let mut fts_row = self.fts.remove(k);
                fts_row.tags = clone_labels(&row.tags);
                self.ocr.insert(k, row);
                self.fts.insert(k, fts_row);
                proof {
                    let ki = k as int;
                    let tv = add_labels(row0.tags, tags.deep_view());
                    assert(self.ocr@ =~= old_ocr.update(ki, self.ocr@[ki]));
                    assert(self.fts@ =~= old_fts.update(ki, self.fts@[ki]));
                    lemma_deep_view_update(old_ocr, ki, self.ocr@[ki]);
                    lemma_deep_view_update(old_fts, ki, self.fts@[ki]);
                    assert(self.ocr.deep_view() =~= pre.ocr.update(ki, ocr_with_tags(pre.ocr[ki], tv)));
                    assert(old_fts[ki].deep_view() == pre.fts[ki]);
                    assert(pre.fts[ki] == fts_of(pre.ocr[ki]));
                    assert(self.fts@[ki].deep_view().tags == tv);
                    assert(self.fts@[ki].deep_view() == fts_of(ocr_with_tags(pre.ocr[ki], tv)));
                    assert(self.fts.deep_view() =~= pre.fts.update(ki, fts_of(ocr_with_tags(pre.ocr[ki], tv))));
                    lemma_add_labels_props(pre.ocr[ki].tags, tags.deep_view());
                    lemma_update_ocr_tags_wf(pre, self@, ki, tv);
                }
                Ok(())
            },
            TagContentType::Audio => {
                let k = match self.find_audio(id) {
                    Some(k) => k,
                    None => {
                        return Err(ArchiveError::NotFound);
                    },
                };
                let ghost old_audio = self.audio@;
                let mut row = self.audio.remove(k);
                let ghost row0 = row.deep_view();
                Self::extend_labels(&mut row.tags, tags);
                proof {
                    assert(row.deep_view() == audio_with_tags(row0, add_labels(row0.tags, tags.deep_view())));
                }
                self.audio.insert(k, row);
                proof {
                    let ki = k as int;
                    let tv = add_labels(row0.tags, tags.deep_view());
                    assert(self.audio@ =~= old_audio.update(ki, self.audio@[ki]));
                    lemma_deep_view_update(old_audio, ki, self.audio@[ki]);
                    assert(self.audio.deep_view() =~= pre.audio.update(ki, audio_with_tags(pre.audio[ki], tv)));
                    lemma_add_labels_props(pre.audio[ki].tags, tags.deep_view());
                    lemma_update_audio_tags_wf(pre, self@, ki, tv);
                }
                Ok(())
            },
        }
    }

    /// Attaches each label of `tags` to `cur` in order, skipping the ones
    /// already attached.
    fn extend_labels(cur: &mut Vec<String>, tags: &Vec<String>)
        ensures
            final(cur).deep_view() == add_labels(old(cur).deep_view(), tags.deep_view()),
    {
        let ghost cur0 = cur.deep_view();
        let mut j: usize = 0;
        proof {
            assert(tags.deep_view().take(0) =~= Seq::<Seq<char>>::empty());
            assert(add_labels(cur0, tags.deep_view().take(0)) == cur0);
        }
        while j < tags.len()
            invariant
                0 <= j <= tags.len(),
                tags.deep_view().len() == tags@.len(),
                cur.deep_view() == add_labels(cur0, tags.deep_view().take(j as int)),
            decreases tags.len() - j,
        {
            let t = &tags[j];
            let ghost prevd = cur.deep_view();
            let ghost prev = cur@;
            if !crate::text::tags_contain(cur, t) {
                cur.push(t.clone());
                proof {
                    lemma_deep_view_push(prev, cur@[prev.len() as int]);
                    assert(cur.deep_view() =~= prevd.push(t@));
                }
            }
            proof {
                assert(cur.deep_view() == label_step(prevd, tags.deep_view()[j as int]));
                lemma_add_labels_push(cur0, tags.deep_view().take(j as int), tags.deep_view()[j as int]);
                assert(tags.deep_view().take(j as int + 1) =~= tags.deep_view().take(j as int).push(tags.deep_view()[j as int]));
            }
            j += 1;
        }
        proof {
            assert(tags.deep_view().take(tags@.len() as int) =~= tags.deep_view());
        }
    }
}

} // verus!
