//! The retrieval layer: ranked, filterable, paginated queries over the
//! archive, merging OCR and audio rows into one timestamp-ordered result set.
//!
//! The logical result set of a query is `spec_results`: the matching rows of
//! each requested stream, merged by capture timestamp. `search` returns one
//! page of it, `count_search_results` its exact size, and the pagination law
//! (`lemma_pagination_partition`) shows that consecutive pages partition the
//! whole result set.

use vstd::prelude::*;

use crate::archive::Archive;
use crate::archive::ArchiveV;
use crate::archive::AudioRowV;
use crate::archive::ChunkMetaV;
use crate::archive::OcrRowV;
use crate::archive::audio_row_ok;
use crate::archive::audio_sorted;
use crate::archive::ocr_row_ok;
use crate::archive::ocr_sorted;
use crate::archive::wf_v;
use crate::text::contains_seq;
use crate::text::str_contains;

verus! {

/// Which content kinds a search asks for.
#[derive(Clone, Copy, PartialEq, Eq, Structural, Debug)]
pub enum ContentType {
    All,
    OCR,
    Audio,
}

impl Default for ContentType {
    /// A search that names no content type searches everything.
    fn default() -> (r: Self)
        ensures
            r == ContentType::All,
    {
        ContentType::All
    }
}

/// One match as the archive reports it.
pub struct OcrResult {
    pub frame_id: i64,
    pub ocr_text: String,
    pub timestamp: i64,
    pub file_path: String,
    pub offset_index: i64,
    pub app_name: String,
    pub window_name: String,
    pub tags: Vec<String>,
}

pub struct OcrResultV {
    pub frame_id: i64,
    pub ocr_text: Seq<char>,
    pub timestamp: i64,
    pub file_path: Seq<char>,
    pub offset_index: i64,
    pub app_name: Seq<char>,
    pub window_name: Seq<char>,
    pub tags: Seq<Seq<char>>,
}

impl DeepView for OcrResult {
    type V = OcrResultV;

    open spec fn deep_view(&self) -> OcrResultV {
        OcrResultV {
            frame_id: self.frame_id,
            ocr_text: self.ocr_text@,
            timestamp: self.timestamp,
            file_path: self.file_path@,
            offset_index: self.offset_index,
            app_name: self.app_name@,
            window_name: self.window_name@,
            tags: self.tags.deep_view(),
        }
    }
}

pub struct AudioResult {
    pub audio_chunk_id: i64,
    pub transcription: String,
    pub timestamp: i64,
    pub file_path: String,
    pub offset_index: i64,
    pub tags: Vec<String>,
}

pub struct AudioResultV {
    pub audio_chunk_id: i64,
    pub transcription: Seq<char>,
    pub timestamp: i64,
    pub file_path: Seq<char>,
    pub offset_index: i64,
    pub tags: Seq<Seq<char>>,
}

impl DeepView for AudioResult {
    type V = AudioResultV;

    open spec fn deep_view(&self) -> AudioResultV {
        AudioResultV {
            audio_chunk_id: self.audio_chunk_id,
            transcription: self.transcription@,
            timestamp: self.timestamp,
            file_path: self.file_path@,
            offset_index: self.offset_index,
            tags: self.tags.deep_view(),
        }
    }
}

/// A search match: a tagged union over the content kinds.
pub enum SearchResult {
    OCR(OcrResult),
    Audio(AudioResult),
    FTS(FTSResult),
}

pub enum SearchResultV {
    OCR(OcrResultV),
    Audio(AudioResultV),
    FTS(FtsResultV),
}

impl DeepView for SearchResult {
    type V = SearchResultV;

    open spec fn deep_view(&self) -> SearchResultV {
        match self {
            SearchResult::OCR(o) => SearchResultV::OCR(o.deep_view()),
            SearchResult::Audio(a) => SearchResultV::Audio(a.deep_view()),
            SearchResult::FTS(t) => SearchResultV::FTS(t.deep_view()),
        }
    }
}

/// The capture timestamp a result is ordered by.
pub open spec fn result_ts(r: SearchResultV) -> i64 {
    match r {
        SearchResultV::OCR(o) => o.timestamp,
        SearchResultV::Audio(a) => a.timestamp,
        SearchResultV::FTS(t) => t.frame_timestamp,
    }
}

/// One search filter: text query, content kind, time range, window scope.
pub struct FilterV {
    pub q: Seq<char>,
    pub content_type: ContentType,
    pub start: Option<i64>,
    pub end: Option<i64>,
    pub app: Option<Seq<char>>,
    pub window: Option<Seq<char>>,
}

pub open spec fn time_ok(ts: i64, start: Option<i64>, end: Option<i64>) -> bool {
    &&& match start {
        Some(s) => s <= ts,
        None => true,
    }
    &&& match end {
        Some(e) => ts <= e,
        None => true,
    }
}

/// Whether an OCR row matches the filter. An empty text query matches every
/// row; a supplied app or window name must occur in the row's corresponding
/// field.
pub open spec fn ocr_matches(r: OcrRowV, f: FilterV) -> bool {
    &&& f.q.len() == 0 || contains_seq(r.text, f.q)
    &&& time_ok(r.timestamp, f.start, f.end)
    &&& match f.app {
        Some(a) => contains_seq(r.app_name, a),
        None => true,
    }
    &&& match f.window {
        Some(w) => contains_seq(r.window_name, w),
        None => true,
    }
}

/// Whether an audio row matches the filter. Audio rows carry no window
/// metadata, so only the text query and the time range apply.
pub open spec fn audio_matches(r: AudioRowV, f: FilterV) -> bool {
    &&& f.q.len() == 0 || contains_seq(r.transcription, f.q)
    &&& time_ok(r.timestamp, f.start, f.end)
}

/// The result a matching OCR row produces: the row's fields plus the path of
/// its chunk, resolved through the registry.
pub open spec fn ocr_hit(chunks: Seq<ChunkMetaV>, r: OcrRowV) -> SearchResultV {
    SearchResultV::OCR(
        OcrResultV {
            frame_id: r.frame_id,
            ocr_text: r.text,
            timestamp: r.timestamp,
            file_path: chunks[r.chunk].path,
            offset_index: r.offset_index as i64,
            app_name: r.app_name,
            window_name: r.window_name,
            tags: r.tags,
        },
    )
}

pub open spec fn audio_hit(chunks: Seq<ChunkMetaV>, r: AudioRowV) -> SearchResultV {
    SearchResultV::Audio(
        AudioResultV {
            audio_chunk_id: r.audio_chunk_id,
            transcription: r.transcription,
            timestamp: r.timestamp,
            file_path: chunks[r.chunk].path,
            offset_index: r.offset_index as i64,
            tags: r.tags,
        },
    )
}

/// The matching OCR rows, in archive (timestamp) order.
pub open spec fn ocr_hits(chunks: Seq<ChunkMetaV>, rows: Seq<OcrRowV>, f: FilterV) -> Seq<
    SearchResultV,
>
    decreases rows.len(),
{
    if rows.len() == 0 {
        Seq::empty()
    } else {
        let pre = ocr_hits(chunks, rows.drop_last(), f);
        if ocr_matches(rows.last(), f) {
            pre.push(ocr_hit(chunks, rows.last()))
        } else {
            pre
        }
    }
}

/// The matching audio rows, in archive (timestamp) order.
pub open spec fn audio_hits(chunks: Seq<ChunkMetaV>, rows: Seq<AudioRowV>, f: FilterV) -> Seq<
    SearchResultV,
>
    decreases rows.len(),
{
    if rows.len() == 0 {
        Seq::empty()
    } else {
        let pre = audio_hits(chunks, rows.drop_last(), f);
        if audio_matches(rows.last(), f) {
            pre.push(audio_hit(chunks, rows.last()))
        } else {
            pre
        }
    }
}

/// Two timestamp-ordered result sequences merged into one, stable: on a tie
/// the left sequence's element comes first.
pub open spec fn merge_by_ts(x: Seq<SearchResultV>, y: Seq<SearchResultV>) -> Seq<SearchResultV>
    decreases x.len() + y.len(),
{
    if x.len() == 0 {
        y
    } else if y.len() == 0 {
        x
    } else if result_ts(x[0]) <= result_ts(y[0]) {
        seq![x[0]] + merge_by_ts(x.drop_first(), y)
    } else {
        seq![y[0]] + merge_by_ts(x, y.drop_first())
    }
}

/// The full logical result set of a query against a fixed archive snapshot.
pub open spec fn spec_results(a: ArchiveV, f: FilterV) -> Seq<SearchResultV> {
    match f.content_type {
        ContentType::OCR => ocr_hits(a.chunks, a.ocr, f),
        ContentType::Audio => audio_hits(a.chunks, a.audio, f),
        ContentType::All => merge_by_ts(
            ocr_hits(a.chunks, a.ocr, f),
            audio_hits(a.chunks, a.audio, f),
        ),
    }
}

/// The page `[offset, offset + limit)` of a result set, clipped to its end.
pub open spec fn page<T>(s: Seq<T>, limit: int, offset: int) -> Seq<T> {
    let lo = if offset <= s.len() {
        offset
    } else {
        s.len() as int
    };
    let hi = if offset + limit <= s.len() {
        offset + limit
    } else {
        s.len() as int
    };
    s.subrange(lo, hi)
}

/// Results ordered by timestamp, without inversion.
pub open spec fn results_sorted(s: Seq<SearchResultV>) -> bool {
    forall|i: int, j: int|
        0 <= i < j < s.len() ==> result_ts(#[trigger] s[i]) <= result_ts(#[trigger] s[j])
}

pub proof fn lemma_ocr_hits_len(chunks: Seq<ChunkMetaV>, rows: Seq<OcrRowV>, f: FilterV)
    ensures
        ocr_hits(chunks, rows, f).len() <= rows.len(),
    decreases rows.len(),
{
    if rows.len() > 0 {
        lemma_ocr_hits_len(chunks, rows.drop_last(), f);
    }
}

pub proof fn lemma_audio_hits_len(chunks: Seq<ChunkMetaV>, rows: Seq<AudioRowV>, f: FilterV)
    ensures
        audio_hits(chunks, rows, f).len() <= rows.len(),
    decreases rows.len(),
{
    if rows.len() > 0 {
        lemma_audio_hits_len(chunks, rows.drop_last(), f);
    }
}

pub proof fn lemma_merge_len(x: Seq<SearchResultV>, y: Seq<SearchResultV>)
    ensures
        merge_by_ts(x, y).len() == x.len() + y.len(),
    decreases x.len() + y.len(),
{
    if x.len() == 0 {
    } else if y.len() == 0 {
    } else if result_ts(x[0]) <= result_ts(y[0]) {
        lemma_merge_len(x.drop_first(), y);
    } else {
        lemma_merge_len(x, y.drop_first());
    }
}

/// Every element of `ocr_hits` is an OCR hit of a matching row.
pub proof fn lemma_ocr_hits_shape(chunks: Seq<ChunkMetaV>, rows: Seq<OcrRowV>, f: FilterV)
    ensures
        forall|k: int|
            0 <= k < ocr_hits(chunks, rows, f).len() ==> exists|i: int|
                0 <= i < rows.len() && ocr_matches(#[trigger] rows[i], f) && #[trigger] ocr_hits(
                    chunks,
                    rows,
                    f,
                )[k] == ocr_hit(chunks, rows[i]),
    decreases rows.len(),
{
    if rows.len() > 0 {
        let pre = ocr_hits(chunks, rows.drop_last(), f);
        lemma_ocr_hits_shape(chunks, rows.drop_last(), f);
        assert forall|k: int| 0 <= k < ocr_hits(chunks, rows, f).len() implies exists|i: int|
            0 <= i < rows.len() && ocr_matches(#[trigger] rows[i], f) && #[trigger] ocr_hits(
                chunks,
                rows,
                f,
            )[k] == ocr_hit(chunks, rows[i]) by {
            if k < pre.len() {
                let i = choose|i: int|
                    0 <= i < rows.drop_last().len() && ocr_matches(rows.drop_last()[i], f)
                        && pre[k] == ocr_hit(chunks, rows.drop_last()[i]);
                assert(rows.drop_last()[i] == rows[i]);
                assert(ocr_hits(chunks, rows, f)[k] == pre[k]);
            } else {
                assert(ocr_matches(rows.last(), f));
                assert(ocr_hits(chunks, rows, f)[k] == ocr_hit(chunks, rows[rows.len() - 1]));
            }
        }
    }
}

/// Hits of timestamp-ordered rows are timestamp-ordered, and no hit is newer
/// than the newest row.
pub proof fn lemma_ocr_hits_sorted(chunks: Seq<ChunkMetaV>, rows: Seq<OcrRowV>, f: FilterV)
    requires
        ocr_sorted(rows),
    ensures
        results_sorted(ocr_hits(chunks, rows, f)),
        rows.len() > 0 ==> forall|k: int|
            0 <= k < ocr_hits(chunks, rows, f).len() ==> result_ts(
                #[trigger] ocr_hits(chunks, rows, f)[k],
            ) <= rows.last().timestamp,
    decreases rows.len(),
{
    if rows.len() > 0 {
        let d = rows.drop_last();
        assert forall|i: int, j: int| 0 <= i < j < d.len() implies (#[trigger] d[i]).timestamp <= (
        #[trigger] d[j]).timestamp by {
            assert(d[i] == rows[i] && d[j] == rows[j]);
        }
        lemma_ocr_hits_sorted(chunks, d, f);
        let pre = ocr_hits(chunks, d, f);
        let cur = ocr_hits(chunks, rows, f);
        assert forall|k: int| 0 <= k < cur.len() implies result_ts(#[trigger] cur[k])
            <= rows.last().timestamp by {
            if k < pre.len() {
                assert(cur[k] == pre[k]);
                if d.len() > 0 {
                    assert(result_ts(pre[k]) <= d.last().timestamp);
                    assert(d.last() == rows[rows.len() - 2]);
                    assert(rows[rows.len() - 2].timestamp <= rows.last().timestamp);
                }
            } else {
                assert(cur[k] == ocr_hit(chunks, rows.last()));
            }
        }
        assert forall|i: int, j: int| 0 <= i < j < cur.len() implies result_ts(#[trigger] cur[i])
            <= result_ts(#[trigger] cur[j]) by {
            if j < pre.len() {
                assert(cur[i] == pre[i] && cur[j] == pre[j]);
            } else {
                assert(cur[i] == pre[i]);
                if d.len() > 0 {
                    assert(result_ts(pre[i]) <= d.last().timestamp);
                    assert(d.last() == rows[rows.len() - 2]);
                    assert(rows[rows.len() - 2].timestamp <= rows.last().timestamp);
                }
                assert(cur[j] == ocr_hit(chunks, rows.last()));
            }
        }
    }
}

pub proof fn lemma_audio_hits_sorted(chunks: Seq<ChunkMetaV>, rows: Seq<AudioRowV>, f: FilterV)
    requires
        audio_sorted(rows),
    ensures
        results_sorted(audio_hits(chunks, rows, f)),
        rows.len() > 0 ==> forall|k: int|
            0 <= k < audio_hits(chunks, rows, f).len() ==> result_ts(
                #[trigger] audio_hits(chunks, rows, f)[k],
            ) <= rows.last().timestamp,
    decreases rows.len(),
{
    if rows.len() > 0 {
        let d = rows.drop_last();
        assert forall|i: int, j: int| 0 <= i < j < d.len() implies (#[trigger] d[i]).timestamp <= (
        #[trigger] d[j]).timestamp by {
            assert(d[i] == rows[i] && d[j] == rows[j]);
        }
        lemma_audio_hits_sorted(chunks, d, f);
        let pre = audio_hits(chunks, d, f);
        let cur = audio_hits(chunks, rows, f);
        assert forall|k: int| 0 <= k < cur.len() implies result_ts(#[trigger] cur[k])
            <= rows.last().timestamp by {
            if k < pre.len() {
                assert(cur[k] == pre[k]);
                if d.len() > 0 {
                    assert(result_ts(pre[k]) <= d.last().timestamp);
                    assert(d.last() == rows[rows.len() - 2]);
                    assert(rows[rows.len() - 2].timestamp <= rows.last().timestamp);
                }
            } else {
                assert(cur[k] == audio_hit(chunks, rows.last()));
            }
        }
        assert forall|i: int, j: int| 0 <= i < j < cur.len() implies result_ts(#[trigger] cur[i])
            <= result_ts(#[trigger] cur[j]) by {
            if j < pre.len() {
                assert(cur[i] == pre[i] && cur[j] == pre[j]);
            } else {
                assert(cur[i] == pre[i]);
                if d.len() > 0 {
                    assert(result_ts(pre[i]) <= d.last().timestamp);
                    assert(d.last() == rows[rows.len() - 2]);
                    assert(rows[rows.len() - 2].timestamp <= rows.last().timestamp);
                }
                assert(cur[j] == audio_hit(chunks, rows.last()));
            }
        }
    }
}

/// Merging two timestamp-ordered sequences yields a timestamp-ordered
/// sequence whose elements are exactly the inputs' elements.
pub proof fn lemma_merge_sorted(x: Seq<SearchResultV>, y: Seq<SearchResultV>)
    requires
        results_sorted(x),
        results_sorted(y),
    ensures
        results_sorted(merge_by_ts(x, y)),
        forall|k: int|
            0 <= k < merge_by_ts(x, y).len() ==> (exists|i: int|
                0 <= i < x.len() && #[trigger] merge_by_ts(x, y)[k] == x[i]) || (exists|j: int|
                0 <= j < y.len() && merge_by_ts(x, y)[k] == y[j]),
    decreases x.len() + y.len(),
{
    let m = merge_by_ts(x, y);
    if x.len() == 0 {
        assert forall|k: int| 0 <= k < m.len() implies (exists|i: int|
            0 <= i < x.len() && #[trigger] m[k] == x[i]) || (exists|j: int|
            0 <= j < y.len() && m[k] == y[j]) by {
            assert(m[k] == y[k]);
        }
    } else if y.len() == 0 {
        assert forall|k: int| 0 <= k < m.len() implies (exists|i: int|
            0 <= i < x.len() && #[trigger] m[k] == x[i]) || (exists|j: int|
            0 <= j < y.len() && m[k] == y[j]) by {
            assert(m[k] == x[k]);
        }
    } else {
        let (head, xr, yr) = if result_ts(x[0]) <= result_ts(y[0]) {
            (x[0], x.drop_first(), y)
        } else {
            (y[0], x, y.drop_first())
        };
        assert forall|i: int, j: int| 0 <= i < j < xr.len() implies result_ts(#[trigger] xr[i])
            <= result_ts(#[trigger] xr[j]) by {
            if xr.len() < x.len() {
                assert(xr[i] == x[i + 1] && xr[j] == x[j + 1]);
            }
        }
        assert forall|i: int, j: int| 0 <= i < j < yr.len() implies result_ts(#[trigger] yr[i])
            <= result_ts(#[trigger] yr[j]) by {
            if yr.len() < y.len() {
                assert(yr[i] == y[i + 1] && yr[j] == y[j + 1]);
            }
        }
        lemma_merge_sorted(xr, yr);
        let mr = merge_by_ts(xr, yr);
        assert(m == seq![head] + mr);
        // The head is no newer than anything in the rest of the merge.
        assert forall|k: int| 0 <= k < mr.len() implies result_ts(head) <= result_ts(
            #[trigger] mr[k],
        ) by {
            if exists|i: int| 0 <= i < xr.len() && mr[k] == xr[i] {
                let i = choose|i: int| 0 <= i < xr.len() && mr[k] == xr[i];
                if result_ts(x[0]) <= result_ts(y[0]) {
                    assert(xr[i] == x[i + 1]);
                } else {
                    assert(result_ts(y[0]) <= result_ts(x[0]) || true);
                    if i == 0 {
                    } else {
                        assert(result_ts(xr[0]) <= result_ts(xr[i]));
                    }
                    assert(result_ts(head) <= result_ts(x[0]));
                }
            } else {
                let j = choose|j: int| 0 <= j < yr.len() && mr[k] == yr[j];
                if result_ts(x[0]) <= result_ts(y[0]) {
                    if j == 0 {
                    } else {
                        assert(result_ts(yr[0]) <= result_ts(yr[j]));
                    }
                    assert(result_ts(head) <= result_ts(y[0]));
                } else {
                    assert(yr[j] == y[j + 1]);
                }
            }
        }
        assert forall|i: int, j: int| 0 <= i < j < m.len() implies result_ts(#[trigger] m[i])
            <= result_ts(#[trigger] m[j]) by {
            if i == 0 {
                assert(m[j] == mr[j - 1]);
            } else {
                assert(m[i] == mr[i - 1] && m[j] == mr[j - 1]);
            }
        }
        assert forall|k: int| 0 <= k < m.len() implies (exists|i: int|
            0 <= i < x.len() && #[trigger] m[k] == x[i]) || (exists|j: int|
            0 <= j < y.len() && m[k] == y[j]) by {
            if k == 0 {
                if result_ts(x[0]) <= result_ts(y[0]) {
                    assert(m[0] == x[0]);
                } else {
                    assert(m[0] == y[0]);
                }
            } else {
                assert(m[k] == mr[k - 1]);
                if exists|i: int| 0 <= i < xr.len() && mr[k - 1] == xr[i] {
                    let i = choose|i: int| 0 <= i < xr.len() && mr[k - 1] == xr[i];
                    if xr.len() < x.len() {
                        assert(xr[i] == x[i + 1]);
                    }
                } else {
                    let j = choose|j: int| 0 <= j < yr.len() && mr[k - 1] == yr[j];
                    if yr.len() < y.len() {
                        assert(yr[j] == y[j + 1]);
                    }
                }
            }
        }
    }
}

/// The logical result set of any query over a well-formed archive is ordered
/// by capture timestamp.
pub proof fn lemma_results_sorted(a: ArchiveV, f: FilterV)
    requires
        wf_v(a),
    ensures
        results_sorted(spec_results(a, f)),
{
    lemma_ocr_hits_sorted(a.chunks, a.ocr, f);
    lemma_audio_hits_sorted(a.chunks, a.audio, f);
    if f.content_type is All {
        lemma_merge_sorted(ocr_hits(a.chunks, a.ocr, f), audio_hits(a.chunks, a.audio, f));
    }
}

/// No ordering inversion: if one result was captured strictly before another,
/// it stands strictly earlier in the result set.
pub proof fn lemma_no_ordering_inversion(a: ArchiveV, f: FilterV, i: int, j: int)
    requires
        wf_v(a),
        0 <= i < spec_results(a, f).len(),
        0 <= j < spec_results(a, f).len(),
        result_ts(spec_results(a, f)[i]) < result_ts(spec_results(a, f)[j]),
    ensures
        i < j,
{
    lemma_results_sorted(a, f);
}

/// The logical result set is never larger than the archive's row count.
pub proof fn lemma_spec_results_len(a: ArchiveV, f: FilterV)
    ensures
        spec_results(a, f).len() <= a.ocr.len() + a.audio.len(),
{
    lemma_ocr_hits_len(a.chunks, a.ocr, f);
    lemma_audio_hits_len(a.chunks, a.audio, f);
    if f.content_type is All {
        lemma_merge_len(ocr_hits(a.chunks, a.ocr, f), audio_hits(a.chunks, a.audio, f));
    }
}

/// The filter a query's parts denote.
pub open spec fn mk_filter(
    q: Seq<char>,
    content_type: ContentType,
    start: Option<i64>,
    end: Option<i64>,
    app: Option<Seq<char>>,
    window: Option<Seq<char>>,
) -> FilterV {
    FilterV { q, content_type, start, end, app, window }
}

/// The capture timestamp a result is ordered by.
pub fn ts_of(r: &SearchResult) -> (t: i64)
    ensures
        t == result_ts(r.deep_view()),
{
    match r {
        SearchResult::OCR(o) => o.timestamp,
        SearchResult::Audio(a) => a.timestamp,
        SearchResult::FTS(t) => t.frame_timestamp,
    }
}

/// Whether `ts` lies in the (optional) time range.
fn time_in(ts: i64, start: Option<i64>, end: Option<i64>) -> (b: bool)
    ensures
        b == time_ok(ts, start, end),
{
    let start_ok = match start {
        Some(s) => s <= ts,
        None => true,
    };
    let end_ok = match end {
        Some(e) => ts <= e,
        None => true,
    };
    start_ok && end_ok
}

impl Archive {
    /// The matching OCR rows as results, in archive order.
    fn collect_ocr_hits(
        &self,
        q: &str,
        start_time: Option<i64>,
        end_time: Option<i64>,
        app_name: Option<&String>,
        window_name: Option<&String>,
        Ghost(f): Ghost<FilterV>,
    ) -> (r: Vec<SearchResult>)
        requires
            self.wf(),
            f.q == q@,
            f.start == start_time,
            f.end == end_time,
            f.app == app_name.deep_view(),
            f.window == window_name.deep_view(),
        ensures
            r.deep_view() == ocr_hits(self@.chunks, self@.ocr, f),
    {
        let mut out: Vec<SearchResult> = Vec::new();
        let mut i: usize = 0;
        let n = self.ocr_count();
        proof {
            assert(self@.ocr.take(0) =~= Seq::<OcrRowV>::empty());
            assert(out.deep_view() =~= ocr_hits(self@.chunks, self@.ocr.take(0), f));
        }
        while i < n
            invariant
                0 <= i <= n,
                n == self@.ocr.len(),
                self.wf(),
                f.q == q@,
                f.start == start_time,
                f.end == end_time,
                f.app == app_name.deep_view(),
                f.window == window_name.deep_view(),
                out.deep_view() == ocr_hits(self@.chunks, self@.ocr.take(i as int), f),
            decreases n - i,
        {
            let ghost rowv = self@.ocr[i as int];
            let row = self.ocr_at(i);
            let m = (q.is_empty() || str_contains(row.text.as_str(), q)) && time_in(
                row.timestamp,
                start_time,
                end_time,
            ) && (match app_name {
                Some(a) => str_contains(row.app_name.as_str(), a.as_str()),
                None => true,
            }) && (match window_name {
                Some(w) => str_contains(row.window_name.as_str(), w.as_str()),
                None => true,
            });
            proof {
                assert(m == ocr_matches(rowv, f));
                assert(self@.ocr.take(i as int + 1).drop_last() =~= self@.ocr.take(i as int));
                assert(self@.ocr.take(i as int + 1).last() == rowv);
            }
            if m {
                proof {
                    assert(ocr_row_ok(self@.chunks, self@.next_id, self@.ocr[i as int]));
                }
                let ghost prev = out@;
                let hit = SearchResult::OCR(
                    OcrResult {
                        frame_id: row.frame_id,
                        ocr_text: row.text.clone(),
                        timestamp: row.timestamp,
                        file_path: self.chunk_path(row.chunk).clone(),
                        offset_index: row.offset_index as i64,
                        app_name: row.app_name.clone(),
                        window_name: row.window_name.clone(),
                        tags: crate::archive::clone_labels(&row.tags),
                    },
                );
                proof {
                    assert(hit.deep_view() == ocr_hit(self@.chunks, rowv));
                }
                out.push(hit);
                proof {
                    crate::archive::lemma_deep_view_push(prev, out@[prev.len() as int]);
                    assert(out.deep_view() =~= ocr_hits(self@.chunks, self@.ocr.take(i as int + 1), f));
                }
            }
            i += 1;
        }
        proof {
            assert(self@.ocr.take(self@.ocr.len() as int) =~= self@.ocr);
        }
        out
    }

    /// The matching audio rows as results, in archive order.
    fn collect_audio_hits(
        &self,
        q: &str,
        start_time: Option<i64>,
        end_time: Option<i64>,
        Ghost(f): Ghost<FilterV>,
    ) -> (r: Vec<SearchResult>)
        requires
            self.wf(),
            f.q == q@,
            f.start == start_time,
            f.end == end_time,
        ensures
            r.deep_view() == audio_hits(self@.chunks, self@.audio, f),
    {
        let mut out: Vec<SearchResult> = Vec::new();
        let mut i: usize = 0;
        let n = self.audio_count();
        proof {
            assert(self@.audio.take(0) =~= Seq::<AudioRowV>::empty());
            assert(out.deep_view() =~= audio_hits(self@.chunks, self@.audio.take(0), f));
        }
        while i < n
            invariant
                0 <= i <= n,
                n == self@.audio.len(),
                self.wf(),
                f.q == q@,
                f.start == start_time,
                f.end == end_time,
                out.deep_view() == audio_hits(self@.chunks, self@.audio.take(i as int), f),
            decreases n - i,
        {
            let ghost rowv = self@.audio[i as int];
            let row = self.audio_at(i);
            let m = (q.is_empty() || str_contains(row.transcription.as_str(), q)) && time_in(
                row.timestamp,
                start_time,
                end_time,
            );
            proof {
                assert(m == audio_matches(rowv, f));
                assert(self@.audio.take(i as int + 1).drop_last() =~= self@.audio.take(i as int));
                assert(self@.audio.take(i as int + 1).last() == rowv);
            }
            if m {
                proof {
                    assert(audio_row_ok(self@.chunks, self@.next_id, self@.audio[i as int]));
                }
                let ghost prev = out@;
                let hit = SearchResult::Audio(
                    AudioResult {
                        audio_chunk_id: row.audio_chunk_id,
                        transcription: row.transcription.clone(),
                        timestamp: row.timestamp,
                        file_path: self.chunk_path(row.chunk).clone(),
                        offset_index: row.offset_index as i64,
                        tags: crate::archive::clone_labels(&row.tags),
                    },
                );
                proof {
                    assert(hit.deep_view() == audio_hit(self@.chunks, rowv));
                }
                out.push(hit);
                proof {
                    crate::archive::lemma_deep_view_push(prev, out@[prev.len() as int]);
                    assert(out.deep_view() =~= audio_hits(self@.chunks, self@.audio.take(i as int + 1), f));
                }
            }
            i += 1;
        }
        proof {
            assert(self@.audio.take(self@.audio.len() as int) =~= self@.audio);
        }
        out
    }
}

/// Merges two timestamp-ordered result lists into one, stable.
fn merge_results(x: Vec<SearchResult>, y: Vec<SearchResult>) -> (r: Vec<SearchResult>)
    ensures
        r.deep_view() == merge_by_ts(x.deep_view(), y.deep_view()),
{
    let ghost x0 = x.deep_view();
    let ghost y0 = y.deep_view();
    let mut x = x;
    let mut y = y;
    let mut out: Vec<SearchResult> = Vec::new();
    proof {
        assert(out.deep_view() =~= Seq::<SearchResultV>::empty());
        assert(out.deep_view() + merge_by_ts(x0, y0) =~= merge_by_ts(x0, y0));
    }
    while x.len() > 0 || y.len() > 0
        invariant
            merge_by_ts(x0, y0) == out.deep_view() + merge_by_ts(x.deep_view(), y.deep_view()),
        decreases x.len() + y.len(),
    {
        let ghost xd = x.deep_view();
        let ghost yd = y.deep_view();
        let ghost outd = out.deep_view();
        let take_x = if y.len() == 0 {
            true
        } else if x.len() == 0 {
            false
        } else {
            ts_of(&x[0]) <= ts_of(&y[0])
        };
        let ghost prev_out = out@;
        if take_x {
            let ghost xe = x@;
            let e = x.remove(0);
            out.push(e);
            proof {
                crate::archive::lemma_deep_view_remove(xe, 0);
                assert(x.deep_view() =~= xd.drop_first());
                crate::archive::lemma_deep_view_push(prev_out, out@[prev_out.len() as int]);
                assert(out.deep_view() =~= outd.push(xd[0]));
                if yd.len() == 0 {
                    assert(merge_by_ts(xd, yd) == xd);
                    assert(xd =~= seq![xd[0]] + xd.drop_first());
                    assert(merge_by_ts(xd.drop_first(), yd) == xd.drop_first());
                } else {
                    assert(merge_by_ts(xd, yd) == seq![xd[0]] + merge_by_ts(xd.drop_first(), yd));
                }
                assert(outd + (seq![xd[0]] + merge_by_ts(xd.drop_first(), yd)) =~= outd.push(xd[0])
                    + merge_by_ts(xd.drop_first(), yd));
            }
        } else {
            let ghost ye = y@;
            let e = y.remove(0);
            out.push(e);
            proof {
                crate::archive::lemma_deep_view_remove(ye, 0);
                assert(y.deep_view() =~= yd.drop_first());
                crate::archive::lemma_deep_view_push(prev_out, out@[prev_out.len() as int]);
                assert(out.deep_view() =~= outd.push(yd[0]));
                if xd.len() == 0 {
                    assert(merge_by_ts(xd, yd) == yd);
                    assert(yd =~= seq![yd[0]] + yd.drop_first());
                    assert(merge_by_ts(xd, yd.drop_first()) == yd.drop_first());
                } else {
                    assert(result_ts(xd[0]) > result_ts(yd[0]));
                    assert(merge_by_ts(xd, yd) == seq![yd[0]] + merge_by_ts(xd, yd.drop_first()));
                }
                assert(outd + (seq![yd[0]] + merge_by_ts(xd, yd.drop_first())) =~= outd.push(yd[0])
                    + merge_by_ts(xd, yd.drop_first()));
            }
        }
    }
    proof {
        assert(merge_by_ts(x.deep_view(), y.deep_view()) =~= Seq::<SearchResultV>::empty());
        assert(out.deep_view() + Seq::<SearchResultV>::empty() =~= out.deep_view());
    }
    out
}

/// One page of a result list: `limit` results starting at `offset`, clipped
/// to the end of the list.
fn page_of(results: Vec<SearchResult>, limit: u32, offset: u32) -> (r: Vec<SearchResult>)
    ensures
        r.deep_view() == page(results.deep_view(), limit as int, offset as int),
{
    let ghost v0 = results.deep_view();
    let mut v = results;
    let mut skipped: u32 = 0;
    proof {
        assert(v.deep_view() =~= v0.skip(0));
    }
    while skipped < offset && v.len() > 0
        invariant
            0 <= skipped <= offset,
            skipped as int <= v0.len(),
            v.deep_view() =~= v0.skip(skipped as int),
        decreases offset - skipped,
    {
        let ghost ve = v@;
        let ghost vd = v.deep_view();
        v.remove(0);
        proof {
            crate::archive::lemma_deep_view_remove(ve, 0);
            assert(v.deep_view() =~= vd.drop_first());
            assert(v0.skip(skipped as int).drop_first() =~= v0.skip(skipped as int + 1));
        }
        skipped += 1;
    }
    let ghost lo = skipped as int;
    proof {
        assert(lo == if offset as int <= v0.len() { offset as int } else { v0.len() as int });
    }
    let mut out: Vec<SearchResult> = Vec::new();
    proof {
        assert(out.deep_view() =~= v0.subrange(lo, lo));
    }
    while out.len() < limit as usize && v.len() > 0
        invariant
            out@.len() <= limit,
            lo + out@.len() <= v0.len(),
            lo == if offset as int <= v0.len() { offset as int } else { v0.len() as int },
            out.deep_view() =~= v0.subrange(lo, lo + out@.len() as int),
            v.deep_view() =~= v0.skip(lo + out@.len() as int),
        decreases v.len(),
    {
        let ghost ve = v@;
        let ghost vd = v.deep_view();
        let ghost outd = out.deep_view();
        let ghost prev_out = out@;
        let e = v.remove(0);
        out.push(e);
        proof {
            crate::archive::lemma_deep_view_remove(ve, 0);
            assert(v.deep_view() =~= vd.drop_first());
            assert(v0.skip(lo + prev_out.len() as int).drop_first() =~= v0.skip(
                lo + prev_out.len() as int + 1,
            ));
            crate::archive::lemma_deep_view_push(prev_out, out@[prev_out.len() as int]);
            assert(out@[prev_out.len() as int].deep_view() == vd[0]);
            assert(vd[0] == v0[lo + prev_out.len() as int]);
            assert(out.deep_view() =~= v0.subrange(lo, lo + out@.len() as int));
        }
    }
    proof {
        let hi = if offset as int + limit as int <= v0.len() {
            offset as int + limit as int
        } else {
            v0.len() as int
        };
        if out@.len() == limit as int {
            if offset as int <= v0.len() {
                assert(lo == offset as int);
                assert(lo + out@.len() <= v0.len());
            } else {
                assert(lo == v0.len() as int);
                assert(out@.len() == 0);
            }
        } else {
            assert(v.deep_view().len() == 0);
            assert(lo + out@.len() == v0.len());
        }
        assert(lo + out@.len() as int == hi);
    }
    out
}

impl Archive {
    /// One page of the results matching the filter, ordered by capture
    /// timestamp: the `limit` results starting at `offset` within the full
    /// logical result set of this snapshot.
    pub fn search(
        &self,
        q: &str,
        content_type: ContentType,
        limit: u32,
        offset: u32,
        start_time: Option<i64>,
        end_time: Option<i64>,
        app_name: Option<&String>,
        window_name: Option<&String>,
    ) -> (r: Vec<SearchResult>)
        requires
            self.wf(),
        ensures
            r.deep_view() == page(
                spec_results(
                    self@,
                    mk_filter(
                        q@,
                        content_type,
                        start_time,
                        end_time,
                        app_name.deep_view(),
                        window_name.deep_view(),
                    ),
                ),
                limit as int,
                offset as int,
            ),
    {
        let ghost f = mk_filter(
            q@,
            content_type,
            start_time,
            end_time,
            app_name.deep_view(),
            window_name.deep_view(),
        );
        match content_type {
            ContentType::OCR => page_of(
                self.collect_ocr_hits(q, start_time, end_time, app_name, window_name, Ghost(f)),
                limit,
                offset,
            ),
            ContentType::Audio => page_of(
                self.collect_audio_hits(q, start_time, end_time, Ghost(f)),
                limit,
                offset,
            ),
            ContentType::All => page_of(
                merge_results(
                    self.collect_ocr_hits(q, start_time, end_time, app_name, window_name, Ghost(f)),
                    self.collect_audio_hits(q, start_time, end_time, Ghost(f)),
                ),
                limit,
                offset,
            ),
        }
    }

    /// The exact number of results matching the filter: the size of the full
    /// logical result set that `search` pages over.
    pub fn count_search_results(
        &self,
        q: &str,
        content_type: ContentType,
        start_time: Option<i64>,
        end_time: Option<i64>,
        app_name: Option<&String>,
        window_name: Option<&String>,
    ) -> (r: u64)
        requires
            self.wf(),
        ensures
            r == spec_results(
                self@,
                mk_filter(
                    q@,
                    content_type,
                    start_time,
                    end_time,
                    app_name.deep_view(),
                    window_name.deep_view(),
                ),
            ).len(),
    {
        let ghost f = mk_filter(
            q@,
            content_type,
            start_time,
            end_time,
            app_name.deep_view(),
            window_name.deep_view(),
        );
        let o = match content_type {
            ContentType::Audio => Vec::new(),
            _ => self.collect_ocr_hits(q, start_time, end_time, app_name, window_name, Ghost(f)),
        };
        let a = match content_type {
            ContentType::OCR => Vec::new(),
            _ => self.collect_audio_hits(q, start_time, end_time, Ghost(f)),
        };
        proof {
            lemma_ocr_hits_len(self@.chunks, self@.ocr, f);
            lemma_audio_hits_len(self@.chunks, self@.audio, f);
            if content_type is All {
                lemma_merge_len(
                    ocr_hits(self@.chunks, self@.ocr, f),
                    audio_hits(self@.chunks, self@.audio, f),
                );
            }
            assert(o@.len() == o.deep_view().len());
            assert(a@.len() == a.deep_view().len());
        }
        match content_type {
            ContentType::OCR => o.len() as u64,
            ContentType::Audio => a.len() as u64,
            ContentType::All => o.len() as u64 + a.len() as u64,
        }
    }
}

/// One full-text match as the archive reports it. The capture pipeline in
/// this crate answers text queries from the OCR and audio rows directly, but
/// the result model keeps the full-text variant so every consumer of the
/// archive's result set can render it.
pub struct FTSResult {
    pub text_id: i64,
    pub matched_text: String,
    pub frame_id: i64,
    pub frame_timestamp: i64,
    pub app_name: String,
    pub window_name: String,
    pub video_file_path: String,
    pub original_frame_text: Option<String>,
    pub tags: Vec<String>,
}

pub struct FtsResultV {
    pub text_id: i64,
    pub matched_text: Seq<char>,
    pub frame_id: i64,
    pub frame_timestamp: i64,
    pub app_name: Seq<char>,
    pub window_name: Seq<char>,
    pub video_file_path: Seq<char>,
    pub original_frame_text: Option<Seq<char>>,
    pub tags: Seq<Seq<char>>,
}

impl DeepView for FTSResult {
    type V = FtsResultV;

    open spec fn deep_view(&self) -> FtsResultV {
        FtsResultV {
            text_id: self.text_id,
            matched_text: self.matched_text@,
            frame_id: self.frame_id,
            frame_timestamp: self.frame_timestamp,
            app_name: self.app_name@,
            window_name: self.window_name@,
            video_file_path: self.video_file_path@,
            original_frame_text: self.original_frame_text.deep_view(),
            tags: self.tags.deep_view(),
        }
    }
}

/// An OCR item rendered for a consumer; `frame` optionally carries the
/// rehydrated still image, which only the process shell can decode.
pub struct OCRContent {
    pub frame_id: i64,
    pub text: String,
    pub timestamp: i64,
    pub file_path: String,
    pub offset_index: i64,
    pub app_name: String,
    pub window_name: String,
    pub tags: Vec<String>,
    pub frame: Option<String>,
}

pub struct OcrContentV {
    pub frame_id: i64,
    pub text: Seq<char>,
    pub timestamp: i64,
    pub file_path: Seq<char>,
    pub offset_index: i64,
    pub app_name: Seq<char>,
    pub window_name: Seq<char>,
    pub tags: Seq<Seq<char>>,
    pub frame: Option<Seq<char>>,
}

impl DeepView for OCRContent {
    type V = OcrContentV;

    open spec fn deep_view(&self) -> OcrContentV {
        OcrContentV {
            frame_id: self.frame_id,
            text: self.text@,
            timestamp: self.timestamp,
            file_path: self.file_path@,
            offset_index: self.offset_index,
            app_name: self.app_name@,
            window_name: self.window_name@,
            tags: self.tags.deep_view(),
            frame: self.frame.deep_view(),
        }
    }
}

pub struct AudioContent {
    pub chunk_id: i64,
    pub transcription: String,
    pub timestamp: i64,
    pub file_path: String,
    pub offset_index: i64,
    pub tags: Vec<String>,
}

pub struct AudioContentV {
    pub chunk_id: i64,
    pub transcription: Seq<char>,
    pub timestamp: i64,
    pub file_path: Seq<char>,
    pub offset_index: i64,
    pub tags: Seq<Seq<char>>,
}

impl DeepView for AudioContent {
    type V = AudioContentV;

    open spec fn deep_view(&self) -> AudioContentV {
        AudioContentV {
            chunk_id: self.chunk_id,
            transcription: self.transcription@,
            timestamp: self.timestamp,
            file_path: self.file_path@,
            offset_index: self.offset_index,
            tags: self.tags.deep_view(),
        }
    }
}

pub struct FTSContent {
    pub text_id: i64,
    pub matched_text: String,
    pub frame_id: i64,
    pub timestamp: i64,
    pub app_name: String,
    pub window_name: String,
    pub file_path: String,
    pub original_frame_text: Option<String>,
    pub tags: Vec<String>,
}

pub struct FtsContentV {
    pub text_id: i64,
    pub matched_text: Seq<char>,
    pub frame_id: i64,
    pub timestamp: i64,
    pub app_name: Seq<char>,
    pub window_name: Seq<char>,
    pub file_path: Seq<char>,
    pub original_frame_text: Option<Seq<char>>,
    pub tags: Seq<Seq<char>>,
}

impl DeepView for FTSContent {
    type V = FtsContentV;

    open spec fn deep_view(&self) -> FtsContentV {
        FtsContentV {
            text_id: self.text_id,
            matched_text: self.matched_text@,
            frame_id: self.frame_id,
            timestamp: self.timestamp,
            app_name: self.app_name@,
            window_name: self.window_name@,
            file_path: self.file_path@,
            original_frame_text: self.original_frame_text.deep_view(),
            tags: self.tags.deep_view(),
        }
    }
}

/// One rendered result of a paginated search response.
pub enum ContentItem {
    OCR(OCRContent),
    Audio(AudioContent),
    FTS(FTSContent),
}

pub enum ContentItemV {
    OCR(OcrContentV),
    Audio(AudioContentV),
    FTS(FtsContentV),
}

impl DeepView for ContentItem {
    type V = ContentItemV;

    open spec fn deep_view(&self) -> ContentItemV {
        match self {
            ContentItem::OCR(o) => ContentItemV::OCR(o.deep_view()),
            ContentItem::Audio(a) => ContentItemV::Audio(a.deep_view()),
            ContentItem::FTS(f) => ContentItemV::FTS(f.deep_view()),
        }
    }
}

/// How a search result is rendered for a consumer. An OCR result's still
/// frame starts out absent; rehydration is the shell's decision.
pub open spec fn content_item_of(r: SearchResultV) -> ContentItemV {
    match r {
        SearchResultV::OCR(o) => ContentItemV::OCR(
            OcrContentV {
                frame_id: o.frame_id,
                text: o.ocr_text,
                timestamp: o.timestamp,
                file_path: o.file_path,
                offset_index: o.offset_index,
                app_name: o.app_name,
                window_name: o.window_name,
                tags: o.tags,
                frame: None,
            },
        ),
        SearchResultV::Audio(a) => ContentItemV::Audio(
            AudioContentV {
                chunk_id: a.audio_chunk_id,
                transcription: a.transcription,
                timestamp: a.timestamp,
                file_path: a.file_path,
                offset_index: a.offset_index,
                tags: a.tags,
            },
        ),
        SearchResultV::FTS(t) => ContentItemV::FTS(
            FtsContentV {
                text_id: t.text_id,
                matched_text: t.matched_text,
                frame_id: t.frame_id,
                timestamp: t.frame_timestamp,
                app_name: t.app_name,
                window_name: t.window_name,
                file_path: t.video_file_path,
                original_frame_text: t.original_frame_text,
                tags: t.tags,
            },
        ),
    }
}

pub open spec fn items_of(s: Seq<SearchResultV>) -> Seq<ContentItemV> {
    s.map_values(|r: SearchResultV| content_item_of(r))
}

/// Pagination echo of a search response: the requested window and the exact
/// total the window pages over.
pub struct PaginationInfo {
    pub limit: u32,
    pub offset: u32,
    pub total: i64,
}

/// One page of results together with its pagination info.
pub struct PaginatedResponse<T> {
    pub data: Vec<T>,
    pub pagination: PaginationInfo,
}

/// One search request, as the transport hands it over.
pub struct SearchQuery {
    pub q: Option<String>,
    pub limit: u32,
    pub offset: u32,
    pub content_type: ContentType,
    pub start_time: Option<i64>,
    pub end_time: Option<i64>,
    pub app_name: Option<String>,
    pub window_name: Option<String>,
    pub include_frames: bool,
}

/// The content kind a query effectively searches: naming an app or a window
/// forces OCR, because audio rows carry no window metadata.
pub open spec fn effective_content_type(q: &SearchQuery) -> ContentType {
    if q.app_name is Some || q.window_name is Some {
        ContentType::OCR
    } else {
        q.content_type
    }
}

/// The filter a search request denotes, after content-type forcing. A missing
/// text query is the empty query, which matches everything.
pub open spec fn query_filter(q: &SearchQuery) -> FilterV {
    FilterV {
        q: match q.q {
            Some(s) => s@,
            None => Seq::empty(),
        },
        content_type: effective_content_type(q),
        start: q.start_time,
        end: q.end_time,
        app: match q.app_name {
            Some(a) => Some(a@),
            None => None,
        },
        window: match q.window_name {
            Some(w) => Some(w@),
            None => None,
        },
    }
}

/// Executes one search request against a snapshot of the archive: forces the
/// content type, retrieves the requested page, counts the whole result set,
/// and renders the page. When an app or window name is given, every returned
/// item is an OCR item whose app or window name contains the given one.
pub fn search_content(archive: &Archive, query: &SearchQuery) -> (r: PaginatedResponse<ContentItem>)
    requires
        archive.wf(),
    ensures
        r.pagination.limit == query.limit,
        r.pagination.offset == query.offset,
        r.pagination.total == spec_results(archive@, query_filter(query)).len(),
        r.data.deep_view() == items_of(
            page(
                spec_results(archive@, query_filter(query)),
                query.limit as int,
                query.offset as int,
            ),
        ),
        query.app_name is Some || query.window_name is Some ==> forall|i: int|
            0 <= i < r.data.deep_view().len() ==> (#[trigger] r.data.deep_view()[i]) is OCR,
        forall|i: int|
            0 <= i < r.data.deep_view().len() ==> ((#[trigger] r.data.deep_view()[i]) matches
            ContentItemV::OCR(o) ==> match query.app_name {
                Some(a) => contains_seq(o.app_name, a@),
                None => true,
            }),
{
    let ghost f = query_filter(query);
    let ghost rs = spec_results(archive@, f);
    let qs: &str = match &query.q {
        Some(s) => s.as_str(),
        None => "",
    };
    proof {
        reveal_strlit("");
        if query.q is None {
            assert(qs@ =~= Seq::<char>::empty());
        }
        assert(qs@ == f.q);
    }
    let content_type = if query.app_name.is_some() || query.window_name.is_some() {
        ContentType::OCR
    } else {
        query.content_type
    };
    let app_ref = query.app_name.as_ref();
    let window_ref = query.window_name.as_ref();
    proof {
        assert(app_ref.deep_view() == f.app);
        assert(window_ref.deep_view() == f.window);
        assert(mk_filter(
            qs@,
            content_type,
            query.start_time,
            query.end_time,
            app_ref.deep_view(),
            window_ref.deep_view(),
        ) == f);
    }
    let results = archive.search(
        qs,
        content_type,
        query.limit,
        query.offset,
        query.start_time,
        query.end_time,
        app_ref,
        window_ref,
    );
    let total = archive.count_search_results(
        qs,
        content_type,
        query.start_time,
        query.end_time,
        app_ref,
        window_ref,
    );
    proof {
        lemma_spec_results_len(archive@, f);
        assert(total <= i64::MAX as u64);
    }
    let ghost page_v = results.deep_view();
    let mut results = results;
    let mut items: Vec<ContentItem> = Vec::new();
    proof {
        assert(items.deep_view() =~= items_of(page_v.take(0)));
        assert(results.deep_view() =~= page_v.skip(0));
    }
    while results.len() > 0
        invariant
            items@.len() + results@.len() == page_v.len(),
            items.deep_view() == items_of(page_v.take(items@.len() as int)),
            results.deep_view() =~= page_v.skip(items@.len() as int),
        decreases results.len(),
    {
        let ghost done = items@.len() as int;
        let ghost re = results@;
        let ghost rd = results.deep_view();
        let ghost prev_items = items@;
        let r = results.remove(0);
        proof {
            assert(r.deep_view() == rd[0]);
            assert(rd[0] == page_v[done]);
        }
        let item = match r {
            SearchResult::OCR(o) => ContentItem::OCR(
                OCRContent {
                    frame_id: o.frame_id,
                    text: o.ocr_text,
                    timestamp: o.timestamp,
                    file_path: o.file_path,
                    offset_index: o.offset_index,
                    app_name: o.app_name,
                    window_name: o.window_name,
                    tags: o.tags,
                    frame: None,
                },
            ),
            SearchResult::Audio(a) => ContentItem::Audio(
                AudioContent {
                    chunk_id: a.audio_chunk_id,
                    transcription: a.transcription,
                    timestamp: a.timestamp,
                    file_path: a.file_path,
                    offset_index: a.offset_index,
                    tags: a.tags,
                },
            ),
            SearchResult::FTS(t) => ContentItem::FTS(
                FTSContent {
                    text_id: t.text_id,
                    matched_text: t.matched_text,
                    frame_id: t.frame_id,
                    timestamp: t.frame_timestamp,
                    app_name: t.app_name,
                    window_name: t.window_name,
                    file_path: t.video_file_path,
                    original_frame_text: t.original_frame_text,
                    tags: t.tags,
                },
            ),
        };
        proof {
            assert(item.deep_view() == content_item_of(page_v[done]));
        }
        items.push(item);
        proof {
            crate::archive::lemma_deep_view_remove(re, 0);
            assert(results.deep_view() =~= rd.drop_first());
            assert(page_v.skip(done).drop_first() =~= page_v.skip(done + 1));
            crate::archive::lemma_deep_view_push(prev_items, items@[done]);
            assert(items.deep_view() =~= items_of(page_v.take(done + 1)));
        }
    }
    proof {
        assert(page_v.take(page_v.len() as int) =~= page_v);
        let lo = if query.offset as int <= rs.len() {
            query.offset as int
        } else {
            rs.len() as int
        };
        assert(page_v == page(rs, query.limit as int, query.offset as int));
        if f.content_type is OCR {
            assert(rs == ocr_hits(archive@.chunks, archive@.ocr, f));
            lemma_ocr_hits_shape(archive@.chunks, archive@.ocr, f);
            assert forall|i: int| 0 <= i < items.deep_view().len() implies (
            #[trigger] items.deep_view()[i]) is OCR && (items.deep_view()[i] matches
            ContentItemV::OCR(o) ==> match query.app_name {
                Some(a) => contains_seq(o.app_name, a@),
                None => true,
            }) by {
                assert(items.deep_view()[i] == content_item_of(page_v[i]));
                assert(page_v[i] == rs[lo + i]);
                let j = choose|j: int|
                    0 <= j < archive@.ocr.len() && ocr_matches(#[trigger] archive@.ocr[j], f)
                        && rs[lo + i] == ocr_hit(archive@.chunks, archive@.ocr[j]);
                assert(ocr_matches(archive@.ocr[j], f));
            }
        }
        if query.app_name is Some || query.window_name is Some {
            assert(f.content_type is OCR);
        }
        assert forall|i: int| 0 <= i < items.deep_view().len() implies ((
        #[trigger] items.deep_view()[i]) matches ContentItemV::OCR(o) ==> match query.app_name {
            Some(a) => contains_seq(o.app_name, a@),
            None => true,
        }) by {
            if query.app_name is Some {
                assert(f.content_type is OCR);
            }
        }
    }
    PaginatedResponse {
        data: items,
        pagination: PaginationInfo { limit: query.limit, offset: query.offset, total: total as i64 },
    }
}

/// The concatenation of the first `k` pages of size `n`.
pub open spec fn pages_concat<T>(s: Seq<T>, n: int, k: int) -> Seq<T>
    decreases k,
{
    if k <= 0 {
        Seq::empty()
    } else {
        pages_concat(s, n, k - 1) + page(s, n, (k - 1) * n)
    }
}

/// Pagination partition law: for a fixed result set and page size, the first
/// `k` pages concatenate to exactly the first `k * n` results — no result is
/// repeated and none is omitted — and their sizes add up accordingly.
pub proof fn lemma_pagination_partition<T>(s: Seq<T>, n: int, k: int)
    requires
        n > 0,
        k >= 0,
    ensures
        pages_concat(s, n, k) == s.take(
            if k * n <= s.len() {
                k * n
            } else {
                s.len() as int
            },
        ),
        pages_concat(s, n, k).len() == if k * n <= s.len() {
            k * n
        } else {
            s.len() as int
        },
    decreases k,
{
    if k == 0 {
        assert(k * n == 0) by (nonlinear_arith)
            requires
                k == 0,
        ;
        assert(s.take(0) =~= Seq::<T>::empty());
    } else {
        lemma_pagination_partition(s, n, k - 1);
        let m = (k - 1) * n;
        assert((k - 1) * n == k * n - n) by (nonlinear_arith);
        assert((k - 1) * n >= 0) by (nonlinear_arith)
            requires
                k >= 1,
                n > 0,
        ;
        assert(pages_concat(s, n, k) =~= s.take(
            if k * n <= s.len() {
                k * n
            } else {
                s.len() as int
            },
        ));
    }
}

/// Once `k * n` reaches the size of the result set, the pages reconstruct the
/// whole result set.
pub proof fn lemma_pages_cover<T>(s: Seq<T>, n: int, k: int)
    requires
        n > 0,
        k >= 0,
        k * n >= s.len(),
    ensures
        pages_concat(s, n, k) == s,
        pages_concat(s, n, k).len() == s.len(),
{
    lemma_pagination_partition(s, n, k);
    assert(s.take(s.len() as int) =~= s);
}

} // verus!
