//! The chunk writer: keeps one open chunk per stream, rolls it over when its
//! configured duration elapses, and hands every appended unit a durable
//! `(chunk, offset)` address before the unit is acknowledged.

use vstd::prelude::*;

use crate::archive::fts_of;
use crate::archive::ocr_ipos;
use crate::archive::Archive;
use crate::archive::ArchiveError;
use crate::archive::ArchiveV;
use crate::archive::ChunkMetaV;
use crate::archive::FtsRowV;
use crate::archive::OcrRowV;
use crate::archive::StreamKind;
use crate::capture::FrameRecord;
use crate::capture::WindowOcrV;

verus! {

/// The writer state for one stream: which registered chunk is currently
/// accepting units, and how long a chunk may stay open.
pub struct ChunkWriter {
    pub stream: StreamKind,
    pub max_chunk_ms: i64,
    pub current: Option<usize>,
}

/// The writer agrees with the archive: its active chunk, if any, is a
/// registered, open chunk of its stream.
pub open spec fn writer_ok(w: ChunkWriter, a: ArchiveV) -> bool {
    &&& w.max_chunk_ms > 0
    &&& match w.current {
        Some(c) => {
            &&& 0 <= c < a.chunks.len()
            &&& a.chunks[c as int].stream == w.stream
            &&& a.chunks[c as int].is_open
        },
        None => true,
    }
}

/// A new chunk must be opened: there is none yet, or the open one has
/// reached its duration bound.
pub open spec fn needs_rollover(w: ChunkWriter, a: ArchiveV, now: i64) -> bool {
    match w.current {
        None => true,
        Some(c) => now - a.chunks[c as int].opened_at >= w.max_chunk_ms,
    }
}

impl ChunkWriter {
    /// A writer for one stream with the given chunk duration bound.
    pub fn new(stream: StreamKind, max_chunk_ms: i64) -> (r: ChunkWriter)
        requires
            max_chunk_ms > 0,
        ensures
            r.stream == stream,
            r.max_chunk_ms == max_chunk_ms,
            r.current is None,
    {
        ChunkWriter { stream, max_chunk_ms, current: None }
    }

    /// Appends one unit to the stream and returns its address. When the open
    /// chunk's duration has elapsed (or none is open), the open chunk is
    /// finalized and a fresh one is opened under `path_if_new` before the
    /// append, and the unit gets offset zero in it; otherwise offsets keep
    /// counting up in the open chunk. A unit is acknowledged (`Ok`) exactly
    /// when its address resolves in the archive, and a chunk once finalized
    /// is never touched again.
    pub fn append_unit(&mut self, archive: &mut Archive, now: i64, path_if_new: String) -> (r:
        Result<(usize, u64), ArchiveError>)
        requires
            old(archive).wf(),
            writer_ok(*old(self), old(archive)@),
        ensures
            final(archive).wf(),
            writer_ok(*final(self), final(archive)@),
            final(self).stream == old(self).stream,
            final(self).max_chunk_ms == old(self).max_chunk_ms,
            final(archive)@.ocr == old(archive)@.ocr,
            final(archive)@.audio == old(archive)@.audio,
            final(archive)@.fts == old(archive)@.fts,
            final(archive)@.next_id == old(archive)@.next_id,
            forall|i: int|
                0 <= i < old(archive)@.chunks.len() && !(#[trigger] old(
                    archive,
                )@.chunks[i]).is_open ==> final(archive)@.chunks[i] == old(archive)@.chunks[i],
            match r {
                Ok((chunk, offset)) => {
                    &&& chunk < final(archive)@.chunks.len()
                    &&& final(archive)@.chunks[chunk as int].stream == old(self).stream
                    &&& final(archive)@.chunks[chunk as int].is_open
                    &&& offset < final(archive)@.chunks[chunk as int].units
                    &&& final(self).current == Some(chunk)
                    &&& if needs_rollover(*old(self), old(archive)@, now) {
                        &&& chunk == old(archive)@.chunks.len()
                        &&& offset == 0
                        &&& {
                            let base = match old(self).current {
                                Some(c) => old(archive)@.chunks.update(
                                    c as int,
                                    ChunkMetaV {
                                        is_open: false,
                                        ..old(archive)@.chunks[c as int]
                                    },
                                ),
                                None => old(archive)@.chunks,
                            };
                            final(archive)@.chunks == base.push(
                                ChunkMetaV {
                                    path: path_if_new@,
                                    stream: old(self).stream,
                                    units: 1,
                                    is_open: true,
                                    opened_at: now,
                                },
                            )
                        }
                    } else {
                        &&& old(self).current == Some(chunk)
                        &&& offset == old(archive)@.chunks[chunk as int].units
                        &&& final(archive)@.chunks == old(archive)@.chunks.update(
                            chunk as int,
                            ChunkMetaV {
                                units: (old(archive)@.chunks[chunk as int].units + 1) as u64,
                                ..old(archive)@.chunks[chunk as int]
                            },
                        )
                    }
                },
                Err(e) => {
                    &&& final(archive)@ == old(archive)@
                    &&& *final(self) == *old(self)
                    &&& match e {
                        ArchiveError::DuplicatePath => {
                            &&& needs_rollover(*old(self), old(archive)@, now)
                            &&& exists|j: int|
                                0 <= j < old(archive)@.chunks.len() && (#[trigger] old(
                                    archive,
                                )@.chunks[j]).path == path_if_new@
                        },
                        ArchiveError::ChunkFull => {
                            &&& !needs_rollover(*old(self), old(archive)@, now)
                            &&& old(self).current matches Some(c) && old(
                                archive,
                            )@.chunks[c as int].units >= i64::MAX as u64
                        },
                        _ => false,
                    }
                },
            },
    {
        let roll = match self.current {
            None => true,
            Some(c) => (now as i128) - (archive.chunk_opened_at(c) as i128)
                >= self.max_chunk_ms as i128,
        };
        if roll {
            let new_id = match archive.open_chunk(path_if_new, self.stream, now) {
                Ok(id) => id,
                Err(e) => {
                    return Err(e);
                },
            };
            match self.current {
                Some(c) => {
                    let fin = archive.finalize_chunk(c);
                    proof {
                        assert(fin is Ok);
                    }
                },
                None => {},
            }
            self.current = Some(new_id);
            let offset = match archive.record_unit(new_id) {
                Ok(o) => o,
                Err(_) => {
                    proof {
                        assert(false);
                    }
                    return Err(ArchiveError::ChunkFull);
                },
            };
            Ok((new_id, offset))
        } else {
            let c = match self.current {
                Some(c) => c,
                None => {
                    proof {
                        assert(false);
                    }
                    return Err(ArchiveError::ChunkFull);
                },
            };
            let offset = match archive.record_unit(c) {
                Ok(o) => o,
                Err(e) => {
                    proof {
                        assert(e is ChunkFull);
                    }
                    return Err(e);
                },
            };
            Ok((c, offset))
        }
    }

    /// Finalizes the open chunk, if any: called on shutdown so no chunk is
    /// left half-written. Rows, other chunks and the finalized chunk's units
    /// stay exactly as they were.
    pub fn close(&mut self, archive: &mut Archive)
        requires
            old(archive).wf(),
            writer_ok(*old(self), old(archive)@),
        ensures
            final(archive).wf(),
            writer_ok(*final(self), final(archive)@),
            final(self).current is None,
            final(self).stream == old(self).stream,
            final(self).max_chunk_ms == old(self).max_chunk_ms,
            final(archive)@.ocr == old(archive)@.ocr,
            final(archive)@.audio == old(archive)@.audio,
            final(archive)@.fts == old(archive)@.fts,
            final(archive)@.next_id == old(archive)@.next_id,
            match old(self).current {
                Some(c) => final(archive)@.chunks == old(archive)@.chunks.update(
                    c as int,
                    ChunkMetaV { is_open: false, ..old(archive)@.chunks[c as int] },
                ),
                None => final(archive)@ == old(archive)@,
            },
    {
        match self.current {
            Some(c) => {
                let fin = archive.finalize_chunk(c);
                proof {
                    assert(fin is Ok);
                }
            },
            None => {},
        }
        self.current = None;
    }
}

/// The OCR and full-text rows after persisting one frame's window results,
/// window by window: each gets the next id and stands at its place in
/// timestamp order, addressed by the frame's unit.
pub open spec fn frame_rows_inserted(
    ocr: Seq<OcrRowV>,
    fts: Seq<FtsRowV>,
    ws: Seq<WindowOcrV>,
    ts: i64,
    chunk: int,
    offset: u64,
    first_id: i64,
) -> (Seq<OcrRowV>, Seq<FtsRowV>)
    decreases ws.len(),
{
    if ws.len() == 0 {
        (ocr, fts)
    } else {
        let (o1, f1) = frame_rows_inserted(ocr, fts, ws.drop_last(), ts, chunk, offset, first_id);
        let w = ws.last();
        let row = Archive::ocr_row_of(
            (first_id + ws.len() - 1) as i64,
            w.text,
            ts,
            chunk,
            offset,
            w.app_name,
            w.window_name,
        );
        let p = ocr_ipos(o1, ts);
        (o1.insert(p, row), f1.insert(p, fts_of(row)))
    }
}

impl ChunkWriter {
    /// Persists one captured frame: appends one unit to the vision stream
    /// and inserts one OCR row (with its derived full-text row) per window
    /// result, all addressed by the returned `(chunk, offset)`. The frame is
    /// acknowledged only once every row is durably addressed; on an error
    /// nothing is recorded at all. A frame with no window results still
    /// records its unit and contributes no rows.
    pub fn append_frame(
        &mut self,
        archive: &mut Archive,
        now: i64,
        path_if_new: String,
        frame: &FrameRecord,
    ) -> (r: Result<(usize, u64), ArchiveError>)
        requires
            old(archive).wf(),
            writer_ok(*old(self), old(archive)@),
            old(self).stream == StreamKind::Video,
        ensures
            final(archive).wf(),
            writer_ok(*final(self), final(archive)@),
            final(self).stream == old(self).stream,
            final(self).max_chunk_ms == old(self).max_chunk_ms,
            final(archive)@.audio == old(archive)@.audio,
            forall|i: int|
                0 <= i < old(archive)@.chunks.len() && !(#[trigger] old(
                    archive,
                )@.chunks[i]).is_open ==> final(archive)@.chunks[i] == old(archive)@.chunks[i],
            match r {
                Ok((chunk, offset)) => {
                    &&& chunk < final(archive)@.chunks.len()
                    &&& final(archive)@.chunks[chunk as int].stream == StreamKind::Video
                    &&& final(archive)@.chunks[chunk as int].is_open
                    &&& offset < final(archive)@.chunks[chunk as int].units
                    &&& final(self).current == Some(chunk)
                    &&& final(archive)@.next_id == old(archive)@.next_id
                        + frame.windows.deep_view().len()
                    &&& (final(archive)@.ocr, final(archive)@.fts) == frame_rows_inserted(
                        old(archive)@.ocr,
                        old(archive)@.fts,
                        frame.windows.deep_view(),
                        frame.timestamp,
                        chunk as int,
                        offset,
                        old(archive)@.next_id,
                    )
                    &&& if needs_rollover(*old(self), old(archive)@, now) {
                        &&& chunk == old(archive)@.chunks.len()
                        &&& offset == 0
                        &&& {
                            let base = match old(self).current {
                                Some(c) => old(archive)@.chunks.update(
                                    c as int,
                                    ChunkMetaV {
                                        is_open: false,
                                        ..old(archive)@.chunks[c as int]
                                    },
                                ),
                                None => old(archive)@.chunks,
                            };
                            final(archive)@.chunks == base.push(
                                ChunkMetaV {
                                    path: path_if_new@,
                                    stream: StreamKind::Video,
                                    units: 1,
                                    is_open: true,
                                    opened_at: now,
                                },
                            )
                        }
                    } else {
                        &&& old(self).current == Some(chunk)
                        &&& offset == old(archive)@.chunks[chunk as int].units
                        &&& final(archive)@.chunks == old(archive)@.chunks.update(
                            chunk as int,
                            ChunkMetaV {
                                units: (old(archive)@.chunks[chunk as int].units + 1) as u64,
                                ..old(archive)@.chunks[chunk as int]
                            },
                        )
                    }
                },
                Err(e) => {
                    &&& final(archive)@ == old(archive)@
                    &&& *final(self) == *old(self)
                    &&& match e {
                        ArchiveError::IdSpaceExhausted => frame.windows.deep_view().len()
                            > i64::MAX - old(archive)@.next_id,
                        ArchiveError::DuplicatePath => {
                            &&& needs_rollover(*old(self), old(archive)@, now)
                            &&& exists|j: int|
                                0 <= j < old(archive)@.chunks.len() && (#[trigger] old(
                                    archive,
                                )@.chunks[j]).path == path_if_new@
                        },
                        ArchiveError::ChunkFull => {
                            &&& !needs_rollover(*old(self), old(archive)@, now)
                            &&& old(self).current matches Some(c) && old(
                                archive,
                            )@.chunks[c as int].units >= i64::MAX as u64
                        },
                        _ => false,
                    }
                },
            },
    {
        let n = frame.windows.len();
        if n as u64 > (i64::MAX - archive.next_row_id()) as u64 {
            return Err(ArchiveError::IdSpaceExhausted);
        }
        let ghost pre = archive@;
        let ghost ws = frame.windows.deep_view();
        let (chunk, offset) = match self.append_unit(archive, now, path_if_new) {
            Ok(co) => co,
            Err(e) => {
                return Err(e);
            },
        };
        let ghost mid = archive@;
        let ghost first_id = pre.next_id;
        let mut k: usize = 0;
        proof {
            assert(ws.take(0).len() == 0);
            assert((archive@.ocr, archive@.fts) == frame_rows_inserted(
                mid.ocr,
                mid.fts,
                ws.take(0),
                frame.timestamp,
                chunk as int,
                offset,
                first_id,
            ));
        }
        while k < n
            invariant
                0 <= k <= n,
                n == ws.len(),
                ws == frame.windows.deep_view(),
                frame.windows@.len() == n,
                archive.wf(),
                archive@.chunks == mid.chunks,
                archive@.audio == mid.audio,
                archive@.next_id == first_id + k,
                first_id + n <= i64::MAX,
                chunk < archive@.chunks.len(),
                archive@.chunks[chunk as int].stream == StreamKind::Video,
                offset < archive@.chunks[chunk as int].units,
                (archive@.ocr, archive@.fts) == frame_rows_inserted(
                    mid.ocr,
                    mid.fts,
                    ws.take(k as int),
                    frame.timestamp,
                    chunk as int,
                    offset,
                    first_id,
                ),
            decreases n - k,
        {
            let w = &frame.windows[k];
            let inserted = archive.insert_ocr(
                w.text.clone(),
                frame.timestamp,
                chunk,
                offset,
                w.app_name.clone(),
                w.window_name.clone(),
            );
            proof {
                assert(inserted is Ok);
                assert(ws.take(k as int + 1).drop_last() =~= ws.take(k as int));
                assert(ws.take(k as int + 1).last() == ws[k as int]);
            }
            k += 1;
        }
        proof {
            assert(ws.take(n as int) =~= ws);
        }
        Ok((chunk, offset))
    }

    /// Persists one finished audio segment: appends one unit to the audio
    /// stream and inserts the transcript row addressed by the returned
    /// `(chunk, offset)`. An empty transcript is persisted like any other,
    /// so a segment whose transcription failed permanently keeps its place
    /// in the archive. The segment is acknowledged only once its row is
    /// durably addressed; on an error nothing is recorded at all.
    pub fn append_audio(
        &mut self,
        archive: &mut Archive,
        now: i64,
        path_if_new: String,
        transcript: String,
        timestamp: i64,
    ) -> (r: Result<(usize, u64), ArchiveError>)
        requires
            old(archive).wf(),
            writer_ok(*old(self), old(archive)@),
            old(self).stream == StreamKind::Audio,
        ensures
            final(archive).wf(),
            writer_ok(*final(self), final(archive)@),
            final(self).stream == old(self).stream,
            final(self).max_chunk_ms == old(self).max_chunk_ms,
            final(archive)@.ocr == old(archive)@.ocr,
            final(archive)@.fts == old(archive)@.fts,
            forall|i: int|
                0 <= i < old(archive)@.chunks.len() && !(#[trigger] old(
                    archive,
                )@.chunks[i]).is_open ==> final(archive)@.chunks[i] == old(archive)@.chunks[i],
            match r {
                Ok((chunk, offset)) => {
                    &&& chunk < final(archive)@.chunks.len()
                    &&& final(archive)@.chunks[chunk as int].stream == StreamKind::Audio
                    &&& final(archive)@.chunks[chunk as int].is_open
                    &&& offset < final(archive)@.chunks[chunk as int].units
                    &&& final(self).current == Some(chunk)
                    &&& final(archive)@.next_id == old(archive)@.next_id + 1
                    &&& final(archive)@.audio == old(archive)@.audio.insert(
                        crate::archive::audio_ipos(old(archive)@.audio, timestamp),
                        Archive::audio_row_of(
                            old(archive)@.next_id,
                            transcript@,
                            timestamp,
                            chunk as int,
                            offset,
                        ),
                    )
                    &&& if needs_rollover(*old(self), old(archive)@, now) {
                        &&& chunk == old(archive)@.chunks.len()
                        &&& offset == 0
                        &&& {
                            let base = match old(self).current {
                                Some(c) => old(archive)@.chunks.update(
                                    c as int,
                                    ChunkMetaV {
                                        is_open: false,
                                        ..old(archive)@.chunks[c as int]
                                    },
                                ),
                                None => old(archive)@.chunks,
                            };
                            final(archive)@.chunks == base.push(
                                ChunkMetaV {
                                    path: path_if_new@,
                                    stream: StreamKind::Audio,
                                    units: 1,
                                    is_open: true,
                                    opened_at: now,
                                },
                            )
                        }
                    } else {
                        &&& old(self).current == Some(chunk)
                        &&& offset == old(archive)@.chunks[chunk as int].units
                        &&& final(archive)@.chunks == old(archive)@.chunks.update(
                            chunk as int,
                            ChunkMetaV {
                                units: (old(archive)@.chunks[chunk as int].units + 1) as u64,
                                ..old(archive)@.chunks[chunk as int]
                            },
                        )
                    }
                },
                Err(e) => {
                    &&& final(archive)@ == old(archive)@
                    &&& *final(self) == *old(self)
                    &&& match e {
                        ArchiveError::IdSpaceExhausted => old(archive)@.next_id == i64::MAX,
                        ArchiveError::DuplicatePath => {
                            &&& needs_rollover(*old(self), old(archive)@, now)
                            &&& exists|j: int|
                                0 <= j < old(archive)@.chunks.len() && (#[trigger] old(
                                    archive,
                                )@.chunks[j]).path == path_if_new@
                        },
                        ArchiveError::ChunkFull => {
                            &&& !needs_rollover(*old(self), old(archive)@, now)
                            &&& old(self).current matches Some(c) && old(
                                archive,
                            )@.chunks[c as int].units >= i64::MAX as u64
                        },
                        _ => false,
                    }
                },
            },
    {
        if archive.next_row_id() == i64::MAX {
            return Err(ArchiveError::IdSpaceExhausted);
        }
        let (chunk, offset) = match self.append_unit(archive, now, path_if_new) {
            Ok(co) => co,
            Err(e) => {
                return Err(e);
            },
        };
        let inserted = archive.insert_audio(transcript, timestamp, chunk, offset);
        proof {
            assert(inserted is Ok);
        }
        Ok((chunk, offset))
    }
}

} // verus!
