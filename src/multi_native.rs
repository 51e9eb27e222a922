//! The framed multi-packet decoder: outer frames, each holding sub-packets that may be
//! compressed, decoded one step at a time.

use crate::byte_utils::{col_from_buf, field_next, field_spec};
use crate::column_utils::{field_end, get_len_from_columns, max_end};
use crate::schema::{BufferValue, NativeSettings, PacketInfo};
use crate::subpacket::{as_count, body_spec, count_of, decode_body, entries_view, lookup_spec};
use crate::value::{DecodeError, EntryModel, FieldValue, Record, ValueModel, records_view};
use vstd::prelude::*;

verus! {

/// The number of header bytes that precede every frame body.
pub open spec fn header_size_spec(s: NativeSettings) -> int {
    max_end(seq![s.packet_header.timestamp, s.packet_header.packet_size], 2)
}

/// Where a frame stands in the source.
pub ghost enum FrameModel {
    /// The source ends before a whole header: a clean end of stream.
    End,
    Frame { timestamp: ValueModel, rest_start: int, rest_end: int, packets: nat, next: int },
}

/// The frame whose header starts at `at`: its timestamp, the part of its body after the
/// sub-packet count, that count, and where the next header starts.
pub open spec fn frame_spec(data: Seq<u8>, at: int, s: NativeSettings) -> Result<FrameModel, DecodeError> {
    let h = s.packet_header;
    let p = s.packing as int;
    let hs = header_size_spec(s);
    if field_end(h.timestamp) > usize::MAX || field_end(h.packet_size) > usize::MAX || hs == 0 {
        Err(DecodeError::Config)
    } else if at + hs > data.len() {
        Ok(FrameModel::End)
    } else {
        let hdr = data.subrange(at, at + hs);
        match field_spec(h.timestamp, hdr, 0, 0, p) {
            Err(e) => Err(e),
            Ok(ts) => {
                let o = field_next(h.timestamp, 0, 0, p).0;
                match field_spec(h.packet_size, hdr, o, 0, p) {
                    Err(e) => Err(e),
                    Ok(sv) => match count_of(sv) {
                        None => Err(DecodeError::Conversion),
                        Some(psz) => if psz > s.max_frame_size {
                            Err(DecodeError::Config)
                        } else if at + hs + psz > data.len() {
                            Err(DecodeError::Io)
                        } else {
                            let body = data.subrange(at + hs, at + hs + psz);
                            let np = s.packet_info.no_of_packets;
                            match field_spec(np, body, 0, 0, p) {
                                Err(e) => Err(e),
                                Ok(nv) => match count_of(nv) {
                                    None => Err(DecodeError::Conversion),
                                    Some(n) => Ok(
                                        FrameModel::Frame {
                                            timestamp: ts,
                                            rest_start: at + hs + field_next(np, 0, 0, p).0,
                                            rest_end: at + hs + psz,
                                            packets: n,
                                            next: at + hs + psz,
                                        },
                                    ),
                                },
                            }
                        },
                    },
                }
            },
        }
    }
}

/// A frame read from the source.
pub enum FrameStart {
    End,
    Frame { timestamp: FieldValue, rest_start: usize, rest_end: usize, packets: u64, next: usize },
}

/// The model of a frame read from the source.
pub open spec fn frame_view(f: FrameStart) -> FrameModel {
    match f {
        FrameStart::End => FrameModel::End,
        FrameStart::Frame { timestamp, rest_start, rest_end, packets, next } => FrameModel::Frame {
            timestamp: timestamp@,
            rest_start: rest_start as int,
            rest_end: rest_end as int,
            packets: packets as nat,
            next: next as int,
        },
    }
}

/// Reads the header of the frame at `at` and the sub-packet count at the start of its body.
pub fn read_frame(data: &[u8], at: usize, settings: &NativeSettings) -> (r: Result<FrameStart, DecodeError>)
    ensures
        match r {
            Ok(f) => frame_spec(data@, at as int, *settings) == Ok::<FrameModel, DecodeError>(frame_view(f)),
            Err(e) => frame_spec(data@, at as int, *settings) == Err::<FrameModel, DecodeError>(e),
        },
{
    let h = &settings.packet_header;
    let packing = settings.packing;
    let ts_end_fits = match h.timestamp.offset {
        Some(x) => h.timestamp.length <= usize::MAX - x,
        None => true,
    };
    let ps_end_fits = match h.packet_size.offset {
        Some(x) => h.packet_size.length <= usize::MAX - x,
        None => true,
    };
    if !ts_end_fits || !ps_end_fits {
        return Err(DecodeError::Config);
    }
    let cols: Vec<&BufferValue> = vec![&h.timestamp, &h.packet_size];
    proof {
        assert(cols@.map_values(|c: &BufferValue| *c) =~= seq![h.timestamp, h.packet_size]);
    }
    let hs = get_len_from_columns(cols);
    if hs == 0 {
        return Err(DecodeError::Config);
    }
    if at > data.len() || hs > data.len() - at {
        return Ok(FrameStart::End);
    }
    let hdr = &data[at..at + hs];
    let mut offset: usize = 0;
    let mut bit_offset: usize = 0;
    let timestamp = col_from_buf(&h.timestamp, hdr, &mut offset, &mut bit_offset, packing)?;
    let mut fresh_bit: usize = 0;
    let sv = col_from_buf(&h.packet_size, hdr, &mut offset, &mut fresh_bit, packing)?;
    let psz = match as_count(&sv) {
        Some(n) => n,
        None => {
            return Err(DecodeError::Conversion);
        },
    };
    if psz > settings.max_frame_size as u64 {
        return Err(DecodeError::Config);
    }
    let psz = psz as usize;
    let body_start = at + hs;
    if psz > data.len() - body_start {
        return Err(DecodeError::Io);
    }
    let body = &data[body_start..body_start + psz];
    let mut body_offset: usize = 0;
    let mut body_bit: usize = 0;
    let nv = col_from_buf(&settings.packet_info.no_of_packets, body, &mut body_offset, &mut body_bit, packing)?;
    let n = match as_count(&nv) {
        Some(n) => n,
        None => {
            return Err(DecodeError::Conversion);
        },
    };
    Ok(
        FrameStart::Frame {
            timestamp,
            rest_start: body_start + body_offset,
            rest_end: body_start + psz,
            packets: n,
            next: body_start + psz,
        },
    )
}

/// Where the next sub-packet lies inside the frame part `data[rest_start..rest_end]`, `base`
/// bytes in: a compressed payload `data[from..to]`, or an uncompressed buffer from `from` to
/// the end of the frame.
pub ghost enum LocatedModel {
    Compressed { from: int, to: int },
    Raw { from: int },
}

/// Finds the sub-packet `base` bytes into the frame part `data[rest_start..rest_end]`.
pub open spec fn locate_spec(
    data: Seq<u8>,
    rest_start: int,
    rest_end: int,
    base: int,
    info: PacketInfo,
    p: int,
) -> Result<LocatedModel, DecodeError> {
    let rest = data.subrange(rest_start, rest_end);
    if base > rest.len() {
        Err(DecodeError::Conversion)
    } else {
        let view = rest.subrange(base, rest.len() as int);
        match field_spec(info.compressed_packet_size, view, 0, 0, p) {
            Err(e) => Err(e),
            Ok(cv) => {
                let o1 = field_next(info.compressed_packet_size, 0, 0, p).0;
                match count_of(cv) {
                    Some(c) if c > 0 => if o1 + c > view.len() {
                        Err(DecodeError::Conversion)
                    } else {
                        Ok(
                            LocatedModel::Compressed {
                                from: rest_start + base + o1,
                                to: rest_start + base + o1 + c,
                            },
                        )
                    },
                    _ => Ok(LocatedModel::Raw { from: rest_start + base + o1 }),
                }
            },
        }
    }
}

/// Where a sub-packet lies in the source.
pub enum Located {
    Compressed { from: usize, to: usize },
    Raw { from: usize },
}

pub open spec fn located_view(l: Located) -> LocatedModel {
    match l {
        Located::Compressed { from, to } => LocatedModel::Compressed { from: from as int, to: to as int },
        Located::Raw { from } => LocatedModel::Raw { from: from as int },
    }
}

/// Finds the sub-packet `base` bytes into the frame part `data[rest_start..rest_end]` from
/// its compressed-size field.
pub fn locate(
    data: &[u8],
    rest_start: usize,
    rest_end: usize,
    base: usize,
    info: &PacketInfo,
    packing: usize,
) -> (r: Result<Located, DecodeError>)
    requires
        rest_start <= rest_end <= data@.len(),
    ensures
        match r {
            Ok(l) => locate_spec(data@, rest_start as int, rest_end as int, base as int, *info, packing as int)
                == Ok::<LocatedModel, DecodeError>(located_view(l)),
            Err(e) => locate_spec(data@, rest_start as int, rest_end as int, base as int, *info, packing as int)
                == Err::<LocatedModel, DecodeError>(e),
        },
{
    let rest = &data[rest_start..rest_end];
    if base > rest.len() {
        return Err(DecodeError::Conversion);
    }
    let view = &rest[base..rest.len()];
    let mut offset: usize = 0;
    let mut bit_offset: usize = 0;
    let cv = col_from_buf(&info.compressed_packet_size, view, &mut offset, &mut bit_offset, packing)?;
    match as_count(&cv) {
        Some(c) => {
            if c > 0 {
                if c > (view.len() - offset) as u64 {
                    return Err(DecodeError::Conversion);
                }
                let from = rest_start + base + offset;
                return Ok(Located::Compressed { from, to: from + c as usize });
            }
        },
        None => {},
    }
    Ok(Located::Raw { from: rest_start + base + offset })
}

/// `a + b`, or the largest `usize` when that is smaller.
pub open spec fn clamped_sum(a: int, b: int) -> int {
    if a + b > usize::MAX {
        usize::MAX as int
    } else {
        a + b
    }
}

fn clamped_add(a: usize, b: u64) -> (r: usize)
    ensures
        r == clamped_sum(a as int, b as int),
{
    if b > (usize::MAX - a) as u64 {
        usize::MAX
    } else {
        a + b as usize
    }
}

/// The name under which every record carries its frame's timestamp.
pub open spec fn timestamp_key() -> Seq<char> {
    seq!['t', 'i', 'm', 'e', 's', 't', 'a', 'm', 'p']
}

/// The record of one sub-packet: the frame's timestamp, then the sub-packet's entries.
pub open spec fn record_spec(timestamp: ValueModel, entries: Seq<EntryModel>) -> Seq<EntryModel> {
    seq![(timestamp_key(), timestamp)] + entries
}

fn make_record(timestamp: &FieldValue, entries: Vec<(String, FieldValue)>) -> (r: Record)
    ensures
        r@ == record_spec(timestamp@, entries_view(entries@)),
{
    let mut all: Vec<(String, FieldValue)> = Vec::new();
    let key = "timestamp".to_string();
    proof {
        reveal_strlit("timestamp");
        assert(key@ =~= timestamp_key());
    }
    all.push((key, timestamp.duplicate()));
    let mut rest = entries;
    all.append(&mut rest);
    let r = Record { entries: all };
    proof {
        assert(r@ =~= record_spec(timestamp@, entries_view(entries@)));
    }
    r
}

/// Where the decoder stands between two steps.
pub enum Phase {
    /// The next step reads the frame header at `next_frame`.
    BetweenFrames,
    /// `remaining` sub-packets of the frame part `rest_start..rest_end` are left; the next
    /// one starts `base` bytes in.
    InFrame { timestamp: FieldValue, rest_start: usize, rest_end: usize, remaining: u64, base: usize },
    /// The compressed payload `from..to` waits to be expanded; the fields after it are those
    /// of the frame once this sub-packet is done.
    Expanding {
        timestamp: FieldValue,
        rest_start: usize,
        rest_end: usize,
        remaining: u64,
        base: usize,
        from: usize,
        to: usize,
    },
    /// The window is complete or the source has ended.
    Finished,
    /// The call failed; nothing more is read.
    Failed(DecodeError),
}

/// The model of a phase.
pub ghost enum PhaseModel {
    BetweenFrames,
    InFrame { timestamp: ValueModel, rest_start: int, rest_end: int, remaining: nat, base: int },
    Expanding {
        timestamp: ValueModel,
        rest_start: int,
        rest_end: int,
        remaining: nat,
        base: int,
        from: int,
        to: int,
    },
    Finished,
    Failed(DecodeError),
}

impl View for Phase {
    type V = PhaseModel;

    open spec fn view(&self) -> PhaseModel {
        match self {
            Phase::BetweenFrames => PhaseModel::BetweenFrames,
            Phase::InFrame { timestamp, rest_start, rest_end, remaining, base } => PhaseModel::InFrame {
                timestamp: timestamp@,
                rest_start: *rest_start as int,
                rest_end: *rest_end as int,
                remaining: *remaining as nat,
                base: *base as int,
            },
            Phase::Expanding { timestamp, rest_start, rest_end, remaining, base, from, to } =>
                PhaseModel::Expanding {
                timestamp: timestamp@,
                rest_start: *rest_start as int,
                rest_end: *rest_end as int,
                remaining: *remaining as nat,
                base: *base as int,
                from: *from as int,
                to: *to as int,
            },
            Phase::Finished => PhaseModel::Finished,
            Phase::Failed(e) => PhaseModel::Failed(*e),
        }
    }
}

/// What the caller does after a step.
#[derive(Debug, PartialEq, Eq)]
pub enum Action {
    /// Step again.
    Continue,
    /// Expand `data[from..to]` into a zeroed buffer of `capacity` bytes, and hand the buffer,
    /// or its absence when the expansion failed, to `resume`.
    Expand { from: usize, to: usize, capacity: usize },
    /// The records are complete.
    Done,
    /// The call failed.
    Fail(DecodeError),
}

/// The state of a framed decode over one source: the window `[start, start + count)` of
/// sub-packet positions, the next frame's offset, the next sub-packet's position, and the
/// records of the window decoded so far.
pub struct MultiNative {
    pub start: usize,
    pub count: usize,
    pub next_frame: usize,
    pub position: usize,
    pub phase: Phase,
    pub records: Vec<Record>,
}

/// The model of a framed decode's state.
pub ghost struct ScanModel {
    pub start: int,
    pub count: int,
    pub next_frame: int,
    pub position: int,
    pub phase: PhaseModel,
    pub records: Seq<Seq<EntryModel>>,
}

impl View for MultiNative {
    type V = ScanModel;

    open spec fn view(&self) -> ScanModel {
        ScanModel {
            start: self.start as int,
            count: self.count as int,
            next_frame: self.next_frame as int,
            position: self.position as int,
            phase: self.phase@,
            records: records_view(self.records@),
        }
    }
}

/// The first position past the window (bounded by the largest `usize`).
pub open spec fn window_end(start: int, count: int) -> int {
    clamped_sum(start, count)
}

/// The state after the sub-packet at `m.position` decoded to `entries` with the frame's
/// `timestamp`: it is kept when inside the window, the position moves on, and the decode
/// finishes once the window is complete.
pub open spec fn after_subpacket(
    m: ScanModel,
    timestamp: ValueModel,
    entries: Seq<EntryModel>,
    rest_start: int,
    rest_end: int,
    remaining: nat,
    base: int,
) -> ScanModel {
    let records = if m.position >= m.start {
        m.records.push(record_spec(timestamp, entries))
    } else {
        m.records
    };
    let position = m.position + 1;
    ScanModel {
        position,
        records,
        phase: if position >= window_end(m.start, m.count) {
            PhaseModel::Finished
        } else {
            PhaseModel::InFrame { timestamp, rest_start, rest_end, remaining, base }
        },
        ..m
    }
}

/// The state after a failure: nothing more is read and no record is kept.
pub open spec fn failed(m: ScanModel, e: DecodeError) -> ScanModel {
    ScanModel { phase: PhaseModel::Failed(e), records: Seq::empty(), ..m }
}

/// The model of an action.
pub ghost enum ActionModel {
    Continue,
    Expand { from: int, to: int, capacity: int },
    Done,
    Fail(DecodeError),
}

pub open spec fn action_view(a: Action) -> ActionModel {
    match a {
        Action::Continue => ActionModel::Continue,
        Action::Expand { from, to, capacity } => ActionModel::Expand {
            from: from as int,
            to: to as int,
            capacity: capacity as int,
        },
        Action::Done => ActionModel::Done,
        Action::Fail(e) => ActionModel::Fail(e),
    }
}

/// One step of the framed decode over `data`.
pub open spec fn step_spec(m: ScanModel, data: Seq<u8>, s: NativeSettings) -> (ScanModel, ActionModel) {
    let p = s.packing as int;
    match m.phase {
        PhaseModel::Finished => (m, ActionModel::Done),
        PhaseModel::Failed(e) => (m, ActionModel::Fail(e)),
        PhaseModel::Expanding { from, to, .. } => (
            m,
            ActionModel::Expand { from, to, capacity: s.decompress_capacity as int },
        ),
        PhaseModel::BetweenFrames => if m.position >= window_end(m.start, m.count) {
            (ScanModel { phase: PhaseModel::Finished, ..m }, ActionModel::Done)
        } else {
            match frame_spec(data, m.next_frame, s) {
                Err(e) => (failed(m, e), ActionModel::Fail(e)),
                Ok(FrameModel::End) => (ScanModel { phase: PhaseModel::Finished, ..m }, ActionModel::Done),
                Ok(FrameModel::Frame { timestamp, rest_start, rest_end, packets, next }) => (
                    ScanModel {
                        next_frame: next,
                        phase: PhaseModel::InFrame { timestamp, rest_start, rest_end, remaining: packets, base: 0 },
                        ..m
                    },
                    ActionModel::Continue,
                ),
            }
        },
        PhaseModel::InFrame { timestamp, rest_start, rest_end, remaining, base } => if m.position >= window_end(
            m.start,
            m.count,
        ) {
            (ScanModel { phase: PhaseModel::Finished, ..m }, ActionModel::Done)
        } else if remaining == 0 {
            (ScanModel { phase: PhaseModel::BetweenFrames, ..m }, ActionModel::Continue)
        } else if !(0 <= rest_start <= rest_end <= data.len()) {
            (failed(m, DecodeError::Io), ActionModel::Fail(DecodeError::Io))
        } else {
            match locate_spec(data, rest_start, rest_end, base, s.packet_info, p) {
                Err(e) => (failed(m, e), ActionModel::Fail(e)),
                Ok(LocatedModel::Compressed { from, to }) => (
                    ScanModel {
                        phase: PhaseModel::Expanding {
                            timestamp,
                            rest_start,
                            rest_end,
                            remaining: (remaining - 1) as nat,
                            base: clamped_sum(base, to - from),
                            from,
                            to,
                        },
                        ..m
                    },
                    ActionModel::Expand { from, to, capacity: s.decompress_capacity as int },
                ),
                Ok(LocatedModel::Raw { from }) => match body_spec(
                    s.packet_info,
                    data.subrange(from, rest_end),
                    p,
                    m.position,
                ) {
                    Err(e) => (failed(m, e), ActionModel::Fail(e)),
                    Ok((entries, size, skip)) => {
                        let next = after_subpacket(
                            m,
                            timestamp,
                            entries,
                            rest_start,
                            rest_end,
                            (remaining - 1) as nat,
                            clamped_sum(clamped_sum(base, size as int), skip as int),
                        );
                        (next, if next.phase == PhaseModel::Finished {
                            ActionModel::Done
                        } else {
                            ActionModel::Continue
                        })
                    },
                },
            }
        },
    }
}

/// The state after the caller hands back the expansion of a compressed sub-packet: the
/// expanded buffer is decoded as the sub-packet, and a failed expansion fails the call.
pub open spec fn resume_spec(m: ScanModel, expanded: Option<Seq<u8>>, s: NativeSettings) -> ScanModel {
    match m.phase {
        PhaseModel::Expanding { timestamp, rest_start, rest_end, remaining, base, .. } => if m.position
            >= window_end(m.start, m.count) {
            ScanModel { phase: PhaseModel::Finished, ..m }
        } else {
            match expanded {
            None => failed(m, DecodeError::Compression),
            Some(buf) => match body_spec(s.packet_info, buf, s.packing as int, m.position) {
                Err(e) => failed(m, e),
                Ok((entries, _, _)) => after_subpacket(m, timestamp, entries, rest_start, rest_end, remaining, base),
            },
            }
        },
        _ => m,
    }
}

/// The invariant of a framed decode: the records are those of the positions from `start` up
/// to the current one, which never passes the end of the window, and a decode inside a frame
/// is still short of that end.
pub open spec fn scan_inv(m: ScanModel) -> bool {
    &&& 0 <= m.start
    &&& 0 <= m.count
    &&& 0 <= m.position <= window_end(m.start, m.count)
    &&& !(m.phase is Failed) ==> m.records.len() == (if m.position > m.start {
        m.position - m.start
    } else {
        0
    })
    &&& (m.phase is InFrame || m.phase is Expanding) ==> m.position < window_end(m.start, m.count)
    &&& m.phase is Failed ==> m.records.len() == 0
}

/// Windowed scan: every step keeps the invariant, so the records are those of the positions
/// `start, start + 1, ...` and there are at most `count` of them; a record is added only for a
/// position inside the window; and once the window is complete the decode has finished, reads
/// no further frame and adds no record.
pub proof fn lemma_window(m: ScanModel, data: Seq<u8>, s: NativeSettings, expanded: Option<Seq<u8>>)
    requires
        scan_inv(m),
    ensures
        scan_inv(step_spec(m, data, s).0),
        scan_inv(resume_spec(m, expanded, s)),
        m.records.len() <= m.count,
        step_spec(m, data, s).0.records.len() > m.records.len() ==> m.start <= m.position < window_end(
            m.start,
            m.count,
        ) && step_spec(m, data, s).0.position == m.position + 1,
        resume_spec(m, expanded, s).records.len() > m.records.len() ==> m.start <= m.position < window_end(
            m.start,
            m.count,
        ) && resume_spec(m, expanded, s).position == m.position + 1,
        m.position >= window_end(m.start, m.count) ==> {
            &&& step_spec(m, data, s).0.next_frame == m.next_frame
            &&& step_spec(m, data, s).0.records == m.records
            &&& step_spec(m, data, s).0.position == m.position
            &&& resume_spec(m, expanded, s) == m
            &&& (m.phase is Finished || m.phase is Failed || m.phase is BetweenFrames)
        },
{
}

/// Up to `fuel` steps of a framed decode over `data`, the caller expanding each compressed
/// payload with `expand`; it stops early once a step reports completion or failure.
pub open spec fn run_spec(
    m: ScanModel,
    data: Seq<u8>,
    s: NativeSettings,
    expand: spec_fn(Seq<u8>) -> Option<Seq<u8>>,
    fuel: nat,
) -> ScanModel
    decreases fuel,
{
    if fuel == 0 {
        m
    } else {
        let (next, action) = step_spec(m, data, s);
        match action {
            ActionModel::Continue => run_spec(next, data, s, expand, (fuel - 1) as nat),
            ActionModel::Expand { from, to, .. } => run_spec(
                resume_spec(next, expand(data.subrange(from, to)), s),
                data,
                s,
                expand,
                (fuel - 1) as nat,
            ),
            _ => next,
        }
    }
}

/// Windowed scan over a whole run: whatever the expansions, a run from the initial state
/// holds the records of the positions `start, start + 1, ...` only, at most `count` of them;
/// a run that has finished by completing the window holds exactly `count` records (the
/// window being within `usize`); and a failed run holds none.
pub proof fn lemma_run(
    m: ScanModel,
    data: Seq<u8>,
    s: NativeSettings,
    expand: spec_fn(Seq<u8>) -> Option<Seq<u8>>,
    fuel: nat,
)
    requires
        scan_inv(m),
    ensures
        scan_inv(run_spec(m, data, s, expand, fuel)),
        run_spec(m, data, s, expand, fuel).records.len() <= m.count,
        run_spec(m, data, s, expand, fuel).phase is Failed ==> run_spec(m, data, s, expand, fuel).records.len() == 0,
        run_spec(m, data, s, expand, fuel).position >= m.start + m.count && !(run_spec(
            m,
            data,
            s,
            expand,
            fuel,
        ).phase is Failed) ==> run_spec(m, data, s, expand, fuel).records.len() == m.count,
        run_spec(m, data, s, expand, fuel).start == m.start,
        run_spec(m, data, s, expand, fuel).count == m.count,
    decreases fuel,
{
    if fuel > 0 {
        let (next, action) = step_spec(m, data, s);
        lemma_window(m, data, s, None);
        match action {
            ActionModel::Continue => {
                lemma_run(next, data, s, expand, (fuel - 1) as nat);
            },
            ActionModel::Expand { from, to, .. } => {
                let e = expand(data.subrange(from, to));
                lemma_window(next, data, s, e);
                lemma_run(resume_spec(next, e, s), data, s, expand, (fuel - 1) as nat);
            },
            _ => {},
        }
    }
}

/// A failed decode stays failed: it reads nothing more and adds no record.
pub proof fn lemma_failure_is_final(m: ScanModel, data: Seq<u8>, s: NativeSettings, expanded: Option<Seq<u8>>)
    requires
        m.phase is Failed,
    ensures
        step_spec(m, data, s).0 == m,
        step_spec(m, data, s).1 == ActionModel::Fail(m.phase->Failed_0),
        resume_spec(m, expanded, s) == m,
{
}

/// Unknown identifier: a sub-packet whose identifier has no column set, where there is no
/// column set for identifier 0 either, fails with a schema error that names the identifier
/// and the sub-packet's position.
pub proof fn lemma_unknown_identifier(info: PacketInfo, buf: Seq<u8>, packing: int, position: int, id: nat)
    requires
        field_spec(info.packet_identifier, buf, 0, 0, packing) matches Ok(v) && count_of(v) == Some(id),
        field_spec(
            info.packet_size,
            buf,
            field_next(info.packet_identifier, 0, 0, packing).0,
            0,
            packing,
        ) matches Ok(v) && count_of(v) is Some,
        !info.column_details@.contains_key(id as u64),
        !info.column_details@.contains_key(0),
    ensures
        body_spec(info, buf, packing, position) == Err::<(Seq<EntryModel>, nat, nat), DecodeError>(
            DecodeError::Schema { identifier: id as u64, position: position as usize },
        ),
{
    assert(lookup_spec(info.column_details@, id as u64) is None);
}

/// Compressed sub-packet advance: the next sub-packet starts exactly the compressed size
/// after this one, whatever the expanded buffer holds.
pub proof fn lemma_compressed_advance(m: ScanModel, data: Seq<u8>, s: NativeSettings, expanded: Seq<u8>)
    requires
        scan_inv(m),
        m.phase matches PhaseModel::InFrame { rest_start, rest_end, remaining, base, .. } && remaining > 0
            && 0 <= rest_start <= rest_end <= data.len() && locate_spec(
            data,
            rest_start,
            rest_end,
            base,
            s.packet_info,
            s.packing as int,
        ) is Ok && locate_spec(data, rest_start, rest_end, base, s.packet_info, s.packing as int)->Ok_0 is Compressed,
    ensures
        ({
            let base = m.phase->InFrame_base;
            let rest_start = m.phase->InFrame_rest_start;
            let rest_end = m.phase->InFrame_rest_end;
            let view = data.subrange(rest_start, rest_end).subrange(base, rest_end - rest_start);
            let c = count_of(field_spec(s.packet_info.compressed_packet_size, view, 0, 0, s.packing as int)->Ok_0)->Some_0;
            let after = resume_spec(step_spec(m, data, s).0, Some(expanded), s);
            &&& step_spec(m, data, s).1 matches ActionModel::Expand { from, to, .. } && to - from == c
            &&& after.phase matches PhaseModel::InFrame { base: next, .. } ==> next == clamped_sum(base, c as int)
        }),
{
}

impl MultiNative {
    /// A framed decode of the sub-packets at positions `[from, from + len)` (`from` defaults
    /// to 0), before its first frame.
    pub fn new(from: Option<usize>, len: usize) -> (r: MultiNative)
        ensures
            scan_inv(r@),
            r@ == (ScanModel {
                start: match from {
                    Some(f) => f as int,
                    None => 0,
                },
                count: len as int,
                next_frame: 0,
                position: 0,
                phase: PhaseModel::BetweenFrames,
                records: Seq::empty(),
            }),
    {
        let start = match from {
            Some(f) => f,
            None => 0,
        };
        let r = MultiNative {
            start,
            count: len,
            next_frame: 0,
            position: 0,
            phase: Phase::BetweenFrames,
            records: Vec::new(),
        };
        proof {
            assert(records_view(r.records@) =~= Seq::<Seq<EntryModel>>::empty());
        }
        r
    }

    /// Enters the failed phase and drops the records decoded so far.
    fn fail(&mut self, e: DecodeError)
        ensures
            final(self)@ == failed(old(self)@, e),
    {
        self.phase = Phase::Failed(e);
        self.records = Vec::new();
        proof {
            assert(records_view(self.records@) =~= Seq::<Seq<EntryModel>>::empty());
        }
    }

    fn window_reached(&self, position: usize) -> (r: bool)
        ensures
            r == (position >= window_end(self.start as int, self.count as int)),
    {
        if self.count > usize::MAX - self.start {
            position == usize::MAX
        } else {
            position >= self.start + self.count
        }
    }

    /// Keeps the record of the sub-packet at `self.position` when it lies in the window,
    /// moves to the next position, and finishes once the window is complete.
    fn finish_subpacket(
        &mut self,
        timestamp: FieldValue,
        entries: Vec<(String, FieldValue)>,
        rest_start: usize,
        rest_end: usize,
        remaining: u64,
        base: usize,
    )
        requires
            old(self).position < window_end(old(self).start as int, old(self).count as int),
        ensures
            final(self)@ == after_subpacket(
                old(self)@,
                timestamp@,
                entries_view(entries@),
                rest_start as int,
                rest_end as int,
                remaining as nat,
                base as int,
            ),
    {
        let ghost before = self@;
        if self.position >= self.start {
            let record = make_record(&timestamp, entries);
            self.records.push(record);
            proof {
                assert(records_view(self.records@) =~= before.records.push(
                    record_spec(timestamp@, entries_view(entries@)),
                ));
            }
        }
        self.position = self.position + 1;
        if self.window_reached(self.position) {
            self.phase = Phase::Finished;
        } else {
            self.phase = Phase::InFrame { timestamp, rest_start, rest_end, remaining, base };
        }
    }

    /// Advances the decode over `data` by one frame header or one sub-packet, and says what
    /// the caller does next.
    pub fn step(&mut self, data: &[u8], settings: &NativeSettings) -> (r: Action)
        ensures
            (final(self)@, action_view(r)) == step_spec(old(self)@, data@, *settings),
    {
        let packing = settings.packing;
        match &self.phase {
            Phase::Finished => Action::Done,
            Phase::Failed(e) => Action::Fail(*e),
            Phase::Expanding { from, to, .. } => Action::Expand {
                from: *from,
                to: *to,
                capacity: settings.decompress_capacity,
            },
            Phase::BetweenFrames => {
                if self.window_reached(self.position) {
                    self.phase = Phase::Finished;
                    return Action::Done;
                }
                match read_frame(data, self.next_frame, settings) {
                    Err(e) => {
                        self.fail(e);
                        Action::Fail(e)
                    },
                    Ok(FrameStart::End) => {
                        self.phase = Phase::Finished;
                        Action::Done
                    },
                    Ok(FrameStart::Frame { timestamp, rest_start, rest_end, packets, next }) => {
                        self.next_frame = next;
                        self.phase = Phase::InFrame {
                            timestamp,
                            rest_start,
                            rest_end,
                            remaining: packets,
                            base: 0,
                        };
                        Action::Continue
                    },
                }
            },
            Phase::InFrame { timestamp, rest_start, rest_end, remaining, base } => {
                if self.window_reached(self.position) {
                    self.phase = Phase::Finished;
                    return Action::Done;
                }
                let rest_start = *rest_start;
                let rest_end = *rest_end;
                let remaining = *remaining;
                let base = *base;
                if remaining == 0 {
                    self.phase = Phase::BetweenFrames;
                    return Action::Continue;
                }
                if !(rest_start <= rest_end && rest_end <= data.len()) {
                    self.fail(DecodeError::Io);
                    return Action::Fail(DecodeError::Io);
                }
                let timestamp = timestamp.duplicate();
                match locate(data, rest_start, rest_end, base, &settings.packet_info, packing) {
                    Err(e) => {
                        self.fail(e);
                        Action::Fail(e)
                    },
                    Ok(Located::Compressed { from, to }) => {
                        self.phase = Phase::Expanding {
                            timestamp,
                            rest_start,
                            rest_end,
                            remaining: remaining - 1,
                            base: clamped_add(base, (to - from) as u64),
                            from,
                            to,
                        };
                        Action::Expand { from, to, capacity: settings.decompress_capacity }
                    },
                    Ok(Located::Raw { from }) => {
                        match decode_body(&settings.packet_info, &data[from..rest_end], packing, self.position) {
                            Err(e) => {
                                self.fail(e);
                                Action::Fail(e)
                            },
                            Ok((entries, size, skip)) => {
                                let next_base = clamped_add(clamped_add(base, size), skip as u64);
                                self.finish_subpacket(timestamp, entries, rest_start, rest_end, remaining - 1, next_base);
                                match self.phase {
                                    Phase::Finished => Action::Done,
                                    _ => Action::Continue,
                                }
                            },
                        }
                    },
                }
            },
        }
    }

    /// Hands back the expansion of the compressed sub-packet that the last step asked for
    /// (`None` when it failed), and decodes it.
    pub fn resume(&mut self, expanded: Option<Vec<u8>>, settings: &NativeSettings)
        ensures
            final(self)@ == resume_spec(
                old(self)@,
                match expanded {
                    Some(b) => Some(b@),
                    None => None,
                },
                *settings,
            ),
    {
        match &self.phase {
            Phase::Expanding { timestamp, rest_start, rest_end, remaining, base, .. } => {
                if self.window_reached(self.position) {
                    self.phase = Phase::Finished;
                    return;
                }
                let timestamp = timestamp.duplicate();
                let rest_start = *rest_start;
                let rest_end = *rest_end;
                let remaining = *remaining;
                let base = *base;
                match expanded {
                    None => {
                        self.fail(DecodeError::Compression);
                    },
                    Some(buf) => {
                        match decode_body(&settings.packet_info, buf.as_slice(), settings.packing, self.position) {
                            Err(e) => {
                                self.fail(e);
                            },
                            Ok((entries, _, _)) => {
                                self.finish_subpacket(timestamp, entries, rest_start, rest_end, remaining, base);
                            },
                        }
                    },
                }
            },
            _ => {},
        }
    }
}

} // verus!
