//! Trajectory frames and their word-stream codec.
//!
//! A frame carries the particle count, the box, the run metadata and the
//! coordinates. The library owns the structured encoding — a flat stream
//! of 64-bit words, one frame after another — and proves that reading
//! back what was written yields the same count, box and coordinates; the
//! byte-level text rendering on disk belongs to the surrounding program.
use vstd::prelude::*;
use crate::geometry::LEN_MAX;
use crate::potential::N_MAX;

verus! {

pub struct Frame {
    pub num_particles: usize,
    pub box_x: i64,
    pub box_y: i64,
    pub box_z: i64,
    pub temperature: u64,
    pub eps: u64,
    pub sigma: u64,
    pub cutoff: u64,
    pub rx: Vec<i64>,
    pub ry: Vec<i64>,
    pub rz: Vec<i64>,
}

pub open spec fn spec_frame_wf(f: Frame) -> bool {
    &&& f.rx@.len() == f.num_particles
    &&& f.ry@.len() == f.num_particles
    &&& f.rz@.len() == f.num_particles
    &&& f.num_particles <= N_MAX
    &&& 0 < f.box_x <= LEN_MAX
    &&& 0 < f.box_y <= LEN_MAX
    &&& 0 < f.box_z <= LEN_MAX
    &&& forall|i: int|
        0 <= i < f.num_particles ==> 0 <= #[trigger] f.rx@[i] < f.box_x && 0 <= f.ry@[i] < f.box_y
            && 0 <= f.rz@[i] < f.box_z
}

/// Coordinates as words (they are nonnegative, so the cast is lossless).
pub open spec fn spec_coord_words(cs: Seq<i64>) -> Seq<u64> {
    cs.map_values(|c: i64| c as u64)
}

/// The encoded form of one frame: the eight header words, then all `x`,
/// then all `y`, then all `z` coordinates.
pub open spec fn spec_frame_words(f: Frame) -> Seq<u64> {
    seq![
        f.num_particles as u64,
        f.box_x as u64,
        f.box_y as u64,
        f.box_z as u64,
        f.temperature,
        f.eps,
        f.sigma,
        f.cutoff,
    ] + spec_coord_words(f.rx@) + spec_coord_words(f.ry@) + spec_coord_words(f.rz@)
}

fn push_coords(words: &mut Vec<u64>, cs: &Vec<i64>)
    requires
        forall|i: int| 0 <= i < cs@.len() ==> 0 <= #[trigger] cs@[i],
    ensures
        final(words)@ == old(words)@ + spec_coord_words(cs@),
{
    let n: usize = cs.len();
    let mut i: usize = 0;
    while i < n
        invariant
            i <= n,
            n == cs@.len(),
            forall|j: int| 0 <= j < n ==> 0 <= #[trigger] cs@[j],
            words@ == old(words)@ + spec_coord_words(cs@.subrange(0, i as int)),
        decreases n - i,
    {
        words.push(cs[i] as u64);
        proof {
            assert(spec_coord_words(cs@.subrange(0, i + 1)) =~= spec_coord_words(
                cs@.subrange(0, i as int),
            ).push(cs@[i as int] as u64));
            assert(words@ =~= old(words)@ + spec_coord_words(cs@.subrange(0, i + 1)));
        }
        i = i + 1;
    }
    proof {
        assert(cs@.subrange(0, n as int) =~= cs@);
    }
}

/// Append the encoding of one frame to a word stream.
pub fn write_frame(words: &mut Vec<u64>, f: &Frame)
    requires
        spec_frame_wf(*f),
    ensures
        final(words)@ == old(words)@ + spec_frame_words(*f),
{
    words.push(f.num_particles as u64);
    words.push(f.box_x as u64);
    words.push(f.box_y as u64);
    words.push(f.box_z as u64);
    words.push(f.temperature);
    words.push(f.eps);
    words.push(f.sigma);
    words.push(f.cutoff);
    proof {
        assert forall|i: int| 0 <= i < f.ry@.len() implies 0 <= #[trigger] f.ry@[i] by {
            assert(0 <= f.rx@[i] < f.box_x);
        }
        assert forall|i: int| 0 <= i < f.rz@.len() implies 0 <= #[trigger] f.rz@[i] by {
            assert(0 <= f.rx@[i] < f.box_x);
        }
    }
    push_coords(words, &f.rx);
    push_coords(words, &f.ry);
    push_coords(words, &f.rz);
    proof {
        assert(final(words)@ =~= old(words)@ + spec_frame_words(*f));
    }
}

/// The stream positions `pos .. pos + 8 + 3n` hold a well-formed frame.
pub open spec fn spec_frame_readable(ws: Seq<u64>, pos: int) -> bool {
    &&& 0 <= pos
    &&& pos + 8 <= ws.len()
    &&& ws[pos] <= N_MAX as u64
    &&& 0 < ws[pos + 1] <= LEN_MAX as u64
    &&& 0 < ws[pos + 2] <= LEN_MAX as u64
    &&& 0 < ws[pos + 3] <= LEN_MAX as u64
    &&& pos + 8 + 3 * ws[pos] <= ws.len()
    &&& forall|i: int|
        0 <= i < ws[pos] ==> #[trigger] ws[pos + 8 + i] < ws[pos + 1] && ws[pos + 8 + ws[pos] + i]
            < ws[pos + 2] && ws[pos + 8 + 2 * ws[pos] + i] < ws[pos + 3]
}

/// The frame `f` is exactly what the stream holds at `pos`: every header
/// field equals its word and the coordinate vectors equal the three word
/// segments.
pub open spec fn spec_frame_matches_at(ws: Seq<u64>, pos: int, f: Frame) -> bool {
    let n = ws[pos] as int;
    &&& f.num_particles == ws[pos]
    &&& f.box_x == ws[pos + 1] && f.box_y == ws[pos + 2] && f.box_z == ws[pos + 3]
    &&& f.temperature == ws[pos + 4] && f.eps == ws[pos + 5] && f.sigma == ws[pos + 6]
        && f.cutoff == ws[pos + 7]
    &&& f.rx@ == ws.subrange(pos + 8, pos + 8 + n).map_values(|w: u64| w as i64)
    &&& f.ry@ == ws.subrange(pos + 8 + n, pos + 8 + 2 * n).map_values(|w: u64| w as i64)
    &&& f.rz@ == ws.subrange(pos + 8 + 2 * n, pos + 8 + 3 * n).map_values(|w: u64| w as i64)
}

/// The stream position just past the frame at `pos`.
pub open spec fn spec_frame_end(ws: Seq<u64>, pos: int) -> int {
    pos + 8 + 3 * ws[pos]
}

fn read_coords(words: &Vec<u64>, start: usize, n: usize, bound: u64) -> (r: Option<Vec<i64>>)
    requires
        start + n <= words@.len(),
        0 < bound <= LEN_MAX as u64,
    ensures
        r is Some <==> (forall|i: int| 0 <= i < n ==> #[trigger] words@[start + i] < bound),
        r is Some ==> (r->Some_0)@ == words@.subrange(start as int, (start + n) as int).map_values(
            |w: u64| w as i64,
        ),
{
    let len: usize = words.len();
    let mut cs: Vec<i64> = Vec::new();
    let mut i: usize = 0;
    while i < n
        invariant
            i <= n,
            len == words@.len(),
            start + n <= words@.len(),
            0 < bound <= LEN_MAX as u64,
            forall|j: int| 0 <= j < i ==> #[trigger] words@[start + j] < bound,
            cs@ == words@.subrange(start as int, (start + i) as int).map_values(
                |w: u64| w as i64,
            ),
        decreases n - i,
    {
        let w: u64 = words[start + i];
        if w >= bound {
            return None;
        }
        cs.push(w as i64);
        proof {
            assert(cs@ =~= words@.subrange(start as int, (start + i + 1) as int).map_values(
                |w: u64| w as i64,
            ));
        }
        i = i + 1;
    }
    Some(cs)
}

/// Read one frame from the stream at `pos`. Returns the frame and the
/// position just past it; `None` exactly when no well-formed frame starts
/// at `pos`.
pub fn read_frame(words: &Vec<u64>, pos: usize) -> (r: Option<(Frame, usize)>)
    ensures
        r is Some <==> spec_frame_readable(words@, pos as int),
        r is Some ==> ({
            let f = r->Some_0.0;
            let np = r->Some_0.1;
            &&& spec_frame_wf(f)
            &&& spec_frame_matches_at(words@, pos as int, f)
            &&& np == spec_frame_end(words@, pos as int)
        }),
{
    let len: usize = words.len();
    if pos >= len || len - pos < 8 {
        return None;
    }
    let nw: u64 = words[pos];
    if nw > N_MAX as u64 {
        return None;
    }
    let n: usize = nw as usize;
    let bx: u64 = words[pos + 1];
    let by: u64 = words[pos + 2];
    let bz: u64 = words[pos + 3];
    if bx == 0 || bx > LEN_MAX as u64 || by == 0 || by > LEN_MAX as u64 || bz == 0 || bz
        > LEN_MAX as u64 {
        return None;
    }
    if (len - pos - 8) / 3 < n {
        return None;
    }
    proof {
        assert(pos + 8 + 3 * n <= len);
    }
    let rx = read_coords(words, pos + 8, n, bx);
    let ry = read_coords(words, pos + 8 + n, n, by);
    let rz = read_coords(words, pos + 8 + 2 * n, n, bz);
    match (rx, ry, rz) {
        (Some(rx), Some(ry), Some(rz)) => {
            let f = Frame {
                num_particles: n,
                box_x: bx as i64,
                box_y: by as i64,
                box_z: bz as i64,
                temperature: words[pos + 4],
                eps: words[pos + 5],
                sigma: words[pos + 6],
                cutoff: words[pos + 7],
                rx,
                ry,
                rz,
            };
            proof {
                let ws = words@;
                assert forall|i: int| 0 <= i < f.num_particles implies 0 <= #[trigger] f.rx@[i]
                    < f.box_x && 0 <= f.ry@[i] < f.box_y && 0 <= f.rz@[i] < f.box_z by {
                    assert(ws[pos + 8 + i] < bx);
                    assert(ws[pos + 8 + n + i] < by);
                    assert(ws[pos + 8 + 2 * n + i] < bz);
                    assert(f.rx@[i] == ws[pos + 8 + i] as i64);
                    assert(f.ry@[i] == ws[pos + 8 + f.num_particles + i] as i64);
                    assert(f.rz@[i] == ws[pos + 8 + 2 * f.num_particles + i] as i64);
                }
                assert forall|i: int| 0 <= i < ws[pos as int] implies #[trigger] ws[pos + 8 + i]
                    < ws[pos as int + 1] && ws[pos + 8 + ws[pos as int] + i] < ws[pos as int + 2]
                    && ws[pos + 8 + 2 * ws[pos as int] + i] < ws[pos as int + 3] by {
                    assert(ws[pos + 8 + i] < bx);
                    assert(ws[pos + 8 + n + i] < by);
                    assert(ws[pos + 8 + 2 * n + i] < bz);
                }
                assert(spec_frame_readable(words@, pos as int));
            }
            Some((f, pos + 8 + 3 * n))
        },
        _ => {
            proof {
                if spec_frame_readable(words@, pos as int) {
                    let ws = words@;
                    assert forall|i: int| 0 <= i < n implies #[trigger] ws[pos + 8 + i]
                        < bx by {
                        assert(ws[pos as int + 8 + i] < ws[pos as int + 1]);
                    }
                    assert forall|i: int| 0 <= i < n implies #[trigger] ws[pos + 8 + n + i]
                        < by by {
                        assert(ws[pos as int + 8 + i] < ws[pos as int + 1]);
                        assert(ws[pos as int + 8 + ws[pos as int] + i] < ws[pos as int + 2]);
                    }
                    assert forall|i: int| 0 <= i < n implies #[trigger] ws[pos + 8 + 2 * n + i]
                        < bz by {
                        assert(ws[pos as int + 8 + i] < ws[pos as int + 1]);
                        assert(ws[pos as int + 8 + 2 * ws[pos as int] + i] < ws[pos as int + 3]);
                    }
                    assert(false);
                }
            }
            None
        },
    }
}

/// Writing a frame and reading at the write position yields a frame with
/// the same particle count, box dimensions, metadata and coordinates,
/// whatever surrounds it in the stream.
pub proof fn lemma_frame_round_trip(f: Frame, prefix: Seq<u64>, rest: Seq<u64>)
    requires
        spec_frame_wf(f),
    ensures
        ({
            let ws = prefix + spec_frame_words(f) + rest;
            let pos = prefix.len() as int;
            let n = f.num_particles as int;
            &&& spec_frame_readable(ws, pos)
            &&& ws[pos] == f.num_particles as u64
            &&& ws[pos + 1] == f.box_x as u64 && ws[pos + 2] == f.box_y as u64 && ws[pos + 3]
                == f.box_z as u64
            &&& ws[pos + 4] == f.temperature && ws[pos + 5] == f.eps && ws[pos + 6] == f.sigma
                && ws[pos + 7] == f.cutoff
            &&& ws.subrange(pos + 8, pos + 8 + n).map_values(|w: u64| w as i64) == f.rx@
            &&& ws.subrange(pos + 8 + n, pos + 8 + 2 * n).map_values(|w: u64| w as i64) == f.ry@
            &&& ws.subrange(pos + 8 + 2 * n, pos + 8 + 3 * n).map_values(|w: u64| w as i64)
                == f.rz@
            &&& spec_frame_matches_at(ws, pos, f)
        }),
{
    let ws = prefix + spec_frame_words(f) + rest;
    let pos = prefix.len() as int;
    let n = f.num_particles as int;
    assert(ws.subrange(pos + 8, pos + 8 + n) =~= spec_coord_words(f.rx@));
    assert(ws.subrange(pos + 8 + n, pos + 8 + 2 * n) =~= spec_coord_words(f.ry@));
    assert(ws.subrange(pos + 8 + 2 * n, pos + 8 + 3 * n) =~= spec_coord_words(f.rz@));
    assert forall|i: int| 0 <= i < n implies 0 <= f.ry@[i] && 0 <= f.rz@[i] by {
        assert(0 <= f.rx@[i] < f.box_x);
    }
    assert(spec_coord_words(f.rx@).map_values(|w: u64| w as i64) =~= f.rx@);
    assert(spec_coord_words(f.ry@).map_values(|w: u64| w as i64) =~= f.ry@);
    assert(spec_coord_words(f.rz@).map_values(|w: u64| w as i64) =~= f.rz@);
    assert forall|i: int| 0 <= i < ws[pos] implies #[trigger] ws[pos + 8 + i] < ws[pos + 1]
        && ws[pos + 8 + ws[pos] + i] < ws[pos + 2] && ws[pos + 8 + 2 * ws[pos] + i] < ws[pos
        + 3] by {
        assert(ws[pos + 8 + i] == f.rx@[i] as u64);
        assert(ws[pos + 8 + n + i] == f.ry@[i] as u64);
        assert(ws[pos + 8 + 2 * n + i] == f.rz@[i] as u64);
        assert(0 <= f.rx@[i] < f.box_x);
    }
}

/// The concatenated encoding of a sequence of frames, first frame first.
pub open spec fn spec_stream_words(frames: Seq<Frame>) -> Seq<u64>
    decreases frames.len(),
{
    if frames.len() == 0 {
        Seq::empty()
    } else {
        spec_frame_words(frames[0]) + spec_stream_words(frames.drop_first())
    }
}

/// Writing frames one after another and reading the stream back yields
/// them in order: the stream of a non-empty frame sequence begins with a
/// readable copy of the first frame, and past it lies exactly the stream
/// of the remaining frames. Applied repeatedly this recovers every frame
/// of the stream with its particle count, box and coordinates unchanged.
pub proof fn lemma_stream_round_trip(frames: Seq<Frame>, rest: Seq<u64>)
    requires
        frames.len() > 0,
        forall|k: int| 0 <= k < frames.len() ==> spec_frame_wf(#[trigger] frames[k]),
    ensures
        ({
            let f = frames[0];
            let ws = spec_stream_words(frames) + rest;
            let n = f.num_particles as int;
            let next = 8 + 3 * n;
            &&& spec_frame_readable(ws, 0)
            &&& ws[0] == f.num_particles as u64
            &&& ws[1] == f.box_x as u64 && ws[2] == f.box_y as u64 && ws[3] == f.box_z as u64
            &&& ws[4] == f.temperature && ws[5] == f.eps && ws[6] == f.sigma && ws[7] == f.cutoff
            &&& ws.subrange(8, 8 + n).map_values(|w: u64| w as i64) == f.rx@
            &&& ws.subrange(8 + n, 8 + 2 * n).map_values(|w: u64| w as i64) == f.ry@
            &&& ws.subrange(8 + 2 * n, 8 + 3 * n).map_values(|w: u64| w as i64) == f.rz@
            &&& spec_frame_matches_at(ws, 0, f)
            &&& ws.subrange(next, ws.len() as int) == spec_stream_words(frames.drop_first())
                + rest
        }),
{
    let f = frames[0];
    let tail = spec_stream_words(frames.drop_first()) + rest;
    assert(spec_stream_words(frames) + rest =~= Seq::empty() + spec_frame_words(f) + tail);
    lemma_frame_round_trip(f, Seq::empty(), tail);
    let ws = spec_stream_words(frames) + rest;
    let n = f.num_particles as int;
    assert(spec_frame_words(f).len() == 8 + 3 * n);
    assert(ws.subrange(8 + 3 * n, ws.len() as int) =~= tail);
}

/// The position after skipping up to `k` readable frames from `pos`:
/// past `k` frame encodings, or at the first position where no frame is
/// readable.
pub open spec fn spec_skip_pos(ws: Seq<u64>, pos: int, k: nat) -> int
    decreases k,
{
    if k == 0 {
        pos
    } else if spec_frame_readable(ws, pos) {
        spec_skip_pos(ws, spec_frame_end(ws, pos), (k - 1) as nat)
    } else {
        pos
    }
}

/// Sequential access to a recorded word stream, with optional skipping of
/// leading frames.
pub struct TrjReader {
    pub words: Vec<u64>,
    pub pos: usize,
}

impl TrjReader {
    pub fn new(words: Vec<u64>) -> (r: TrjReader)
        ensures
            r.words@ == words@,
            r.pos == 0,
    {
        TrjReader { words, pos: 0 }
    }

    /// Retrieve the next frame and advance past it; `None` at end of
    /// stream (or on a malformed remainder). The frame handed back is
    /// exactly the one the stream holds at the old position.
    pub fn next_frame(&mut self) -> (r: Option<Frame>)
        ensures
            final(self).words@ == old(self).words@,
            r is Some <==> spec_frame_readable(old(self).words@, old(self).pos as int),
            r is None ==> final(self).pos == old(self).pos,
            r is Some ==> ({
                let f = r->Some_0;
                &&& spec_frame_wf(f)
                &&& spec_frame_matches_at(old(self).words@, old(self).pos as int, f)
                &&& final(self).pos == spec_frame_end(old(self).words@, old(self).pos as int)
            }),
    {
        match read_frame(&self.words, self.pos) {
            Some((f, np)) => {
                self.pos = np;
                Some(f)
            },
            None => None,
        }
    }

    /// Whether a further frame exists at the current position.
    pub fn has_frame(&self) -> (b: bool)
        ensures
            b == spec_frame_readable(self.words@, self.pos as int),
    {
        match read_frame(&self.words, self.pos) {
            Some(_) => true,
            None => false,
        }
    }

    /// Replace `frame` with the next frame if one exists; the result says
    /// whether it did. The replacement is exactly the frame the stream
    /// holds at the old position.
    pub fn update_with_next(&mut self, frame: &mut Frame) -> (b: bool)
        ensures
            final(self).words@ == old(self).words@,
            b == spec_frame_readable(old(self).words@, old(self).pos as int),
            !b ==> final(self).pos == old(self).pos && *final(frame) == *old(frame),
            b ==> ({
                &&& spec_frame_wf(*final(frame))
                &&& spec_frame_matches_at(old(self).words@, old(self).pos as int, *final(frame))
                &&& final(self).pos == spec_frame_end(old(self).words@, old(self).pos as int)
            }),
    {
        match read_frame(&self.words, self.pos) {
            Some((f, np)) => {
                self.pos = np;
                *frame = f;
                true
            },
            None => false,
        }
    }

    /// Skip the next `k` frames, stopping early where the stream ends.
    pub fn skip(&mut self, k: usize)
        ensures
            final(self).words@ == old(self).words@,
            final(self).pos == spec_skip_pos(old(self).words@, old(self).pos as int, k as nat),
    {
        let mut i: usize = 0;
        while i < k
            invariant
                self.words@ == old(self).words@,
                i <= k,
                spec_skip_pos(self.words@, self.pos as int, (k - i) as nat) == spec_skip_pos(
                    old(self).words@,
                    old(self).pos as int,
                    k as nat,
                ),
            decreases k - i,
        {
            match read_frame(&self.words, self.pos) {
                Some((_f, np)) => {
                    self.pos = np;
                },
                None => {
                    return ;
                },
            }
            i = i + 1;
        }
    }
}

} // verus!
