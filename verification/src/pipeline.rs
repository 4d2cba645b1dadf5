//! The block of log lines that the benchmark writes for one image, and the
//! steps by which an image goes through the benchmark.
//!
//! A block opens with the line that names the image. Then, codec by codec in
//! the order of the codecs, comes the line of the codec and, where the codec
//! is lossy and so handed back a reconstruction, one line for each hash and
//! one for each metric, in their order.
//!
//! The work on an image alternates between the caller, who decodes, runs
//! the codecs and writes, and [`advance`], which says where the image
//! stands after each of these and which lines are to be written.
use vstd::prelude::*;
use crate::raster::Image;

verus! {

/// What one codec made of one image.
pub struct Compression {
    /// The length of the encoded stream in bytes.
    pub stream_size: u64,
    /// The time that encoding took, in microseconds.
    pub time_spent: u128,
    /// The decoded stream, for a lossy codec; nothing for a lossless one.
    pub image_if_lossy: Option<Image>,
}

impl Compression {
    /// What a codec owes for an image: a lossless codec hands back no image,
    /// and a lossy one hands back an image of the size of the original.
    pub open spec fn owed(&self, lossy: bool, original: &Image) -> bool {
        match self.image_if_lossy {
            Some(other) => lossy && other@.width == original@.width && other@.height == original@.height,
            None => !lossy,
        }
    }

    /// Whether the codec was lossy: whether a reconstruction came back.
    pub fn is_lossy(&self) -> (lossy: bool)
        ensures
            lossy == self.image_if_lossy.is_some(),
    {
        self.image_if_lossy.is_some()
    }

    /// Whether this is what a codec, lossy or lossless as `lossy` says, owes
    /// for the image `original`.
    pub fn fulfils(&self, lossy: bool, original: &Image) -> (ok: bool)
        ensures
            ok == self.owed(lossy, original),
    {
        match &self.image_if_lossy {
            Some(other) => lossy && other.same_size(original),
            None => !lossy,
        }
    }
}

/// A line of the log, by what it reports. Codecs, hashes and metrics are
/// named by their place in their list.
#[derive(Clone, Copy, Debug, PartialEq, Eq, Structural)]
pub enum Line {
    /// The line that opens the block of an image.
    Image,
    /// The size, time and ratio of a codec.
    Codec { codec: usize, lossy: bool },
    /// The distance of the hashes of the image and its reconstruction.
    Hash { codec: usize, hash: usize },
    /// A metric of the image and its reconstruction.
    Metric { codec: usize, metric: usize },
}

/// The hash lines of a codec.
pub open spec fn hash_lines(codec: usize, hashes: nat) -> Seq<Line> {
    Seq::new(hashes, |h: int| Line::Hash { codec, hash: h as usize })
}

/// The metric lines of a codec.
pub open spec fn metric_lines(codec: usize, metrics: nat) -> Seq<Line> {
    Seq::new(metrics, |m: int| Line::Metric { codec, metric: m as usize })
}

/// The lines of a codec: its own, then for a lossy codec the hash lines and
/// the metric lines.
pub open spec fn codec_lines(codec: usize, lossy: bool, hashes: nat, metrics: nat) -> Seq<Line> {
    if lossy {
        seq![Line::Codec { codec, lossy }] + hash_lines(codec, hashes) + metric_lines(codec, metrics)
    } else {
        seq![Line::Codec { codec, lossy }]
    }
}

/// The block of an image up to and without codec `n`.
pub open spec fn block_lines(lossy: Seq<bool>, hashes: nat, metrics: nat, n: nat) -> Seq<Line>
    decreases n,
{
    if n == 0 {
        seq![Line::Image]
    } else {
        block_lines(lossy, hashes, metrics, (n - 1) as nat) + codec_lines(
            (n - 1) as usize,
            lossy[n - 1],
            hashes,
            metrics,
        )
    }
}

/// The place of a line in the order of a block: the codec it belongs to, the
/// kind of line, and its place among the lines of that kind.
pub open spec fn line_rank(line: Line) -> (int, int, int) {
    match line {
        Line::Image => (-1, 0, 0),
        Line::Codec { codec, lossy } => (codec as int, 0, 0),
        Line::Hash { codec, hash } => (codec as int, 1, hash as int),
        Line::Metric { codec, metric } => (codec as int, 2, metric as int),
    }
}

/// Whether rank `a` comes before rank `b`.
pub open spec fn rank_before(a: (int, int, int), b: (int, int, int)) -> bool {
    a.0 < b.0 || (a.0 == b.0 && (a.1 < b.1 || (a.1 == b.1 && a.2 < b.2)))
}

/// The lines that follow a trial of codec number `codec`.
pub fn codec_block(codec: usize, lossy: bool, hashes: usize, metrics: usize) -> (lines: Vec<Line>)
    ensures
        lines@ == codec_lines(codec, lossy, hashes as nat, metrics as nat),
{
    let mut lines: Vec<Line> = Vec::new();
    lines.push(Line::Codec { codec, lossy });
    if lossy {
        let mut h: usize = 0;
        while h < hashes
            invariant
                h <= hashes,
                lines@ == seq![Line::Codec { codec, lossy }] + hash_lines(codec, h as nat),
            decreases hashes - h,
        {
            lines.push(Line::Hash { codec, hash: h });
            assert(lines@ =~= seq![Line::Codec { codec, lossy }] + hash_lines(codec, (h + 1) as nat));
            h += 1;
        }
        let mut m: usize = 0;
        while m < metrics
            invariant
                m <= metrics,
                lines@ == seq![Line::Codec { codec, lossy }] + hash_lines(codec, hashes as nat) + metric_lines(
                    codec,
                    m as nat,
                ),
            decreases metrics - m,
        {
            lines.push(Line::Metric { codec, metric: m });
            assert(lines@ =~= seq![Line::Codec { codec, lossy }] + hash_lines(codec, hashes as nat) + metric_lines(
                codec,
                (m + 1) as nat,
            ));
            m += 1;
        }
    }
    lines
}

/// The block of an image: `lossy` tells of each codec, in the order of the
/// codecs, whether a reconstruction came back.
pub fn image_block(lossy: &Vec<bool>, hashes: usize, metrics: usize) -> (lines: Vec<Line>)
    ensures
        lines@ == block_lines(lossy@, hashes as nat, metrics as nat, lossy@.len()),
{
    let mut lines: Vec<Line> = Vec::new();
    lines.push(Line::Image);
    assert(lines@ =~= seq![Line::Image]);
    let mut c: usize = 0;
    while c < lossy.len()
        invariant
            c <= lossy.len(),
            lines@ == block_lines(lossy@, hashes as nat, metrics as nat, c as nat),
        decreases lossy.len() - c,
    {
        let mut part = codec_block(c, lossy[c], hashes, metrics);
        let ghost before = lines@;
        lines.append(&mut part);
        assert(lines@ =~= before + codec_lines(c, lossy@[c as int], hashes as nat, metrics as nat));
        c += 1;
    }
    lines
}


proof fn lemma_codec_lines_rank(codec: usize, lossy: bool, hashes: nat, metrics: nat, p: int)
    requires
        hashes <= usize::MAX,
        metrics <= usize::MAX,
        0 <= p < codec_lines(codec, lossy, hashes, metrics).len(),
    ensures
        line_rank(codec_lines(codec, lossy, hashes, metrics)[p]) == if p == 0 {
            (codec as int, 0int, 0int)
        } else if p <= hashes {
            (codec as int, 1int, p - 1)
        } else {
            (codec as int, 2int, p - 1 - hashes)
        },
{
}

proof fn lemma_block_below(lossy: Seq<bool>, hashes: nat, metrics: nat, n: nat, p: int)
    requires
        n <= lossy.len(),
        n <= usize::MAX,
        hashes <= usize::MAX,
        metrics <= usize::MAX,
        0 <= p < block_lines(lossy, hashes, metrics, n).len(),
    ensures
        line_rank(block_lines(lossy, hashes, metrics, n)[p]).0 < n,
    decreases n,
{
    if n > 0 {
        let head = block_lines(lossy, hashes, metrics, (n - 1) as nat);
        if p < head.len() {
            lemma_block_below(lossy, hashes, metrics, (n - 1) as nat, p);
        } else {
            lemma_codec_lines_rank((n - 1) as usize, lossy[n - 1], hashes, metrics, p - head.len());
        }
    }
}

/// The lines of a block stand in the order of their ranks: the line of the
/// image first, then codec by codec the line of the codec, its hash lines
/// and its metric lines, each kind in the order of its list.
pub proof fn lemma_block_ordered(lossy: Seq<bool>, hashes: nat, metrics: nat, n: nat, p: int, q: int)
    requires
        n <= lossy.len(),
        n <= usize::MAX,
        hashes <= usize::MAX,
        metrics <= usize::MAX,
        0 <= p < q < block_lines(lossy, hashes, metrics, n).len(),
    ensures
        rank_before(
            line_rank(block_lines(lossy, hashes, metrics, n)[p]),
            line_rank(block_lines(lossy, hashes, metrics, n)[q]),
        ),
    decreases n,
{
    if n > 0 {
        let head = block_lines(lossy, hashes, metrics, (n - 1) as nat);
        if q < head.len() {
            lemma_block_ordered(lossy, hashes, metrics, (n - 1) as nat, p, q);
        } else {
            lemma_codec_lines_rank((n - 1) as usize, lossy[n - 1], hashes, metrics, q - head.len());
            if p < head.len() {
                lemma_block_below(lossy, hashes, metrics, (n - 1) as nat, p);
            } else {
                lemma_codec_lines_rank((n - 1) as usize, lossy[n - 1], hashes, metrics, p - head.len());
            }
        }
    }
}


/// Where an image stands in the benchmark.
#[derive(Clone, Copy, Debug, PartialEq, Eq, Structural)]
pub enum Stage {
    /// The image is known by its path.
    Discovered,
    /// The image was decoded.
    Decoded,
    /// The image was hashed, and the codec of this number is the next to run.
    Compressing { codec: usize },
    /// Every codec has run and the block of the image is complete.
    Logged,
    /// The image was given up.
    Failed,
}

/// What happened to an image since the last step.
#[derive(Clone, Copy, Debug, PartialEq, Eq, Structural)]
pub enum Event {
    /// The image was decoded.
    Decoded,
    /// The hashes of the image were taken.
    Hashed,
    /// The next codec ran, and handed back a reconstruction if it is lossy.
    Trial { lossy: bool },
    /// The image could not be read or decoded.
    DecodeFailure,
    /// The next codec failed.
    CodecFailure,
    /// The log could not be written.
    IoFailure,
}

/// The stage at which codec number `codec` of `codecs` is the next to run:
/// after the last codec the block is complete.
pub open spec fn stage_before(codec: int, codecs: nat) -> Stage {
    if 0 <= codec < codecs {
        Stage::Compressing { codec: codec as usize }
    } else {
        Stage::Logged
    }
}

/// The stage that follows `stage` on `event`, with `codecs` codecs to run.
///
/// A failure to decode or to write gives the image up; a codec that fails is
/// passed over, and the codecs after it still run. At the end, and on an
/// event that does not belong to the stage, the image stays where it is.
pub open spec fn next_stage(stage: Stage, event: Event, codecs: nat) -> Stage {
    match (stage, event) {
        (Stage::Logged, _) => Stage::Logged,
        (Stage::Failed, _) => Stage::Failed,
        (_, Event::IoFailure) => Stage::Failed,
        (Stage::Discovered, Event::Decoded) => Stage::Decoded,
        (Stage::Discovered, Event::DecodeFailure) => Stage::Failed,
        (Stage::Decoded, Event::Hashed) => stage_before(0, codecs),
        (Stage::Compressing { codec }, Event::Trial { lossy }) => stage_before(codec + 1, codecs),
        (Stage::Compressing { codec }, Event::CodecFailure) => stage_before(codec + 1, codecs),
        _ => stage,
    }
}

/// The lines to write when `event` comes at `stage`: the line of the image
/// when the image is taken up, whether or not it could be decoded, and the
/// lines of a codec after its trial.
pub open spec fn lines_on(stage: Stage, event: Event, hashes: nat, metrics: nat) -> Seq<Line> {
    match (stage, event) {
        (Stage::Discovered, Event::Decoded) => seq![Line::Image],
        (Stage::Discovered, Event::DecodeFailure) => seq![Line::Image],
        (Stage::Compressing { codec }, Event::Trial { lossy }) => codec_lines(codec, lossy, hashes, metrics),
        _ => Seq::empty(),
    }
}

fn before(codec: usize, codecs: usize) -> (stage: Stage)
    ensures
        stage == stage_before(codec as int, codecs as nat),
{
    if codec < codecs {
        Stage::Compressing { codec }
    } else {
        Stage::Logged
    }
}

fn after(codec: usize, codecs: usize) -> (stage: Stage)
    ensures
        stage == stage_before(codec + 1, codecs as nat),
{
    if codec < codecs {
        before(codec + 1, codecs)
    } else {
        Stage::Logged
    }
}

/// Takes an image one step on: the stage that follows, and the lines to write.
pub fn advance(stage: Stage, event: Event, codecs: usize, hashes: usize, metrics: usize) -> (step: (
    Stage,
    Vec<Line>,
))
    ensures
        step.0 == next_stage(stage, event, codecs as nat),
        step.1@ == lines_on(stage, event, hashes as nat, metrics as nat),
{
    let mut lines: Vec<Line> = Vec::new();
    match (stage, event) {
        (Stage::Logged, _) => (Stage::Logged, lines),
        (Stage::Failed, _) => (Stage::Failed, lines),
        (Stage::Discovered, Event::Decoded) => {
            lines.push(Line::Image);
            assert(lines@ =~= seq![Line::Image]);
            (Stage::Decoded, lines)
        },
        (Stage::Discovered, Event::DecodeFailure) => {
            lines.push(Line::Image);
            assert(lines@ =~= seq![Line::Image]);
            (Stage::Failed, lines)
        },
        (_, Event::IoFailure) => (Stage::Failed, lines),
        (Stage::Decoded, Event::Hashed) => (before(0, codecs), lines),
        (Stage::Compressing { codec }, Event::Trial { lossy }) => {
            (after(codec, codecs), codec_block(codec, lossy, hashes, metrics))
        },
        (Stage::Compressing { codec }, Event::CodecFailure) => (after(codec, codecs), lines),
        _ => (stage, lines),
    }
}

/// The events of an image on which nothing fails: it is decoded and hashed,
/// and then the first `n` codecs run, `lossy` telling of each whether it
/// handed back a reconstruction.
pub open spec fn smooth_events(lossy: Seq<bool>, n: nat) -> Seq<Event>
    decreases n,
{
    if n == 0 {
        seq![Event::Decoded, Event::Hashed]
    } else {
        smooth_events(lossy, (n - 1) as nat).push(Event::Trial { lossy: lossy[n - 1] })
    }
}

/// The stage of an image after a sequence of events, from its discovery.
pub open spec fn stage_after(events: Seq<Event>, codecs: nat) -> Stage
    decreases events.len(),
{
    if events.len() == 0 {
        Stage::Discovered
    } else {
        next_stage(stage_after(events.drop_last(), codecs), events.last(), codecs)
    }
}

/// The lines written for an image over a sequence of events, from its discovery.
pub open spec fn lines_after(events: Seq<Event>, codecs: nat, hashes: nat, metrics: nat) -> Seq<Line>
    decreases events.len(),
{
    if events.len() == 0 {
        Seq::empty()
    } else {
        lines_after(events.drop_last(), codecs, hashes, metrics) + lines_on(
            stage_after(events.drop_last(), codecs),
            events.last(),
            hashes,
            metrics,
        )
    }
}

/// Where nothing fails, an image whose codecs have all run is logged, and
/// what was written for it is its block: after the first `n` codecs, the
/// block up to codec `n`.
pub proof fn lemma_smooth_run(lossy: Seq<bool>, hashes: nat, metrics: nat, n: nat)
    requires
        n <= lossy.len(),
        lossy.len() <= usize::MAX,
    ensures
        stage_after(smooth_events(lossy, n), lossy.len()) == stage_before(n as int, lossy.len()),
        lines_after(smooth_events(lossy, n), lossy.len(), hashes, metrics) == block_lines(
            lossy,
            hashes,
            metrics,
            n,
        ),
    decreases n,
{
    let codecs = lossy.len();
    if n == 0 {
        let two = seq![Event::Decoded, Event::Hashed];
        let one = seq![Event::Decoded];
        assert(two.drop_last() =~= one);
        assert(one.drop_last() =~= Seq::<Event>::empty());
        assert(stage_after(one.drop_last(), codecs) == Stage::Discovered);
        assert(stage_after(one, codecs) == Stage::Decoded);
        assert(lines_after(one.drop_last(), codecs, hashes, metrics) =~= Seq::<Line>::empty());
        assert(one.last() == Event::Decoded);
        assert(lines_after(one, codecs, hashes, metrics) =~= seq![Line::Image]);
        assert(two.last() == Event::Hashed);
        assert(lines_after(two, codecs, hashes, metrics) =~= seq![Line::Image]);
    } else {
        lemma_smooth_run(lossy, hashes, metrics, (n - 1) as nat);
        let head = smooth_events(lossy, (n - 1) as nat);
        let all = smooth_events(lossy, n);
        assert(all.drop_last() =~= head);
        assert(all.last() == Event::Trial { lossy: lossy[n - 1] });
    }
}

} // verus!
