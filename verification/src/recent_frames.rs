//! The bounded history of recently captured frames, and the producer that fills it.
use std::collections::VecDeque;

use vstd::prelude::*;

use crate::images::{can_resize, resize, rgba_bytes, PixelSize, RgbaFrame};
#[allow(unused_imports)]
use crate::images::{resizable, resized, Raster};
use crate::status::Status;
#[allow(unused_imports)]
use crate::status::Code;
use crate::text::{push_decimal, push_str};
#[allow(unused_imports)]
use crate::text::decimal;

verus! {

/// A capture as the driver hands it over. The metadata is carried along unread.
#[derive(Debug)]
pub struct Capture<M> {
    pub image: RgbaFrame,
    pub metadata: M,
}

/// What a `Capture` holds.
#[verifier::ext_equal]
pub struct CaptureModel<M> {
    pub image: Raster,
    pub metadata: M,
}

impl<M> View for Capture<M> {
    type V = CaptureModel<M>;

    open spec fn view(&self) -> CaptureModel<M> {
        CaptureModel { image: self.image@, metadata: self.metadata }
    }
}

/// A capture as it is delivered to readers.
#[derive(Debug)]
pub struct CapturedFrame<M> {
    pub image: Option<RgbaFrame>,
    pub metadata: M,
}

/// What a `CapturedFrame` holds.
#[verifier::ext_equal]
pub struct CapturedFrameModel<M> {
    pub image: Option<Raster>,
    pub metadata: M,
}

impl<M> View for CapturedFrame<M> {
    type V = CapturedFrameModel<M>;

    open spec fn view(&self) -> CapturedFrameModel<M> {
        CapturedFrameModel {
            image: match self.image {
                Some(image) => Some(image@),
                None => None,
            },
            metadata: self.metadata,
        }
    }
}

/// A retained frame under its sequence number.
#[derive(Debug)]
pub struct RecentFrame<M> {
    pub sequence: u64,
    pub capture: Option<CapturedFrame<M>>,
}

/// What a `RecentFrame` holds.
#[verifier::ext_equal]
pub struct RecentFrameModel<M> {
    pub sequence: u64,
    pub capture: Option<CapturedFrameModel<M>>,
}

impl<M> View for RecentFrame<M> {
    type V = RecentFrameModel<M>;

    open spec fn view(&self) -> RecentFrameModel<M> {
        RecentFrameModel {
            sequence: self.sequence,
            capture: match self.capture {
                Some(capture) => Some(capture@),
                None => None,
            },
        }
    }
}

/// The answer to a request for recent frames: references to the frames, oldest
/// first, and the counters of the history.
#[derive(Debug)]
pub struct GetRecentFramesResponse<'a, M> {
    pub frames: Vec<&'a RecentFrame<M>>,
    pub latest_sequence: u64,
    pub dropped_frames: u64,
}

/// What a `GetRecentFramesResponse` holds.
#[verifier::ext_equal]
pub struct ResponseModel<M> {
    pub frames: Seq<RecentFrameModel<M>>,
    pub latest_sequence: u64,
    pub dropped_frames: u64,
}

impl<'a, M> View for GetRecentFramesResponse<'a, M> {
    type V = ResponseModel<M>;

    open spec fn view(&self) -> ResponseModel<M> {
        ResponseModel {
            frames: self.frames@.map_values(|frame: &RecentFrame<M>| frame@),
            latest_sequence: self.latest_sequence,
            dropped_frames: self.dropped_frames,
        }
    }
}

/// What a capture becomes under an output size: itself if there is none or if it
/// has that size already, else its pixels resized.
pub open spec fn resized_capture<M>(
    capture: CaptureModel<M>,
    output_size: Option<PixelSize>,
) -> CaptureModel<M> {
    match output_size {
        None => capture,
        Some(size) => if capture.image.width != size.width || capture.image.height != size.height {
            CaptureModel {
                image: Raster {
                    width: size.width,
                    height: size.height,
                    data: resized(
                        capture.image.width,
                        capture.image.height,
                        capture.image.rgba_pixels(),
                        size.width,
                        size.height,
                    ),
                },
                metadata: capture.metadata,
            }
        } else {
            capture
        },
    }
}

/// Whether a raster can be brought to an output size: there is none, it has that size
/// already, or it holds the RGBA pixels to resample. More bytes than those do no harm.
pub open spec fn resizable_to(image: Raster, output_size: Option<PixelSize>) -> bool {
    output_size matches Some(size) ==> {
        ||| image.width == size.width && image.height == size.height
        ||| image.holds_rgba() && resizable(image.width, image.height, size.width, size.height)
    }
}

/// Decides whether an image can be brought to an output size.
pub fn can_take(image: &RgbaFrame, output_size: Option<PixelSize>) -> (r: bool)
    ensures
        r == resizable_to(image@, output_size),
{
    let len: usize = image.data.len();
    let enough = match rgba_bytes(image.width, image.height) {
        None => false,
        Some(bytes) => bytes <= len,
    };
    match output_size {
        None => true,
        Some(size) => (image.width == size.width && image.height == size.height) || (enough
            && can_resize(image.width, image.height, size.width, size.height)),
    }
}

/// Whether an image is resampled under an output size.
pub open spec fn resampled(image: Raster, output_size: Option<PixelSize>) -> bool {
    output_size matches Some(size) && (image.width != size.width || image.height != size.height)
}

/// Brings a capture to the output size, if there is one.
pub fn resize_capture<M>(capture: Capture<M>, output_size: Option<PixelSize>) -> (resized: Capture<
    M,
>)
    requires
        resizable_to(capture.image@, output_size),
    ensures
        resized@ == resized_capture(capture@, output_size),
        resampled(capture.image@, output_size) || capture.image@.packed_rgba()
            ==> resized.image@.packed_rgba(),
{
    match output_size {
        None => capture,
        Some(size) => {
            if capture.image.width != size.width || capture.image.height != size.height {
                let (width, height) = (capture.image.width, capture.image.height);
                let mut data: Vec<u8> = capture.image.data;
                let bytes: usize = match rgba_bytes(width, height) {
                    Some(bytes) => bytes,
                    None => data.len(),
                };
                data.truncate(bytes);
                let pixels = RgbaFrame { width, height, data };
                assert(pixels.data@ =~= capture.image@.rgba_pixels());
                let image = resize(pixels, size.width, size.height);
                Capture { image, metadata: capture.metadata }
            } else {
                capture
            }
        },
    }
}

/// The retained frames of one buffer, newest last, with the counters that readers
/// follow it by.
#[derive(Debug)]
pub struct History<M> {
    capacity: usize,
    frames: VecDeque<RecentFrame<M>>,
    latest_sequence: u64,
    dropped_frames: u64,
    fault: Option<String>,
}

/// What a `History` holds.
#[verifier::ext_equal]
pub struct HistoryModel<M> {
    pub capacity: usize,
    pub frames: Seq<RecentFrameModel<M>>,
    pub latest_sequence: u64,
    pub dropped_frames: u64,
    pub fault: Option<Seq<char>>,
}

impl<M> View for History<M> {
    type V = HistoryModel<M>;

    closed spec fn view(&self) -> HistoryModel<M> {
        HistoryModel {
            capacity: self.capacity,
            frames: self.frames@.map_values(|frame: RecentFrame<M>| frame@),
            latest_sequence: self.latest_sequence,
            dropped_frames: self.dropped_frames,
            fault: match self.fault {
                Some(reason) => Some(reason@),
                None => None,
            },
        }
    }
}

/// Whether a frame holds the RGBA pixels of an image of the given size.
pub open spec fn has_size<M>(frame: RecentFrameModel<M>, size: PixelSize) -> bool {
    frame.capture matches Some(capture) && capture.image matches Some(image) && image.width
        == size.width && image.height == size.height && image.packed_rgba()
}

/// The frame that a capture becomes under a sequence number.
pub open spec fn numbered<M>(sequence: u64, capture: CaptureModel<M>) -> RecentFrameModel<M> {
    RecentFrameModel {
        sequence,
        capture: Some(
            CapturedFrameModel { image: Some(capture.image), metadata: capture.metadata },
        ),
    }
}

impl<M> HistoryModel<M> {
    /// A history that has seen no capture.
    pub open spec fn empty(capacity: usize) -> HistoryModel<M> {
        HistoryModel {
            capacity,
            frames: Seq::empty(),
            latest_sequence: 0,
            dropped_frames: 0,
            fault: None,
        }
    }

    /// The invariant of a history: it retains at most `capacity` frames, they are
    /// numbered one after the other up to the latest, and what is no longer
    /// retained was counted as dropped, which happens only to a full history.
    pub open spec fn wf(self) -> bool {
        &&& 0 < self.capacity
        &&& self.frames.len() <= self.capacity
        &&& self.dropped_frames + self.frames.len() == self.latest_sequence
        &&& 0 < self.dropped_frames ==> self.frames.len() == self.capacity
        &&& forall|i: int|
            0 <= i < self.frames.len() ==> (#[trigger] self.frames[i]).sequence
                == self.dropped_frames + 1 + i
    }

    /// Whether every retained frame holds the RGBA pixels of an image of one size.
    pub open spec fn sized(self, size: PixelSize) -> bool {
        forall|i: int| 0 <= i < self.frames.len() ==> has_size(#[trigger] self.frames[i], size)
    }

    /// Whether one more capture can be counted.
    pub open spec fn countable(self) -> bool {
        &&& self.latest_sequence < u64::MAX
        &&& self.frames.len() == self.capacity ==> self.dropped_frames < u64::MAX
    }

    /// The history after one more capture: a full history drops its oldest frame,
    /// and the capture is retained under the next sequence number.
    pub open spec fn push(self, capture: CaptureModel<M>) -> HistoryModel<M> {
        let full = self.frames.len() == self.capacity;
        let sequence = (self.latest_sequence + 1) as u64;
        let kept = if full && 0 < self.frames.len() {
            self.frames.drop_first()
        } else {
            self.frames
        };
        HistoryModel {
            frames: kept.push(numbered(sequence, capture)),
            latest_sequence: sequence,
            dropped_frames: if full {
                (self.dropped_frames + 1) as u64
            } else {
                self.dropped_frames
            },
            ..self
        }
    }

    /// The history after an event of its producer, and what the producer does next.
    pub open spec fn observe(
        self,
        event: ProducerEventModel<M>,
        output_size: Option<PixelSize>,
    ) -> (HistoryModel<M>, ProducerAction) {
        match event {
            ProducerEventModel::StopRequested => (self, ProducerAction::Stop),
            ProducerEventModel::Disconnected => (self, ProducerAction::Stop),
            ProducerEventModel::PeriodElapsed => (self, ProducerAction::Capture),
            ProducerEventModel::Captured(capture) => (
                self.push(resized_capture(capture, output_size)),
                ProducerAction::Wait,
            ),
            ProducerEventModel::CaptureFailed(error) => (
                HistoryModel { fault: Some(error), ..self },
                ProducerAction::Stop,
            ),
        }
    }

    /// The retained frames that are newer than a sequence number, oldest first.
    pub open spec fn newer(self, after_sequence: u64) -> Seq<RecentFrameModel<M>> {
        self.frames.filter(|frame: RecentFrameModel<M>| frame.sequence > after_sequence)
    }

    /// The answer to a request for the frames after a sequence number.
    pub open spec fn recent(self, after_sequence: u64) -> Result<
        ResponseModel<M>,
        (Code, Seq<char>),
    > {
        if after_sequence > self.latest_sequence {
            Err(
                (
                    Code::InvalidArgument,
                    "after_sequence "@ + decimal(after_sequence as nat)
                        + " is newer than latest_sequence "@ + decimal(
                        self.latest_sequence as nat,
                    ),
                ),
            )
        } else if self.newer(after_sequence).len() == 0 && self.fault is Some {
            Err((Code::Unavailable, "recent-frame producer stopped: "@ + self.fault->0))
        } else {
            Ok(
                ResponseModel {
                    frames: self.newer(after_sequence),
                    latest_sequence: self.latest_sequence,
                    dropped_frames: self.dropped_frames,
                },
            )
        }
    }
}

/// What happened to the producer of a history.
#[derive(Debug)]
pub enum ProducerEvent<M> {
    /// It was asked to stop.
    StopRequested,
    /// Nobody is left to ask it to stop.
    Disconnected,
    /// It waited for one frame period.
    PeriodElapsed,
    /// It captured.
    Captured(Capture<M>),
    /// It could not capture, for the given reason.
    CaptureFailed(String),
}

/// What a `ProducerEvent` holds.
#[verifier::ext_equal]
pub enum ProducerEventModel<M> {
    StopRequested,
    Disconnected,
    PeriodElapsed,
    Captured(CaptureModel<M>),
    CaptureFailed(Seq<char>),
}

impl<M> View for ProducerEvent<M> {
    type V = ProducerEventModel<M>;

    open spec fn view(&self) -> ProducerEventModel<M> {
        match *self {
            ProducerEvent::StopRequested => ProducerEventModel::StopRequested,
            ProducerEvent::Disconnected => ProducerEventModel::Disconnected,
            ProducerEvent::PeriodElapsed => ProducerEventModel::PeriodElapsed,
            ProducerEvent::Captured(capture) => ProducerEventModel::Captured(capture@),
            ProducerEvent::CaptureFailed(error) => ProducerEventModel::CaptureFailed(error@),
        }
    }
}

/// What a producer does next.
#[derive(Clone, Copy, Debug, PartialEq, Eq, Structural)]
pub enum ProducerAction {
    /// Wait for one frame period, or for the request to stop.
    Wait,
    /// Capture.
    Capture,
    /// End.
    Stop,
}

/// A recent-frames answer with its frames or its refusal taken by their views.
pub open spec fn response_outcome<M>(result: Result<GetRecentFramesResponse<M>, Status>) -> Result<
    ResponseModel<M>,
    (Code, Seq<char>),
> {
    match result {
        Ok(response) => Ok(response@),
        Err(status) => Err(status@),
    }
}

impl<M> History<M> {
    /// A history of at most `capacity` frames, as yet empty.
    pub fn new(capacity: usize) -> (history: Self)
        ensures
            history@ == HistoryModel::<M>::empty(capacity),
            0 < capacity ==> history@.wf(),
    {
        let history = History {
            capacity,
            frames: VecDeque::new(),
            latest_sequence: 0,
            dropped_frames: 0,
            fault: None,
        };
        assert(history@ =~= HistoryModel::<M>::empty(capacity));
        history
    }

    /// Retains one more capture under the next sequence number. A full history
    /// drops its oldest frame for it.
    pub fn push(&mut self, capture: Capture<M>)
        requires
            old(self)@.countable(),
        ensures
            final(self)@ == old(self)@.push(capture@),
            old(self)@.wf() ==> final(self)@.wf(),
    {
        let ghost before = self@;
        self.latest_sequence = self.latest_sequence + 1;
        if self.frames.len() == self.capacity {
            self.frames.pop_front();
            self.dropped_frames = self.dropped_frames + 1;
        }
        let frame = RecentFrame {
            sequence: self.latest_sequence,
            capture: Some(CapturedFrame { image: Some(capture.image), metadata: capture.metadata }),
        };
        self.frames.push_back(frame);
        assert(self@ =~= before.push(capture@));
    }

    /// Answers a request for the frames after `after_sequence`.
    pub fn recent(&self, after_sequence: u64) -> (answer: Result<
        GetRecentFramesResponse<'_, M>,
        Status,
    >)
        ensures
            response_outcome(answer) == self@.recent(after_sequence),
    {
        if after_sequence > self.latest_sequence {
            let mut message: String = "after_sequence ".to_owned();
            push_decimal(&mut message, after_sequence as u128);
            push_str(&mut message, " is newer than latest_sequence ");
            push_decimal(&mut message, self.latest_sequence as u128);
            return Err(Status::invalid_argument(message));
        }
        let ghost is_newer = |frame: RecentFrameModel<M>| frame.sequence > after_sequence;
        let mut frames: Vec<&RecentFrame<M>> = Vec::new();
        let len: usize = self.frames.len();
        for i in 0..len
            invariant
                len == self.frames@.len(),
                is_newer == (|frame: RecentFrameModel<M>| frame.sequence > after_sequence),
                frames@.map_values(|frame: &RecentFrame<M>| frame@) =~= self@.frames.take(
                    i as int,
                ).filter(is_newer),
        {
            let ghost shown = frames@.map_values(|frame: &RecentFrame<M>| frame@);
            let frame: &RecentFrame<M> = &self.frames[i];
            proof {
                let longer = self@.frames.take(i + 1);
                assert(longer.drop_last() =~= self@.frames.take(i as int));
                assert(longer.last() == frame@);
                reveal(Seq::filter);
            }
            if frame.sequence > after_sequence {
                frames.push(frame);
                assert(frames@.map_values(|frame: &RecentFrame<M>| frame@) =~= shown.push(frame@));
            }
        }
        assert(self@.frames.take(len as int) =~= self@.frames);
        if frames.len() == 0 {
            if let Some(reason) = &self.fault {
                let mut message: String = "recent-frame producer stopped: ".to_owned();
                push_str(&mut message, reason.as_str());
                return Err(Status::unavailable(message));
            }
        }
        let response = GetRecentFramesResponse {
            frames,
            latest_sequence: self.latest_sequence,
            dropped_frames: self.dropped_frames,
        };
        assert(response@ =~= self@.recent(after_sequence)->Ok_0);
        Ok(response)
    }

    /// Decides whether `observe` can take an event in: it must be possible to bring a
    /// capture to the output size, and there must be a number left for it.
    pub fn can_observe(&self, event: &ProducerEvent<M>, output_size: Option<PixelSize>) -> (r: bool)
        ensures
            r == (event matches ProducerEvent::Captured(capture) ==> {
                &&& resizable_to(capture.image@, output_size)
                &&& self@.countable()
            }),
    {
        match event {
            ProducerEvent::Captured(capture) => can_take(&capture.image, output_size)
                && self.latest_sequence < u64::MAX && (self.frames.len() != self.capacity
                || self.dropped_frames < u64::MAX),
            _ => true,
        }
    }

    /// Takes in what happened to the producer of this history and says what it
    /// does next. A capture is brought to the output size and retained, so that
    /// under an output size every retained frame has that size, whatever size the
    /// captures had, as long as those that have it are tightly packed. A failed capture is the
    /// producer's last: its reason is kept for readers.
    pub fn observe(&mut self, event: ProducerEvent<M>, output_size: Option<PixelSize>) -> (action:
        ProducerAction)
        requires
            event matches ProducerEvent::Captured(capture) ==> {
                &&& resizable_to(capture.image@, output_size)
                &&& old(self)@.countable()
            },
        ensures
            (final(self)@, action) == old(self)@.observe(event@, output_size),
            old(self)@.wf() ==> final(self)@.wf(),
            output_size matches Some(size) ==> (old(self)@.sized(size) && (
            event matches ProducerEvent::Captured(capture) ==> resampled(capture.image@, output_size)
                || capture.image@.packed_rgba()) ==> final(self)@.sized(size)),
    {
        match event {
            ProducerEvent::StopRequested => ProducerAction::Stop,
            ProducerEvent::Disconnected => ProducerAction::Stop,
            ProducerEvent::PeriodElapsed => ProducerAction::Capture,
            ProducerEvent::Captured(capture) => {
                self.push(resize_capture(capture, output_size));
                ProducerAction::Wait
            },
            ProducerEvent::CaptureFailed(error) => {
                self.fault = Some(error);
                assert(self@ =~= (HistoryModel { fault: Some(error@), ..old(self)@ }));
                ProducerAction::Stop
            },
        }
    }
}

/// The history after a run of captures, first to last.
pub open spec fn pushed_all<M>(
    history: HistoryModel<M>,
    captures: Seq<CaptureModel<M>>,
) -> HistoryModel<M>
    decreases captures.len(),
{
    if captures.len() == 0 {
        history
    } else {
        pushed_all(history, captures.drop_last()).push(captures.last())
    }
}

/// The history after some events of its producer, first to last.
pub open spec fn after_events<M>(
    history: HistoryModel<M>,
    events: Seq<ProducerEventModel<M>>,
    output_size: Option<PixelSize>,
) -> HistoryModel<M>
    decreases events.len(),
{
    if events.len() == 0 {
        history
    } else {
        after_events(history, events.drop_last(), output_size).observe(
            events.last(),
            output_size,
        ).0
    }
}

/// What a producer does after some events: it begins by waiting.
pub open spec fn next_action<M>(
    history: HistoryModel<M>,
    events: Seq<ProducerEventModel<M>>,
    output_size: Option<PixelSize>,
) -> ProducerAction {
    if events.len() == 0 {
        ProducerAction::Wait
    } else {
        after_events(history, events.drop_last(), output_size).observe(
            events.last(),
            output_size,
        ).1
    }
}

/// Whether an event can come of an action. Nothing comes after the end.
pub open spec fn comes_of<M>(event: ProducerEventModel<M>, action: ProducerAction) -> bool {
    match action {
        ProducerAction::Wait => event is StopRequested || event is Disconnected
            || event is PeriodElapsed,
        ProducerAction::Capture => event is Captured || event is CaptureFailed,
        ProducerAction::Stop => false,
    }
}

/// Whether some events are a run of a producer: each comes of what it does.
pub open spec fn is_run<M>(
    history: HistoryModel<M>,
    events: Seq<ProducerEventModel<M>>,
    output_size: Option<PixelSize>,
) -> bool
    decreases events.len(),
{
    events.len() == 0 || (is_run(history, events.drop_last(), output_size) && comes_of(
        events.last(),
        next_action(history, events.drop_last(), output_size),
    ))
}

/// The captures among some events, brought to the output size.
pub open spec fn captures_in<M>(
    events: Seq<ProducerEventModel<M>>,
    output_size: Option<PixelSize>,
) -> Seq<CaptureModel<M>>
    decreases events.len(),
{
    if events.len() == 0 {
        Seq::empty()
    } else {
        let earlier = captures_in(events.drop_last(), output_size);
        match events.last() {
            ProducerEventModel::Captured(capture) => earlier.push(
                resized_capture(capture, output_size),
            ),
            _ => earlier,
        }
    }
}

/// How many periods were waited for among some events.
pub open spec fn periods_in<M>(events: Seq<ProducerEventModel<M>>) -> nat
    decreases events.len(),
{
    if events.len() == 0 {
        0
    } else {
        periods_in(events.drop_last()) + if events.last() is PeriodElapsed {
            1nat
        } else {
            0
        }
    }
}

/// In whatever way a producer runs, its history holds what its captures, brought to
/// the output size, make of it, in the order in which they came. It has captured once
/// for each period, but for the one that it still captures in or could not capture in.
/// A failed capture is its last event: it stops, and the reason is the fault of its
/// history. Before that, the fault is as it was.
pub proof fn law_producer_retains_its_captures<M>(
    history: HistoryModel<M>,
    events: Seq<ProducerEventModel<M>>,
    output_size: Option<PixelSize>,
)
    requires
        is_run(history, events, output_size),
    ensures
        ({
            let reached = after_events(history, events, output_size);
            let action = next_action(history, events, output_size);
            let captures = captures_in(events, output_size);
            let failed = 0 < events.len() && events.last() is CaptureFailed;
            &&& reached == HistoryModel {
                fault: match events.last() {
                    ProducerEventModel::CaptureFailed(reason) if failed => Some(reason),
                    _ => history.fault,
                },
                ..pushed_all(history, captures)
            }
            &&& failed ==> action == ProducerAction::Stop
            &&& periods_in(events) == captures.len() + if failed || action
                == ProducerAction::Capture {
                1int
            } else {
                0
            }
        }),
    decreases events.len(),
{
    if events.len() > 0 {
        let before = events.drop_last();
        law_producer_retains_its_captures(history, before, output_size);
        let captures = captures_in(before, output_size);
        if let ProducerEventModel::Captured(capture) = events.last() {
            let all = captures.push(resized_capture(capture, output_size));
            assert(all.drop_last() =~= captures);
        }
        if before.len() > 0 {
            assert(before.last() !is CaptureFailed);
        }
    }
    lemma_pushed_all_keeps_fault(history, captures_in(events, output_size));
}

proof fn lemma_pushed_all_keeps_fault<M>(
    history: HistoryModel<M>,
    captures: Seq<CaptureModel<M>>,
)
    ensures
        pushed_all(history, captures).fault == history.fault,
    decreases captures.len(),
{
    if captures.len() > 0 {
        lemma_pushed_all_keeps_fault(history, captures.drop_last());
    }
}

/// A history keeps exactly the latest captures, as many as it has room for, under
/// the numbers in which they came; all others were dropped and counted.
pub proof fn law_history_keeps_the_latest<M>(capacity: usize, captures: Seq<CaptureModel<M>>)
    requires
        0 < capacity,
        captures.len() <= u64::MAX,
    ensures
        ({
            let history = pushed_all(HistoryModel::<M>::empty(capacity), captures);
            let kept = if captures.len() <= capacity {
                captures.len() as int
            } else {
                capacity as int
            };
            let skipped = captures.len() - kept;
            &&& history.wf()
            &&& history.capacity == capacity
            &&& history.latest_sequence == captures.len()
            &&& history.dropped_frames == skipped
            &&& history.fault is None
            &&& history.frames == Seq::new(
                kept as nat,
                |i: int| numbered((skipped + i + 1) as u64, captures[skipped + i]),
            )
        }),
    decreases captures.len(),
{
    if captures.len() > 0 {
        law_history_keeps_the_latest(capacity, captures.drop_last());
    }
    let history = pushed_all(HistoryModel::<M>::empty(capacity), captures);
    let kept = if captures.len() <= capacity {
        captures.len() as int
    } else {
        capacity as int
    };
    let skipped = captures.len() - kept;
    assert(history.frames =~= Seq::new(
        kept as nat,
        |i: int| numbered((skipped + i + 1) as u64, captures[skipped + i]),
    ));
}

/// Of consecutively numbered frames, those after a number are a suffix.
proof fn lemma_newer_is_suffix<M>(frames: Seq<RecentFrameModel<M>>, base: int, after: u64)
    requires
        forall|i: int| 0 <= i < frames.len() ==> (#[trigger] frames[i]).sequence == base + 1 + i,
    ensures
        frames.filter(|frame: RecentFrameModel<M>| frame.sequence > after) == frames.skip(
            if after <= base {
                0
            } else if after - base >= frames.len() {
                frames.len() as int
            } else {
                after - base
            },
        ),
    decreases frames.len(),
{
    let is_newer = |frame: RecentFrameModel<M>| frame.sequence > after;
    let start = if after <= base {
        0
    } else if after - base >= frames.len() {
        frames.len() as int
    } else {
        after - base
    };
    reveal(Seq::filter);
    if frames.len() > 0 {
        let shorter = frames.drop_last();
        lemma_newer_is_suffix(shorter, base, after);
        assert(frames.last() == frames[frames.len() - 1]);
        if is_newer(frames.last()) {
            assert(frames.skip(start) =~= shorter.skip(start).push(frames.last()));
        } else {
            assert(frames.skip(start) =~= shorter.skip(shorter.len() as int));
        }
    } else {
        assert(frames.skip(start) =~= frames);
    }
}

/// Every answer lists frames oldest first, each numbered one above the one before
/// it, all of them newer than what the reader has seen, up to the latest frame.
pub proof fn law_recent_frames_in_order<M>(history: HistoryModel<M>, after_sequence: u64)
    requires
        history.wf(),
        history.recent(after_sequence) is Ok,
    ensures
        ({
            let answer = history.recent(after_sequence)->Ok_0;
            &&& answer.latest_sequence == history.latest_sequence
            &&& answer.dropped_frames == history.dropped_frames
            &&& forall|i: int|
                0 <= i < answer.frames.len() ==> (#[trigger] answer.frames[i]).sequence
                    == history.latest_sequence - answer.frames.len() + 1 + i
            &&& forall|i: int|
                0 <= i < answer.frames.len() ==> (#[trigger] answer.frames[i]).sequence
                    > after_sequence
            &&& answer.frames.len() == 0 <==> after_sequence == history.latest_sequence
        }),
{
    lemma_newer_is_suffix(history.frames, history.dropped_frames as int, after_sequence);
}

/// A reader that has seen everything up to `after_sequence` misses a frame only if
/// that frame was dropped: if none after `after_sequence` was, the answer holds
/// every later frame; otherwise it holds every frame that is still retained.
pub proof fn law_no_frame_is_missed<M>(history: HistoryModel<M>, after_sequence: u64)
    requires
        history.wf(),
        after_sequence < history.latest_sequence,
    ensures
        history.recent(after_sequence) is Ok,
        ({
            let answer = history.recent(after_sequence)->Ok_0;
            if history.dropped_frames <= after_sequence {
                &&& answer.frames.len() == history.latest_sequence - after_sequence
                &&& answer.frames[0].sequence == after_sequence + 1
            } else {
                &&& answer.frames == history.frames
                &&& answer.frames[0].sequence == history.dropped_frames + 1
            }
        }),
{
    lemma_newer_is_suffix(history.frames, history.dropped_frames as int, after_sequence);
    assert(history.frames.skip(0) =~= history.frames);
}

/// A producer captures once for each period that it waited, and waits again after
/// each capture: captures are never queued. Frames change by a capture alone.
pub proof fn law_one_capture_for_each_period<M>(
    history: HistoryModel<M>,
    event: ProducerEventModel<M>,
    output_size: Option<PixelSize>,
)
    ensures
        ({
            let (next, action) = history.observe(event, output_size);
            &&& action == ProducerAction::Capture <==> event is PeriodElapsed
            &&& action == ProducerAction::Wait <==> event is Captured
            &&& event !is Captured ==> {
                &&& next.frames == history.frames
                &&& next.latest_sequence == history.latest_sequence
                &&& next.dropped_frames == history.dropped_frames
            }
        }),
{
}

/// After a failed capture the retained frames can still be read; once they have
/// been, the reader learns why there are no more.
pub proof fn law_fault_is_told_last<M>(
    history: HistoryModel<M>,
    reason: Seq<char>,
    after_sequence: u64,
)
    requires
        history.wf(),
        after_sequence <= history.latest_sequence,
    ensures
        ({
            let (stopped, action) = history.observe(ProducerEventModel::CaptureFailed(reason), None);
            &&& action == ProducerAction::Stop
            &&& stopped.wf()
            &&& after_sequence < history.latest_sequence ==> stopped.recent(after_sequence)
                == history.recent(after_sequence)
            &&& after_sequence == history.latest_sequence ==> stopped.recent(after_sequence)
                == Err::<ResponseModel<M>, (Code, Seq<char>)>(
                (Code::Unavailable, "recent-frame producer stopped: "@ + reason),
            )
        }),
{
    lemma_newer_is_suffix(history.frames, history.dropped_frames as int, after_sequence);
}

/// Captures, retained frames and answers are known by what they hold: nothing is lost
/// when they are taken by their views.
pub proof fn law_frames_keep_what_they_hold<M>(
    capture: Capture<M>,
    captured: CapturedFrame<M>,
    frame: RecentFrame<M>,
    answer: GetRecentFramesResponse<M>,
    i: int,
)
    requires
        0 <= i < answer.frames@.len(),
    ensures
        capture@.image == capture.image@,
        capture@.metadata == capture.metadata,
        captured@.image is Some <==> captured.image is Some,
        captured.image is Some ==> captured@.image->0 == captured.image->0@,
        captured@.metadata == captured.metadata,
        frame@.sequence == frame.sequence,
        frame@.capture is Some <==> frame.capture is Some,
        frame.capture is Some ==> frame@.capture->0 == frame.capture->0@,
        answer@.frames.len() == answer.frames@.len(),
        answer@.frames[i] == answer.frames@[i]@,
        answer@.latest_sequence == answer.latest_sequence,
        answer@.dropped_frames == answer.dropped_frames,
{
}

/// What happened to a producer is known by the view of the event, and an answer or its
/// refusal by the view of the result.
pub proof fn law_events_and_answers_keep_what_they_hold<M>(
    event: ProducerEvent<M>,
    result: Result<GetRecentFramesResponse<M>, Status>,
)
    ensures
        event is StopRequested <==> event@ is StopRequested,
        event is Disconnected <==> event@ is Disconnected,
        event is PeriodElapsed <==> event@ is PeriodElapsed,
        event is Captured <==> event@ is Captured,
        event is CaptureFailed <==> event@ is CaptureFailed,
        event matches ProducerEvent::Captured(capture) ==> event@ == (
        ProducerEventModel::Captured(capture@)),
        event matches ProducerEvent::CaptureFailed(reason) ==> event@
            == ProducerEventModel::<M>::CaptureFailed(reason@),
        result is Ok <==> response_outcome(result) is Ok,
        result matches Ok(answer) ==> response_outcome(result)->Ok_0 == answer@,
        result matches Err(status) ==> response_outcome(result)->Err_0 == (
            status.code,
            status.message@,
        ),
{
}

/// Under an output size a capture has that size. One that has it already, and any
/// capture where there is none, stays as it is; of another the pixels, and nothing
/// behind them, are resized. Its metadata always stays.
pub proof fn law_captures_take_the_output_size<M>(
    capture: CaptureModel<M>,
    output_size: Option<PixelSize>,
)
    ensures
        resized_capture(capture, output_size).metadata == capture.metadata,
        output_size is None ==> resized_capture(capture, output_size) == capture,
        output_size matches Some(size) ==> {
            let (w, h) = (capture.image.width, capture.image.height);
            let image = resized_capture(capture, output_size).image;
            &&& image.width == size.width
            &&& image.height == size.height
            &&& w == size.width && h == size.height ==> image == capture.image
            &&& w != size.width || h != size.height ==> image.data == resized(
                w,
                h,
                capture.image.data.subrange(0, 4 * (w * h)),
                size.width,
                size.height,
            )
        },
        resized_capture(resized_capture(capture, output_size), output_size) == resized_capture(
            capture,
            output_size,
        ),
{
}

/// One more capture becomes the newest frame, under the next number and with all that
/// it holds. The frames before it stay as they are and in their order, but for the
/// oldest, which a full history drops and counts.
pub proof fn law_a_capture_becomes_the_newest_frame<M>(
    history: HistoryModel<M>,
    capture: CaptureModel<M>,
)
    requires
        history.wf(),
        history.latest_sequence < u64::MAX,
    ensures
        ({
            let next = history.push(capture);
            let lost = if history.frames.len() < history.capacity {
                0int
            } else {
                1int
            };
            &&& next.wf()
            &&& next.capacity == history.capacity
            &&& next.fault == history.fault
            &&& next.latest_sequence == history.latest_sequence + 1
            &&& next.dropped_frames == history.dropped_frames + lost
            &&& next.frames.len() == history.frames.len() + 1 - lost
            &&& next.frames.last().sequence == history.latest_sequence + 1
            &&& next.frames.last().capture matches Some(held) && held.image == Some(capture.image)
                && held.metadata == capture.metadata
            &&& forall|i: int|
                0 <= i < next.frames.len() - 1 ==> #[trigger] next.frames[i] == history.frames[i
                    + lost]
        }),
{
}

/// An answer holds the retained frames that its reader has not seen, all of them and
/// each as it was retained, up to the newest.
pub proof fn law_answers_hold_what_is_retained<M>(history: HistoryModel<M>, after_sequence: u64)
    requires
        history.wf(),
        history.recent(after_sequence) is Ok,
    ensures
        ({
            let answer = history.recent(after_sequence)->Ok_0;
            let unseen = history.latest_sequence - after_sequence;
            &&& answer.frames.len() == if unseen < history.frames.len() {
                unseen
            } else {
                history.frames.len() as int
            }
            &&& forall|i: int|
                0 <= i < answer.frames.len() ==> #[trigger] answer.frames[i]
                    == history.frames[history.frames.len() - answer.frames.len() + i]
        }),
{
    lemma_newer_is_suffix(history.frames, history.dropped_frames as int, after_sequence);
}

/// A reader is refused only if it claims to have seen more than there is, or if it has
/// seen everything and the producer has failed; and it is told which.
pub proof fn law_readers_are_refused_for_a_reason<M>(
    history: HistoryModel<M>,
    after_sequence: u64,
)
    requires
        history.wf(),
    ensures
        history.recent(after_sequence) is Ok <==> after_sequence < history.latest_sequence || (
        after_sequence == history.latest_sequence && history.fault is None),
        after_sequence > history.latest_sequence ==> history.recent(after_sequence)->Err_0 == (
            Code::InvalidArgument,
            "after_sequence "@ + decimal(after_sequence as nat)
                + " is newer than latest_sequence "@ + decimal(history.latest_sequence as nat),
        ),
        after_sequence == history.latest_sequence && history.fault is Some
            ==> history.recent(after_sequence)->Err_0 == (
            Code::Unavailable,
            "recent-frame producer stopped: "@ + history.fault->0,
        ),
{
    lemma_newer_is_suffix(history.frames, history.dropped_frames as int, after_sequence);
}

/// The invariant of a history in full: there is room for a frame, not more frames than
/// room, the newest has the latest number, the others count down from it, and a frame
/// was dropped only where there is no room left.
pub proof fn law_histories_count_every_capture<M>(history: HistoryModel<M>, i: int)
    requires
        history.wf(),
        0 <= i < history.frames.len(),
    ensures
        1 <= history.frames.len() <= history.capacity,
        history.frames[i].sequence == history.latest_sequence - (history.frames.len() - 1 - i),
        history.dropped_frames == history.latest_sequence - history.frames.len(),
        history.frames.len() < history.capacity ==> history.dropped_frames == 0,
{
}

/// What a producer observes: a capture, brought to the output size, is retained, a
/// failure becomes the fault, and nothing else changes the history.
pub proof fn law_observed_events_change_the_history<M>(
    history: HistoryModel<M>,
    event: ProducerEventModel<M>,
    output_size: Option<PixelSize>,
)
    ensures
        ({
            let next = history.observe(event, output_size).0;
            &&& event matches ProducerEventModel::Captured(capture) ==> next == history.push(
                resized_capture(capture, output_size),
            )
            &&& event matches ProducerEventModel::CaptureFailed(reason) ==> next.fault == Some(
                reason,
            ) && next == (HistoryModel { fault: next.fault, ..history })
            &&& event !is Captured && event !is CaptureFailed ==> next == history
        }),
{
}

/// A capture can be retained unless it would have to be resized and cannot be, or there
/// is no number left for it.
pub proof fn law_what_can_be_retained<M>(
    history: HistoryModel<M>,
    image: Raster,
    output_size: Option<PixelSize>,
)
    requires
        history.wf(),
    ensures
        history.countable() <==> history.latest_sequence < u64::MAX,
        output_size is None ==> resizable_to(image, output_size) && !resampled(image, output_size),
        output_size matches Some(size) ==> {
            let same = image.width == size.width && image.height == size.height;
            &&& resampled(image, output_size) <==> !same
            &&& resizable_to(image, output_size) <==> same || (4 * (image.width * image.height)
                <= image.data.len() && resizable(
                image.width,
                image.height,
                size.width,
                size.height,
            ))
        },
{
}

/// A history is of one size exactly if none of its frames lacks an image, or has one of
/// another size or not tightly packed.
pub proof fn law_sized_histories<M>(history: HistoryModel<M>, size: PixelSize)
    ensures
        history.sized(size) <==> forall|i: int|
            0 <= i < history.frames.len() ==> {
                let frame = #[trigger] history.frames[i];
                &&& frame.capture is Some && frame.capture->0.image is Some
                &&& frame.capture->0.image->0.width == size.width
                &&& frame.capture->0.image->0.height == size.height
                &&& frame.capture->0.image->0.data.len() == 4 * (size.width * size.height)
            },
{
    if history.sized(size) {
        assert forall|i: int| 0 <= i < history.frames.len() implies {
            let frame = #[trigger] history.frames[i];
            &&& frame.capture is Some && frame.capture->0.image is Some
            &&& frame.capture->0.image->0.width == size.width
            &&& frame.capture->0.image->0.height == size.height
            &&& frame.capture->0.image->0.data.len() == 4 * (size.width * size.height)
        } by {
            assert(has_size(history.frames[i], size));
        }
    }
}

} // verus!
