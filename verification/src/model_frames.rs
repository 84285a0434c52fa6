//! From delivered frames to the window of frames that the model sees.
use std::collections::VecDeque;

use vstd::prelude::*;

use crate::images::{
    can_resize, crop, decode_rgba, drop_alpha, resize, rgba_bytes, RgbFrame, RgbaFrame,
    MODEL_HEIGHT, MODEL_WIDTH, TITLE_BAR_HEIGHT,
};
#[allow(unused_imports)]
use crate::images::{
    cropped, resizable, resized, rgba_len, without_alpha, Raster, MODEL_FRAME_BYTES,
};
use crate::recent_frames::RecentFrame;
#[allow(unused_imports)]
use crate::recent_frames::{
    law_no_frame_is_missed, law_recent_frames_in_order, CapturedFrameModel, HistoryModel,
    RecentFrameModel,
};
#[allow(unused_imports)]
use crate::text::decimal;
use crate::text::{push_decimal, push_str};

verus! {

/// The number of frames that the model sees at a time.
pub const FRAME_COUNT: usize = 10;

/// Why delivered frames were not taken for the model.
#[derive(Clone, Copy, Debug, PartialEq, Eq, Structural)]
pub enum FrameError {
    /// There are none.
    NoFrames,
    /// Their sequence numbers do not increase.
    OutOfOrder,
    /// The first one is not newer than what was acknowledged.
    AlreadyAcknowledged { first: u64, after: u64 },
    /// The last one is not the one announced as the latest.
    NotTheLatest { latest: u64, last: u64 },
    /// A frame has no capture.
    MissingCapture,
    /// A capture has no image.
    MissingImage,
    /// The side lengths of an image ask for more bytes than can be counted.
    DimensionsOverflow { sequence: u64 },
    /// The bytes of an image are not those of its pixels.
    NotPacked { sequence: u64, width: u32, height: u32, bytes: usize },
    /// Nothing is left of an image below the title bar.
    OnlyTitleBar { sequence: u64, height: u32 },
    /// The bytes of an image were not taken for pixels.
    Undecodable { sequence: u64 },
}

/// What a `FrameError` says.
pub open spec fn frame_error_text(error: FrameError) -> Seq<char> {
    match error {
        FrameError::NoFrames => "GetRecentFrames returned no frames"@,
        FrameError::OutOfOrder => "GetRecentFrames returned frames outside strict sequence order"@,
        FrameError::AlreadyAcknowledged { first, after } => "GetRecentFrames returned sequence "@
            + decimal(first as nat) + " after caller acknowledged "@ + decimal(after as nat),
        FrameError::NotTheLatest { latest, last } => "GetRecentFrames latest_sequence "@ + decimal(
            latest as nat,
        ) + " does not match final frame sequence "@ + decimal(last as nat),
        FrameError::MissingCapture => "RecentFrame omitted capture"@,
        FrameError::MissingImage => "CapturedFrame omitted image"@,
        FrameError::DimensionsOverflow { sequence } => "RecentFrame sequence "@ + decimal(
            sequence as nat,
        ) + " dimensions overflow RGBA8 storage"@,
        FrameError::NotPacked { sequence, width, height, bytes } => "RecentFrame sequence "@
            + decimal(sequence as nat) + " must contain tightly packed RGBA8, got "@ + decimal(
            width as nat,
        ) + "x"@ + decimal(height as nat) + " with "@ + decimal(bytes as nat) + " bytes"@,
        FrameError::OnlyTitleBar { sequence, height } => "RecentFrame sequence "@ + decimal(
            sequence as nat,
        ) + " is "@ + decimal(height as nat) + " pixels high; the model crop removes 28 pixels"@,
        FrameError::Undecodable { sequence } => "RecentFrame sequence "@ + decimal(sequence as nat)
            + " could not be decoded as RGBA8"@,
    }
}

impl FrameError {
    /// What the error says.
    pub fn message(&self) -> (text: String)
        ensures
            text@ == frame_error_text(*self),
    {
        match *self {
            FrameError::NoFrames => "GetRecentFrames returned no frames".to_owned(),
            FrameError::OutOfOrder => {
                "GetRecentFrames returned frames outside strict sequence order".to_owned()
            },
            FrameError::AlreadyAcknowledged { first, after } => {
                let mut text: String = "GetRecentFrames returned sequence ".to_owned();
                push_decimal(&mut text, first as u128);
                push_str(&mut text, " after caller acknowledged ");
                push_decimal(&mut text, after as u128);
                text
            },
            FrameError::NotTheLatest { latest, last } => {
                let mut text: String = "GetRecentFrames latest_sequence ".to_owned();
                push_decimal(&mut text, latest as u128);
                push_str(&mut text, " does not match final frame sequence ");
                push_decimal(&mut text, last as u128);
                text
            },
            FrameError::MissingCapture => "RecentFrame omitted capture".to_owned(),
            FrameError::MissingImage => "CapturedFrame omitted image".to_owned(),
            FrameError::DimensionsOverflow { sequence } => {
                let mut text: String = "RecentFrame sequence ".to_owned();
                push_decimal(&mut text, sequence as u128);
                push_str(&mut text, " dimensions overflow RGBA8 storage");
                text
            },
            FrameError::NotPacked { sequence, width, height, bytes } => {
                let mut text: String = "RecentFrame sequence ".to_owned();
                push_decimal(&mut text, sequence as u128);
                push_str(&mut text, " must contain tightly packed RGBA8, got ");
                push_decimal(&mut text, width as u128);
                push_str(&mut text, "x");
                push_decimal(&mut text, height as u128);
                push_str(&mut text, " with ");
                push_decimal(&mut text, bytes as u128);
                push_str(&mut text, " bytes");
                text
            },
            FrameError::OnlyTitleBar { sequence, height } => {
                let mut text: String = "RecentFrame sequence ".to_owned();
                push_decimal(&mut text, sequence as u128);
                push_str(&mut text, " is ");
                push_decimal(&mut text, height as u128);
                push_str(&mut text, " pixels high; the model crop removes 28 pixels");
                text
            },
            FrameError::Undecodable { sequence } => {
                let mut text: String = "RecentFrame sequence ".to_owned();
                push_decimal(&mut text, sequence as u128);
                push_str(&mut text, " could not be decoded as RGBA8");
                text
            },
        }
    }
}

/// What an image is refused for before it is cropped, if anything.
pub open spec fn rgba_check(sequence: u64, image: Raster) -> Result<(), FrameError> {
    if rgba_len(image.width, image.height) > usize::MAX {
        Err(FrameError::DimensionsOverflow { sequence })
    } else if !image.packed_rgba() {
        Err(
            FrameError::NotPacked {
                sequence,
                width: image.width,
                height: image.height,
                bytes: image.data.len() as usize,
            },
        )
    } else {
        Ok(())
    }
}

/// Refuses an image whose bytes are not those of its pixels.
pub fn validate_rgba_frame(sequence: u64, frame: &RgbaFrame) -> (checked: Result<(), FrameError>)
    ensures
        checked == rgba_check(sequence, frame@),
{
    match rgba_bytes(frame.width, frame.height) {
        None => Err(FrameError::DimensionsOverflow { sequence }),
        Some(expected) => if frame.data.len() != expected {
            Err(
                FrameError::NotPacked {
                    sequence,
                    width: frame.width,
                    height: frame.height,
                    bytes: frame.data.len(),
                },
            )
        } else {
            Ok(())
        },
    }
}

/// The part of a captured image below the title bar.
pub open spec fn below_title_bar(image: Raster) -> Raster {
    cropped(
        image,
        0,
        TITLE_BAR_HEIGHT,
        image.width,
        (image.height - TITLE_BAR_HEIGHT) as u32,
    )
}

/// What the model sees of a captured image: the part below the title bar, resized
/// to the model's side lengths, without the alpha bytes.
pub open spec fn model_view(image: Raster) -> Raster {
    let content = below_title_bar(image);
    Raster {
        width: MODEL_WIDTH,
        height: MODEL_HEIGHT,
        data: without_alpha(
            resized(content.width, content.height, content.data, MODEL_WIDTH, MODEL_HEIGHT),
        ),
    }
}

/// What becomes of a delivered frame: its number with what the model sees of it.
pub open spec fn prepared<M>(recent: RecentFrameModel<M>) -> Result<(u64, Raster), FrameError> {
    match recent.capture {
        None => Err(FrameError::MissingCapture),
        Some(CapturedFrameModel { image: None, .. }) => Err(FrameError::MissingImage),
        Some(CapturedFrameModel { image: Some(image), .. }) => match rgba_check(
            recent.sequence,
            image,
        ) {
            Err(error) => Err(error),
            Ok(_) => if image.height <= TITLE_BAR_HEIGHT {
                Err(
                    FrameError::OnlyTitleBar { sequence: recent.sequence, height: image.height },
                )
            } else {
                Ok((recent.sequence, model_view(image)))
            },
        },
    }
}

/// Whether a frame that is not refused can be resampled for the model.
pub open spec fn samplable<M>(recent: RecentFrameModel<M>) -> bool {
    recent.capture matches Some(capture) ==> (capture.image matches Some(image) ==> (prepared(
        recent,
    ) is Ok ==> resizable(
        image.width,
        (image.height - TITLE_BAR_HEIGHT) as u32,
        MODEL_WIDTH,
        MODEL_HEIGHT,
    )))
}

/// Decides whether a delivered frame can be turned into one for the model.
fn can_prepare<M>(recent: &RecentFrame<M>) -> (r: bool)
    ensures
        r == (prepared(recent@) is Ok),
{
    match &recent.capture {
        None => false,
        Some(capture) => match &capture.image {
            None => false,
            Some(image) => validate_rgba_frame(recent.sequence, image).is_ok() && image.height
                > TITLE_BAR_HEIGHT,
        },
    }
}

/// Decides `samplable`.
pub fn can_sample<M>(recent: &RecentFrame<M>) -> (r: bool)
    ensures
        r == samplable(recent@),
{
    match &recent.capture {
        None => true,
        Some(capture) => match &capture.image {
            None => true,
            Some(image) => !can_prepare(recent) || can_resize(
                image.width,
                image.height - TITLE_BAR_HEIGHT,
                MODEL_WIDTH,
                MODEL_HEIGHT,
            ),
        },
    }
}

/// A prepared frame with its image taken by its view.
pub open spec fn prepared_outcome(result: Result<(u64, RgbFrame), FrameError>) -> Result<
    (u64, Raster),
    FrameError,
> {
    match result {
        Ok((sequence, frame)) => Ok((sequence, frame@)),
        Err(error) => Err(error),
    }
}

/// Turns a delivered frame into one for the model.
pub fn prepare_model_frame<M>(recent: RecentFrame<M>) -> (frame: Result<
    (u64, RgbFrame),
    FrameError,
>)
    requires
        samplable(recent@),
    ensures
        prepared_outcome(frame) == prepared(recent@),
        frame matches Ok((_, image)) ==> image.data@.len() == MODEL_FRAME_BYTES,
{
    let sequence: u64 = recent.sequence;
    let capture = match recent.capture {
        None => {
            return Err(FrameError::MissingCapture);
        },
        Some(capture) => capture,
    };
    let frame = match capture.image {
        None => {
            return Err(FrameError::MissingImage);
        },
        Some(frame) => frame,
    };
    match validate_rgba_frame(sequence, &frame) {
        Err(error) => {
            return Err(error);
        },
        Ok(_) => {},
    }
    if frame.height <= TITLE_BAR_HEIGHT {
        return Err(FrameError::OnlyTitleBar { sequence, height: frame.height });
    }
    let ghost captured = frame@;
    assert(4 * captured.width <= rgba_len(captured.width, captured.height)) by (nonlinear_arith)
        requires
            captured.height >= 1,
    ;
    let (width, height) = (frame.width, frame.height);
    match decode_rgba(width, height, frame.data) {
        None => Err(FrameError::Undecodable { sequence }),
        Some(data) => {
            let image = RgbaFrame { width, height, data };
            assert(image@ =~= captured);
            let content = crop(image, 0, TITLE_BAR_HEIGHT, width, height - TITLE_BAR_HEIGHT);
            let scaled = resize(content, MODEL_WIDTH, MODEL_HEIGHT);
            let data: Vec<u8> = drop_alpha(&scaled.data);
            Ok((sequence, RgbFrame { width: MODEL_WIDTH, height: MODEL_HEIGHT, data }))
        },
    }
}

/// The sequence numbers of delivered frames.
pub open spec fn sequences<M>(recent: Seq<RecentFrameModel<M>>) -> Seq<u64> {
    recent.map_values(|frame: RecentFrameModel<M>| frame.sequence)
}

/// Whether every number is smaller than the one after it.
pub open spec fn increasing(numbers: Seq<u64>) -> bool {
    forall|i: int, j: int| 0 <= i && i + 1 == j && j < numbers.len() ==> (#[trigger] numbers[i]) < (
    #[trigger] numbers[j])
}

/// What a response is refused for as a whole, if anything, given the sequence
/// numbers of its frames, the number that its reader acknowledged, and the number
/// that it announces as the latest.
pub open spec fn response_check(numbers: Seq<u64>, after: u64, latest: u64) -> Result<
    (),
    FrameError,
> {
    if numbers.len() == 0 {
        Err(FrameError::NoFrames)
    } else if !increasing(numbers) {
        Err(FrameError::OutOfOrder)
    } else if numbers.first() <= after {
        Err(FrameError::AlreadyAcknowledged { first: numbers.first(), after })
    } else if numbers.last() != latest {
        Err(FrameError::NotTheLatest { latest, last: numbers.last() })
    } else {
        Ok(())
    }
}

/// Whether frames are missing between what was acknowledged and a response.
pub open spec fn gap(after: u64, first: u64) -> bool {
    after != 0 && first > after + 1
}

/// The window after one more frame: the latest `FRAME_COUNT`.
pub open spec fn extended(window: Seq<(u64, Raster)>, frame: (u64, Raster)) -> Seq<(u64, Raster)> {
    if window.len() + 1 > FRAME_COUNT {
        window.push(frame).drop_first()
    } else {
        window.push(frame)
    }
}

/// The window after some delivered frames, first to last, up to the first one that
/// is refused, and what that one is refused for.
pub open spec fn fed<M>(window: Seq<(u64, Raster)>, recent: Seq<RecentFrameModel<M>>) -> (
    Seq<(u64, Raster)>,
    Option<FrameError>,
)
    decreases recent.len(),
{
    if recent.len() == 0 {
        (window, None)
    } else {
        let (before, refused) = fed(window, recent.drop_last());
        match refused {
            Some(error) => (before, Some(error)),
            None => match prepared(recent.last()) {
                Err(error) => (before, Some(error)),
                Ok(frame) => (extended(before, frame), None),
            },
        }
    }
}

/// Whether every image of a window has all the bytes of a model frame.
pub open spec fn complete(window: Seq<(u64, Raster)>) -> bool {
    forall|i: int| 0 <= i < window.len() ==> (#[trigger] window[i]).1.data.len() == MODEL_FRAME_BYTES
}

/// What the model sees of a window: `FRAME_COUNT` frames, of which the first one
/// fills the places for which there is none yet.
pub open spec fn shown(window: Seq<(u64, Raster)>) -> Seq<Raster> {
    let missing = FRAME_COUNT - window.len();
    Seq::new(
        FRAME_COUNT as nat,
        |i: int|
            if i < missing {
                window[0].1
            } else {
                window[i - missing].1
            },
    )
}

/// The window that a response starts from: the one before it, unless frames are
/// missing in between.
pub open spec fn continued(window: Seq<(u64, Raster)>, after: u64, first: u64) -> Seq<
    (u64, Raster),
> {
    if gap(after, first) {
        Seq::empty()
    } else {
        window
    }
}

/// The window after a response, and what the model is shown: the frames with the
/// first and the last sequence number among them.
pub open spec fn window_step<M>(
    window: Seq<(u64, Raster)>,
    recent: Seq<RecentFrameModel<M>>,
    after: u64,
    latest: u64,
) -> (Seq<(u64, Raster)>, Result<(Seq<Raster>, u64, u64), FrameError>) {
    match response_check(sequences(recent), after, latest) {
        Err(error) => (window, Err(error)),
        Ok(_) => {
            let (next, refused) = fed(
                continued(window, after, sequences(recent).first()),
                recent,
            );
            match refused {
                Some(error) => (next, Err(error)),
                None => (next, Ok((shown(next), next.first().0, next.last().0))),
            }
        },
    }
}

/// A window as it is held, with its images taken by their views.
pub open spec fn window_of(history: VecDeque<(u64, RgbFrame)>) -> Seq<(u64, Raster)> {
    history@.map_values(|entry: (u64, RgbFrame)| (entry.0, entry.1@))
}

/// Frames with their images taken by their views.
pub open spec fn rasters(frames: Seq<RgbFrame>) -> Seq<Raster> {
    frames.map_values(|frame: RgbFrame| frame@)
}

/// Delivered frames with their contents taken by their views.
pub open spec fn delivered<M>(recent: Seq<RecentFrame<M>>) -> Seq<RecentFrameModel<M>> {
    recent.map_values(|frame: RecentFrame<M>| frame@)
}

/// What the model is shown, with its frames taken by their views.
pub open spec fn shown_outcome(result: Result<(Vec<RgbFrame>, u64, u64), FrameError>) -> Result<
    (Seq<Raster>, u64, u64),
    FrameError,
> {
    match result {
        Ok((frames, first, last)) => Ok((rasters(frames@), first, last)),
        Err(error) => Err(error),
    }
}

fn validate_response<M>(recent: &Vec<RecentFrame<M>>, after: u64, latest: u64) -> (checked: Result<
    (),
    FrameError,
>)
    ensures
        checked == response_check(sequences(delivered(recent@)), after, latest),
{
    let ghost numbers = sequences(delivered(recent@));
    assert(numbers.len() == recent@.len());
    assert(forall|i: int| 0 <= i < recent@.len() ==> numbers[i] == (#[trigger] recent@[i]).sequence);
    if recent.len() == 0 {
        return Err(FrameError::NoFrames);
    }
    for i in 1..recent.len()
        invariant
            numbers.len() == recent@.len(),
            forall|i: int|
                0 <= i < recent@.len() ==> numbers[i] == (#[trigger] recent@[i]).sequence,
            forall|j: int, k: int|
                0 <= j && j + 1 == k && k < i ==> (#[trigger] numbers[j]) < (#[trigger] numbers[k]),
            numbers == sequences(delivered(recent@)),
    {
        if recent[i - 1].sequence >= recent[i].sequence {
            assert(numbers[i - 1] >= numbers[i as int]);
            return Err(FrameError::OutOfOrder);
        }
    }
    assert(increasing(numbers));
    let first: u64 = recent[0].sequence;
    let last: u64 = recent[recent.len() - 1].sequence;
    if first <= after {
        return Err(FrameError::AlreadyAcknowledged { first, after });
    }
    if last != latest {
        return Err(FrameError::NotTheLatest { latest, last });
    }
    Ok(())
}

/// A refused frame ends the feeding: what comes after it makes no difference.
proof fn lemma_fed_stops<M>(
    window: Seq<(u64, Raster)>,
    recent: Seq<RecentFrameModel<M>>,
    taken: int,
)
    requires
        0 <= taken <= recent.len(),
        fed(window, recent.take(taken)).1 is Some,
    ensures
        fed(window, recent) == fed(window, recent.take(taken)),
    decreases recent.len() - taken,
{
    if taken == recent.len() {
        assert(recent.take(taken) =~= recent);
    } else {
        assert(recent.take(taken + 1).drop_last() =~= recent.take(taken));
        lemma_fed_stops(window, recent, taken + 1);
    }
}

/// Whether every delivered frame can be prepared.
pub open spec fn all_prepared<M>(recent: Seq<RecentFrameModel<M>>) -> bool {
    forall|i: int| 0 <= i < recent.len() ==> prepared(#[trigger] recent[i]) is Ok
}

/// Whether every frame up to the first one that is refused can be resampled.
pub open spec fn all_samplable<M>(recent: Seq<RecentFrameModel<M>>) -> bool {
    forall|i: int|
        0 <= i < recent.len() && all_prepared(recent.take(i)) ==> samplable(#[trigger] recent[i])
}

/// Whether every frame of a response that has to be resampled can be. Nothing has to
/// be in a response that is refused as a whole.
pub open spec fn feedable<M>(recent: Seq<RecentFrameModel<M>>, after: u64, latest: u64) -> bool {
    response_check(sequences(recent), after, latest) is Ok ==> all_samplable(recent)
}

/// Decides `feedable`.
pub fn can_feed<M>(recent: &Vec<RecentFrame<M>>, after: u64, latest: u64) -> (r: bool)
    ensures
        r == feedable(delivered(recent@), after, latest),
{
    if validate_response(recent, after, latest).is_err() {
        return true;
    }
    let ghost all = delivered(recent@);
    for i in 0..recent.len()
        invariant
            all == delivered(recent@),
            response_check(sequences(all), after, latest) is Ok,
            all_prepared(all.take(i as int)),
            forall|j: int| 0 <= j < i ==> samplable(#[trigger] all[j]),
    {
        assert(all[i as int] == recent@[i as int]@);
        if !can_sample(&recent[i]) {
            return false;
        }
        if !can_prepare(&recent[i]) {
            assert forall|j: int| 0 <= j < all.len() && all_prepared(all.take(j)) implies samplable(
                #[trigger] all[j],
            ) by {
                if i < j {
                    assert(all.take(j)[i as int] == all[i as int]);
                }
            }
            return true;
        }
        assert forall|j: int| 0 <= j < i + 1 implies prepared(
            #[trigger] all.take(i + 1)[j],
        ) is Ok by {
            if j < i {
                assert(all.take(i as int)[j] == all.take(i + 1)[j]);
            }
        }
    }
    true
}

/// Feeding takes every frame exactly if all of them can be prepared.
proof fn lemma_fed_takes_all<M>(window: Seq<(u64, Raster)>, recent: Seq<RecentFrameModel<M>>)
    ensures
        fed(window, recent).1 is None <==> all_prepared(recent),
    decreases recent.len(),
{
    if recent.len() > 0 {
        let shorter = recent.drop_last();
        lemma_fed_takes_all(window, shorter);
        assert(recent.last() == recent[recent.len() - 1]);
        if all_prepared(recent) {
            assert forall|i: int| 0 <= i < shorter.len() implies prepared(
                #[trigger] shorter[i],
            ) is Ok by {
                assert(shorter[i] == recent[i]);
            }
        }
        if fed(window, recent).1 is None {
            assert forall|i: int| 0 <= i < recent.len() implies prepared(
                #[trigger] recent[i],
            ) is Ok by {
                if i < shorter.len() {
                    assert(shorter[i] == recent[i]);
                }
            }
        }
    }
}

/// Prepares delivered frames one by one and takes them into the window.
fn feed<M>(history: &mut VecDeque<(u64, RgbFrame)>, recent: Vec<RecentFrame<M>>) -> (refused:
    Result<(), FrameError>)
    requires
        all_samplable(delivered(recent@)),
    ensures
        old(history)@.len() <= FRAME_COUNT ==> final(history)@.len() <= FRAME_COUNT,
        refused is Ok && 0 < recent@.len() ==> 0 < final(history)@.len(),
        complete(window_of(*old(history))) ==> complete(window_of(*final(history))),
        (
            window_of(*final(history)),
            match refused {
                Ok(_) => None::<FrameError>,
                Err(error) => Some(error),
            },
        ) == fed(window_of(*old(history)), delivered(recent@)),
{
    let ghost start = window_of(*history);
    let ghost given = recent@;
    let ghost all = delivered(recent@);
    assert(all.take(0) =~= Seq::empty());
    for frame in it: recent
        invariant
            it.seq() == given,
            all == delivered(given),
            all_samplable(all),
            start.len() <= FRAME_COUNT ==> history@.len() <= FRAME_COUNT,
            0 < it.index() ==> 0 < history@.len(),
            complete(start) ==> complete(window_of(*history)),
            (window_of(*history), None::<FrameError>) == fed(start, all.take(it.index() as int)),
            start == window_of(*old(history)),
            given == recent@,
    {
        proof {
            let taken = all.take(it.index() + 1);
            assert(taken.drop_last() =~= all.take(it.index() as int));
            assert(taken.last() == frame@);
            lemma_fed_takes_all(start, all.take(it.index() as int));
            assert(all[it.index() as int] == frame@);
        }
        let ghost before = window_of(*history);
        match prepare_model_frame(frame) {
            Err(error) => {
                proof {
                    lemma_fed_stops(start, all, it.index() + 1);
                }
                return Err(error);
            },
            Ok(entry) => {
                history.push_back(entry);
                if history.len() > FRAME_COUNT {
                    history.pop_front();
                }
                assert(window_of(*history) =~= extended(before, (entry.0, entry.1@)));
            },
        }
    }
    assert(all.take(all.len() as int) =~= all);
    Ok(())
}

/// Shows the model a window, with its first frame in the places for which there is
/// none yet.
fn show(history: &VecDeque<(u64, RgbFrame)>) -> (frames: Vec<RgbFrame>)
    requires
        0 < history@.len() <= FRAME_COUNT,
    ensures
        rasters(frames@) == shown(window_of(*history)),
{
    let ghost expected = shown(window_of(*history));
    let len: usize = history.len();
    let missing: usize = FRAME_COUNT - len;
    let mut frames: Vec<RgbFrame> = Vec::new();
    for i in 0..missing
        invariant
            0 < len == history@.len() <= FRAME_COUNT,
            missing == FRAME_COUNT - len,
            expected == shown(window_of(*history)),
            frames@.len() == i,
            forall|j: int| 0 <= j < i ==> (#[trigger] frames@[j])@ == expected[j],
    {
        frames.push(history[0].1.clone());
    }
    for i in 0..len
        invariant
            0 < len == history@.len() <= FRAME_COUNT,
            missing == FRAME_COUNT - len,
            expected == shown(window_of(*history)),
            frames@.len() == missing + i,
            forall|j: int| 0 <= j < missing + i ==> (#[trigger] frames@[j])@ == expected[j],
    {
        frames.push(history[i].1.clone());
    }
    assert(rasters(frames@) =~= expected);
    frames
}

/// Whether a response starts from a window of at most `FRAME_COUNT` frames, where the
/// model comes to be shown what it leads to. A larger one would leave no place for it.
pub open spec fn showable<M>(
    window: Seq<(u64, Raster)>,
    recent: Seq<RecentFrameModel<M>>,
    after: u64,
    latest: u64,
) -> bool {
    window_step(window, recent, after, latest).1 is Ok ==> continued(
        window,
        after,
        sequences(recent).first(),
    ).len() <= FRAME_COUNT
}

/// Takes the frames of a response into the window and shows the model what is in
/// it. A response that is out of order, not new, or not up to its own latest frame
/// is refused and changes nothing. Frames missing before the response empty the
/// window first. At the first frame that cannot be prepared it stops.
pub fn model_history<M>(
    history: &mut VecDeque<(u64, RgbFrame)>,
    recent: Vec<RecentFrame<M>>,
    after_sequence: u64,
    latest_sequence: u64,
) -> (seen: Result<(Vec<RgbFrame>, u64, u64), FrameError>)
    requires
        showable(
            window_of(*old(history)),
            delivered(recent@),
            after_sequence,
            latest_sequence,
        ),
        feedable(delivered(recent@), after_sequence, latest_sequence),
    ensures
        (window_of(*final(history)), shown_outcome(seen)) == window_step(
            window_of(*old(history)),
            delivered(recent@),
            after_sequence,
            latest_sequence,
        ),
        old(history)@.len() <= FRAME_COUNT ==> final(history)@.len() <= FRAME_COUNT,
        complete(window_of(*old(history))) ==> complete(window_of(*final(history))),
{
    match validate_response(&recent, after_sequence, latest_sequence) {
        Err(error) => {
            return Err(error);
        },
        Ok(_) => {},
    }
    let ghost first = sequences(delivered(recent@)).first();
    assert(first == recent@[0].sequence);
    if after_sequence != 0 && recent[0].sequence > after_sequence.saturating_add(1) {
        history.clear();
    }
    assert(window_of(*history) =~= continued(window_of(*old(history)), after_sequence, first));
    match feed(history, recent) {
        Err(error) => Err(error),
        Ok(_) => {
            let first_sequence: u64 = history[0].0;
            let last_sequence: u64 = history[history.len() - 1].0;
            Ok((show(history), first_sequence, last_sequence))
        },
    }
}

/// The latest frames of a run of frames, as many as a window holds.
pub open spec fn latest_frames(frames: Seq<(u64, Raster)>) -> Seq<(u64, Raster)> {
    if frames.len() > FRAME_COUNT {
        frames.skip(frames.len() - FRAME_COUNT)
    } else {
        frames
    }
}

/// What delivered frames become, one by one.
pub open spec fn prepared_each<M>(recent: Seq<RecentFrameModel<M>>) -> Seq<(u64, Raster)> {
    recent.map_values(|frame: RecentFrameModel<M>| prepared(frame)->Ok_0)
}

/// Feeding takes every frame exactly if all of them can be prepared, and the window
/// then holds the latest of what it held before and of what was delivered.
pub proof fn law_window_keeps_the_latest<M>(
    window: Seq<(u64, Raster)>,
    recent: Seq<RecentFrameModel<M>>,
)
    requires
        window.len() <= FRAME_COUNT,
    ensures
        fed(window, recent).1 is None <==> all_prepared(recent),
        all_prepared(recent) ==> fed(window, recent).0 == latest_frames(
            window + prepared_each(recent),
        ),
    decreases recent.len(),
{
    if recent.len() == 0 {
        assert(window + prepared_each(recent) =~= window);
    } else {
        let shorter = recent.drop_last();
        law_window_keeps_the_latest(window, shorter);
        lemma_fed_takes_all(window, recent);
        if all_prepared(recent) {
            let frame = prepared(recent.last())->Ok_0;
            let all = window + prepared_each(shorter);
            assert(window + prepared_each(recent) =~= all.push(frame));
            assert(extended(latest_frames(all), frame) =~= latest_frames(all.push(frame)));
        }
    }
}

/// Feeding two runs of frames one after the other feeds them all.
proof fn lemma_fed_split<M>(
    window: Seq<(u64, Raster)>,
    first: Seq<RecentFrameModel<M>>,
    second: Seq<RecentFrameModel<M>>,
)
    requires
        fed(window, first).1 is None,
    ensures
        fed(fed(window, first).0, second) == fed(window, first + second),
    decreases second.len(),
{
    if second.len() == 0 {
        assert(first + second =~= first);
    } else {
        lemma_fed_split(window, first, second.drop_last());
        assert((first + second).drop_last() =~= first + second.drop_last());
        assert((first + second).last() == second.last());
    }
}

/// It makes no difference whether frames are delivered in one response or in two: if
/// the second one begins one above the end of the first, the joined response is in
/// order too, leads to the same window, and shows the model the same frames under the
/// same numbers, or is refused for the same frame.
pub proof fn law_responses_can_be_split<M>(
    window: Seq<(u64, Raster)>,
    first: Seq<RecentFrameModel<M>>,
    second: Seq<RecentFrameModel<M>>,
    after: u64,
    middle: u64,
    latest: u64,
)
    requires
        window_step(window, first, after, middle).1 is Ok,
        response_check(sequences(second), middle, latest) is Ok,
        sequences(second).first() == middle + 1,
    ensures
        response_check(sequences(first + second), after, latest) is Ok,
        window_step(window, first + second, after, latest) == window_step(
            window_step(window, first, after, middle).0,
            second,
            middle,
            latest,
        ),
{
    let (a, b, all) = (sequences(first), sequences(second), sequences(first + second));
    assert(all =~= a + b);
    assert forall|i: int, j: int| 0 <= i && i + 1 == j && j < all.len() implies (#[trigger] all[i])
        < (#[trigger] all[j]) by {
        if j < a.len() {
            assert(a[i] < a[j]);
        } else if a.len() <= i {
            assert(b[i - a.len()] < b[j - a.len()]);
        }
    }
    lemma_fed_split(continued(window, after, a.first()), first, second);
}

/// What the model is shown is always `FRAME_COUNT` frames; the last one is the
/// newest delivered, the first one the oldest in the window, and the numbers
/// reported are theirs.
pub proof fn law_model_sees_a_full_window<M>(
    window: Seq<(u64, Raster)>,
    recent: Seq<RecentFrameModel<M>>,
    after: u64,
    latest: u64,
)
    requires
        window.len() <= FRAME_COUNT,
        window_step(window, recent, after, latest).1 is Ok,
    ensures
        ({
            let (next, seen) = window_step(window, recent, after, latest);
            let (frames, first, last) = seen->Ok_0;
            &&& 0 < next.len() <= FRAME_COUNT
            &&& frames.len() == FRAME_COUNT
            &&& last == latest
            &&& prepared(recent.last()) == Ok::<(u64, Raster), FrameError>((latest, frames.last()))
            &&& next.first() == (first, frames.first())
            &&& forall|i: int|
                0 <= i < FRAME_COUNT - next.len() ==> #[trigger] frames[i] == frames.first()
        }),
{
    let numbers = sequences(recent);
    assert(numbers.last() == recent.last().sequence);
    let start = continued(window, after, numbers.first());
    law_window_keeps_the_latest(start, recent);
    assert(recent.last() == recent[recent.len() - 1]);
    let all = start + prepared_each(recent);
    assert(all.last() == prepared(recent.last())->Ok_0);
}

/// A response that is refused as a whole leaves the window as it was.
pub proof fn law_refused_response_changes_nothing<M>(
    window: Seq<(u64, Raster)>,
    recent: Seq<RecentFrameModel<M>>,
    after: u64,
    latest: u64,
)
    requires
        response_check(sequences(recent), after, latest) is Err,
    ensures
        window_step(window, recent, after, latest) == (
            window,
            Err::<(Seq<Raster>, u64, u64), FrameError>(
                response_check(sequences(recent), after, latest)->Err_0,
            ),
        ),
{
}

/// After missing frames nothing from before them is shown.
pub proof fn law_gap_starts_over<M>(
    window: Seq<(u64, Raster)>,
    recent: Seq<RecentFrameModel<M>>,
    after: u64,
    latest: u64,
)
    requires
        response_check(sequences(recent), after, latest) is Ok,
        gap(after, sequences(recent).first()),
    ensures
        window_step(window, recent, after, latest) == window_step(
            Seq::empty(),
            recent,
            after,
            latest,
        ),
{
}

/// What stands in the title bar makes no difference to the model.
pub proof fn law_title_bar_is_ignored(left: Raster, right: Raster)
    requires
        left.packed_rgba(),
        right.packed_rgba(),
        left.width == right.width,
        left.height == right.height,
        TITLE_BAR_HEIGHT < left.height,
        forall|i: int|
            4 * (TITLE_BAR_HEIGHT * left.width) <= i < left.data.len() ==> #[trigger] left.data[i]
                == right.data[i],
    ensures
        model_view(left) == model_view(right),
{
    let (a, b) = (below_title_bar(left), below_title_bar(right));
    let w = left.width as int;
    let h = left.height as int;
    let bar = TITLE_BAR_HEIGHT as int;
    assert forall|i: int| 0 <= i < a.data.len() implies a.data[i] == b.data[i] by {
        let row = i / (4 * w);
        let column = i % (4 * w);
        let at = ((bar + row) * w + 0) * 4 + column;
        assert(0 <= row < h - bar && 0 <= column < 4 * w && 4 * (bar * w) <= at < w * h * 4)
            by (nonlinear_arith)
            requires
                0 <= i < w * (h - bar) * 4,
                0 <= w,
                0 <= bar < h,
                row == i / (4 * w),
                column == i % (4 * w),
                at == ((bar + row) * w + 0) * 4 + column,
        ;
        assert(left.data[at] == right.data[at]);
    }
    assert(a.data =~= b.data);
}

/// What a history answers, its reader takes: a response with frames is in order,
/// new, and up to its own latest frame. The reader starts its window over exactly
/// if frames that it had not seen were dropped.
pub proof fn law_answers_are_accepted<M>(history: HistoryModel<M>, after: u64)
    requires
        history.wf(),
        after < history.latest_sequence,
    ensures
        history.recent(after) is Ok,
        ({
            let answer = history.recent(after)->Ok_0;
            let numbers = sequences(answer.frames);
            &&& response_check(numbers, after, answer.latest_sequence) is Ok
            &&& gap(after, numbers.first()) <==> after != 0 && after < history.dropped_frames
        }),
{
    law_no_frame_is_missed(history, after);
    law_recent_frames_in_order(history, after);
    let answer = history.recent(after)->Ok_0;
    let numbers = sequences(answer.frames);
    assert forall|i: int| 0 <= i < numbers.len() implies numbers[i] == history.latest_sequence
        - numbers.len() + 1 + i by {
        assert(numbers[i] == answer.frames[i].sequence);
    }
    assert(numbers.first() == answer.frames[0].sequence);
}

/// Frames, windows and what the model is shown are known by what they hold: nothing is
/// lost, added or moved when they are taken by their views.
pub proof fn law_windows_keep_what_they_hold<M>(
    history: VecDeque<(u64, RgbFrame)>,
    frames: Seq<RgbFrame>,
    recent: Seq<RecentFrame<M>>,
    i: int,
)
    ensures
        window_of(history).len() == history@.len(),
        0 <= i < history@.len() ==> window_of(history)[i] == (history@[i].0, history@[i].1@),
        rasters(frames).len() == frames.len(),
        0 <= i < frames.len() ==> rasters(frames)[i] == frames[i]@,
        delivered(recent).len() == recent.len(),
        0 <= i < recent.len() ==> delivered(recent)[i] == recent[i]@,
        sequences(delivered(recent)).len() == recent.len(),
        0 <= i < recent.len() ==> sequences(delivered(recent))[i] == recent[i].sequence,
{
}

/// A prepared frame and what the model is shown are known by the views of the results.
pub proof fn law_results_keep_their_frames(
    one: Result<(u64, RgbFrame), FrameError>,
    all: Result<(Vec<RgbFrame>, u64, u64), FrameError>,
)
    ensures
        prepared_outcome(one) is Ok <==> one is Ok,
        one is Ok ==> prepared_outcome(one)->Ok_0 == (one->Ok_0.0, one->Ok_0.1@),
        one is Err ==> prepared_outcome(one)->Err_0 == one->Err_0,
        shown_outcome(all) is Ok <==> all is Ok,
        all is Ok ==> shown_outcome(all)->Ok_0.0 == rasters(all->Ok_0.0@)
            && shown_outcome(all)->Ok_0.1 == all->Ok_0.1 && shown_outcome(all)->Ok_0.2
            == all->Ok_0.2,
        all is Err ==> shown_outcome(all)->Err_0 == all->Err_0,
{
}

/// Errors say what is wrong in these words.
pub proof fn law_frame_errors_say_what_is_wrong(
    sequence: u64,
    other: u64,
    width: u32,
    height: u32,
    bytes: usize,
)
    ensures
        frame_error_text(FrameError::NoFrames) == "GetRecentFrames returned no frames"@,
        frame_error_text(FrameError::OutOfOrder)
            == "GetRecentFrames returned frames outside strict sequence order"@,
        frame_error_text(FrameError::AlreadyAcknowledged { first: sequence, after: other })
            == "GetRecentFrames returned sequence "@ + decimal(sequence as nat)
            + " after caller acknowledged "@ + decimal(other as nat),
        frame_error_text(FrameError::NotTheLatest { latest: sequence, last: other })
            == "GetRecentFrames latest_sequence "@ + decimal(sequence as nat)
            + " does not match final frame sequence "@ + decimal(other as nat),
        frame_error_text(FrameError::MissingCapture) == "RecentFrame omitted capture"@,
        frame_error_text(FrameError::MissingImage) == "CapturedFrame omitted image"@,
        frame_error_text(FrameError::DimensionsOverflow { sequence }) == "RecentFrame sequence "@
            + decimal(sequence as nat) + " dimensions overflow RGBA8 storage"@,
        frame_error_text(FrameError::NotPacked { sequence, width, height, bytes })
            == "RecentFrame sequence "@ + decimal(sequence as nat)
            + " must contain tightly packed RGBA8, got "@ + decimal(width as nat) + "x"@ + decimal(
            height as nat,
        ) + " with "@ + decimal(bytes as nat) + " bytes"@,
        frame_error_text(FrameError::OnlyTitleBar { sequence, height }) == "RecentFrame sequence "@
            + decimal(sequence as nat) + " is "@ + decimal(height as nat)
            + " pixels high; the model crop removes 28 pixels"@,
        frame_error_text(FrameError::Undecodable { sequence }) == "RecentFrame sequence "@
            + decimal(sequence as nat) + " could not be decoded as RGBA8"@,
{
}

/// A frame is taken exactly if it has an image that is tightly packed and higher than
/// the title bar; else it is refused for the first of these that is not so.
pub proof fn law_frames_are_refused_for_a_reason<M>(recent: RecentFrameModel<M>)
    ensures
        recent.capture is None ==> prepared(recent) == Err::<(u64, Raster), FrameError>(
            FrameError::MissingCapture,
        ),
        recent.capture is Some && recent.capture->0.image is None ==> prepared(recent) == Err::<
            (u64, Raster),
            FrameError,
        >(FrameError::MissingImage),
        recent.capture is Some && recent.capture->0.image is Some ==> {
            let (sequence, image) = (recent.sequence, recent.capture->0.image->0);
            let (width, height) = (image.width, image.height);
            let bytes = 4 * (width * height);
            &&& prepared(recent) is Ok <==> bytes <= usize::MAX && image.data.len() == bytes
                && height > 28
            &&& bytes > usize::MAX ==> prepared(recent)->Err_0 == (
            FrameError::DimensionsOverflow { sequence })
            &&& bytes <= usize::MAX && image.data.len() != bytes ==> prepared(recent)->Err_0 == (
            FrameError::NotPacked { sequence, width, height, bytes: image.data.len() as usize })
            &&& bytes <= usize::MAX && image.data.len() == bytes && height <= 28 ==> prepared(
                recent,
            )->Err_0 == (FrameError::OnlyTitleBar { sequence, height })
        },
{
}

/// What the model gets of a frame that is taken: under the number of the frame, the
/// colors of the pixels that come of resizing all rows below the first 28 to 384 by 216.
pub proof fn law_model_frames_show_the_content<M>(
    recent: RecentFrameModel<M>,
    pixel: int,
    channel: int,
)
    requires
        prepared(recent) is Ok,
        0 <= channel < 3,
    ensures
        ({
            let image = recent.capture->0.image->0;
            let (sequence, frame) = prepared(recent)->Ok_0;
            let scaled = resized(
                image.width,
                (image.height - 28) as u32,
                image.data.skip(4 * (28 * image.width)),
                384,
                216,
            );
            &&& sequence == recent.sequence
            &&& frame.width == 384
            &&& frame.height == 216
            &&& frame.data.len() == 3 * (scaled.len() / 4)
            &&& 0 <= pixel < scaled.len() / 4 ==> frame.data[3 * pixel + channel] == scaled[4
                * pixel + channel]
        }),
{
    let image = recent.capture->0.image->0;
    lemma_content_is_what_follows_the_title_bar(image);
}

/// Below the title bar is what follows its bytes.
proof fn lemma_content_is_what_follows_the_title_bar(image: Raster)
    requires
        image.packed_rgba(),
        TITLE_BAR_HEIGHT < image.height,
    ensures
        below_title_bar(image).data == image.data.skip(4 * (TITLE_BAR_HEIGHT * image.width)),
{
    let content = below_title_bar(image).data;
    let (w, h, bar) = (image.width as int, image.height as int, TITLE_BAR_HEIGHT as int);
    let skipped = 4 * (bar * w);
    assert(w * (h - bar) * 4 == w * h * 4 - skipped && 0 <= skipped <= w * h * 4)
        by (nonlinear_arith)
        requires
            skipped == 4 * (bar * w),
            0 <= w,
            0 <= bar < h,
    ;
    assert forall|i: int| 0 <= i < content.len() implies content[i] == image.data[skipped + i] by {
        assert(0 < w) by (nonlinear_arith)
            requires
                0 <= w,
                0 <= i < w * (h - bar) * 4,
        ;
        vstd::arithmetic::div_mod::lemma_fundamental_div_mod(i, 4 * w);
        let row = i / (4 * w);
        let column = i % (4 * w);
        assert(((bar + row) * w + 0) * 4 + column == skipped + i) by (nonlinear_arith)
            requires
                i == (4 * w) * row + column,
                skipped == 4 * (bar * w),
        ;
    }
    assert(content =~= image.data.skip(skipped));
}

/// A response is taken exactly if it has frames, each numbered higher than the one
/// before it, the first higher than what was acknowledged, and the last one as the
/// latest; else it is refused for the first of these that is not so.
pub proof fn law_responses_are_refused_for_a_reason(numbers: Seq<u64>, after: u64, latest: u64)
    ensures
        ({
            let checked = response_check(numbers, after, latest);
            let disordered = exists|i: int|
                0 <= i < numbers.len() - 1 && (#[trigger] numbers[i]) >= numbers[i + 1];
            &&& checked is Ok <==> 0 < numbers.len() && !disordered && after < numbers[0]
                && numbers[numbers.len() - 1] == latest
            &&& numbers.len() == 0 ==> checked->Err_0 == FrameError::NoFrames
            &&& 0 < numbers.len() && disordered ==> checked->Err_0 == FrameError::OutOfOrder
            &&& 0 < numbers.len() && !disordered && numbers[0] <= after ==> checked->Err_0 == (
            FrameError::AlreadyAcknowledged { first: numbers[0], after })
            &&& 0 < numbers.len() && !disordered && after < numbers[0] && numbers[numbers.len() - 1]
                != latest ==> checked->Err_0 == (FrameError::NotTheLatest {
                latest,
                last: numbers[numbers.len() - 1],
            })
        }),
{
    if increasing(numbers) {
        assert forall|i: int| 0 <= i < numbers.len() - 1 implies (#[trigger] numbers[i])
            < numbers[i + 1] by {
            let j = i + 1;
            assert(numbers[i] < numbers[j]);
        }
    } else {
        let (i, j) = choose|i: int, j: int|
            0 <= i && i + 1 == j && j < numbers.len() && !((#[trigger] numbers[i]) < (
            #[trigger] numbers[j]));
        assert(numbers[i] >= numbers[i + 1]);
    }
}

/// Feeding frames that can all be prepared keeps the latest ten, in order: the newest
/// are the frames as they were prepared, and before them stands what stood at the end.
proof fn lemma_fed_keeps_the_latest<M>(window: Seq<(u64, Raster)>, recent: Seq<RecentFrameModel<M>>)
    requires
        window.len() <= 10,
        all_prepared(recent),
    ensures
        ({
            let next = fed(window, recent).0;
            &&& fed(window, recent).1 is None
            &&& next.len() == if window.len() + recent.len() < 10 {
                window.len() + recent.len()
            } else {
                10
            }
            &&& forall|k: int|
                0 <= k < next.len() ==> #[trigger] next[next.len() - 1 - k] == if k < recent.len() {
                    prepared(recent[recent.len() - 1 - k])->Ok_0
                } else {
                    window[window.len() - 1 - (k - recent.len())]
                }
        }),
{
    law_window_keeps_the_latest(window, recent);
    let all = window + prepared_each(recent);
    let next = fed(window, recent).0;
    assert forall|k: int| 0 <= k < next.len() implies #[trigger] next[next.len() - 1 - k]
        == if k < recent.len() {
        prepared(recent[recent.len() - 1 - k])->Ok_0
    } else {
        window[window.len() - 1 - (k - recent.len())]
    } by {
        assert(next[next.len() - 1 - k] == all[all.len() - 1 - k]);
    }
}

/// When a response is taken, the window ends with its frames as they were prepared, and
/// before them, unless frames are missing in between, stands what it held; of all these
/// it keeps the latest ten. The model is shown ten frames: the whole window in order,
/// oldest to newest, and before it its oldest frame for each place that is left. The
/// numbers reported are those of the oldest and of the newest frame of the window.
pub proof fn law_model_sees_the_window_in_order<M>(
    window: Seq<(u64, Raster)>,
    recent: Seq<RecentFrameModel<M>>,
    after: u64,
    latest: u64,
)
    requires
        window.len() <= 10,
        window_step(window, recent, after, latest).1 is Ok,
    ensures
        ({
            let (next, seen) = window_step(window, recent, after, latest);
            let (frames, first, last) = seen->Ok_0;
            let missed = after != 0 && recent[0].sequence > after + 1;
            let kept = if missed {
                0
            } else {
                window.len()
            };
            &&& 0 < recent.len()
            &&& forall|i: int| 0 <= i < recent.len() ==> prepared(#[trigger] recent[i]) is Ok
            &&& next.len() == if kept + recent.len() < 10 {
                kept + recent.len()
            } else {
                10
            }
            &&& forall|k: int|
                0 <= k < next.len() ==> #[trigger] next[next.len() - 1 - k] == if k < recent.len() {
                    prepared(recent[recent.len() - 1 - k])->Ok_0
                } else {
                    window[window.len() - 1 - (k - recent.len())]
                }
            &&& frames.len() == 10
            &&& forall|k: int|
                0 <= k < next.len() ==> #[trigger] frames[10 - next.len() + k] == next[k].1
            &&& forall|i: int| 0 <= i < 10 - next.len() ==> #[trigger] frames[i] == next[0].1
            &&& first == next[0].0
            &&& last == next[next.len() - 1].0
        }),
{
    let first_number = sequences(recent).first();
    assert(first_number == recent[0].sequence);
    let start = continued(window, after, first_number);
    lemma_fed_takes_all(start, recent);
    lemma_fed_keeps_the_latest(start, recent);
}

/// Ten frames or more, all taken, are what the model is shown: the latest ten of them in
/// order, whatever it was shown before.
pub proof fn law_ten_frames_fill_the_window<M>(
    window: Seq<(u64, Raster)>,
    recent: Seq<RecentFrameModel<M>>,
    after: u64,
    latest: u64,
    k: int,
)
    requires
        window.len() <= 10,
        10 <= recent.len(),
        window_step(window, recent, after, latest).1 is Ok,
        0 <= k < 10,
    ensures
        window_step(window, recent, after, latest).1->Ok_0.0[k] == prepared(
            recent[recent.len() - 10 + k],
        )->Ok_0.1,
{
    law_model_sees_the_window_in_order(window, recent, after, latest);
    let (next, seen) = window_step(window, recent, after, latest);
    assert(seen->Ok_0.0[10 - next.len() + k] == next[k].1);
    assert(next[next.len() - 1 - (9 - k)] == prepared(
        recent[recent.len() - 1 - (9 - k)],
    )->Ok_0);
}

/// A frame that is refused ends a response that was taken so far: the reason is its own,
/// the frames before it have been taken into the window, and those behind it have not.
pub proof fn law_a_bad_frame_ends_a_response<M>(
    window: Seq<(u64, Raster)>,
    recent: Seq<RecentFrameModel<M>>,
    after: u64,
    latest: u64,
    bad: int,
)
    requires
        window.len() <= 10,
        response_check(sequences(recent), after, latest) is Ok,
        0 <= bad < recent.len(),
        prepared(recent[bad]) is Err,
        forall|i: int| 0 <= i < bad ==> prepared(#[trigger] recent[i]) is Ok,
    ensures
        ({
            let (next, seen) = window_step(window, recent, after, latest);
            let missed = after != 0 && recent[0].sequence > after + 1;
            let kept = if missed {
                0
            } else {
                window.len()
            };
            &&& seen is Err
            &&& seen->Err_0 == prepared(recent[bad])->Err_0
            &&& next.len() == if kept + bad < 10 {
                kept + bad
            } else {
                10
            }
            &&& forall|k: int|
                0 <= k < next.len() ==> #[trigger] next[next.len() - 1 - k] == if k < bad {
                    prepared(recent[bad - 1 - k])->Ok_0
                } else {
                    window[window.len() - 1 - (k - bad)]
                }
        }),
{
    let first_number = sequences(recent).first();
    assert(first_number == recent[0].sequence);
    let start = continued(window, after, first_number);
    let before = recent.take(bad);
    let through = recent.take(bad + 1);
    assert(through.drop_last() =~= before);
    assert(through.last() == recent[bad]);
    assert forall|i: int| 0 <= i < before.len() implies prepared(#[trigger] before[i]) is Ok by {
        assert(before[i] == recent[i]);
    }
    lemma_fed_keeps_the_latest(start, before);
    lemma_fed_stops(start, recent, bad + 1);
    let next = fed(start, before).0;
    assert forall|k: int| 0 <= k < next.len() implies #[trigger] next[next.len() - 1 - k] == if k
        < bad {
        prepared(recent[bad - 1 - k])->Ok_0
    } else {
        window[window.len() - 1 - (k - bad)]
    } by {
        if k < bad {
            assert(before[before.len() - 1 - k] == recent[bad - 1 - k]);
        }
    }
}

/// An image is refused for its side lengths if its bytes cannot be counted, and else for
/// its bytes if they are not four for each pixel.
pub proof fn law_images_are_refused_for_a_reason(sequence: u64, image: Raster)
    ensures
        ({
            let bytes = 4 * (image.width * image.height);
            let checked = rgba_check(sequence, image);
            &&& checked is Ok <==> bytes <= usize::MAX && image.data.len() == bytes
            &&& bytes > usize::MAX ==> checked->Err_0 == (FrameError::DimensionsOverflow {
                sequence,
            })
            &&& bytes <= usize::MAX && image.data.len() != bytes ==> checked->Err_0 == (
            FrameError::NotPacked {
                sequence,
                width: image.width,
                height: image.height,
                bytes: image.data.len() as usize,
            })
        }),
{
}

/// A frame can be sampled unless it is taken and the rows below its title bar cannot be
/// resized for the model. A response can be fed unless it is in order and has such a
/// frame before the first that is refused.
pub proof fn law_what_can_be_fed<M>(
    recent: Seq<RecentFrameModel<M>>,
    after: u64,
    latest: u64,
    i: int,
)
    requires
        0 <= i < recent.len(),
    ensures
        samplable(recent[i]) <==> (prepared(recent[i]) is Ok ==> resizable(
            recent[i].capture->0.image->0.width,
            (recent[i].capture->0.image->0.height - 28) as u32,
            384,
            216,
        )),
        response_check(sequences(recent), after, latest) is Err ==> feedable(recent, after, latest),
        (forall|j: int| 0 <= j < recent.len() ==> samplable(#[trigger] recent[j])) ==> feedable(
            recent,
            after,
            latest,
        ),
        response_check(sequences(recent), after, latest) is Ok && !samplable(recent[i]) && (
        forall|j: int| 0 <= j < i ==> prepared(#[trigger] recent[j]) is Ok) ==> !feedable(
            recent,
            after,
            latest,
        ),
{
    if forall|j: int| 0 <= j < i ==> prepared(#[trigger] recent[j]) is Ok {
        assert(all_prepared(recent.take(i)));
    }
}

/// A window of at most ten frames can always be shown; a larger one where the response
/// is not taken or starts it over.
pub proof fn law_what_can_be_shown<M>(
    window: Seq<(u64, Raster)>,
    recent: Seq<RecentFrameModel<M>>,
    after: u64,
    latest: u64,
)
    ensures
        showable(window, recent, after, latest) <==> window.len() <= 10 || window_step(
            window,
            recent,
            after,
            latest,
        ).1 is Err || (after != 0 && sequences(recent).first() > after + 1),
{
}

} // verus!
