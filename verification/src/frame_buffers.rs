//! The service that opens, reads and closes recent-frame buffers.
use vstd::prelude::*;

use crate::images::{rgba_bytes, PixelSize};
#[allow(unused_imports)]
use crate::images::rgba_len;
use crate::recent_frames::{resize_capture, Capture, History};
#[allow(unused_imports)]
use crate::recent_frames::{
    has_size, law_no_frame_is_missed, law_recent_frames_in_order, numbered, resampled,
    resizable_to, resized_capture, CaptureModel, CapturedFrameModel, HistoryModel, RecentFrameModel,
    ResponseModel,
};
use crate::status::Status;
#[allow(unused_imports)]
use crate::status::{outcome, Code};
use crate::text::{is_blank, push_decimal, push_str, same_text};
#[allow(unused_imports)]
use crate::text::{blank, decimal};

verus! {

/// The most buffers that may be active at a time.
pub const MAX_ACTIVE_BUFFERS: usize = 8;

/// The most frames that one buffer may retain.
pub const MAX_CAPACITY: u32 = 120;

/// The most frames per second that one buffer may be asked for.
pub const MAX_TARGET_FPS: u32 = 120;

/// The most bytes that the frames of one buffer may take: 256 MiB.
pub const MAX_BUFFER_BYTES: usize = 268_435_456;

/// Names an open buffer.
#[derive(Clone, Debug, PartialEq, Eq)]
pub struct FrameBufferRef {
    pub frame_buffer_id: String,
}

/// Names a window.
#[derive(Clone, Debug, PartialEq, Eq)]
pub struct WindowRef {
    pub window_id: String,
}

/// What a request asks to capture. A region and a display selector come as the
/// driver understood them, or with its refusal.
#[derive(Debug)]
pub enum RequestedTarget<R> {
    Window(WindowRef),
    Display { selector: Result<Option<String>, Status> },
    Region { region: Option<Result<R, Status>>, selector: Result<Option<String>, Status> },
}

/// The target part of a request, which may be left empty.
#[derive(Debug)]
pub struct CaptureTargetRequest<R> {
    pub target: Option<RequestedTarget<R>>,
}

/// A request to open a buffer.
#[derive(Debug)]
pub struct OpenFrameBufferRequest<R> {
    pub target: Option<CaptureTargetRequest<R>>,
    pub target_fps: u32,
    pub frame_capacity: u32,
    pub output_size: Option<PixelSize>,
}

/// The answer to a request to open a buffer.
#[derive(Debug, PartialEq, Eq)]
pub struct OpenFrameBufferResponse {
    pub frame_buffer: Option<FrameBufferRef>,
}

/// A request for the frames of a buffer after a sequence number.
#[derive(Debug, PartialEq, Eq)]
pub struct GetRecentFramesRequest {
    pub frame_buffer: Option<FrameBufferRef>,
    pub after_sequence: u64,
}

/// A request to close a buffer.
#[derive(Debug, PartialEq, Eq)]
pub struct CloseFrameBufferRequest {
    pub frame_buffer: Option<FrameBufferRef>,
}

/// What a buffer captures.
#[derive(Clone, Debug, PartialEq, Eq)]
pub enum CaptureTarget<R> {
    Window(WindowRef),
    Display(Option<String>),
    Region { region: R, display: Option<String> },
}

/// Whether a buffer of so many frames of so many bytes is admitted.
pub open spec fn buffer_bytes_check(frame_bytes: nat, capacity: nat) -> Result<
    (),
    (Code, Seq<char>),
> {
    let bytes = frame_bytes * capacity;
    if bytes > usize::MAX {
        Err((Code::ResourceExhausted, "frame buffer is too large"@))
    } else if bytes > MAX_BUFFER_BYTES {
        Err(
            (
                Code::ResourceExhausted,
                "frame buffer would use "@ + decimal(bytes)
                    + " bytes; limit is 268435456. Reduce frame_capacity or pass output_size"@,
            ),
        )
    } else {
        Ok(())
    }
}

/// Refuses a buffer whose frames would take more than `MAX_BUFFER_BYTES`.
pub fn validate_buffer_bytes(frame_bytes: usize, capacity: usize) -> (checked: Result<(), Status>)
    ensures
        outcome(checked) == buffer_bytes_check(frame_bytes as nat, capacity as nat),
{
    match frame_bytes.checked_mul(capacity) {
        None => Err(Status::resource_exhausted("frame buffer is too large".to_owned())),
        Some(buffer_bytes) => if buffer_bytes > MAX_BUFFER_BYTES {
            let mut message: String = "frame buffer would use ".to_owned();
            push_decimal(&mut message, buffer_bytes as u128);
            push_str(
                &mut message,
                " bytes; limit is 268435456. Reduce frame_capacity or pass output_size",
            );
            Err(Status::resource_exhausted(message))
        } else {
            Ok(())
        },
    }
}

/// Whether a buffer of so many frames of an output size is admitted.
pub open spec fn output_size_check(size: PixelSize, capacity: nat) -> Result<
    PixelSize,
    (Code, Seq<char>),
> {
    if size.width == 0 || size.height == 0 {
        Err((Code::InvalidArgument, "output_size width and height must be positive"@))
    } else if rgba_len(size.width, size.height) > usize::MAX {
        Err((Code::ResourceExhausted, "output_size is too large"@))
    } else {
        match buffer_bytes_check(rgba_len(size.width, size.height), capacity) {
            Err(status) => Err(status),
            Ok(_) => Ok(size),
        }
    }
}

/// Refuses an output size that is empty or takes too many bytes.
pub fn validate_output_size(size: PixelSize, capacity: usize) -> (checked: Result<
    PixelSize,
    Status,
>)
    ensures
        outcome(checked) == output_size_check(size, capacity as nat),
{
    if size.width == 0 || size.height == 0 {
        return Err(
            Status::invalid_argument("output_size width and height must be positive".to_owned()),
        );
    }
    match rgba_bytes(size.width, size.height) {
        None => Err(Status::resource_exhausted("output_size is too large".to_owned())),
        Some(bytes) => match validate_buffer_bytes(bytes, capacity) {
            Err(status) => Err(status),
            Ok(_) => Ok(size),
        },
    }
}

/// What becomes of a requested target.
pub open spec fn target_check<R>(target: Option<CaptureTargetRequest<R>>) -> Result<
    CaptureTarget<R>,
    (Code, Seq<char>),
> {
    match target {
        Some(CaptureTargetRequest { target: Some(RequestedTarget::Window(window)) }) => if blank(
            window.window_id@,
        ) {
            Err((Code::InvalidArgument, "target.window.window_id is required"@))
        } else {
            Ok(CaptureTarget::Window(window))
        },
        Some(CaptureTargetRequest { target: Some(RequestedTarget::Display { selector }) }) => {
            match selector {
                Err(status) => Err(status@),
                Ok(display) => Ok(CaptureTarget::Display(display)),
            }
        },
        Some(
            CaptureTargetRequest { target: Some(RequestedTarget::Region { region, selector }) },
        ) => match (region, selector) {
            (None, _) => Err((Code::InvalidArgument, "target.region.region is required"@)),
            (Some(Err(status)), _) => Err(status@),
            (Some(Ok(_)), Err(status)) => Err(status@),
            (Some(Ok(region)), Ok(display)) => Ok(CaptureTarget::Region { region, display }),
        },
        _ => Err((Code::InvalidArgument, "target is required"@)),
    }
}

fn validate_target<R>(target: Option<CaptureTargetRequest<R>>) -> (checked: Result<
    CaptureTarget<R>,
    Status,
>)
    ensures
        outcome(checked) == target_check(target),
{
    let requested = match target {
        Some(request) => request.target,
        None => None,
    };
    match requested {
        Some(RequestedTarget::Window(window)) => if is_blank(window.window_id.as_str()) {
            Err(Status::invalid_argument("target.window.window_id is required".to_owned()))
        } else {
            Ok(CaptureTarget::Window(window))
        },
        Some(RequestedTarget::Display { selector }) => match selector {
            Err(status) => Err(status),
            Ok(display) => Ok(CaptureTarget::Display(display)),
        },
        Some(RequestedTarget::Region { region, selector }) => match region {
            None => Err(Status::invalid_argument("target.region.region is required".to_owned())),
            Some(Err(status)) => Err(status),
            Some(Ok(region)) => match selector {
                Err(status) => Err(status),
                Ok(display) => Ok(CaptureTarget::Region { region, display }),
            },
        },
        None => Err(Status::invalid_argument("target is required".to_owned())),
    }
}

/// What becomes of a request to open a buffer: its target, its frame rate, its
/// capacity and its output size, or the first thing that is wrong with it.
pub open spec fn open_check<R>(request: OpenFrameBufferRequest<R>) -> Result<
    (CaptureTarget<R>, u32, usize, Option<PixelSize>),
    (Code, Seq<char>),
> {
    if request.target_fps == 0 || request.target_fps > MAX_TARGET_FPS {
        Err((Code::InvalidArgument, "target_fps must be within 1..=120"@))
    } else if request.frame_capacity == 0 || request.frame_capacity > MAX_CAPACITY {
        Err((Code::InvalidArgument, "frame_capacity must be within 1..=120"@))
    } else {
        match request.output_size {
            Some(size) if output_size_check(size, request.frame_capacity as nat) is Err => Err(
                output_size_check(size, request.frame_capacity as nat)->Err_0,
            ),
            _ => match target_check(request.target) {
                Err(status) => Err(status),
                Ok(target) => Ok(
                    (
                        target,
                        request.target_fps,
                        request.frame_capacity as usize,
                        request.output_size,
                    ),
                ),
            },
        }
    }
}

/// Checks a request to open a buffer.
pub fn validate_open<R>(request: OpenFrameBufferRequest<R>) -> (checked: Result<
    (CaptureTarget<R>, u32, usize, Option<PixelSize>),
    Status,
>)
    ensures
        outcome(checked) == open_check(request),
{
    if request.target_fps == 0 || request.target_fps > MAX_TARGET_FPS {
        return Err(Status::invalid_argument("target_fps must be within 1..=120".to_owned()));
    }
    if request.frame_capacity == 0 || request.frame_capacity > MAX_CAPACITY {
        return Err(Status::invalid_argument("frame_capacity must be within 1..=120".to_owned()));
    }
    let capacity: usize = request.frame_capacity as usize;
    let output_size = match request.output_size {
        None => None,
        Some(size) => match validate_output_size(size, capacity) {
            Err(status) => {
                return Err(status);
            },
            Ok(size) => Some(size),
        },
    };
    match validate_target(request.target) {
        Err(status) => Err(status),
        Ok(target) => Ok((target, request.target_fps, capacity, output_size)),
    }
}

/// What becomes of a reference to a buffer.
pub open spec fn reference_check(reference: Option<FrameBufferRef>) -> Result<
    FrameBufferRef,
    (Code, Seq<char>),
> {
    match reference {
        None => Err((Code::InvalidArgument, "frame_buffer is required"@)),
        Some(reference) => if blank(reference.frame_buffer_id@) {
            Err((Code::InvalidArgument, "frame_buffer.frame_buffer_id is required"@))
        } else {
            Ok(reference)
        },
    }
}

/// Refuses a missing or blank reference to a buffer.
pub fn validate_reference(reference: Option<FrameBufferRef>) -> (checked: Result<
    FrameBufferRef,
    Status,
>)
    ensures
        outcome(checked) == reference_check(reference),
{
    match reference {
        None => Err(Status::invalid_argument("frame_buffer is required".to_owned())),
        Some(reference) => if is_blank(reference.frame_buffer_id.as_str()) {
            Err(Status::invalid_argument("frame_buffer.frame_buffer_id is required".to_owned()))
        } else {
            Ok(reference)
        },
    }
}

/// Whether a text has the form of a version 7 UUID in lower case: 36 characters,
/// hyphens at four places, hexadecimal digits elsewhere, with the version and
/// variant digits where they belong.
pub open spec fn is_uuid_v7(id: Seq<char>) -> bool {
    &&& id.len() == 36
    &&& forall|i: int|
        0 <= i < 36 ==> if i == 8 || i == 13 || i == 18 || i == 23 {
            #[trigger] id[i] == '-'
        } else {
            ('0' <= id[i] && id[i] <= '9') || ('a' <= id[i] && id[i] <= 'f')
        }
    &&& id[14] == '7'
    &&& id[19] == '8' || id[19] == '9' || id[19] == 'a' || id[19] == 'b'
}

/// Calls `uuid::Uuid::now_v7` and writes the UUID out in its hyphenated form. Which
/// one it is depends on the clock and on chance, and is left open.
#[verifier::external_body]
fn new_uuid_v7() -> (id: String)
    ensures
        is_uuid_v7(id@),
{
    uuid::Uuid::now_v7().to_string()
}

/// A buffer that is about to become active.
#[derive(Debug)]
pub struct NewBuffer<M> {
    /// The id that it will be opened under.
    pub id: String,
    /// The name of the thread that produces its frames.
    pub producer_name: String,
    /// Its history, which holds the first capture.
    pub history: History<M>,
}

/// What a first capture that was taken is refused for, if anything.
pub open spec fn first_capture_check<M>(
    captured: Result<Capture<M>, String>,
    capacity: nat,
    output_size: Option<PixelSize>,
) -> Result<(), (Code, Seq<char>)> {
    match captured {
        Err(error) => Err((Code::Unavailable, "initial capture failed: "@ + error@)),
        Ok(capture) => buffer_bytes_check(
            resized_capture(capture@, output_size).image.data.len(),
            capacity,
        ),
    }
}

/// Brings the first capture of a buffer to the output size, refuses it if the
/// buffer would take too many bytes, and otherwise starts the buffer's history
/// with it under a new id.
pub fn start_buffer<M>(
    captured: Result<Capture<M>, String>,
    capacity: usize,
    output_size: Option<PixelSize>,
) -> (started: Result<NewBuffer<M>, Status>)
    requires
        captured matches Ok(capture) ==> resizable_to(capture.image@, output_size),
    ensures
        match (started, first_capture_check(captured, capacity as nat, output_size)) {
            (Err(status), Err(refusal)) => status@ == refusal,
            (Ok(buffer), Ok(_)) => {
                &&& is_uuid_v7(buffer.id@)
                &&& buffer.producer_name@ == "auv-recent-frames-"@ + buffer.id@
                &&& buffer.history@ == HistoryModel::empty(capacity).push(
                    resized_capture(captured->Ok_0@, output_size),
                )
                &&& 0 < capacity ==> buffer.history@.wf()
                &&& output_size matches Some(size) ==> (resampled(
                    captured->Ok_0.image@,
                    output_size,
                ) || captured->Ok_0.image@.packed_rgba() ==> buffer.history@.sized(size))
            },
            _ => false,
        },
{
    match captured {
        Err(error) => {
            let mut message: String = "initial capture failed: ".to_owned();
            push_str(&mut message, error.as_str());
            Err(Status::unavailable(message))
        },
        Ok(capture) => {
            let first = resize_capture(capture, output_size);
            match validate_buffer_bytes(first.image.data.len(), capacity) {
                Err(status) => Err(status),
                Ok(_) => {
                    let id: String = new_uuid_v7();
                    let mut producer_name: String = "auv-recent-frames-".to_owned();
                    push_str(&mut producer_name, id.as_str());
                    let mut history: History<M> = History::new(capacity);
                    history.push(first);
                    Ok(NewBuffer { id, producer_name, history })
                },
            }
        },
    }
}

/// How the attempt to join the thread of a producer ended.
#[derive(Debug, PartialEq, Eq)]
pub enum JoinOutcome {
    /// The thread came to its end.
    Joined,
    /// The thread panicked.
    Panicked,
    /// The task that waited for the thread failed.
    TaskFailed(String),
}

/// What the end of a producer means for whoever asked it to stop.
pub open spec fn stop_check(joined: JoinOutcome) -> Result<(), (Code, Seq<char>)> {
    match joined {
        JoinOutcome::Joined => Ok(()),
        JoinOutcome::Panicked => Err((Code::Internal, "recent-frame producer thread panicked"@)),
        JoinOutcome::TaskFailed(error) => Err(
            (Code::Internal, "failed to join recent-frame producer task: "@ + error@),
        ),
    }
}

/// Reports the end of a producer to whoever asked it to stop.
pub fn stopped(joined: JoinOutcome) -> (reported: Result<(), Status>)
    ensures
        outcome(reported) == stop_check(joined),
{
    match joined {
        JoinOutcome::Joined => Ok(()),
        JoinOutcome::Panicked => Err(
            Status::internal("recent-frame producer thread panicked".to_owned()),
        ),
        JoinOutcome::TaskFailed(error) => {
            let mut message: String = "failed to join recent-frame producer task: ".to_owned();
            push_str(&mut message, error.as_str());
            Err(Status::internal(message))
        },
    }
}

/// The refusal of a buffer whose producer could not be started.
pub fn producer_refused(error: &str) -> (status: Status)
    ensures
        status@ == (
            Code::ResourceExhausted,
            "failed to start recent-frame producer: "@ + error@,
        ),
{
    let mut message: String = "failed to start recent-frame producer: ".to_owned();
    push_str(&mut message, error);
    Status::resource_exhausted(message)
}

/// The active buffers, each under its id. What a buffer is made of is left to the
/// caller.
#[derive(Debug)]
pub struct Service<B> {
    buffers: Vec<(String, B)>,
}

/// The buffers that a list of entries holds under their ids.
spec fn entries_map<B>(entries: Seq<(String, B)>) -> Map<Seq<char>, B>
    decreases entries.len(),
{
    if entries.len() == 0 {
        Map::empty()
    } else {
        entries_map(entries.drop_last()).insert(entries.last().0@, entries.last().1)
    }
}

spec fn distinct_ids<B>(entries: Seq<(String, B)>) -> bool {
    forall|i: int, j: int|
        0 <= i < j < entries.len() ==> (#[trigger] entries[i]).0@ != (#[trigger] entries[j]).0@
}

proof fn lemma_entries_map<B>(entries: Seq<(String, B)>)
    ensures
        entries_map(entries).dom().finite(),
        forall|id: Seq<char>| #[trigger]
            entries_map(entries).contains_key(id) ==> exists|i: int|
                0 <= i < entries.len() && (#[trigger] entries[i]).0@ == id,
        forall|i: int|
            0 <= i < entries.len() ==> entries_map(entries).contains_key(
                (#[trigger] entries[i]).0@,
            ),
        distinct_ids(entries) ==> entries_map(entries).dom().len() == entries.len(),
        distinct_ids(entries) ==> forall|i: int|
            0 <= i < entries.len() ==> entries_map(entries)[(#[trigger] entries[i]).0@]
                == entries[i].1,
    decreases entries.len(),
{
    if entries.len() > 0 {
        let shorter = entries.drop_last();
        lemma_entries_map(shorter);
        assert forall|id: Seq<char>| #[trigger]
            entries_map(entries).contains_key(id) implies exists|i: int|
            0 <= i < entries.len() && (#[trigger] entries[i]).0@ == id by {
            if id == entries.last().0@ {
                assert(entries[entries.len() - 1].0@ == id);
            } else {
                assert(entries_map(shorter).contains_key(id));
                let i = choose|i: int| 0 <= i < shorter.len() && (#[trigger] shorter[i]).0@ == id;
                assert(entries[i].0@ == id);
            }
        }
        assert forall|i: int| 0 <= i < entries.len() implies entries_map(entries).contains_key(
            (#[trigger] entries[i]).0@,
        ) by {
            if i < shorter.len() {
                assert(shorter[i] == entries[i]);
            }
        }
        if distinct_ids(entries) {
            assert(distinct_ids(shorter)) by {
                assert forall|i: int, j: int| 0 <= i < j < shorter.len() implies (
                #[trigger] shorter[i]).0@ != (#[trigger] shorter[j]).0@ by {
                    assert(entries[i].0@ != entries[j].0@);
                }
            }
            if entries_map(shorter).contains_key(entries.last().0@) {
                let i = choose|i: int|
                    0 <= i < shorter.len() && (#[trigger] shorter[i]).0@ == entries.last().0@;
                assert(entries[i].0@ == entries[entries.len() - 1].0@);
            }
            assert forall|i: int| 0 <= i < entries.len() implies entries_map(entries)[(
            #[trigger] entries[i]).0@] == entries[i].1 by {
                if i < shorter.len() {
                    assert(shorter[i] == entries[i]);
                    assert(entries[i].0@ != entries[entries.len() - 1].0@);
                }
            }
        }
    }
}

impl<B> View for Service<B> {
    type V = Map<Seq<char>, B>;

    closed spec fn view(&self) -> Map<Seq<char>, B> {
        entries_map(self.buffers@)
    }
}

/// What every service state satisfies: there are at most `MAX_ACTIVE_BUFFERS`.
pub open spec fn within_limit<B>(buffers: Map<Seq<char>, B>) -> bool {
    buffers.dom().finite() && buffers.dom().len() <= MAX_ACTIVE_BUFFERS
}

/// The refusal of one buffer too many.
pub open spec fn limit_refusal() -> (Code, Seq<char>) {
    (Code::ResourceExhausted, "at most 8 recent-frame buffers may be active"@)
}

/// What becomes of a request to open a buffer while others are active.
pub open spec fn admission<B, R>(
    buffers: Map<Seq<char>, B>,
    request: OpenFrameBufferRequest<R>,
) -> Result<(CaptureTarget<R>, u32, usize, Option<PixelSize>), (Code, Seq<char>)> {
    match open_check(request) {
        Err(status) => Err(status),
        Ok(plan) => if buffers.dom().len() >= MAX_ACTIVE_BUFFERS {
            Err(limit_refusal())
        } else {
            Ok(plan)
        },
    }
}

/// The active buffers after one more was registered, unless there are too many.
pub open spec fn registered<B>(
    buffers: Map<Seq<char>, B>,
    id: Seq<char>,
    active: B,
) -> Map<Seq<char>, B> {
    if buffers.dom().len() >= MAX_ACTIVE_BUFFERS {
        buffers
    } else {
        buffers.insert(id, active)
    }
}

/// The buffer that a reference leads to.
pub open spec fn lookup<B>(
    buffers: Map<Seq<char>, B>,
    reference: Option<FrameBufferRef>,
) -> Result<B, (Code, Seq<char>)> {
    match reference_check(reference) {
        Err(status) => Err(status),
        Ok(reference) => if buffers.contains_key(reference.frame_buffer_id@) {
            Ok(buffers[reference.frame_buffer_id@])
        } else {
            Err((Code::NotFound, "unknown frame buffer"@))
        },
    }
}

/// The active buffers after the one that a reference leads to was closed.
pub open spec fn closed<B>(
    buffers: Map<Seq<char>, B>,
    reference: Option<FrameBufferRef>,
) -> Map<Seq<char>, B> {
    match lookup(buffers, reference) {
        Err(_) => buffers,
        Ok(_) => buffers.remove(reference->0.frame_buffer_id@),
    }
}

impl<B> Service<B> {
    /// The invariant of the service: no two buffers share an id, and there are at
    /// most `MAX_ACTIVE_BUFFERS`.
    pub closed spec fn wf(self) -> bool {
        distinct_ids(self.buffers@) && self.buffers@.len() <= MAX_ACTIVE_BUFFERS
    }

    /// A service with no buffer.
    pub fn new() -> (service: Self)
        ensures
            service.wf(),
            service@ == Map::<Seq<char>, B>::empty(),
    {
        Service { buffers: Vec::new() }
    }

    fn position(&self, id: &str) -> (found: Option<usize>)
        requires
            self.wf(),
        ensures
            match found {
                Some(i) => i < self.buffers@.len() && self.buffers@[i as int].0@ == id@
                    && self@.contains_key(id@) && self@[id@] == self.buffers@[i as int].1,
                None => !self@.contains_key(id@),
            },
    {
        proof {
            lemma_entries_map(self.buffers@);
        }
        for i in 0..self.buffers.len()
            invariant
                self.wf(),
                forall|j: int| 0 <= j < i ==> (#[trigger] self.buffers@[j]).0@ != id@,
        {
            if same_text(self.buffers[i].0.as_str(), id) {
                proof {
                    lemma_entries_map(self.buffers@);
                }
                return Some(i);
            }
        }
        None
    }

    /// Checks a request to open a buffer, and that there is room for one more.
    pub fn begin_open<R>(&self, request: OpenFrameBufferRequest<R>) -> (admitted: Result<
        (CaptureTarget<R>, u32, usize, Option<PixelSize>),
        Status,
    >)
        requires
            self.wf(),
        ensures
            outcome(admitted) == admission(self@, request),
    {
        proof {
            lemma_entries_map(self.buffers@);
        }
        match validate_open(request) {
            Err(status) => Err(status),
            Ok(plan) => if self.buffers.len() >= MAX_ACTIVE_BUFFERS {
                Err(
                    Status::resource_exhausted(
                        "at most 8 recent-frame buffers may be active".to_owned(),
                    ),
                )
            } else {
                Ok(plan)
            },
        }
    }

    /// Makes a buffer active under an id. If there is no longer room for it, it is
    /// handed back with the refusal, and the service stays as it was.
    pub fn register(&mut self, id: String, active: B) -> (opened: Result<
        OpenFrameBufferResponse,
        (B, Status),
    >)
        requires
            old(self).wf(),
        ensures
            final(self).wf(),
            final(self)@ == registered(old(self)@, id@, active),
            match opened {
                Ok(response) => {
                    &&& old(self)@.dom().len() < MAX_ACTIVE_BUFFERS
                    &&& response.frame_buffer == Some(FrameBufferRef { frame_buffer_id: id })
                },
                Err((rejected, status)) => {
                    &&& old(self)@.dom().len() >= MAX_ACTIVE_BUFFERS
                    &&& rejected == active
                    &&& status@ == limit_refusal()
                },
            },
    {
        proof {
            lemma_entries_map(self.buffers@);
        }
        if self.buffers.len() >= MAX_ACTIVE_BUFFERS {
            let status = Status::resource_exhausted(
                "at most 8 recent-frame buffers may be active".to_owned(),
            );
            return Err((active, status));
        }
        let ghost before = self@;
        if let Some(i) = self.position(id.as_str()) {
            self.take(i);
        }
        let ghost rest = self@;
        let ghost entries = self.buffers@;
        self.buffers.push((id.clone(), active));
        proof {
            assert(self.buffers@.drop_last() =~= entries);
            assert(self@ =~= rest.insert(id@, active));
            assert(self@ =~= before.insert(id@, active));
            lemma_entries_map(entries);
            assert forall|i: int, j: int| 0 <= i < j < self.buffers@.len() implies (
            #[trigger] self.buffers@[i]).0@ != (#[trigger] self.buffers@[j]).0@ by {
                assert(self.buffers@[i] == entries[i]);
                if j < entries.len() {
                    assert(self.buffers@[j] == entries[j]);
                } else {
                    assert(rest.contains_key(entries[i].0@));
                }
            }
        }
        Ok(OpenFrameBufferResponse { frame_buffer: Some(FrameBufferRef { frame_buffer_id: id }) })
    }

    /// Takes out the entry at a position.
    fn take(&mut self, i: usize) -> (active: B)
        requires
            old(self).wf(),
            i < old(self).buffers@.len(),
        ensures
            final(self).wf(),
            final(self).buffers@.len() == old(self).buffers@.len() - 1,
            final(self)@ == old(self)@.remove(old(self).buffers@[i as int].0@),
            active == old(self).buffers@[i as int].1,
    {
        let ghost entries = self.buffers@;
        let (id, active) = self.buffers.remove(i);
        proof {
            let rest = self.buffers@;
            assert forall|a: int, b: int| 0 <= a < b < rest.len() implies (#[trigger] rest[a]).0@
                != (#[trigger] rest[b]).0@ by {
                let a0 = if a < i { a } else { a + 1 };
                let b0 = if b < i { b } else { b + 1 };
                assert(rest[a] == entries[a0] && rest[b] == entries[b0]);
            }
            lemma_entries_map(entries);
            lemma_entries_map(rest);
            let (all, left) = (entries_map(entries), entries_map(rest));
            assert forall|key: Seq<char>| left.contains_key(key) <==> (all.contains_key(key) && key
                != id@) by {
                if left.contains_key(key) {
                    let a = choose|a: int| 0 <= a < rest.len() && (#[trigger] rest[a]).0@ == key;
                    let a0 = if a < i { a } else { a + 1 };
                    assert(rest[a] == entries[a0]);
                    assert(entries[i as int].0@ == id@);
                }
                if all.contains_key(key) && key != id@ {
                    let a0 = choose|a0: int|
                        0 <= a0 < entries.len() && (#[trigger] entries[a0]).0@ == key;
                    let a = if a0 < i { a0 } else { a0 - 1 };
                    assert(rest[a] == entries[a0]);
                }
            }
            assert forall|key: Seq<char>| left.contains_key(key) implies left[key] == all[key] by {
                let a = choose|a: int| 0 <= a < rest.len() && (#[trigger] rest[a]).0@ == key;
                let a0 = if a < i { a } else { a + 1 };
                assert(rest[a] == entries[a0]);
            }
            assert(left =~= all.remove(id@));
        }
        active
    }

    /// Finds the buffer that a request for frames refers to, and the sequence
    /// number after which it asks for frames.
    pub fn get_recent_frames(&self, request: GetRecentFramesRequest) -> (found: Result<
        (&B, u64),
        Status,
    >)
        requires
            self.wf(),
        ensures
            match (found, lookup(self@, request.frame_buffer)) {
                (Ok((active, after_sequence)), Ok(buffer)) => *active == buffer && after_sequence
                    == request.after_sequence,
                (Err(status), Err(refusal)) => status@ == refusal,
                _ => false,
            },
    {
        match validate_reference(request.frame_buffer) {
            Err(status) => Err(status),
            Ok(reference) => match self.position(reference.frame_buffer_id.as_str()) {
                None => Err(Status::not_found("unknown frame buffer".to_owned())),
                Some(i) => Ok((&self.buffers[i].1, request.after_sequence)),
            },
        }
    }

    /// Takes the buffer that a request to close refers to out of the service.
    pub fn close_frame_buffer(&mut self, request: CloseFrameBufferRequest) -> (found: Result<
        B,
        Status,
    >)
        requires
            old(self).wf(),
        ensures
            final(self).wf(),
            outcome(found) == lookup(old(self)@, request.frame_buffer),
            final(self)@ == closed(old(self)@, request.frame_buffer),
    {
        match validate_reference(request.frame_buffer) {
            Err(status) => Err(status),
            Ok(reference) => match self.position(reference.frame_buffer_id.as_str()) {
                None => Err(Status::not_found("unknown frame buffer".to_owned())),
                Some(i) => Ok(self.take(i)),
            },
        }
    }

    /// Takes every buffer out of the service, each once, in no particular order.
    pub fn shutdown(&mut self) -> (buffers: Vec<B>)
        requires
            old(self).wf(),
        ensures
            final(self).wf(),
            final(self)@ == Map::<Seq<char>, B>::empty(),
            exists|ids: Seq<Seq<char>>| #[trigger] lists_all(old(self)@, ids, buffers@),
    {
        let ghost entries = self.buffers@;
        let ghost before = self@;
        let ghost ids = entries.map_values(|entry: (String, B)| entry.0@);
        let mut buffers: Vec<B> = Vec::new();
        let mut left: Vec<(String, B)> = Vec::new();
        left.append(&mut self.buffers);
        proof {
            lemma_entries_map(entries);
        }
        while left.len() > 0
            invariant
                distinct_ids(entries),
                before == entries_map(entries),
                left@.len() + buffers@.len() == entries.len(),
                left@ =~= entries.take(left@.len() as int),
                forall|i: int|
                    0 <= i < buffers@.len() ==> #[trigger] buffers@[i] == entries[entries.len() - 1
                        - i].1,
            decreases left@.len(),
        {
            if let Some((_, active)) = left.pop() {
                buffers.push(active);
            }
        }
        proof {
            let listed = ids.reverse();
            assert forall|i: int| 0 <= i < listed.len() implies before.contains_key(
                #[trigger] listed[i],
            ) && before[listed[i]] == buffers@[i] by {
                assert(listed[i] == entries[entries.len() - 1 - i].0@);
            }
            assert forall|id: Seq<char>| #[trigger] before.contains_key(id) implies listed.contains(
                id,
            ) by {
                let i = choose|i: int| 0 <= i < entries.len() && (#[trigger] entries[i]).0@ == id;
                assert(listed[entries.len() - 1 - i] == id);
            }
            assert forall|i: int, j: int| 0 <= i < j < listed.len() implies #[trigger] listed[i]
                != #[trigger] listed[j] by {
                assert(entries[entries.len() - 1 - j].0@ != entries[entries.len() - 1 - i].0@);
            }
            assert(lists_all(before, listed, buffers@));
        }
        buffers
    }
}

/// Whether `ids` lists every id of a map once, and `values` what is under them.
pub open spec fn lists_all<B>(
    buffers: Map<Seq<char>, B>,
    ids: Seq<Seq<char>>,
    values: Seq<B>,
) -> bool {
    &&& ids.len() == values.len()
    &&& ids.no_duplicates()
    &&& forall|id: Seq<char>| #[trigger] buffers.contains_key(id) ==> ids.contains(id)
    &&& forall|i: int|
        0 <= i < ids.len() ==> buffers.contains_key(#[trigger] ids[i]) && buffers[ids[i]]
            == values[i]
}

/// An id that the service gives out is never taken for a missing one.
pub proof fn law_new_ids_are_references(reference: FrameBufferRef)
    requires
        is_uuid_v7(reference.frame_buffer_id@),
    ensures
        reference_check(Some(reference)) == Ok::<FrameBufferRef, (Code, Seq<char>)>(reference),
{
    let id = reference.frame_buffer_id@;
    assert(id[8] == '-');
}

/// What was opened can be read under its id, until it is closed.
pub proof fn law_opened_buffer_is_found<B>(
    buffers: Map<Seq<char>, B>,
    reference: FrameBufferRef,
    active: B,
)
    requires
        within_limit(buffers),
        buffers.dom().len() < MAX_ACTIVE_BUFFERS,
        !blank(reference.frame_buffer_id@),
    ensures
        lookup(registered(buffers, reference.frame_buffer_id@, active), Some(reference)) == Ok::<
            B,
            (Code, Seq<char>),
        >(active),
{
}

/// The first capture of a buffer that was opened can be read at once, as the first
/// frame.
pub proof fn law_first_capture_can_be_read<M>(
    buffers: Map<Seq<char>, HistoryModel<M>>,
    reference: FrameBufferRef,
    capacity: usize,
    first: CaptureModel<M>,
)
    requires
        within_limit(buffers),
        buffers.dom().len() < MAX_ACTIVE_BUFFERS,
        !blank(reference.frame_buffer_id@),
        0 < capacity,
    ensures
        ({
            let opened = registered(
                buffers,
                reference.frame_buffer_id@,
                HistoryModel::empty(capacity).push(first),
            );
            let found = lookup(opened, Some(reference));
            &&& found is Ok
            &&& found->Ok_0.recent(0) == Ok::<ResponseModel<M>, (Code, Seq<char>)>(
                ResponseModel {
                    frames: seq![numbered(1, first)],
                    latest_sequence: 1,
                    dropped_frames: 0,
                },
            )
        }),
{
    let history = HistoryModel::empty(capacity).push(first);
    law_no_frame_is_missed(history, 0);
    law_recent_frames_in_order(history, 0);
    assert(history.frames =~= seq![numbered(1, first)]);
    assert(history.newer(0) =~= history.frames) by {
        reveal(Seq::filter);
        assert(history.frames.drop_last() =~= Seq::empty());
    }
}

/// A request that is admitted asks for a frame rate, a capacity and an output size
/// within the limits.
pub proof fn law_admitted_requests_are_bounded<R>(request: OpenFrameBufferRequest<R>)
    requires
        open_check(request) is Ok,
    ensures
        ({
            let (target, target_fps, capacity, output_size) = open_check(request)->Ok_0;
            &&& 1 <= target_fps <= MAX_TARGET_FPS
            &&& 1 <= capacity <= MAX_CAPACITY
            &&& output_size matches Some(size) ==> {
                &&& 0 < size.width
                &&& 0 < size.height
                &&& rgba_len(size.width, size.height) * capacity <= MAX_BUFFER_BYTES
            }
            &&& target matches CaptureTarget::Window(window) ==> !blank(window.window_id@)
        }),
{
}

/// Once closed, a buffer is unknown: it can be neither read nor closed again, and
/// its place is free.
pub proof fn law_closed_buffer_is_gone<B>(
    buffers: Map<Seq<char>, B>,
    reference: Option<FrameBufferRef>,
)
    requires
        within_limit(buffers),
        lookup(buffers, reference) is Ok,
    ensures
        ({
            let left = closed(buffers, reference);
            &&& lookup(left, reference) == Err::<B, (Code, Seq<char>)>(
                (Code::NotFound, "unknown frame buffer"@),
            )
            &&& closed(left, reference) == left
            &&& left.dom().len() == buffers.dom().len() - 1
        }),
{
}

/// Opening or closing one buffer changes nothing for another.
pub proof fn law_other_buffers_are_untouched<B>(
    buffers: Map<Seq<char>, B>,
    id: Seq<char>,
    active: B,
    closing: Option<FrameBufferRef>,
    other: FrameBufferRef,
)
    requires
        other.frame_buffer_id@ != id,
        closing matches Some(reference) ==> other.frame_buffer_id@ != reference.frame_buffer_id@,
    ensures
        lookup(registered(buffers, id, active), Some(other)) == lookup(buffers, Some(other)),
        lookup(closed(buffers, closing), Some(other)) == lookup(buffers, Some(other)),
{
}

/// No service holds more buffers than the limit allows.
pub proof fn law_service_is_within_limit<B>(service: Service<B>)
    requires
        service.wf(),
    ensures
        within_limit(service@),
{
    lemma_entries_map(service.buffers@);
}

/// The limit on active buffers is never exceeded.
pub proof fn law_limit_is_kept<B>(
    buffers: Map<Seq<char>, B>,
    id: Seq<char>,
    active: B,
    closing: Option<FrameBufferRef>,
)
    requires
        within_limit(buffers),
    ensures
        within_limit(registered(buffers, id, active)),
        within_limit(closed(buffers, closing)),
{
}

/// A service at its limit refuses every further buffer and stays as it is.
pub proof fn law_full_service_refuses<B, R>(
    buffers: Map<Seq<char>, B>,
    request: OpenFrameBufferRequest<R>,
    id: Seq<char>,
    active: B,
)
    requires
        buffers.dom().len() == MAX_ACTIVE_BUFFERS,
    ensures
        admission(buffers, request) is Err,
        open_check(request) is Ok ==> admission(buffers, request)->Err_0 == limit_refusal(),
        registered(buffers, id, active) == buffers,
{
}

/// The bytes of the images of some frames.
pub open spec fn image_bytes<M>(frames: Seq<RecentFrameModel<M>>) -> nat
    decreases frames.len(),
{
    if frames.len() == 0 {
        0
    } else {
        let last = match frames.last().capture {
            Some(CapturedFrameModel { image: Some(image), .. }) => image.data.len(),
            _ => 0,
        };
        image_bytes(frames.drop_last()) + last
    }
}

proof fn lemma_image_bytes<M>(frames: Seq<RecentFrameModel<M>>, size: PixelSize)
    requires
        forall|i: int| 0 <= i < frames.len() ==> has_size(#[trigger] frames[i], size),
    ensures
        image_bytes(frames) == frames.len() * rgba_len(size.width, size.height),
    decreases frames.len(),
{
    let each = rgba_len(size.width, size.height) as int;
    if frames.len() > 0 {
        lemma_image_bytes(frames.drop_last(), size);
        assert(has_size(frames[frames.len() - 1], size));
        assert((frames.len() - 1) * each + each == frames.len() * each) by (nonlinear_arith);
    } else {
        assert(0 * each == 0) by (nonlinear_arith);
    }
}

/// A buffer that was admitted with an output size never takes more than
/// `MAX_BUFFER_BYTES` for its images, as long as its frames keep that size.
pub proof fn law_buffer_bytes_are_bounded<M>(history: HistoryModel<M>, size: PixelSize)
    requires
        history.wf(),
        history.sized(size),
        output_size_check(size, history.capacity as nat) is Ok,
    ensures
        image_bytes(history.frames) <= MAX_BUFFER_BYTES,
{
    lemma_image_bytes(history.frames, size);
    let each = rgba_len(size.width, size.height) as int;
    let (kept, room) = (history.frames.len() as int, history.capacity as int);
    assert(kept * each <= each * room) by (nonlinear_arith)
        requires
            0 <= kept <= room,
            0 <= each,
    ;
}

/// A buffer is admitted exactly if its frames take no more than 256 MiB.
pub proof fn law_buffers_take_at_most_the_limit(frame_bytes: nat, capacity: nat)
    ensures
        buffer_bytes_check(frame_bytes, capacity) is Ok <==> frame_bytes * capacity <= 256 * 1024
            * 1024,
        frame_bytes * capacity > usize::MAX ==> buffer_bytes_check(frame_bytes, capacity)->Err_0
            == (Code::ResourceExhausted, "frame buffer is too large"@),
        256 * 1024 * 1024 < frame_bytes * capacity <= usize::MAX ==> buffer_bytes_check(
            frame_bytes,
            capacity,
        )->Err_0 == (
            Code::ResourceExhausted,
            "frame buffer would use "@ + decimal(frame_bytes * capacity)
                + " bytes; limit is 268435456. Reduce frame_capacity or pass output_size"@,
        ),
{
}

/// An output size is taken as it is exactly if it has pixels and so many frames of it,
/// at four bytes for each pixel, take no more than 256 MiB.
pub proof fn law_output_sizes_are_checked(size: PixelSize, capacity: nat)
    requires
        0 < capacity,
    ensures
        ({
            let checked = output_size_check(size, capacity);
            let bytes = 4 * (size.width * size.height);
            &&& checked is Ok <==> 0 < size.width && 0 < size.height && bytes * capacity <= 256
                * 1024 * 1024
            &&& checked is Ok ==> checked->Ok_0 == size
            &&& size.width == 0 || size.height == 0 ==> checked->Err_0 == (
                Code::InvalidArgument,
                "output_size width and height must be positive"@,
            )
            &&& checked is Err && 0 < size.width && 0 < size.height ==> checked->Err_0.0
                == Code::ResourceExhausted
            &&& bytes > usize::MAX && 0 < size.width && 0 < size.height ==> checked->Err_0.1
                == "output_size is too large"@
        }),
{
    let bytes = 4 * (size.width * size.height);
    assert(bytes == rgba_len(size.width, size.height));
    let many = capacity as int;
    assert(bytes <= bytes * many) by (nonlinear_arith)
        requires
            0 <= bytes,
            1 <= many,
    ;
}

/// A request that is admitted gets what it asked for: its frame rate, its capacity, its
/// output size, and its target as the driver understood it.
pub proof fn law_admitted_requests_get_what_they_ask_for<R>(request: OpenFrameBufferRequest<R>)
    requires
        open_check(request) is Ok,
    ensures
        ({
            let (target, target_fps, capacity, output_size) = open_check(request)->Ok_0;
            &&& target_fps == request.target_fps
            &&& capacity == request.frame_capacity
            &&& output_size == request.output_size
            &&& request.target is Some && request.target->0.target is Some
            &&& match request.target->0.target->0 {
                RequestedTarget::Window(window) => target == CaptureTarget::<R>::Window(window),
                RequestedTarget::Display { selector } => selector is Ok && target
                    == CaptureTarget::<R>::Display(selector->Ok_0),
                RequestedTarget::Region { region, selector } => region is Some && region->0 is Ok
                    && selector is Ok && target == (CaptureTarget::Region {
                    region: region->0->Ok_0,
                    display: selector->Ok_0,
                }),
            }
        }),
{
}

/// What a target is refused for: it is missing, its window has no id, its region is
/// missing, or the driver refused its region or its display, in this order.
pub proof fn law_targets_are_refused_for_a_reason<R>(target: Option<CaptureTargetRequest<R>>)
    ensures
        target is None || target->0.target is None ==> target_check(target) == Err::<
            CaptureTarget<R>,
            (Code, Seq<char>),
        >((Code::InvalidArgument, "target is required"@)),
        target is Some && target->0.target is Some ==> match target->0.target->0 {
            RequestedTarget::Window(window) => {
                &&& target_check(target) is Err <==> blank(window.window_id@)
                &&& blank(window.window_id@) ==> target_check(target)->Err_0 == (
                    Code::InvalidArgument,
                    "target.window.window_id is required"@,
                )
            },
            RequestedTarget::Display { selector } => {
                &&& target_check(target) is Err <==> selector is Err
                &&& selector is Err ==> target_check(target)->Err_0 == selector->Err_0@
            },
            RequestedTarget::Region { region, selector } => {
                &&& target_check(target) is Err <==> region is None || region->0 is Err
                    || selector is Err
                &&& region is None ==> target_check(target)->Err_0 == (
                    Code::InvalidArgument,
                    "target.region.region is required"@,
                )
                &&& region is Some && region->0 is Err ==> target_check(target)->Err_0
                    == region->0->Err_0@
                &&& region is Some && region->0 is Ok && selector is Err ==> target_check(
                    target,
                )->Err_0 == selector->Err_0@
            },
        },
{
}

/// A request is refused for the first thing that is wrong with it: its frame rate, its
/// capacity, its output size, its target.
pub proof fn law_requests_are_refused_for_a_reason<R>(request: OpenFrameBufferRequest<R>)
    ensures
        ({
            let checked = open_check(request);
            let paced = 1 <= request.target_fps <= 120;
            let roomy = 1 <= request.frame_capacity <= 120;
            let sized = request.output_size is Some ==> output_size_check(
                request.output_size->0,
                request.frame_capacity as nat,
            ) is Ok;
            let aimed = target_check(request.target) is Ok;
            &&& checked is Ok <==> paced && roomy && sized && aimed
            &&& !paced ==> checked->Err_0 == (
                Code::InvalidArgument,
                "target_fps must be within 1..=120"@,
            )
            &&& paced && !roomy ==> checked->Err_0 == (
                Code::InvalidArgument,
                "frame_capacity must be within 1..=120"@,
            )
            &&& paced && roomy && !sized ==> checked->Err_0 == output_size_check(
                request.output_size->0,
                request.frame_capacity as nat,
            )->Err_0
            &&& paced && roomy && sized && !aimed ==> checked->Err_0 == target_check(
                request.target,
            )->Err_0
        }),
{
}

/// A reference is taken as it is if it names something; else it is refused.
pub proof fn law_references_must_name_something(reference: Option<FrameBufferRef>)
    ensures
        reference_check(reference) is Ok <==> reference is Some && !blank(
            reference->0.frame_buffer_id@,
        ),
        reference_check(reference) is Ok ==> reference_check(reference)->Ok_0 == reference->0,
        reference is None ==> reference_check(reference)->Err_0 == (
            Code::InvalidArgument,
            "frame_buffer is required"@,
        ),
        reference is Some && blank(reference->0.frame_buffer_id@) ==> reference_check(
            reference,
        )->Err_0 == (Code::InvalidArgument, "frame_buffer.frame_buffer_id is required"@),
{
}

/// A first capture that failed is refused with its reason; one that was taken is refused
/// only if a buffer full of frames of its bytes would take too many.
pub proof fn law_first_captures_are_refused_for_a_reason<M>(
    captured: Result<Capture<M>, String>,
    capacity: nat,
    output_size: Option<PixelSize>,
)
    ensures
        captured matches Err(error) ==> first_capture_check(captured, capacity, output_size)
            == Err::<(), (Code, Seq<char>)>(
            (Code::Unavailable, "initial capture failed: "@ + error@),
        ),
        captured matches Ok(capture) ==> {
            let bytes = resized_capture(capture@, output_size).image.data.len();
            &&& first_capture_check(captured, capacity, output_size) is Ok <==> bytes * capacity
                <= 256 * 1024 * 1024
            &&& first_capture_check(captured, capacity, output_size) is Err
                ==> first_capture_check(captured, capacity, output_size)->Err_0
                == buffer_bytes_check(bytes, capacity)->Err_0
        },
{
}

/// Stopping a producer succeeds exactly if its thread came to its end.
pub proof fn law_only_a_joined_producer_has_stopped(joined: JoinOutcome)
    ensures
        stop_check(joined) is Ok <==> joined is Joined,
        joined is Panicked ==> stop_check(joined)->Err_0 == (
            Code::Internal,
            "recent-frame producer thread panicked"@,
        ),
        joined matches JoinOutcome::TaskFailed(error) ==> stop_check(joined)->Err_0 == (
            Code::Internal,
            "failed to join recent-frame producer task: "@ + error@,
        ),
{
}

/// A request is admitted exactly if nothing is wrong with it and fewer than eight
/// buffers are active; what is wrong with it counts first.
pub proof fn law_requests_are_admitted_below_the_limit<B, R>(
    buffers: Map<Seq<char>, B>,
    request: OpenFrameBufferRequest<R>,
)
    ensures
        admission(buffers, request) is Ok <==> open_check(request) is Ok && buffers.dom().len() < 8,
        admission(buffers, request) is Ok ==> admission(buffers, request) == open_check(request),
        open_check(request) is Err ==> admission(buffers, request)->Err_0 == open_check(
            request,
        )->Err_0,
        open_check(request) is Ok && buffers.dom().len() >= 8 ==> admission(buffers, request)->Err_0
            == (Code::ResourceExhausted, "at most 8 recent-frame buffers may be active"@),
{
}

/// Below eight buffers a new one becomes active under its id; at eight none does. Every
/// other id leads to what it led to before.
pub proof fn law_registering_adds_one_buffer<B>(
    buffers: Map<Seq<char>, B>,
    id: Seq<char>,
    active: B,
    other: Seq<char>,
)
    ensures
        buffers.dom().len() >= 8 ==> registered(buffers, id, active) == buffers,
        buffers.dom().len() < 8 ==> registered(buffers, id, active).contains_key(id) && registered(
            buffers,
            id,
            active,
        )[id] == active,
        other != id ==> (registered(buffers, id, active).contains_key(other)
            <==> buffers.contains_key(other)),
        other != id && buffers.contains_key(other) ==> registered(buffers, id, active)[other]
            == buffers[other],
{
}

/// A reference that names something leads to the buffer under its id, and to nothing if
/// there is none; only closing takes that buffer, and no other, away.
pub proof fn law_references_lead_to_their_buffer<B>(
    buffers: Map<Seq<char>, B>,
    reference: Option<FrameBufferRef>,
    other: Seq<char>,
)
    ensures
        reference_check(reference) is Err ==> lookup(buffers, reference) == Err::<
            B,
            (Code, Seq<char>),
        >(reference_check(reference)->Err_0) && closed(buffers, reference) == buffers,
        reference_check(reference) is Ok ==> {
            let id = reference->0.frame_buffer_id@;
            &&& lookup(buffers, reference) is Ok <==> buffers.contains_key(id)
            &&& buffers.contains_key(id) ==> lookup(buffers, reference)->Ok_0 == buffers[id]
            &&& !buffers.contains_key(id) ==> lookup(buffers, reference)->Err_0 == (
                Code::NotFound,
                "unknown frame buffer"@,
            )
            &&& !closed(buffers, reference).contains_key(id)
            &&& other != id ==> (closed(buffers, reference).contains_key(other)
                <==> buffers.contains_key(other))
            &&& other != id && buffers.contains_key(other) ==> closed(buffers, reference)[other]
                == buffers[other]
        },
{
}

/// A list of all buffers has one entry for each of them and no other.
pub proof fn law_listed_buffers_are_the_active_ones<B>(
    buffers: Map<Seq<char>, B>,
    ids: Seq<Seq<char>>,
    values: Seq<B>,
)
    requires
        lists_all(buffers, ids, values),
    ensures
        buffers.dom().finite(),
        values.len() == buffers.dom().len(),
        forall|id: Seq<char>| #[trigger]
            buffers.contains_key(id) ==> exists|i: int|
                0 <= i < ids.len() && #[trigger] ids[i] == id && values[i] == buffers[id],
        forall|i: int, j: int|
            0 <= i < j < ids.len() ==> #[trigger] ids[i] != #[trigger] ids[j],
        forall|i: int|
            0 <= i < ids.len() ==> buffers.contains_key(#[trigger] ids[i]) && values[i]
                == buffers[ids[i]],
{
    assert(ids.to_set() =~= buffers.dom());
    vstd::seq_lib::seq_to_set_is_finite(ids);
    ids.unique_seq_to_set();
    assert forall|id: Seq<char>| #[trigger] buffers.contains_key(id) implies exists|i: int|
        0 <= i < ids.len() && #[trigger] ids[i] == id && values[i] == buffers[id] by {
        let i = choose|i: int| 0 <= i < ids.len() && ids[i] == id;
        assert(ids[i] == id && values[i] == buffers[id]);
    }
}

/// At most eight buffers are active, and the refusal of a ninth says so.
pub proof fn law_eight_buffers_are_the_limit<B>(buffers: Map<Seq<char>, B>)
    ensures
        within_limit(buffers) <==> buffers.dom().finite() && buffers.dom().len() <= 8,
        limit_refusal() == (
            Code::ResourceExhausted,
            "at most 8 recent-frame buffers may be active"@,
        ),
{
}

} // verus!
