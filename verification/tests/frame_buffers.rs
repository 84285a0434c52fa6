use auv_frame_loop::frame_buffers::{
    producer_refused, start_buffer, stopped, validate_buffer_bytes, validate_open, validate_output_size,
    validate_reference, CaptureTarget, CaptureTargetRequest, CloseFrameBufferRequest, FrameBufferRef,
    GetRecentFramesRequest, JoinOutcome, OpenFrameBufferRequest, RequestedTarget, Service, WindowRef,
    MAX_ACTIVE_BUFFERS, MAX_BUFFER_BYTES,
};
use auv_frame_loop::images::{PixelSize, RgbaFrame};
use auv_frame_loop::recent_frames::Capture;
use auv_frame_loop::status::{Code, Status};

type Region = (i32, i32);

fn window(id: &str) -> Option<CaptureTargetRequest<Region>> {
    let target = RequestedTarget::Window(WindowRef { window_id: id.to_string() });
    Some(CaptureTargetRequest { target: Some(target) })
}

fn request(target: Option<CaptureTargetRequest<Region>>) -> OpenFrameBufferRequest<Region> {
    OpenFrameBufferRequest { target, target_fps: 10, frame_capacity: 10, output_size: None }
}

fn refused<T: std::fmt::Debug>(result: Result<T, Status>) -> (Code, String) {
    let status = result.unwrap_err();
    (status.code, status.message)
}

fn refusal(code: Code, message: &str) -> (Code, String) {
    (code, message.to_string())
}

#[test]
fn a_request_within_the_limits_is_taken() {
    let (target, fps, capacity, size) = validate_open(request(window("w1"))).unwrap();
    assert_eq!(target, CaptureTarget::Window(WindowRef { window_id: "w1".to_string() }));
    assert_eq!((fps, capacity, size), (10, 10, None));
    for edge in [1, 120] {
        let request = OpenFrameBufferRequest { target_fps: edge, frame_capacity: edge, ..request(window("w")) };
        assert!(validate_open(request).is_ok());
    }
}

#[test]
fn rates_and_capacities_outside_the_limits_are_refused() {
    for edge in [0, 121] {
        let fps = OpenFrameBufferRequest { target_fps: edge, ..request(None) };
        assert_eq!(
            refused(validate_open(fps)),
            refusal(Code::InvalidArgument, "target_fps must be within 1..=120")
        );
        let capacity = OpenFrameBufferRequest { frame_capacity: edge, ..request(None) };
        assert_eq!(
            refused(validate_open(capacity)),
            refusal(Code::InvalidArgument, "frame_capacity must be within 1..=120")
        );
    }
}

#[test]
fn targets_are_checked() {
    let required = refusal(Code::InvalidArgument, "target is required");
    assert_eq!(refused(validate_open(request(None))), required);
    assert_eq!(refused(validate_open(request(Some(CaptureTargetRequest { target: None })))), required);
    assert_eq!(
        refused(validate_open(request(window(" \t\u{3000}")))),
        refusal(Code::InvalidArgument, "target.window.window_id is required")
    );
    let target = |target| request(Some(CaptureTargetRequest { target: Some(target) }));
    let bad = || Status::invalid_argument("bad selector".to_string());
    assert_eq!(
        refused(validate_open(target(RequestedTarget::Display { selector: Err(bad()) }))),
        refusal(Code::InvalidArgument, "bad selector")
    );
    let display = RequestedTarget::Display { selector: Ok(Some("main".to_string())) };
    assert_eq!(validate_open(target(display)).unwrap().0, CaptureTarget::Display(Some("main".to_string())));
    let region = |region, selector| target(RequestedTarget::Region { region, selector });
    assert_eq!(
        refused(validate_open(region(None, Err(bad())))),
        refusal(Code::InvalidArgument, "target.region.region is required")
    );
    let absent = Status { code: Code::Other(5), message: "no display".to_string() };
    let display = RequestedTarget::Display { selector: Err(absent) };
    assert_eq!(refused(validate_open(target(display))), refusal(Code::Other(5), "no display"));
    let bad_region = Status::invalid_argument("bad region".to_string());
    assert_eq!(
        refused(validate_open(region(Some(Err(bad_region)), Err(bad())))),
        refusal(Code::InvalidArgument, "bad region")
    );
    assert_eq!(
        refused(validate_open(region(Some(Ok((1, 2))), Err(bad())))),
        refusal(Code::InvalidArgument, "bad selector")
    );
    assert_eq!(
        validate_open(region(Some(Ok((1, 2))), Ok(None))).unwrap().0,
        CaptureTarget::Region { region: (1, 2), display: None }
    );
}

#[test]
fn output_sizes_are_checked_before_targets() {
    let size = |width, height| OpenFrameBufferRequest {
        output_size: Some(PixelSize { width, height }),
        ..request(None)
    };
    assert_eq!(
        refused(validate_open(size(0, 5))),
        refusal(Code::InvalidArgument, "output_size width and height must be positive")
    );
    assert_eq!(
        refused(validate_output_size(PixelSize { width: u32::MAX, height: u32::MAX }, 1)),
        refusal(Code::ResourceExhausted, "output_size is too large")
    );
    assert_eq!(
        refused(validate_open(size(4096, 4096))),
        refusal(
            Code::ResourceExhausted,
            "frame buffer would use 671088640 bytes; limit is 268435456. Reduce frame_capacity or pass output_size"
        )
    );
    assert_eq!(
        validate_output_size(PixelSize { width: 1024, height: 1024 }, 64),
        Ok(PixelSize { width: 1024, height: 1024 })
    );
}

#[test]
fn buffers_take_no_more_bytes_than_the_limit() {
    assert_eq!(validate_buffer_bytes(MAX_BUFFER_BYTES, 1), Ok(()));
    assert_eq!(
        refused(validate_buffer_bytes(MAX_BUFFER_BYTES + 1, 1)).1,
        "frame buffer would use 268435457 bytes; limit is 268435456. Reduce frame_capacity or pass output_size"
    );
    assert_eq!(
        refused(validate_buffer_bytes(usize::MAX, 2)),
        refusal(Code::ResourceExhausted, "frame buffer is too large")
    );
}

fn reference(id: &str) -> Option<FrameBufferRef> {
    Some(FrameBufferRef { frame_buffer_id: id.to_string() })
}

#[test]
fn references_are_checked() {
    assert_eq!(
        refused(validate_reference(None)),
        refusal(Code::InvalidArgument, "frame_buffer is required")
    );
    assert_eq!(
        refused(validate_reference(reference(" "))),
        refusal(Code::InvalidArgument, "frame_buffer.frame_buffer_id is required")
    );
    assert_eq!(validate_reference(reference("a")).ok(), reference("a"));
}

fn find(service: &Service<u32>, id: &str) -> Result<u32, (Code, String)> {
    let request = GetRecentFramesRequest { frame_buffer: reference(id), after_sequence: 5 };
    match service.get_recent_frames(request) {
        Ok((active, 5)) => Ok(*active),
        Ok(other) => panic!("unexpected {other:?}"),
        Err(status) => Err((status.code, status.message)),
    }
}

fn close(service: &mut Service<u32>, id: &str) -> Result<u32, Status> {
    service.close_frame_buffer(CloseFrameBufferRequest { frame_buffer: reference(id) })
}

#[test]
fn an_opened_buffer_is_found_until_it_is_closed() {
    let unknown = refusal(Code::NotFound, "unknown frame buffer");
    let mut service = Service::new();
    assert_eq!(find(&service, "a"), Err(unknown.clone()));
    assert_eq!(service.register("a".to_string(), 1).unwrap().frame_buffer, reference("a"));
    service.register("b".to_string(), 2).unwrap();
    assert_eq!((find(&service, "a"), find(&service, "b")), (Ok(1), Ok(2)));
    assert_eq!(close(&mut service, "a"), Ok(1));
    assert_eq!((find(&service, "a"), find(&service, "b")), (Err(unknown.clone()), Ok(2)));
    assert_eq!(refused(close(&mut service, "a")), unknown);
    assert_eq!(
        refused(close(&mut service, "")),
        refusal(Code::InvalidArgument, "frame_buffer.frame_buffer_id is required")
    );
}

#[test]
fn an_id_leads_to_what_was_registered_last() {
    let mut service = Service::new();
    service.register("a".to_string(), 1).unwrap();
    service.register("a".to_string(), 2).unwrap();
    assert_eq!(find(&service, "a"), Ok(2));
    assert_eq!(service.shutdown(), [2]);
}

#[test]
fn a_full_service_takes_no_further_buffer() {
    let limit = refusal(Code::ResourceExhausted, "at most 8 recent-frame buffers may be active");
    let mut service = Service::new();
    for i in 0..MAX_ACTIVE_BUFFERS as u32 {
        assert!(service.begin_open(request(window("w"))).is_ok());
        service.register(format!("id{i}"), i).unwrap();
    }
    assert_eq!(refused(service.begin_open(request(window("w")))), limit);
    assert_eq!(
        refused(service.begin_open(request(None))),
        refusal(Code::InvalidArgument, "target is required")
    );
    let (rejected, status) = service.register("late".to_string(), 99).unwrap_err();
    assert_eq!((rejected, (status.code, status.message)), (99, limit));
    assert!(find(&service, "late").is_err());
    close(&mut service, "id3").unwrap();
    assert!(service.register("late".to_string(), 99).is_ok());
}

#[test]
fn a_shutdown_hands_back_every_buffer_once() {
    let mut service = Service::new();
    (0..5).for_each(|i| drop(service.register(format!("id{i}"), i)));
    let mut buffers = service.shutdown();
    buffers.sort();
    assert_eq!(buffers, [0, 1, 2, 3, 4]);
    assert!(find(&service, "id0").is_err());
    assert_eq!(service.shutdown(), []);
}

fn capture(width: u32, height: u32) -> Capture<()> {
    let data = vec![3; (width * height * 4) as usize];
    Capture { image: RgbaFrame { width, height, data }, metadata: () }
}

#[test]
fn a_first_capture_starts_a_buffer() {
    let buffer = start_buffer(Ok(capture(4, 4)), 2, Some(PixelSize { width: 2, height: 3 })).unwrap();
    assert_eq!(buffer.producer_name, format!("auv-recent-frames-{}", buffer.id));
    let answer = buffer.history.recent(0).unwrap();
    assert_eq!((answer.frames.len(), answer.latest_sequence, answer.dropped_frames), (1, 1, 0));
    assert_eq!(answer.frames[0].sequence, 1);
    let image = answer.frames[0].capture.as_ref().unwrap().image.as_ref().unwrap();
    assert_eq!((image.width, image.height, image.data.len()), (2, 3, 24));
}

#[test]
fn new_ids_have_the_form_of_version_seven_uuids() {
    let mut ids = Vec::new();
    for _ in 0..20 {
        let id = start_buffer(Ok(capture(1, 1)), 1, None).unwrap().id;
        let parsed = uuid::Uuid::parse_str(&id).unwrap();
        assert_eq!(parsed.get_version_num(), 7);
        assert_eq!(parsed.hyphenated().to_string(), id);
        assert!("89ab".contains(&id[19..20]));
        assert!(validate_reference(reference(&id)).is_ok());
        assert!(!ids.contains(&id));
        ids.push(id);
    }
}

#[test]
fn a_first_capture_that_failed_or_is_too_large_is_refused() {
    assert_eq!(
        refused(start_buffer::<()>(Err("no window".to_string()), 2, None)),
        refusal(Code::Unavailable, "initial capture failed: no window")
    );
    assert_eq!(
        refused(start_buffer(Ok(capture(1000, 1000)), 100, None)).1,
        "frame buffer would use 400000000 bytes; limit is 268435456. Reduce frame_capacity or pass output_size"
    );
}

#[test]
fn a_first_capture_is_kept_as_it_is_without_an_output_size() {
    let image = RgbaFrame { width: 1, height: 1, data: vec![1, 2, 3, 4, 5] };
    let buffer = start_buffer(Ok(Capture { image: image.clone(), metadata: () }), 1, None).unwrap();
    let answer = buffer.history.recent(0).unwrap();
    assert_eq!(answer.frames[0].capture.as_ref().unwrap().image, Some(image));
}

#[test]
fn the_end_of_a_producer_is_reported() {
    assert_eq!(stopped(JoinOutcome::Joined), Ok(()));
    assert_eq!(
        refused(stopped(JoinOutcome::Panicked)),
        refusal(Code::Internal, "recent-frame producer thread panicked")
    );
    assert_eq!(
        refused(stopped(JoinOutcome::TaskFailed("cancelled".to_string()))),
        refusal(Code::Internal, "failed to join recent-frame producer task: cancelled")
    );
    assert_eq!(
        producer_refused("no threads"),
        Status::resource_exhausted("failed to start recent-frame producer: no threads".to_string())
    );
}
