use auv_frame_loop::images::{
    can_resize, drop_alpha, rgba_bytes, RgbFrame, RgbaFrame, MODEL_FRAME_BYTES, MODEL_HEIGHT, MODEL_WIDTH,
    TITLE_BAR_HEIGHT,
};
use auv_frame_loop::model_frames::{
    can_feed, can_sample, model_history, prepare_model_frame, validate_rgba_frame, FrameError, FRAME_COUNT,
};
use auv_frame_loop::recent_frames::{CapturedFrame, RecentFrame};
use std::collections::VecDeque;

fn recent_frame(sequence: u64) -> RecentFrame<()> {
    let rgba = [sequence as u8, 0, 0, 255];
    RecentFrame {
        sequence,
        capture: Some(CapturedFrame {
            image: Some(RgbaFrame {
                width: 1,
                height: TITLE_BAR_HEIGHT + 1,
                data: rgba.repeat((TITLE_BAR_HEIGHT + 1) as usize),
            }),
            metadata: (),
        }),
    }
}

fn with_image(sequence: u64, width: u32, height: u32, data: Vec<u8>) -> RecentFrame<()> {
    let image = Some(RgbaFrame { width, height, data });
    RecentFrame { sequence, capture: Some(CapturedFrame { image, metadata: () }) }
}

#[test]
fn model_history_pads_the_front_with_the_first_available_frame() {
    let recent = [7, 8].into_iter().map(recent_frame).collect();
    let mut history = VecDeque::new();

    let (frames, first_sequence, last_sequence) =
        model_history(&mut history, recent, 0, 8).expect("build a complete Lower v0 history");

    assert_eq!(frames.len(), FRAME_COUNT);
    assert_eq!((first_sequence, last_sequence), (7, 8));
    assert!(frames[..FRAME_COUNT - 1].iter().all(|frame| frame.data[0] == 7));
    assert_eq!(frames.last().expect("padded history has a final frame").data[0], 8);
}

#[test]
fn model_history_rejects_frames_outside_sequence_order() {
    let mut history = VecDeque::new();

    let error = model_history(&mut history, vec![recent_frame(2), recent_frame(1)], 0, 1)
        .expect_err("out-of-order model frames must fail");

    assert_eq!(error.message(), "GetRecentFrames returned frames outside strict sequence order");
}

#[test]
fn model_history_keeps_the_latest_ten_frames_across_responses() {
    let mut history = VecDeque::new();
    model_history(&mut history, (1..=8).map(recent_frame).collect(), 0, 8).expect("build initial history");

    let (frames, first_sequence, last_sequence) =
        model_history(&mut history, (9..=12).map(recent_frame).collect(), 8, 12).expect("extend history");

    assert_eq!(frames.len(), FRAME_COUNT);
    assert_eq!((first_sequence, last_sequence), (3, 12));
    assert_eq!(frames.first().expect("history has a first frame").data[0], 3);
    assert_eq!(frames.last().expect("history has a final frame").data[0], 12);
}

#[test]
fn prepare_model_frame_excludes_the_title_bar() {
    let mut recent = recent_frame(7);
    let image = recent.capture.as_mut().and_then(|capture| capture.image.as_mut()).expect("test frame has an image");
    image.data[..TITLE_BAR_HEIGHT as usize * 4].fill(255);

    let (_, frame) = prepare_model_frame(recent).expect("prepare model frame");

    assert_eq!((frame.width, frame.height, frame.data.len()), (MODEL_WIDTH, MODEL_HEIGHT, MODEL_FRAME_BYTES));
    assert!(frame.data.chunks_exact(3).all(|pixel| pixel == [7, 0, 0]));
}

fn gradient(width: u32, height: u32) -> Vec<u8> {
    (0..width as usize * height as usize * 4).map(|i| (i * 7 % 251) as u8).collect()
}

#[test]
fn content_of_the_model_size_is_only_cropped() {
    let height = MODEL_HEIGHT + TITLE_BAR_HEIGHT;
    let data = gradient(MODEL_WIDTH, height);
    let bar = (TITLE_BAR_HEIGHT * MODEL_WIDTH) as usize * 4;
    let expected: Vec<u8> = data[bar..].chunks_exact(4).flat_map(|pixel| pixel[..3].to_vec()).collect();

    let (sequence, frame) = prepare_model_frame(with_image(4, MODEL_WIDTH, height, data)).unwrap();

    assert_eq!((sequence, frame.data), (4, expected));
}

#[test]
fn content_of_another_size_is_resized_with_the_triangle_filter() {
    let (width, height) = (40, 58);
    let data = gradient(width, height);
    let image = image::RgbaImage::from_raw(width, height, data.clone()).unwrap();
    let view = image::imageops::crop_imm(&image, 0, TITLE_BAR_HEIGHT, width, height - TITLE_BAR_HEIGHT);
    let scaled =
        image::imageops::resize(&*view, MODEL_WIDTH, MODEL_HEIGHT, image::imageops::FilterType::Triangle);
    let expected: Vec<u8> = scaled.pixels().flat_map(|pixel| pixel.0[..3].to_vec()).collect();

    let (_, frame) = prepare_model_frame(with_image(1, width, height, data)).unwrap();

    assert_eq!(frame.data, expected);
}

#[test]
fn frames_that_differ_in_the_title_bar_alone_look_the_same() {
    let data = gradient(12, 40);
    let mut other = data.clone();
    other[..TITLE_BAR_HEIGHT as usize * 12 * 4].reverse();
    assert_ne!(data, other);
    let prepare = |data| prepare_model_frame(with_image(1, 12, 40, data)).unwrap();
    assert_eq!(prepare(data), prepare(other));
}

#[test]
fn a_frame_without_pixels_becomes_black() {
    let (_, frame) = prepare_model_frame(with_image(1, 0, 40, vec![])).unwrap();
    assert!(frame.data.len() == MODEL_FRAME_BYTES && frame.data.iter().all(|byte| *byte == 0));
}

fn refused(recent: Vec<RecentFrame<()>>, after: u64, latest: u64) -> (FrameError, String) {
    let error = model_history(&mut VecDeque::new(), recent, after, latest).unwrap_err();
    (error, error.message())
}

#[test]
fn each_kind_of_bad_response_is_refused() {
    let frame = recent_frame;
    assert_eq!(
        refused(vec![], 0, 0),
        (FrameError::NoFrames, "GetRecentFrames returned no frames".to_string())
    );
    assert_eq!(refused(vec![frame(3), frame(3)], 0, 3).0, FrameError::OutOfOrder);
    assert_eq!(
        refused(vec![frame(3), frame(4)], 3, 4),
        (
            FrameError::AlreadyAcknowledged { first: 3, after: 3 },
            "GetRecentFrames returned sequence 3 after caller acknowledged 3".to_string()
        )
    );
    assert_eq!(
        refused(vec![frame(3), frame(4)], 2, 5),
        (
            FrameError::NotTheLatest { latest: 5, last: 4 },
            "GetRecentFrames latest_sequence 5 does not match final frame sequence 4".to_string()
        )
    );
}

#[test]
fn each_kind_of_bad_frame_is_refused() {
    let missing = RecentFrame { sequence: 1, capture: None };
    assert_eq!(
        refused(vec![missing], 0, 1),
        (FrameError::MissingCapture, "RecentFrame omitted capture".to_string())
    );
    let empty = RecentFrame { sequence: 1, capture: Some(CapturedFrame { image: None, metadata: () }) };
    assert_eq!(
        refused(vec![empty], 0, 1),
        (FrameError::MissingImage, "CapturedFrame omitted image".to_string())
    );
    assert_eq!(
        refused(vec![with_image(1, u32::MAX, u32::MAX, vec![])], 0, 1),
        (
            FrameError::DimensionsOverflow { sequence: 1 },
            "RecentFrame sequence 1 dimensions overflow RGBA8 storage".to_string()
        )
    );
    assert_eq!(
        refused(vec![with_image(1, 2, 30, vec![0; 239])], 0, 1),
        (
            FrameError::NotPacked { sequence: 1, width: 2, height: 30, bytes: 239 },
            "RecentFrame sequence 1 must contain tightly packed RGBA8, got 2x30 with 239 bytes".to_string()
        )
    );
    assert_eq!(
        refused(vec![with_image(1, 1, TITLE_BAR_HEIGHT, vec![0; 112])], 0, 1),
        (
            FrameError::OnlyTitleBar { sequence: 1, height: 28 },
            "RecentFrame sequence 1 is 28 pixels high; the model crop removes 28 pixels".to_string()
        )
    );
    assert_eq!(
        FrameError::Undecodable { sequence: 6 }.message(),
        "RecentFrame sequence 6 could not be decoded as RGBA8"
    );
}

fn numbers(history: &VecDeque<(u64, RgbFrame)>) -> Vec<u64> {
    history.iter().map(|entry| entry.0).collect()
}

#[test]
fn a_refused_response_leaves_the_history_alone() {
    let mut history = VecDeque::new();
    model_history(&mut history, (1..=3).map(recent_frame).collect(), 0, 3).unwrap();
    model_history(&mut history, vec![recent_frame(3)], 3, 3).unwrap_err();
    assert_eq!(numbers(&history), [1, 2, 3]);
}

#[test]
fn a_gap_starts_the_history_over() {
    let mut history = VecDeque::new();
    model_history(&mut history, (1..=3).map(recent_frame).collect(), 0, 3).unwrap();
    let (frames, first, last) = model_history(&mut history, vec![recent_frame(5)], 3, 5).unwrap();
    assert_eq!((first, last), (5, 5));
    assert!(frames.iter().all(|frame| frame.data[0] == 5));
    assert_eq!(numbers(&history), [5]);
}

#[test]
fn the_first_response_may_begin_anywhere() {
    let mut history = VecDeque::new();
    model_history(&mut history, vec![recent_frame(9)], 0, 9).unwrap();
    model_history(&mut history, vec![recent_frame(10)], 9, 10).unwrap();
    assert_eq!(numbers(&history), [9, 10]);
}

#[test]
fn one_response_does_as_much_as_two() {
    let mut once = VecDeque::new();
    let shown_once = model_history(&mut once, (1..=13).map(recent_frame).collect(), 0, 13).unwrap();
    let mut twice = VecDeque::new();
    model_history(&mut twice, (1..=6).map(recent_frame).collect(), 0, 6).unwrap();
    let shown_twice = model_history(&mut twice, (7..=13).map(recent_frame).collect(), 6, 13).unwrap();
    assert_eq!(once, twice);
    assert_eq!(shown_once, shown_twice);
    assert_eq!(numbers(&once), (4..=13).collect::<Vec<_>>());
}

#[test]
fn frames_before_a_bad_one_are_kept() {
    let mut history = VecDeque::new();
    let recent = vec![recent_frame(1), with_image(2, 1, 1, vec![0; 4]), recent_frame(3)];
    let error = model_history(&mut history, recent, 0, 3).unwrap_err();
    assert_eq!(error, FrameError::OnlyTitleBar { sequence: 2, height: 1 });
    assert_eq!(numbers(&history), [1]);
}

#[test]
fn image_helpers_compute_exact_values() {
    assert_eq!(rgba_bytes(3, 5), Some(60));
    assert_eq!(rgba_bytes(u32::MAX, u32::MAX), None);
    assert_eq!(drop_alpha(&vec![1, 2, 3, 4, 5, 6, 7, 8, 9]), [1, 2, 3, 5, 6, 7]);
    assert!(can_resize(1920, 1080, 384, 216));
    assert!(can_resize(2_000_000, 1, 2_000_000, 1));
    assert!(!can_resize(2_000_000, 1, 2_000_001, 1));
    assert!(can_resize(2_000_000, 1, 1, 1));
    assert!(can_sample(&recent_frame(1)));
    assert!(can_sample(&with_image(1, u32::MAX, u32::MAX, vec![])));
    assert!(can_feed(&vec![recent_frame(1), with_image(2, 9, 9, vec![])], 0, 2));
    assert!(can_feed::<()>(&vec![], 0, 0));
    assert_eq!(validate_rgba_frame(1, &RgbaFrame { width: 1, height: 2, data: vec![0; 8] }), Ok(()));
}

#[test]
fn a_window_that_is_too_large_matters_only_where_it_is_shown() {
    let entry = |sequence| {
        let frame = RgbFrame { width: MODEL_WIDTH, height: MODEL_HEIGHT, data: vec![0; MODEL_FRAME_BYTES] };
        (sequence, frame)
    };
    let mut history: VecDeque<_> = (1..=11).map(entry).collect();
    assert_eq!(model_history::<()>(&mut history, vec![], 11, 11).unwrap_err(), FrameError::NoFrames);
    assert_eq!(history.len(), 11);
    let (_, first, last) = model_history(&mut history, vec![recent_frame(14)], 11, 14).unwrap();
    assert_eq!((first, last), (14, 14));
}
