use auv_frame_loop::images::{PixelSize, RgbaFrame};
use auv_frame_loop::model_frames::model_history;
use auv_frame_loop::recent_frames::{
    can_take, resize_capture, Capture, CapturedFrame, History, ProducerAction, ProducerEvent, RecentFrame,
};
use auv_frame_loop::status::Code;
use std::collections::VecDeque;

fn frame(width: u32, height: u32, value: u8) -> RgbaFrame {
    RgbaFrame { width, height, data: vec![value; (width * height * 4) as usize] }
}

fn capture(value: u8) -> Capture<u8> {
    Capture { image: frame(2, 30, value), metadata: value }
}

fn filled(capacity: usize, captures: u8) -> History<u8> {
    let mut history = History::new(capacity);
    (1..=captures).for_each(|value| history.push(capture(value)));
    history
}

/// The sequence numbers and metadata of the frames, the latest number and the count of dropped frames.
fn read(history: &History<u8>, after: u64) -> (Vec<(u64, u8)>, u64, u64) {
    let answer = history.recent(after).unwrap();
    let frames = answer
        .frames
        .iter()
        .map(|frame| (frame.sequence, frame.capture.as_ref().unwrap().metadata))
        .collect();
    (frames, answer.latest_sequence, answer.dropped_frames)
}

#[test]
fn a_history_keeps_the_latest_captures() {
    assert_eq!(read(&filled(3, 0), 0), (vec![], 0, 0));
    assert_eq!(read(&filled(3, 2), 0), (vec![(1, 1), (2, 2)], 2, 0));
    assert_eq!(read(&filled(3, 5), 0), (vec![(3, 3), (4, 4), (5, 5)], 5, 2));
}

#[test]
fn only_newer_frames_are_answered() {
    let history = filled(3, 5);
    assert_eq!(read(&history, 1).0, [(3, 3), (4, 4), (5, 5)]);
    assert_eq!(read(&history, 3).0, [(4, 4), (5, 5)]);
    assert_eq!(read(&history, 5).0, []);
}

#[test]
fn a_reader_ahead_of_the_history_is_refused() {
    let status = filled(3, 5).recent(6).unwrap_err();
    assert_eq!(status.code, Code::InvalidArgument);
    assert_eq!(status.message, "after_sequence 6 is newer than latest_sequence 5");
}

#[test]
fn a_fault_is_told_after_the_last_frame() {
    let mut history = filled(2, 2);
    let action = history.observe(ProducerEvent::CaptureFailed("window gone".to_string()), None);
    assert_eq!(action, ProducerAction::Stop);
    assert_eq!(read(&history, 1).0, [(2, 2)]);
    let status = history.recent(2).unwrap_err();
    assert_eq!(status.code, Code::Unavailable);
    assert_eq!(status.message, "recent-frame producer stopped: window gone");
}

#[test]
fn a_producer_waits_captures_and_stops() {
    let mut history = History::new(2);
    assert_eq!(history.observe(ProducerEvent::PeriodElapsed, None), ProducerAction::Capture);
    assert_eq!(history.observe(ProducerEvent::Captured(capture(9)), None), ProducerAction::Wait);
    assert_eq!(history.observe(ProducerEvent::StopRequested, None), ProducerAction::Stop);
    assert_eq!(history.observe(ProducerEvent::Disconnected, None), ProducerAction::Stop);
    assert_eq!(read(&history, 0), (vec![(1, 9)], 1, 0));
}

#[test]
fn captures_are_brought_to_the_output_size() {
    let size = Some(PixelSize { width: 5, height: 7 });
    let mut history = History::new(2);
    let event = ProducerEvent::Captured(capture(9));
    assert!(history.can_observe(&event, size));
    history.observe(event, size);
    let answer = history.recent(0).unwrap();
    let captured = answer.frames[0].capture.as_ref().unwrap();
    assert_eq!(captured.image, Some(frame(5, 7, 9)));
    assert_eq!(captured.metadata, 9);
}

#[test]
fn a_capture_is_resized_with_the_triangle_filter() {
    let data: Vec<u8> = (0..6 * 4 * 4).map(|i| (i * 11 % 256) as u8).collect();
    let image = image::RgbaImage::from_raw(6, 4, data.clone()).unwrap();
    let expected = image::imageops::resize(&image, 3, 9, image::imageops::FilterType::Triangle).into_raw();
    let given = Capture { image: RgbaFrame { width: 6, height: 4, data }, metadata: () };
    let resized = resize_capture(given, Some(PixelSize { width: 3, height: 9 }));
    assert_eq!(resized.image, RgbaFrame { width: 3, height: 9, data: expected });
}

#[test]
fn a_capture_of_the_right_size_is_left_alone() {
    let same = resize_capture(capture(3), Some(PixelSize { width: 2, height: 30 }));
    assert_eq!(same.image, frame(2, 30, 3));
    assert_eq!(resize_capture(capture(3), None).image, frame(2, 30, 3));
}

#[test]
fn bytes_behind_the_pixels_are_kept_until_a_capture_is_resized() {
    let same = Some(PixelSize { width: 2, height: 2 });
    let other = Some(PixelSize { width: 3, height: 2 });
    let loose = || RgbaFrame { width: 2, height: 2, data: vec![[7; 16].as_slice(), &[9]].concat() };
    assert!(can_take(&frame(2, 2, 0), other));
    assert!(can_take(&loose(), None) && can_take(&loose(), same) && can_take(&loose(), other));
    assert!(!can_take(&RgbaFrame { width: 2, height: 2, data: vec![7; 15] }, other));
    assert_eq!(resize_capture(Capture { image: loose(), metadata: () }, other).image, frame(3, 2, 7));
    assert!(!can_take(&RgbaFrame { width: u32::MAX, height: u32::MAX, data: vec![] }, other));
    for size in [None, same] {
        assert_eq!(resize_capture(Capture { image: loose(), metadata: () }, size).image, loose());
        let mut history = History::new(1);
        let event = ProducerEvent::Captured(Capture { image: loose(), metadata: () });
        assert!(history.can_observe(&event, size));
        history.observe(event, size);
        assert_eq!(history.recent(0).unwrap().frames[0].capture.as_ref().unwrap().image, Some(loose()));
    }
}

#[test]
fn captures_without_pixels_are_resized_to_transparent_black() {
    let empty = Capture { image: RgbaFrame { width: 5, height: 0, data: vec![] }, metadata: () };
    let size = Some(PixelSize { width: 2, height: 1 });
    assert!(can_take(&empty.image, size));
    assert_eq!(resize_capture(empty, size).image, frame(2, 1, 0));
}

#[test]
fn what_a_history_answers_its_reader_takes() {
    let history = filled(4, 9);
    let answer = history.recent(0).unwrap();
    let delivered = answer
        .frames
        .iter()
        .map(|frame| {
            let capture = frame.capture.as_ref().unwrap();
            let image = capture.image.clone();
            RecentFrame { sequence: frame.sequence, capture: Some(CapturedFrame { image, metadata: () }) }
        })
        .collect();
    let (_, first, last) = model_history(&mut VecDeque::new(), delivered, 0, answer.latest_sequence).unwrap();
    assert_eq!((first, last), (6, 9));
}

#[test]
fn a_producer_run_retains_its_captures_and_ends_with_its_failure() {
    let size = Some(PixelSize { width: 1, height: 1 });
    let mut history = History::new(2);
    for value in 1..=3 {
        assert_eq!(history.observe(ProducerEvent::PeriodElapsed, size), ProducerAction::Capture);
        assert_eq!(history.observe(ProducerEvent::Captured(capture(value)), size), ProducerAction::Wait);
    }
    assert_eq!(history.observe(ProducerEvent::PeriodElapsed, size), ProducerAction::Capture);
    let failed = ProducerEvent::CaptureFailed("gone".to_string());
    assert_eq!(history.observe(failed, size), ProducerAction::Stop);
    assert_eq!(read(&history, 0), (vec![(2, 2), (3, 3)], 3, 1));
    let answer = history.recent(2).unwrap();
    assert_eq!(answer.frames[0].capture.as_ref().unwrap().image, Some(frame(1, 1, 3)));
    assert_eq!(history.recent(3).unwrap_err().message, "recent-frame producer stopped: gone");
}
