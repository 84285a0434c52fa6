use auv_frame_loop::report::{
    decision_line, evidence_file_name, merge_result, step_line, subtitles, StepTimes,
};
use auv_frame_loop::text::{is_blank, push_decimal, push_two_digits, same_text, white_space};

#[test]
fn results_are_merged_with_their_cleanup() {
    let failed = |text: &str| Err(text.to_string());
    assert_eq!(merge_result(Ok(3), Ok(())), Ok(3));
    assert_eq!(merge_result::<u8>(failed("a"), Ok(())), Err("a".to_string()));
    assert_eq!(merge_result(Ok(3), Err("b".to_string())), Err("b".to_string()));
    assert_eq!(
        merge_result::<u8>(failed("a"), Err("b".to_string())),
        Err("a; cleanup also failed: b".to_string())
    );
}

#[test]
fn evidence_files_are_named_after_the_evidence() {
    assert_eq!(evidence_file_name("before"), "evidence-before.png");
}

#[test]
fn traces_become_subtitles() {
    assert_eq!(subtitles(&vec![]), "");
    assert_eq!(subtitles(&vec!["one".to_string()]), "1\n00:00:00,000 --> 00:00:01,000\none\n");
    assert_eq!(
        subtitles(&vec!["one".to_string(), "two".to_string()]),
        "1\n00:00:00,000 --> 00:00:01,000\none\n\n2\n00:00:01,000 --> 00:00:02,000\ntwo\n"
    );
    let long = subtitles(&vec!["x".to_string(); 101]);
    assert!(long.contains("\n10\n00:00:09,000 --> 00:00:10,000\nx\n"));
    assert!(long.ends_with("\n101\n00:00:100,000 --> 00:00:101,000\nx\n"));
}

#[test]
fn decisions_are_traced() {
    assert_eq!(
        decision_line("enter", "mine", "CoreMLExecutionProvider", 3, 12, 1, "97.5"),
        "Lower v0: enter mine | provider: CoreMLExecutionProvider | model frames: RPC sequences 3..=12, consumer cropped top 28 px and prepared 384x216 RGB8 | predicted: ui_down (97.5%) | AUV sent: arrowdown"
    );
    assert!(decision_line("a", "b", "c", 1, 1, 8, "1.0").ends_with("predicted: none (1.0%) | AUV sent: nothing"));
}

#[test]
fn steps_are_reported() {
    let times = StepTimes { frame_rpc_ms: 1, inference_ms: 20, input_ms: 300 };
    assert_eq!(
        step_line(4, 6, "0.250", times, 7, 16),
        "step=4 action=keeper1_drop confidence=0.250 frame_rpc_ms=1 inference_ms=20 input_ms=300 sequences=7..=16"
    );
}

#[test]
fn numbers_are_written_as_the_standard_library_writes_them() {
    for n in [0, 7, 9, 10, 11, 99, 100, 12345, u64::MAX as u128, u128::MAX] {
        let mut text = String::from("n=");
        push_decimal(&mut text, n);
        assert_eq!(text, format!("n={n}"));
        let mut padded = String::new();
        push_two_digits(&mut padded, n);
        assert_eq!(padded, format!("{n:02}"));
    }
}

#[test]
fn white_space_is_what_the_standard_library_trims() {
    for c in (0..=0x10ffff).filter_map(char::from_u32) {
        assert_eq!(white_space(c), c.is_whitespace());
    }
    for text in ["", " ", "\u{2003}\n", " a ", "a", "\u{200b}"] {
        assert_eq!(is_blank(text), text.trim().is_empty());
    }
    assert!(same_text("pickup", "pickup") && !same_text("pickup", "pick") && !same_text("a", "A"));
}
