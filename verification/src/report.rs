//! What a run leaves behind: its result, its evidence files, its trace.
use vstd::prelude::*;

#[allow(unused_imports)]
use crate::policy::{action_text, key_text};
use crate::policy::{action_key, action_name, ACTION_COUNT};
#[allow(unused_imports)]
use crate::text::{decimal, two_digits};
use crate::text::{push_decimal, push_str, push_two_digits};

verus! {

/// A result with its error, if any, taken by its view.
pub open spec fn told<T>(result: Result<T, String>) -> Result<T, Seq<char>> {
    match result {
        Ok(value) => Ok(value),
        Err(error) => Err(error@),
    }
}

/// What a result and the result of cleaning up after it amount to.
pub open spec fn merged<T>(primary: Result<T, String>, cleanup: Result<(), String>) -> Result<
    T,
    Seq<char>,
> {
    match (primary, cleanup) {
        (Ok(value), Ok(_)) => Ok(value),
        (Err(error), Ok(_)) => Err(error@),
        (Ok(_), Err(error)) => Err(error@),
        (Err(primary), Err(cleanup)) => Err(primary@ + "; cleanup also failed: "@ + cleanup@),
    }
}

/// Joins a result with the result of cleaning up after it. Nothing that failed is
/// lost.
pub fn merge_result<T>(primary: Result<T, String>, cleanup: Result<(), String>) -> (result: Result<
    T,
    String,
>)
    ensures
        told(result) == merged(primary, cleanup),
{
    match primary {
        Ok(value) => match cleanup {
            Ok(_) => Ok(value),
            Err(error) => Err(error),
        },
        Err(primary) => match cleanup {
            Ok(_) => Err(primary),
            Err(cleanup) => {
                let mut text: String = primary;
                push_str(&mut text, "; cleanup also failed: ");
                push_str(&mut text, cleanup.as_str());
                Err(text)
            },
        },
    }
}

/// The name of the file that an evidence frame is saved under.
pub fn evidence_file_name(name: &str) -> (file: String)
    ensures
        file@ == "evidence-"@ + name@ + ".png"@,
{
    let mut file: String = "evidence-".to_owned();
    push_str(&mut file, name);
    push_str(&mut file, ".png");
    file
}

/// One subtitle, shown for the second that its place gives.
pub open spec fn subtitle(index: nat, line: Seq<char>) -> Seq<char> {
    decimal(index + 1) + "\n00:00:"@ + two_digits(index) + ",000 --> 00:00:"@ + two_digits(index + 1)
        + ",000\n"@ + line + "\n"@
}

/// The subtitles of a trace, with a blank line between any two.
pub open spec fn subtitle_file(trace: Seq<Seq<char>>) -> Seq<char>
    decreases trace.len(),
{
    if trace.len() == 0 {
        Seq::empty()
    } else if trace.len() == 1 {
        subtitle(0, trace[0])
    } else {
        subtitle_file(trace.drop_last()) + "\n"@ + subtitle((trace.len() - 1) as nat, trace.last())
    }
}

/// Lines with their texts taken by their views.
pub open spec fn lines(trace: Seq<String>) -> Seq<Seq<char>> {
    trace.map_values(|line: String| line@)
}

/// Writes a trace out as subtitles.
pub fn subtitles(trace: &Vec<String>) -> (content: String)
    ensures
        content@ == subtitle_file(lines(trace@)),
{
    let ghost all = lines(trace@);
    let mut content: String = String::new();
    assert(all.take(0) =~= Seq::empty());
    for i in 0..trace.len()
        invariant
            all == lines(trace@),
            content@ == subtitle_file(all.take(i as int)),
    {
        let ghost before = content@;
        proof {
            assert(all.take(i + 1).drop_last() =~= all.take(i as int));
            assert(all.take(i + 1).last() == trace@[i as int]@);
        }
        if i > 0 {
            push_str(&mut content, "\n");
        }
        push_decimal(&mut content, i as u128 + 1);
        push_str(&mut content, "\n00:00:");
        push_two_digits(&mut content, i as u128);
        push_str(&mut content, ",000 --> 00:00:");
        push_two_digits(&mut content, i as u128 + 1);
        push_str(&mut content, ",000\n");
        push_str(&mut content, trace[i].as_str());
        push_str(&mut content, "\n");
        proof {
            let shown = subtitle(i as nat, trace@[i as int]@);
            if i > 0 {
                assert(content@ =~= before + "\n"@ + shown);
            } else {
                assert(content@ =~= shown);
            }
        }
    }
    assert(all.take(all.len() as int) =~= all);
    content
}

/// What the trace says of one decision. The percentage comes written out.
pub open spec fn decision_text(
    task: Seq<char>,
    target: Seq<char>,
    provider: Seq<char>,
    first: u64,
    last: u64,
    action: usize,
    percent: Seq<char>,
) -> Seq<char> {
    "Lower v0: "@ + task + " "@ + target + " | provider: "@ + provider
        + " | model frames: RPC sequences "@ + decimal(first as nat) + "..="@ + decimal(last as nat)
        + ", consumer cropped top 28 px and prepared 384x216 RGB8 | predicted: "@ + action_text(
        action,
    ) + " ("@ + percent + "%) | AUV sent: "@ + (match key_text(action) {
        Some(key) => key,
        None => "nothing"@,
    })
}

/// Writes the trace line of one decision.
pub fn decision_line(
    task: &str,
    target: &str,
    provider: &str,
    first: u64,
    last: u64,
    action: usize,
    percent: &str,
) -> (line: String)
    requires
        action < ACTION_COUNT,
    ensures
        line@ == decision_text(task@, target@, provider@, first, last, action, percent@),
{
    let mut line: String = "Lower v0: ".to_owned();
    push_str(&mut line, task);
    push_str(&mut line, " ");
    push_str(&mut line, target);
    push_str(&mut line, " | provider: ");
    push_str(&mut line, provider);
    push_str(&mut line, " | model frames: RPC sequences ");
    push_decimal(&mut line, first as u128);
    push_str(&mut line, "..=");
    push_decimal(&mut line, last as u128);
    push_str(&mut line, ", consumer cropped top 28 px and prepared 384x216 RGB8 | predicted: ");
    push_str(&mut line, action_name(action));
    push_str(&mut line, " (");
    push_str(&mut line, percent);
    push_str(&mut line, "%) | AUV sent: ");
    match action_key(action) {
        Some(key) => push_str(&mut line, key),
        None => push_str(&mut line, "nothing"),
    }
    line
}

/// How long the parts of a step took, in milliseconds.
#[derive(Clone, Copy, Debug, PartialEq, Eq, Structural)]
pub struct StepTimes {
    pub frame_rpc_ms: u128,
    pub inference_ms: u128,
    pub input_ms: u128,
}

/// What is printed of one step. The confidence comes written out.
pub open spec fn step_text(
    step: u32,
    action: usize,
    confidence: Seq<char>,
    times: StepTimes,
    first: u64,
    last: u64,
) -> Seq<char> {
    "step="@ + decimal(step as nat) + " action="@ + action_text(action) + " confidence="@
        + confidence + " frame_rpc_ms="@ + decimal(times.frame_rpc_ms as nat) + " inference_ms="@
        + decimal(times.inference_ms as nat) + " input_ms="@ + decimal(times.input_ms as nat)
        + " sequences="@ + decimal(first as nat) + "..="@ + decimal(last as nat)
}

/// Writes what is printed of one step.
pub fn step_line(
    step: u32,
    action: usize,
    confidence: &str,
    times: StepTimes,
    first: u64,
    last: u64,
) -> (line: String)
    requires
        action < ACTION_COUNT,
    ensures
        line@ == step_text(step, action, confidence@, times, first, last),
{
    let mut line: String = "step=".to_owned();
    push_decimal(&mut line, step as u128);
    push_str(&mut line, " action=");
    push_str(&mut line, action_name(action));
    push_str(&mut line, " confidence=");
    push_str(&mut line, confidence);
    push_str(&mut line, " frame_rpc_ms=");
    push_decimal(&mut line, times.frame_rpc_ms);
    push_str(&mut line, " inference_ms=");
    push_decimal(&mut line, times.inference_ms);
    push_str(&mut line, " input_ms=");
    push_decimal(&mut line, times.input_ms);
    push_str(&mut line, " sequences=");
    push_decimal(&mut line, first as u128);
    push_str(&mut line, "..=");
    push_decimal(&mut line, last as u128);
    line
}

/// A result is known by its value or the text of its error.
pub proof fn law_results_keep_what_they_hold<T>(result: Result<T, String>)
    ensures
        told(result) is Ok <==> result is Ok,
        result is Ok ==> told(result)->Ok_0 == result->Ok_0,
        result is Err ==> told(result)->Err_0 == result->Err_0@,
{
}

/// A run succeeds exactly if both it and its cleanup did. The text of whatever failed is
/// in the text of the failure: alone if it failed alone, else with the other behind it.
pub proof fn law_no_failure_is_lost<T>(primary: Result<T, String>, cleanup: Result<(), String>)
    ensures
        merged(primary, cleanup) is Ok <==> primary is Ok && cleanup is Ok,
        primary is Ok && cleanup is Ok ==> merged(primary, cleanup)->Ok_0 == primary->Ok_0,
        primary is Err && cleanup is Ok ==> merged(primary, cleanup)->Err_0 == primary->Err_0@,
        primary is Ok && cleanup is Err ==> merged(primary, cleanup)->Err_0 == cleanup->Err_0@,
        primary is Err && cleanup is Err ==> merged(primary, cleanup)->Err_0 == primary->Err_0@
            + "; cleanup also failed: "@ + cleanup->Err_0@,
{
}

/// One more line of a trace is one more subtitle behind the others, which stay as they
/// are: its number, the second in which it is shown, and the line. A blank line stands
/// between any two.
pub proof fn law_each_line_is_one_subtitle(trace: Seq<Seq<char>>, line: Seq<char>)
    ensures
        subtitle_file(Seq::empty()) == Seq::<char>::empty(),
        subtitle_file(trace.push(line)) == subtitle_file(trace) + (if trace.len() == 0 {
            Seq::empty()
        } else {
            "\n"@
        }) + (decimal(trace.len() + 1) + "\n00:00:"@ + two_digits(trace.len())
            + ",000 --> 00:00:"@ + two_digits(trace.len() + 1) + ",000\n"@ + line + "\n"@),
{
    assert(trace.push(line).drop_last() =~= trace);
    let shown = subtitle(trace.len(), line);
    if trace.len() == 0 {
        assert(trace.push(line)[0] == line);
        assert(subtitle_file(trace) + Seq::<char>::empty() + shown =~= shown);
    }
}

/// The lines of a trace are its lines, in order.
pub proof fn law_lines_keep_what_they_say(trace: Seq<String>, i: int)
    requires
        0 <= i < trace.len(),
    ensures
        lines(trace).len() == trace.len(),
        lines(trace)[i] == trace[i]@,
{
}

/// The trace line of a decision says what was asked for, what ran the model, which
/// frames it saw, what it predicted and how surely, and which key was sent, if any.
pub proof fn law_decision_lines_say_what_was_decided(
    task: Seq<char>,
    target: Seq<char>,
    provider: Seq<char>,
    first: u64,
    last: u64,
    action: usize,
    percent: Seq<char>,
)
    ensures
        decision_text(task, target, provider, first, last, action, percent) == "Lower v0: "@ + task
            + " "@ + target + " | provider: "@ + provider + " | model frames: RPC sequences "@
            + decimal(first as nat) + "..="@ + decimal(last as nat)
            + ", consumer cropped top 28 px and prepared 384x216 RGB8 | predicted: "@ + action_text(
            action,
        ) + " ("@ + percent + "%) | AUV sent: "@ + (if key_text(action) is Some {
            key_text(action)->0
        } else {
            "nothing"@
        }),
{
}

/// The line printed of a step says which step it was, what was done and how surely, how
/// long its parts took, and which frames the model saw.
pub proof fn law_step_lines_say_what_was_done(
    step: u32,
    action: usize,
    confidence: Seq<char>,
    times: StepTimes,
    first: u64,
    last: u64,
)
    ensures
        step_text(step, action, confidence, times, first, last) == "step="@ + decimal(step as nat)
            + " action="@ + action_text(action) + " confidence="@ + confidence + " frame_rpc_ms="@
            + decimal(times.frame_rpc_ms as nat) + " inference_ms="@ + decimal(
            times.inference_ms as nat,
        ) + " input_ms="@ + decimal(times.input_ms as nat) + " sequences="@ + decimal(first as nat)
            + "..="@ + decimal(last as nat),
{
}

} // verus!
