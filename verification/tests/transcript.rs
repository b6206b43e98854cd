use umoja::session::Usage;
use umoja::transcript::{TranscriptEvent, TranscriptRecord};

#[test]
fn summaries_are_short_lines() {
    let r = TranscriptRecord::new(
        "ses-1",
        0,
        TranscriptEvent::AssistantTurn {
            text: "line one\nline two".into(),
            usage: Usage {
                input_tokens: 10,
                output_tokens: 5,
                turns: 1,
                attributed_child_tokens: 0,
            },
        },
    );
    assert_eq!(r.summary(), "assistant (15 tok): line one line two");
    let r = TranscriptRecord::new(
        "ses-1",
        0,
        TranscriptEvent::UserPrompt { text: "x".repeat(100) },
    );
    assert_eq!(r.summary(), format!("user: {}...", "x".repeat(69)));
    let r = TranscriptRecord::new(
        "ses-1",
        0,
        TranscriptEvent::KernelExec {
            code: "1".into(),
            ok: false,
            duration_ms: 12,
        },
    );
    assert_eq!(r.summary(), "kernel exec failed in 12ms");
}
