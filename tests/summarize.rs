use mascord_memory::prompts::{build_compress_prompt, build_milestone_prompt, build_summary_prompt, format_transcript};
use mascord_memory::retrieval::MessageResult;
use mascord_memory::summarize::{
    ChannelSummaryRecord, RunPhase, SummarizationPolicy, SummaryAction, SummaryClock, SummaryRun,
};

fn policy() -> SummarizationPolicy {
    SummarizationPolicy {
        active_channels_lookback_days: 7,
        initial_min_messages: 20,
        trigger_new_messages: 50,
        trigger_age_hours: 6,
        trigger_min_new_messages: 10,
        max_tokens: 10,
        refresh_weeks: 2,
        refresh_days_lookback: 14,
    }
}

fn record(updated: &str, refreshed: &str) -> ChannelSummaryRecord {
    ChannelSummaryRecord {
        summary: "Old summary".to_string(),
        updated_at: updated.to_string(),
        refreshed_at: refreshed.to_string(),
    }
}

fn row(content: &str, ts: &str) -> MessageResult {
    MessageResult {
        content: content.to_string(),
        user_id: "u1".to_string(),
        timestamp: ts.to_string(),
        channel_id: "c1".to_string(),
    }
}

// 2024-01-15 00:00:00 UTC
const NOW: i64 = 1705276800;

#[test]
fn clock_reads_record_times() {
    let p = policy();
    let r = record("2024-01-14 18:00:00", "2024-01-10 00:00:00");
    let clock = p.clock(Some(&r), NOW);
    assert!(!clock.refresh_due);
    assert_eq!(clock.updated_at, Some(1705255200));
    assert_eq!(clock.age_hours, 6);
    let stale = record("2024-01-14 18:00:00", "2023-12-01 00:00:00");
    assert!(p.clock(Some(&stale), NOW).refresh_due);
    let unreadable = record("yesterday", "never");
    let c = p.clock(Some(&unreadable), NOW);
    assert_eq!(c.age_hours, 999);
    assert!(!c.refresh_due);
    assert!(c.updated_at.is_none());
}

#[test]
fn trigger_decisions() {
    let p = policy();
    let fresh = SummaryClock { refresh_due: false, updated_at: Some(NOW), age_hours: 1 };
    let old = SummaryClock { refresh_due: false, updated_at: Some(NOW), age_hours: 6 };
    let due = SummaryClock { refresh_due: true, updated_at: Some(NOW), age_hours: 1 };
    assert!(!p.should_summarize(false, &fresh, 19));
    assert!(p.should_summarize(false, &fresh, 20));
    assert!(p.should_summarize(true, &due, 1));
    assert!(!p.should_summarize(true, &due, 0));
    assert!(!p.should_summarize(true, &fresh, 49));
    assert!(p.should_summarize(true, &fresh, 50));
    assert!(p.should_summarize(true, &old, 10));
    assert!(!p.should_summarize(true, &old, 9));
}

#[test]
fn window_start_in_store_form() {
    let p = policy();
    let none = SummaryClock { refresh_due: false, updated_at: None, age_hours: 999 };
    assert_eq!(p.window_start_text(&none, NOW, 1).unwrap(), "2024-01-14 00:00:00");
    let far = SummaryClock { refresh_due: false, updated_at: None, age_hours: 999 };
    assert!(p.window_start_text(&far, i64::MIN, 1).is_none());
}

#[test]
fn window_start_by_state() {
    let p = policy();
    let due = SummaryClock { refresh_due: true, updated_at: Some(5), age_hours: 1 };
    assert_eq!(p.window_start(&due, NOW, 1), NOW as i128 - 14 * 86400);
    let inc = SummaryClock { refresh_due: false, updated_at: Some(5), age_hours: 1 };
    assert_eq!(p.window_start(&inc, NOW, 1), 5);
    let none = SummaryClock { refresh_due: false, updated_at: None, age_hours: 999 };
    assert_eq!(p.window_start(&none, NOW, 7), NOW as i128 - 7 * 86400);
}

#[test]
fn prompt_shapes() {
    let ms = vec!["Decision A".to_string(), "Constraint B".to_string()];
    let prev = ChannelSummaryRecord {
        summary: "Prev".to_string(),
        updated_at: "2024-01-01 00:00:00".to_string(),
        refreshed_at: "2024-01-01 00:00:00".to_string(),
    };
    let initial = build_summary_prompt(None, false, &Vec::new(), "msgs");
    assert!(initial.starts_with("Summarize the following channel messages."));
    assert!(initial.contains("MILESTONES:\n(none)\n\nMESSAGES:\nmsgs\n\nSUMMARY:"));
    let inc = build_summary_prompt(Some(&prev), false, &ms, "msgs");
    assert!(inc.contains("MILESTONES:\nDecision A\nConstraint B\n\nPREVIOUS SUMMARY:\nPrev\n\nNEW MESSAGES:\nmsgs\n\nUPDATED SUMMARY:"));
    let refresh = build_summary_prompt(Some(&prev), true, &ms, "msgs");
    assert!(refresh.starts_with("Rewrite the channel summary from scratch"));
    assert!(refresh.ends_with("RECENT MESSAGES:\nmsgs\n\nREFRESHED SUMMARY:"));
}

#[test]
fn transcript_is_chronological() {
    let rows = vec![row("second", "2024-01-02 00:00:00"), row("first", "2024-01-01 00:00:00")];
    assert_eq!(
        format_transcript(&rows),
        "[2024-01-01 00:00:00] u1: first\n[2024-01-02 00:00:00] u1: second\n"
    );
}

#[test]
fn compress_and_milestone_prompts() {
    let c = build_compress_prompt(1500, "S");
    assert!(c.starts_with("Condense the following channel summary to be under 1500 tokens."));
    assert!(c.ends_with("SUMMARY:\nS\n\nCONDENSED SUMMARY:"));
    let m = build_milestone_prompt("S");
    assert!(m.starts_with("Extract up to 6 durable milestones"));
    assert!(m.ends_with("SUMMARY:\nS\n\nMILESTONES:"));
}

#[test]
fn run_with_no_messages_finishes() {
    let p = policy();
    let clock = SummaryClock { refresh_due: false, updated_at: None, age_hours: 999 };
    let mut run = SummaryRun::new(&p, None, &clock);
    assert!(matches!(run.on_messages(&Vec::new(), &Vec::new()), SummaryAction::Finish));
    assert!(matches!(run.phase, RunPhase::Finished));
}

#[test]
fn run_compresses_at_most_twice() {
    let p = policy(); // cap of 10 tokens, about 40 characters
    let clock = SummaryClock { refresh_due: true, updated_at: None, age_hours: 999 };
    let mut run = SummaryRun::new(&p, Some(record("x", "y")), &clock);
    let rows = vec![row("hi", "2024-01-01 00:00:00")];
    match run.on_messages(&rows, &Vec::new()) {
        SummaryAction::Complete(prompt) => assert!(prompt.starts_with("Rewrite")),
        _ => panic!("expected a prompt"),
    }
    let long = "x".repeat(100);
    assert!(matches!(run.on_completion(long.clone()), SummaryAction::Complete(_)));
    assert!(matches!(run.on_completion(long.clone()), SummaryAction::Complete(_)));
    match run.on_completion(long.clone()) {
        SummaryAction::Save { summary, refresh } => {
            assert_eq!(summary, long);
            assert!(refresh);
        }
        _ => panic!("expected the summary to be saved"),
    }
    match run.on_saved() {
        SummaryAction::Complete(prompt) => assert!(prompt.contains(&long)),
        _ => panic!("expected the milestone prompt"),
    }
    match run.on_completion("- Keep\n- keep\nNone".to_string()) {
        SummaryAction::ReplaceMilestones(m) => assert_eq!(m, vec!["Keep".to_string()]),
        _ => panic!("expected milestones"),
    }
}

#[test]
fn short_draft_is_saved_at_once_and_none_clears_the_milestones() {
    let p = policy();
    let clock = SummaryClock { refresh_due: false, updated_at: None, age_hours: 999 };
    let mut run = SummaryRun::new(&p, Some(record("x", "y")), &clock);
    let rows = vec![row("hi", "2024-01-01 00:00:00")];
    assert!(matches!(run.on_messages(&rows, &Vec::new()), SummaryAction::Complete(_)));
    match run.on_completion("short".to_string()) {
        SummaryAction::Save { summary, refresh } => {
            assert_eq!(summary, "short");
            assert!(!refresh);
        }
        _ => panic!("expected save"),
    }
    run.on_saved();
    match run.on_completion("None".to_string()) {
        SummaryAction::ReplaceMilestones(m) => assert!(m.is_empty()),
        _ => panic!("expected an empty replacement"),
    }
    assert!(matches!(run.phase, RunPhase::Finished));
}

#[test]
fn failures_abort_except_during_extraction() {
    let p = policy();
    let clock = SummaryClock { refresh_due: false, updated_at: None, age_hours: 999 };
    let rows = vec![row("hi", "2024-01-01 00:00:00")];
    let mut run = SummaryRun::new(&p, None, &clock);
    run.on_messages(&rows, &Vec::new());
    assert!(matches!(run.on_failure(), SummaryAction::Abort));

    let mut run = SummaryRun::new(&p, None, &clock);
    run.on_messages(&rows, &Vec::new());
    run.on_completion("short".to_string());
    run.on_saved();
    assert!(matches!(run.on_failure(), SummaryAction::Finish));
}
