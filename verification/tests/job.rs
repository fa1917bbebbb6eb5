use gen3d_ai::pipeline::job::{
    check_review_applies_to, plan_component_limit, plan_reply_step, regen_budget_step,
    replan_step, reply_arrived_step, review_applied_step, review_rejected_step,
    review_request_start_step, PlanReplyAction, ReviewApplyAction, ReviewStart,
    component_outcome_step, components_progress_step, fail_job, finish_job_best_effort,
    parallel_limit, poll_ai_job_step, retry_plan_step, retry_review_delta_step,
    review_failed_step, review_repair_user_text, take_next_component, AiJobState,
    AiMode, AiPhase, ComponentAction, ComponentQueue, ComponentsAction, PollAction, PollEvent,
    ReviewKind, RunLimits, StopSignals, WorkshopState,
};

fn job(phase: AiPhase) -> AiJobState {
    AiJobState {
        running: true,
        build_complete: false,
        phase,
        mode: AiMode::Pipeline,
        review_kind: ReviewKind::EndOfRun,
        current_run_tokens: 10,
        auto_refine_passes_done: 0,
        auto_refine_passes_remaining: 1,
        per_component_refine_passes_done: 0,
        per_component_refine_passes_remaining: 0,
        capture_previews_only: false,
        has_cancel_flag: true,
        has_shared_result: false,
        has_shared_progress: true,
        has_review_capture: false,
        has_motion_capture: false,
        has_review_images: false,
        has_pass_dir: true,
        has_pending_tool_call: true,
        plan_attempt: 1,
        review_component_idx: None,
        replan_attempts: 2,
        regen_total: 3,
        review_delta_repair_attempt: 1,
    }
}

fn limits() -> RunLimits {
    RunLimits { max_seconds: 600, max_tokens: 1000, refine_passes: 1, component_refine_cycles: 0 }
}

fn workshop() -> WorkshopState {
    WorkshopState { status: String::new(), error: None }
}

#[test]
fn idle_or_stopped_jobs_wait() {
    let mut j = job(AiPhase::Idle);
    assert_eq!(poll_ai_job_step(&j, &limits(), Some(10_000), PollEvent::Frame), (j, PollAction::Wait));
    j = job(AiPhase::WaitingPlan);
    j.running = false;
    assert_eq!(poll_ai_job_step(&j, &limits(), None, PollEvent::Frame).1, PollAction::Wait);
}

#[test]
fn budgets_stop_the_run() {
    let j = job(AiPhase::WaitingPlan);
    assert_eq!(poll_ai_job_step(&j, &limits(), Some(600), PollEvent::Frame).1, PollAction::StopForTimeBudget);
    assert_eq!(poll_ai_job_step(&j, &limits(), Some(599), PollEvent::Frame).1, PollAction::PollAiResult);
    let mut t = j;
    t.current_run_tokens = 1000;
    assert_eq!(
        poll_ai_job_step(&t, &limits(), None, PollEvent::Frame).1,
        PollAction::StopForTokenBudget { reason: "Token budget exhausted (1000 >= 1000).".to_string() }
    );
    let unlimited = RunLimits { max_seconds: 0, max_tokens: 0, ..limits() };
    assert_eq!(poll_ai_job_step(&t, &unlimited, Some(1_000_000), PollEvent::Frame).1, PollAction::PollAiResult);
    let mut a = j;
    a.mode = AiMode::Agent;
    assert_eq!(poll_ai_job_step(&a, &limits(), None, PollEvent::Frame).1, PollAction::PollAgent);
}

#[test]
fn speed_mode_changes_skip_reviews_and_adjust_passes() {
    let j = job(AiPhase::WaitingReview);
    let no_refine = RunLimits { refine_passes: 0, ..limits() };
    let (next, action) = poll_ai_job_step(&j, &no_refine, None, PollEvent::Frame);
    assert!(!next.running && next.build_complete && next.phase == AiPhase::Idle);
    assert_eq!(
        action,
        PollAction::Finished {
            status: "Build finished. (Auto-review skipped due to speed mode change.) Orbit/zoom the preview. Click Build to start a new run.".to_string(),
            error: None
        }
    );

    let mut p = job(AiPhase::CapturingReview);
    p.review_kind = ReviewKind::PerComponent;
    let (next, action) = poll_ai_job_step(&p, &limits(), None, PollEvent::Frame);
    assert!(!next.has_shared_result && !next.has_review_capture);
    assert_eq!(
        action,
        PollAction::ResumeAfterPerComponentReview {
            status: "Auto-review skipped due to speed mode change (continuing build).".to_string(),
            error: None
        }
    );

    let mut c = job(AiPhase::WaitingComponent);
    c.auto_refine_passes_done = 1;
    c.auto_refine_passes_remaining = 0;
    let more = RunLimits { refine_passes: 3, ..limits() };
    let (next, action) = poll_ai_job_step(&c, &more, None, PollEvent::Frame);
    assert_eq!(next.auto_refine_passes_remaining, 2);
    assert_eq!(action, PollAction::PollParallelComponents);
}

#[test]
fn review_capture_progresses_and_fails() {
    let mut j = job(AiPhase::CapturingReview);
    j.has_review_capture = true;
    let progress = PollEvent::StaticCapture { done: 3, expected: 7, missing_image: None, image_count: 3 };
    assert_eq!(
        poll_ai_job_step(&j, &limits(), None, progress).1,
        PollAction::ReportProgress { message: "Capturing review views… (3/7)".to_string() }
    );
    let done = PollEvent::StaticCapture { done: 7, expected: 7, missing_image: None, image_count: 7 };
    let (next, action) = poll_ai_job_step(&j, &limits(), None, done);
    assert!(next.has_motion_capture && next.has_review_images && !next.has_review_capture);
    assert_eq!(action, PollAction::StartMotionCapture { progress: Some("Capturing move animation…".to_string()) });

    let missing = PollEvent::StaticCapture {
        done: 7,
        expected: 7,
        missing_image: Some("/tmp/r/front.png".to_string()),
        image_count: 7,
    };
    let (next, action) = poll_ai_job_step(&j, &limits(), None, missing);
    assert!(!next.running && next.build_complete);
    assert_eq!(
        action,
        PollAction::Finished {
            status: "Build finished (auto-review failed). Orbit/zoom the preview, then click Build to start a new run.".to_string(),
            error: Some("Failed to capture review image: /tmp/r/front.png".to_string())
        }
    );

    let mut previews = j;
    previews.capture_previews_only = true;
    let done = PollEvent::StaticCapture { done: 7, expected: 7, missing_image: None, image_count: 7 };
    let (next, action) = poll_ai_job_step(&previews, &limits(), None, done);
    assert!(!next.capture_previews_only && next.phase == AiPhase::Idle);
    assert_eq!(
        action,
        PollAction::Finished {
            status: "Build finished. (Preview renders saved.) Orbit/zoom the preview. Click Build to start a new run.".to_string(),
            error: None
        }
    );

    let mut start = job(AiPhase::CapturingReview);
    assert_eq!(poll_ai_job_step(&start, &limits(), None, PollEvent::Frame).1, PollAction::StartStaticCapture);
    start.has_review_images = true;
    assert_eq!(poll_ai_job_step(&start, &limits(), None, PollEvent::Frame).1, PollAction::StartReviewRequest);
    let mut per = job(AiPhase::WaitingReview);
    per.review_kind = ReviewKind::PerComponent;
    assert_eq!(
        review_failed_step(&per, "Internal error: missing AI config.".to_string()).1,
        PollAction::ResumeAfterPerComponentReview {
            status: "Auto-review failed (continuing build).".to_string(),
            error: Some("Internal error: missing AI config.".to_string())
        }
    );
}

#[test]
fn failing_and_stopping_reset_the_job() {
    let mut j = job(AiPhase::WaitingComponent);
    let mut q = ComponentQueue { queue: vec![1, 2], queue_pos: 1, attempts: vec![0, 1], in_flight: 2 };
    let mut ws = workshop();
    let signals = fail_job(&mut j, &mut q, &mut ws, "boom".to_string());
    assert_eq!(
        signals,
        StopSignals { cancel_run: true, aborted_tool_call: Some("Run failed: boom".to_string()) }
    );
    assert!(!j.has_pending_tool_call);
    assert!(!j.running && !j.build_complete && j.phase == AiPhase::Idle && !j.has_cancel_flag);
    assert_eq!((j.plan_attempt, j.replan_attempts, j.regen_total), (0, 0, 0));
    assert_eq!(q, ComponentQueue { queue: vec![], queue_pos: 0, attempts: vec![], in_flight: 0 });
    assert_eq!(ws, WorkshopState { status: "Build failed.".to_string(), error: Some("boom".to_string()) });

    let mut j = job(AiPhase::WaitingReview);
    let mut q = ComponentQueue { queue: vec![1], queue_pos: 0, attempts: vec![], in_flight: 1 };
    let mut ws = WorkshopState { status: String::new(), error: Some("old".to_string()) };
    j.has_cancel_flag = false;
    j.has_pending_tool_call = false;
    let signals = finish_job_best_effort(&mut j, &mut q, &mut ws, "Token budget exhausted (5 >= 4).");
    assert_eq!(signals, StopSignals { cancel_run: false, aborted_tool_call: None });
    assert!(!j.running && j.build_complete && j.phase == AiPhase::Idle);
    assert_eq!(
        ws,
        WorkshopState {
            status: "Build finished (best effort).\nReason: Token budget exhausted (5 >= 4).\nYou can Save this draft or click Build to start a new run.".to_string(),
            error: None
        }
    );
}

#[test]
fn component_outcomes_retry_once_then_fail() {
    let q = ComponentQueue { queue: vec![4], queue_pos: 0, attempts: vec![], in_flight: 2 };
    let (q1, a) = component_outcome_step(&q, 2, 0, false, 5);
    assert_eq!(a, ComponentAction::Retry { next_attempt: 1 });
    assert_eq!(q1, ComponentQueue { queue: vec![2, 4], queue_pos: 0, attempts: vec![0, 0, 1, 0, 0], in_flight: 1 });
    let (q2, a) = component_outcome_step(&q1, 2, 1, false, 5);
    assert_eq!(a, ComponentAction::FailJob);
    assert_eq!(q2.in_flight, 0);
    let (q3, a) = component_outcome_step(&q1, 0, 0, true, 5);
    assert_eq!(a, ComponentAction::Apply);
    assert_eq!(q3.queue, vec![2, 4]);
}

#[test]
fn component_requests_respect_the_parallel_limit() {
    assert_eq!(parallel_limit(0, 5, false, false), 1);
    assert_eq!(parallel_limit(8, 5, false, false), 5);
    assert_eq!(parallel_limit(4, 5, true, false), 1);
    assert_eq!(parallel_limit(4, 5, true, true), 4);
    let mut q = ComponentQueue { queue: vec![9, 1, 2], queue_pos: 0, attempts: vec![0, 1], in_flight: 0 };
    assert_eq!(take_next_component(&mut q, 3, 1), Some((1, 1)));
    assert_eq!(q.queue, vec![2]);
    assert_eq!(q.in_flight, 1);
    assert_eq!(take_next_component(&mut q, 3, 1), None);
}

#[test]
fn finished_components_start_review_or_finish() {
    let j = job(AiPhase::WaitingComponent);
    let (same, status, action) = components_progress_step(&j, 2, 5, 1, 2, 3);
    assert_eq!(same, j);
    assert_eq!(status, "Building components… (2/5)\nIn flight: 1 | pending: 2\nParallel: 3");
    assert_eq!(action, ComponentsAction::Continue);

    let (next, status, action) = components_progress_step(&j, 5, 5, 0, 0, 3);
    assert_eq!((next.auto_refine_passes_done, next.auto_refine_passes_remaining), (1, 0));
    assert_eq!(next.phase, AiPhase::CapturingReview);
    assert_eq!(status, "Auto-reviewing assembly… (pass 1/1)");
    assert_eq!(action, ComponentsAction::StartAutoReview { progress: Some("Preparing review capture…") });

    let mut none_left = j;
    none_left.auto_refine_passes_remaining = 0;
    let (next, status, action) = components_progress_step(&none_left, 5, 5, 0, 0, 3);
    assert!(next.capture_previews_only);
    assert_eq!(status, "Capturing preview renders…");
    assert_eq!(action, ComponentsAction::CapturePreviews);
    none_left.has_pass_dir = false;
    let (next, _, action) = components_progress_step(&none_left, 5, 5, 0, 0, 3);
    assert!(!next.running && next.build_complete);
    assert_eq!(action, ComponentsAction::Finished);
}

#[test]
fn plans_are_retried_once() {
    let mut j = job(AiPhase::WaitingPlan);
    j.plan_attempt = 0;
    let (next, status) = retry_plan_step(&j, 2);
    assert_eq!(next.plan_attempt, 1);
    assert_eq!(next.phase, AiPhase::WaitingPlan);
    assert_eq!(status, Some("Planning components… (attempt 2/2)\nImages: 2".to_string()));
    assert_eq!(retry_plan_step(&next, 2), (next, None));
}

#[test]
fn review_deltas_are_repaired_once() {
    let mut j = job(AiPhase::WaitingReview);
    j.review_delta_repair_attempt = 0;
    let (next, status) = retry_review_delta_step(&j, true, true, "review this");
    assert_eq!(next.review_delta_repair_attempt, 1);
    assert_eq!(status, Some("Auto-reviewing assembly… (repair 1/1)".to_string()));
    assert_eq!(retry_review_delta_step(&next, true, true, "review this"), (next, None));
    let (counted, none) = retry_review_delta_step(&j, true, true, "   ");
    assert_eq!((counted.review_delta_repair_attempt, none), (1, None));
    assert_eq!(
        review_repair_user_text("Review.", "  bad json \n"),
        "Review.\n\nYour previous response was invalid.\nError:\nbad json\n\nReturn corrected JSON ONLY. No markdown.\n"
    );
}

#[test]
fn best_effort_stop_signals_the_run() {
    let mut j = job(AiPhase::WaitingComponent);
    let mut q = ComponentQueue { queue: vec![], queue_pos: 0, attempts: vec![], in_flight: 0 };
    let mut ws = workshop();
    let signals = finish_job_best_effort(&mut j, &mut q, &mut ws, "Time budget exhausted.");
    assert_eq!(
        signals,
        StopSignals {
            cancel_run: true,
            aborted_tool_call: Some("Run stopped (best effort): Time budget exhausted.".to_string())
        }
    );
    assert!(!j.has_cancel_flag && !j.has_pending_tool_call);
}

#[test]
fn replies_count_tokens_against_the_budget() {
    let mut j = job(AiPhase::WaitingPlan);
    j.has_shared_result = true;
    let (next, stop) = reply_arrived_step(&j, &limits(), Some(500));
    assert_eq!((next.current_run_tokens, next.has_shared_result, stop), (510, false, None));
    let (next, stop) = reply_arrived_step(&j, &limits(), Some(990));
    assert_eq!(next.current_run_tokens, 1000);
    assert_eq!(stop, Some("Token budget exhausted (1000 >= 1000).".to_string()));
    let (next, _) = reply_arrived_step(&j, &limits(), Some(u64::MAX));
    assert_eq!(next.current_run_tokens, u64::MAX);
}

#[test]
fn plan_replies_start_components_or_retry() {
    assert_eq!(plan_component_limit(30), 24);
    assert_eq!(plan_component_limit(3), 3);
    let mut j = job(AiPhase::WaitingPlan);
    j.plan_attempt = 0;
    let (next, action) = plan_reply_step(&j, Ok(3), 0, 0);
    assert_eq!(next.phase, AiPhase::WaitingComponent);
    assert!(!next.has_shared_progress);
    assert_eq!(action, PlanReplyAction::StartComponents { status: "Building components… (0/3)\nParallel: 1".to_string() });
    let (next, action) = plan_reply_step(&j, Ok(0), 1, 4);
    assert_eq!(next.plan_attempt, 1);
    assert_eq!(action, PlanReplyAction::Retry { status: "Planning components… (attempt 2/2)\nImages: 1".to_string() });
    let (same, action) = plan_reply_step(&next, Err("bad plan".to_string()), 1, 4);
    assert_eq!(same, next);
    assert_eq!(action, PlanReplyAction::FailRun { error: "bad plan".to_string() });
    let (_, action) = plan_reply_step(&next, Ok(0), 1, 4);
    assert_eq!(action, PlanReplyAction::FailRun { error: "AI plan did not include any components.".to_string() });
}

#[test]
fn reviews_must_answer_for_this_run() {
    assert_eq!(check_review_applies_to("run", 1, "sha256:ab", 3, "run", 1, "sha256:ab", 3), None);
    assert_eq!(
        check_review_applies_to("run", 1, "sha256:ab", 3, "run", 1, "sha256:ab", 2),
        Some("applies_to mismatch (expected run_id=run, attempt=1, plan_hash=sha256:ab, assembly_rev=3)".to_string())
    );
    let j = job(AiPhase::WaitingReview);
    let (next, action) = review_rejected_step(&j, "mismatch".to_string());
    assert!(!next.running && next.build_complete && !next.has_shared_progress);
    assert_eq!(
        action,
        PollAction::Finished {
            status: "Build finished (auto-review failed). Orbit/zoom the preview, then click Build to start a new run.".to_string(),
            error: Some("mismatch".to_string())
        }
    );
}

#[test]
fn applied_reviews_lead_on() {
    let j = job(AiPhase::WaitingReview);
    let (next, a) = review_applied_step(&j, true, true, false, false);
    assert!(!next.running);
    assert_eq!(a, ReviewApplyAction::Accepted);
    assert_eq!(review_applied_step(&j, false, true, true, false).1, ReviewApplyAction::Replan);
    assert_eq!(
        review_applied_step(&j, false, false, false, false).1,
        ReviewApplyAction::Finished { status: "Build finished. (Auto-review made no changes.) Orbit/zoom the preview. Click Build to start a new run.".to_string() }
    );
    let (next, a) = review_applied_step(&j, false, true, false, false);
    assert_eq!((next.auto_refine_passes_done, next.auto_refine_passes_remaining), (1, 0));
    assert_eq!(a, ReviewApplyAction::NextReviewPass { status: "Auto-reviewing assembly… (pass 1/1)".to_string() });
    assert_eq!(
        review_applied_step(&next, false, true, false, false).1,
        ReviewApplyAction::Finished { status: "Build finished (auto-review applied tweaks). Orbit/zoom the preview. Click Build to start a new run.".to_string() }
    );
    assert_eq!(review_applied_step(&j, false, true, false, true).1, ReviewApplyAction::Regenerate);
    let mut per = j;
    per.review_kind = ReviewKind::PerComponent;
    assert_eq!(review_applied_step(&per, false, true, false, false).1, ReviewApplyAction::ResumeAfterPerComponentReview);
    assert_eq!(review_applied_step(&per, false, true, false, true).1, ReviewApplyAction::Regenerate);
}

#[test]
fn replans_and_regenerations_have_budgets() {
    let j = job(AiPhase::WaitingReview);
    let next = replan_step(&j, 3, 2).unwrap();
    assert_eq!((next.replan_attempts, next.auto_refine_passes_done, next.auto_refine_passes_remaining), (3, 0, 2));
    assert_eq!(replan_step(&next, 3, 2), Err("Replan budget exhausted (max_replans=3).".to_string()));

    let mut total = 1u32;
    let mut per = vec![1u32, 0];
    let r = regen_budget_step(&vec![0, 7, 1, 2, 1], 3, 3, 1, &mut total, &mut per);
    assert_eq!(r, Ok((vec![1, 2], vec![0, 1])));
    assert_eq!(total, 3);
    assert_eq!(per, vec![1, 1, 1]);
    let r = regen_budget_step(&vec![0], 3, 3, 0, &mut total, &mut per);
    assert_eq!(r, Err("Regen budget exhausted (max_regen_total=3, max_regen_per_component=0).".to_string()));
}

#[test]
fn review_requests_start_with_their_pass() {
    let mut j = job(AiPhase::CapturingReview);
    j.has_review_images = true;
    j.auto_refine_passes_done = 0;
    let (next, start) = review_request_start_step(&j, true, 2, 9, 8, true, "unknown");
    assert_eq!(next.phase, AiPhase::WaitingReview);
    assert!(!next.has_review_images && next.has_shared_result);
    assert_eq!(
        start,
        ReviewStart::Send { status: "Auto-reviewing assembly… (pass 1)".to_string(), prefix: "review01".to_string(), inputs: 8 }
    );
    let mut per = j;
    per.review_kind = ReviewKind::PerComponent;
    per.review_component_idx = Some(11);
    per.per_component_refine_passes_done = 2;
    per.per_component_refine_passes_remaining = 1;
    let (_, start) = review_request_start_step(&per, true, 0, 7, 8, false, "left arm");
    assert_eq!(
        start,
        ReviewStart::Send {
            status: "Auto-reviewing assembly… (after left arm)\n(pass 2/3)".to_string(),
            prefix: "percomp_component12_review02".to_string(),
            inputs: 0
        }
    );
    let (next, start) = review_request_start_step(&j, false, 0, 7, 8, true, "unknown");
    assert!(!next.running);
    assert_eq!(
        start,
        ReviewStart::Failed {
            action: PollAction::Finished {
                status: "Build finished (auto-review failed). Orbit/zoom the preview, then click Build to start a new run.".to_string(),
                error: Some("Internal error: missing AI config.".to_string())
            }
        }
    );
}
