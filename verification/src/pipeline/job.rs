//! The decisions of a running build job, polled once a frame: budget stops,
//! speed-mode changes, the review-capture phase, failing or finishing a run,
//! and the queue of component requests with its retries. The engine around
//! it performs what an action asks (cameras, threads, files) and reports back.
use vstd::prelude::*;

use crate::pipeline::progress::{truncate_for_ui, truncated_for_ui};
use crate::text::{decimal, owned, push_decimal, push_str, trim};

verus! {

/// What a job is doing.
#[derive(Clone, Copy, Debug, PartialEq, Eq, Structural)]
pub enum AiPhase {
    Idle,
    WaitingPlan,
    WaitingComponent,
    CapturingReview,
    WaitingReview,
    AgentWaitingStep,
    AgentExecutingActions,
    AgentWaitingTool,
    AgentCapturingRender,
    AgentCapturingPassSnapshot,
}

/// How a run is driven: by the fixed pipeline or by the agent loop.
#[derive(Clone, Copy, Debug, PartialEq, Eq, Structural)]
pub enum AiMode {
    Pipeline,
    Agent,
}

/// What an automatic review looks at: the whole assembly at the end of a
/// run, or the assembly right after one component.
#[derive(Clone, Copy, Debug, PartialEq, Eq, Structural)]
pub enum ReviewKind {
    EndOfRun,
    PerComponent,
}

/// The plain-value state of a build job. The `has_` flags say whether the
/// engine currently holds the corresponding handle (cancel flag, pending
/// model reply, progress line, review capture, motion capture, captured
/// review images, pass directory, a tool call of the agent awaiting its
/// result).
#[derive(Clone, Copy, Debug, PartialEq, Eq, Structural)]
pub struct AiJobState {
    pub running: bool,
    pub build_complete: bool,
    pub phase: AiPhase,
    pub mode: AiMode,
    pub review_kind: ReviewKind,
    pub current_run_tokens: u64,
    pub auto_refine_passes_done: u32,
    pub auto_refine_passes_remaining: u32,
    pub per_component_refine_passes_done: u32,
    pub per_component_refine_passes_remaining: u32,
    pub capture_previews_only: bool,
    pub has_cancel_flag: bool,
    pub has_shared_result: bool,
    pub has_shared_progress: bool,
    pub has_review_capture: bool,
    pub has_motion_capture: bool,
    pub has_review_images: bool,
    pub has_pass_dir: bool,
    pub has_pending_tool_call: bool,
    pub plan_attempt: u8,
    pub review_component_idx: Option<usize>,
    pub replan_attempts: u32,
    pub regen_total: u32,
    pub review_delta_repair_attempt: u8,
}

/// The status line and error shown to the user.
#[derive(Clone, Debug, PartialEq, Eq)]
pub struct WorkshopState {
    pub status: String,
    pub error: Option<String>,
}

/// The limits of a run: seconds and tokens (0 for no limit), the end-of-run
/// refine passes and per-component refine cycles of the current speed mode.
#[derive(Clone, Copy, Debug, PartialEq, Eq, Structural)]
pub struct RunLimits {
    pub max_seconds: u64,
    pub max_tokens: u64,
    pub refine_passes: u32,
    pub component_refine_cycles: u32,
}

/// What the engine saw since the last poll: nothing in particular, or the
/// progress of the static review capture (with the first image that is
/// missing on disk once the capture completed, and how many images it took).
#[derive(Clone, Debug, PartialEq, Eq)]
pub enum PollEvent {
    Frame,
    StaticCapture { done: u32, expected: u32, missing_image: Option<String>, image_count: usize },
}

/// The event, with its texts as character sequences.
pub enum PollEventView {
    Frame,
    StaticCapture { done: u32, expected: u32, missing_image: Option<Seq<char>>, image_count: usize },
}

impl PollEvent {
    pub open spec fn view(&self) -> PollEventView {
        match self {
            PollEvent::Frame => PollEventView::Frame,
            PollEvent::StaticCapture { done, expected, missing_image, image_count } => PollEventView::StaticCapture {
                done: *done,
                expected: *expected,
                missing_image: match missing_image {
                    Some(p) => Some(p@),
                    None => None,
                },
                image_count: *image_count,
            },
        }
    }
}

/// What the engine is asked to do after a poll.
#[derive(Clone, Debug, PartialEq, Eq)]
pub enum PollAction {
    /// Nothing this frame.
    Wait,
    /// The time budget is spent: stop the run with `finish_job_best_effort`.
    StopForTimeBudget,
    /// The token budget is spent: stop the run with `finish_job_best_effort`
    /// and this reason.
    StopForTokenBudget { reason: String },
    /// Hand the frame to the agent loop.
    PollAgent,
    /// The run has ended: remove the review cameras, close the run's metrics
    /// and show `status` (and `error`, when there is one).
    Finished { status: String, error: Option<String> },
    /// Show `status` (and `error`) and resume the component queue saved
    /// before a per-component review.
    ResumeAfterPerComponentReview { status: String, error: Option<String> },
    /// Poll the components generated in parallel.
    PollParallelComponents,
    /// Show `message` on the progress line.
    ReportProgress { message: String },
    /// Keep the captured images and start capturing the motion sheets,
    /// showing `progress` on the progress line when there is one.
    StartMotionCapture { progress: Option<String> },
    /// Poll the motion-sheet capture.
    PollMotionCapture,
    /// Send the captured images for review.
    StartReviewRequest,
    /// Start a new static capture of the review views.
    StartStaticCapture,
    /// Poll the pending model reply.
    PollAiResult,
}

/// The action, with its texts as character sequences.
pub enum PollActionView {
    Wait,
    StopForTimeBudget,
    StopForTokenBudget { reason: Seq<char> },
    PollAgent,
    Finished { status: Seq<char>, error: Option<Seq<char>> },
    ResumeAfterPerComponentReview { status: Seq<char>, error: Option<Seq<char>> },
    PollParallelComponents,
    ReportProgress { message: Seq<char> },
    StartMotionCapture { progress: Option<Seq<char>> },
    PollMotionCapture,
    StartReviewRequest,
    StartStaticCapture,
    PollAiResult,
}

/// An optional text as an optional character sequence.
pub open spec fn opt_text(s: Option<String>) -> Option<Seq<char>> {
    match s {
        Some(t) => Some(t@),
        None => None,
    }
}

impl PollAction {
    pub open spec fn view(&self) -> PollActionView {
        match self {
            PollAction::Wait => PollActionView::Wait,
            PollAction::StopForTimeBudget => PollActionView::StopForTimeBudget,
            PollAction::StopForTokenBudget { reason } => PollActionView::StopForTokenBudget { reason: reason@ },
            PollAction::PollAgent => PollActionView::PollAgent,
            PollAction::Finished { status, error } => PollActionView::Finished {
                status: status@,
                error: opt_text(*error),
            },
            PollAction::ResumeAfterPerComponentReview { status, error } =>
                PollActionView::ResumeAfterPerComponentReview { status: status@, error: opt_text(*error) },
            PollAction::PollParallelComponents => PollActionView::PollParallelComponents,
            PollAction::ReportProgress { message } => PollActionView::ReportProgress { message: message@ },
            PollAction::StartMotionCapture { progress } => PollActionView::StartMotionCapture {
                progress: opt_text(*progress),
            },
            PollAction::PollMotionCapture => PollActionView::PollMotionCapture,
            PollAction::StartReviewRequest => PollActionView::StartReviewRequest,
            PollAction::StartStaticCapture => PollActionView::StartStaticCapture,
            PollAction::PollAiResult => PollActionView::PollAiResult,
        }
    }
}

// ---------------------------------------------------------------------------
// Status texts
// ---------------------------------------------------------------------------

pub open spec fn finished_status() -> Seq<char> {
    "Build finished. Orbit/zoom the preview. Click Build to start a new run."@
}

pub open spec fn review_skipped_status() -> Seq<char> {
    "Build finished. (Auto-review skipped due to speed mode change.) Orbit/zoom the preview. Click Build to start a new run."@
}

pub open spec fn per_component_skipped_status() -> Seq<char> {
    "Auto-review skipped due to speed mode change (continuing build)."@
}

pub open spec fn review_failed_continuing_status() -> Seq<char> {
    "Auto-review failed (continuing build)."@
}

pub open spec fn review_failed_finished_status() -> Seq<char> {
    "Build finished (auto-review failed). Orbit/zoom the preview, then click Build to start a new run."@
}

pub open spec fn previews_saved_status() -> Seq<char> {
    "Build finished. (Preview renders saved.) Orbit/zoom the preview. Click Build to start a new run."@
}

/// The reason given when the token budget is spent.
pub open spec fn token_budget_reason(tokens: u64, max: u64) -> Seq<char> {
    "Token budget exhausted ("@ + decimal(tokens as nat) + " >= "@ + decimal(max as nat) + ")."@
}

/// The progress line of a static capture.
pub open spec fn capture_progress_message(previews_only: bool, done: u32, expected: u32) -> Seq<char> {
    (if previews_only {
        "Capturing preview renders… ("@
    } else {
        "Capturing review views… ("@
    }) + decimal(done as nat) + "/"@ + decimal(expected as nat) + ")"@
}

/// The error shown when a captured image is missing.
pub open spec fn missing_image_error(previews_only: bool, path: Seq<char>) -> Seq<char> {
    "Failed to capture "@ + (if previews_only {
        "preview"@
    } else {
        "review"@
    }) + " image: "@ + path
}

// ---------------------------------------------------------------------------
// State changes
// ---------------------------------------------------------------------------

/// A run that has ended (`build_complete` says whether it produced a build).
pub open spec fn ended(job: AiJobState, build_complete: bool) -> AiJobState {
    AiJobState { running: false, build_complete, phase: AiPhase::Idle, ..job }
}

/// What failing a run leaves of the job.
pub open spec fn failed_job(job: AiJobState) -> AiJobState {
    AiJobState {
        has_cancel_flag: false,
        has_pending_tool_call: false,
        running: false,
        build_complete: false,
        phase: AiPhase::Idle,
        plan_attempt: 0,
        review_kind: ReviewKind::EndOfRun,
        review_component_idx: None,
        has_shared_progress: false,
        has_shared_result: false,
        has_review_capture: false,
        capture_previews_only: false,
        per_component_refine_passes_remaining: 0,
        per_component_refine_passes_done: 0,
        replan_attempts: 0,
        regen_total: 0,
        review_delta_repair_attempt: 0,
        ..job
    }
}

/// What stopping a run on its budget leaves of the job.
pub open spec fn best_effort_job(job: AiJobState) -> AiJobState {
    AiJobState {
        has_cancel_flag: false,
        has_pending_tool_call: false,
        has_review_capture: false,
        has_review_images: false,
        has_motion_capture: false,
        capture_previews_only: false,
        running: false,
        build_complete: true,
        phase: AiPhase::Idle,
        has_shared_progress: false,
        has_shared_result: false,
        review_delta_repair_attempt: 0,
        ..job
    }
}

/// The status shown after a run stopped on its budget.
pub open spec fn best_effort_status(reason: Seq<char>) -> Seq<char> {
    "Build finished (best effort).\nReason: "@ + truncated_for_ui(reason, 600)
        + "\nYou can Save this draft or click Build to start a new run."@
}

/// The component requests of a run: the queue of component indices still to
/// request (with the position of a sequential build), the attempt of each
/// component, and the number of requests in flight.
#[derive(Clone, Debug, PartialEq, Eq)]
pub struct ComponentQueue {
    pub queue: Vec<usize>,
    pub queue_pos: usize,
    pub attempts: Vec<u8>,
    pub in_flight: usize,
}

/// What the engine must do when a run stops: signal the run's cancel flag
/// (store `true` in it before it is dropped), and answer the agent's pending
/// tool call with this error.
#[derive(Clone, Debug, PartialEq, Eq)]
pub struct StopSignals {
    pub cancel_run: bool,
    pub aborted_tool_call: Option<String>,
}

/// The signals of a stopping run: the cancel flag is signalled when the job
/// holds one, and a pending tool call is answered with `prefix` and the
/// reason.
pub open spec fn stop_signals(job: AiJobState, prefix: Seq<char>, reason: Seq<char>) -> (bool, Option<Seq<char>>) {
    (job.has_cancel_flag, if job.has_pending_tool_call {
        Some(prefix + reason)
    } else {
        None
    })
}

fn stop_signals_exec(job: &AiJobState, prefix: &str, reason: &str) -> (out: StopSignals)
    ensures
        (out.cancel_run, opt_text(out.aborted_tool_call)) == stop_signals(*job, prefix@, reason@),
{
    let aborted_tool_call = if job.has_pending_tool_call {
        let mut m = owned(prefix);
        push_str(&mut m, reason);
        Some(m)
    } else {
        None
    };
    StopSignals { cancel_run: job.has_cancel_flag, aborted_tool_call }
}

/// Fails the run: the job is reset (see `failed_job`), its component
/// requests are dropped, and the error is shown with the status
/// `Build failed.`. The engine signals the cancel flag and answers a pending
/// tool call as the result says (see `stop_signals`).
pub fn fail_job(job: &mut AiJobState, components: &mut ComponentQueue, ws: &mut WorkshopState, err: String) -> (signals: StopSignals)
    ensures
        (signals.cancel_run, opt_text(signals.aborted_tool_call)) == stop_signals(*old(job), "Run failed: "@, err@),
        *final(job) == failed_job(*old(job)),
        final(components).queue@.len() == 0,
        final(components).queue_pos == 0,
        final(components).attempts@.len() == 0,
        final(components).in_flight == 0,
        final(ws).status@ == "Build failed."@,
        final(ws).error == Some(err),
{
    let signals = stop_signals_exec(job, "Run failed: ", err.as_str());
    *job = AiJobState {
        has_cancel_flag: false,
        has_pending_tool_call: false,
        running: false,
        build_complete: false,
        phase: AiPhase::Idle,
        plan_attempt: 0,
        review_kind: ReviewKind::EndOfRun,
        review_component_idx: None,
        has_shared_progress: false,
        has_shared_result: false,
        has_review_capture: false,
        capture_previews_only: false,
        per_component_refine_passes_remaining: 0,
        per_component_refine_passes_done: 0,
        replan_attempts: 0,
        regen_total: 0,
        review_delta_repair_attempt: 0,
        ..*job
    };
    components.queue = Vec::new();
    components.queue_pos = 0;
    components.attempts = Vec::new();
    components.in_flight = 0;
    ws.error = Some(err);
    ws.status = owned("Build failed.");
    signals
}

/// Stops a run on its budget, keeping the draft built so far: the job ends
/// as a complete build (see `best_effort_job`), its component requests are
/// dropped, the error is cleared and the status gives the reason. The engine
/// signals the cancel flag and answers a pending tool call as the result
/// says (see `stop_signals`).
pub fn finish_job_best_effort(
    job: &mut AiJobState,
    components: &mut ComponentQueue,
    ws: &mut WorkshopState,
    reason: &str,
) -> (signals: StopSignals)
    ensures
        (signals.cancel_run, opt_text(signals.aborted_tool_call)) == stop_signals(
            *old(job),
            "Run stopped (best effort): "@,
            reason@,
        ),
        *final(job) == best_effort_job(*old(job)),
        final(components).queue@.len() == 0,
        final(components).queue_pos == 0,
        final(components).attempts@.len() == 0,
        final(components).in_flight == 0,
        final(ws).status@ == best_effort_status(reason@),
        final(ws).error is None,
{
    let signals = stop_signals_exec(job, "Run stopped (best effort): ", reason);
    *job = AiJobState {
        has_cancel_flag: false,
        has_pending_tool_call: false,
        has_review_capture: false,
        has_review_images: false,
        has_motion_capture: false,
        capture_previews_only: false,
        running: false,
        build_complete: true,
        phase: AiPhase::Idle,
        has_shared_progress: false,
        has_shared_result: false,
        review_delta_repair_attempt: 0,
        ..*job
    };
    components.queue = Vec::new();
    components.queue_pos = 0;
    components.attempts = Vec::new();
    components.in_flight = 0;
    let mut status = owned("Build finished (best effort).\nReason: ");
    let cut = truncate_for_ui(reason, 600);
    push_str(&mut status, cut.as_str());
    push_str(&mut status, "\nYou can Save this draft or click Build to start a new run.");
    ws.error = None;
    ws.status = status;
    signals
}

// ---------------------------------------------------------------------------
// The poll step
// ---------------------------------------------------------------------------

/// A review that could not be made: after a per-component review the build
/// goes on; otherwise the run ends as a complete build.
pub open spec fn review_failed(job: AiJobState, error: Option<Seq<char>>) -> (AiJobState, PollActionView) {
    if job.review_kind == ReviewKind::PerComponent {
        (
            AiJobState { has_review_capture: false, ..job },
            PollActionView::ResumeAfterPerComponentReview { status: review_failed_continuing_status(), error },
        )
    } else {
        (
            AiJobState { has_review_capture: false, has_shared_progress: false, ..ended(job, true) },
            PollActionView::Finished { status: review_failed_finished_status(), error },
        )
    }
}

/// The review-capture phase: wait for the static views, then capture the
/// motion sheets, then ask for the review; start a capture when there is
/// none. Without a capture report the static capture counts as 0 of 7.
pub open spec fn capture_step(job: AiJobState, event: PollEventView) -> (AiJobState, PollActionView) {
    if job.has_review_capture {
        let (done, expected, missing, count) = match event {
            PollEventView::StaticCapture { done, expected, missing_image, image_count } => (
                done,
                expected,
                missing_image,
                image_count,
            ),
            PollEventView::Frame => (0u32, 7u32, None, 0usize),
        };
        if done < expected {
            (
                job,
                if job.has_shared_progress {
                    PollActionView::ReportProgress {
                        message: capture_progress_message(job.capture_previews_only, done, expected),
                    }
                } else {
                    PollActionView::Wait
                },
            )
        } else {
            let j = AiJobState { has_review_capture: false, ..job };
            match missing {
                Some(p) => review_failed(j, Some(missing_image_error(j.capture_previews_only, p))),
                None => if j.capture_previews_only {
                    (
                        AiJobState { capture_previews_only: false, has_shared_progress: false, ..ended(j, true) },
                        PollActionView::Finished { status: previews_saved_status(), error: None },
                    )
                } else {
                    (
                        AiJobState { has_review_images: count > 0, has_motion_capture: true, ..j },
                        PollActionView::StartMotionCapture {
                            progress: if j.has_shared_progress {
                                Some("Capturing move animation…"@)
                            } else {
                                None
                            },
                        },
                    )
                },
            }
        }
    } else if job.has_motion_capture {
        (job, PollActionView::PollMotionCapture)
    } else if job.has_review_images {
        (job, PollActionView::StartReviewRequest)
    } else if !job.has_pass_dir {
        review_failed(job, Some("Internal error: missing Gen3D cache dir."@))
    } else {
        (job, PollActionView::StartStaticCapture)
    }
}

/// The review or capture phase of a job.
pub open spec fn in_review(job: AiJobState) -> bool {
    job.phase == AiPhase::CapturingReview || job.phase == AiPhase::WaitingReview
}

/// The end-of-run refine passes still to do when the speed mode asks for
/// `desired` passes in all.
pub open spec fn remaining_for(job: AiJobState, desired: u32) -> u32 {
    if desired == job.auto_refine_passes_done + job.auto_refine_passes_remaining {
        job.auto_refine_passes_remaining
    } else if desired >= job.auto_refine_passes_done {
        (desired - job.auto_refine_passes_done) as u32
    } else {
        0
    }
}

/// One poll of a running pipeline job: stop on a spent budget, hand agent
/// runs to the agent loop, follow speed-mode changes (no end-of-run review
/// when no refine pass is wanted, no per-component review when no refine
/// cycle is), then go by phase.
pub open spec fn poll_step(job: AiJobState, limits: RunLimits, elapsed_secs: Option<u64>, event: PollEventView) -> (
    AiJobState,
    PollActionView,
) {
    if !job.running || job.phase == AiPhase::Idle {
        (job, PollActionView::Wait)
    } else if limits.max_seconds > 0 && elapsed_secs is Some && elapsed_secs->0 >= limits.max_seconds {
        (job, PollActionView::StopForTimeBudget)
    } else if limits.max_tokens > 0 && job.current_run_tokens >= limits.max_tokens {
        (job, PollActionView::StopForTokenBudget { reason: token_budget_reason(job.current_run_tokens, limits.max_tokens) })
    } else if job.mode == AiMode::Agent {
        (job, PollActionView::PollAgent)
    } else if limits.refine_passes == 0 && in_review(job) && job.review_kind == ReviewKind::EndOfRun
        && !job.capture_previews_only {
        (
            AiJobState { has_review_capture: false, has_shared_result: false, has_shared_progress: false, ..ended(job, true) },
            PollActionView::Finished { status: review_skipped_status(), error: None },
        )
    } else {
        let j = AiJobState { auto_refine_passes_remaining: remaining_for(job, limits.refine_passes), ..job };
        if limits.component_refine_cycles == 0 && j.review_kind == ReviewKind::PerComponent && in_review(j) {
            (
                AiJobState { has_review_capture: false, has_shared_result: false, ..j },
                PollActionView::ResumeAfterPerComponentReview { status: per_component_skipped_status(), error: None },
            )
        } else if j.phase == AiPhase::WaitingComponent && !j.has_shared_result {
            (j, PollActionView::PollParallelComponents)
        } else if j.phase == AiPhase::CapturingReview {
            capture_step(j, event)
        } else {
            (j, PollActionView::PollAiResult)
        }
    }
}

/// The outcome of a review that could not be made (see `review_failed`),
/// with `error` shown to the user.
pub fn review_failed_step(job: &AiJobState, error: String) -> (out: (AiJobState, PollAction))
    ensures
        (out.0, out.1@) == review_failed(*job, Some(error@)),
{
    if job.review_kind == ReviewKind::PerComponent {
        (
            AiJobState { has_review_capture: false, ..*job },
            PollAction::ResumeAfterPerComponentReview {
                status: owned("Auto-review failed (continuing build)."),
                error: Some(error),
            },
        )
    } else {
        (
            AiJobState {
                has_review_capture: false,
                has_shared_progress: false,
                running: false,
                build_complete: true,
                phase: AiPhase::Idle,
                ..*job
            },
            PollAction::Finished {
                status: owned(
                    "Build finished (auto-review failed). Orbit/zoom the preview, then click Build to start a new run.",
                ),
                error: Some(error),
            },
        )
    }
}

fn capture_progress_text(previews_only: bool, done: u32, expected: u32) -> (out: String)
    ensures
        out@ == capture_progress_message(previews_only, done, expected),
{
    let mut out = if previews_only {
        owned("Capturing preview renders… (")
    } else {
        owned("Capturing review views… (")
    };
    push_decimal(&mut out, done as u64);
    push_str(&mut out, "/");
    push_decimal(&mut out, expected as u64);
    push_str(&mut out, ")");
    out
}

fn capture_step_exec(job: AiJobState, event: PollEvent) -> (out: (AiJobState, PollAction))
    ensures
        (out.0, out.1@) == capture_step(job, event@),
{
    if job.has_review_capture {
        let (done, expected, missing, count) = match event {
            PollEvent::StaticCapture { done, expected, missing_image, image_count } => (
                done,
                expected,
                missing_image,
                image_count,
            ),
            PollEvent::Frame => (0u32, 7u32, None, 0usize),
        };
        if done < expected {
            if job.has_shared_progress {
                return (
                    job,
                    PollAction::ReportProgress {
                        message: capture_progress_text(job.capture_previews_only, done, expected),
                    },
                );
            }
            return (job, PollAction::Wait);
        }
        let j = AiJobState { has_review_capture: false, ..job };
        match missing {
            Some(p) => {
                let mut e = owned("Failed to capture ");
                if j.capture_previews_only {
                    push_str(&mut e, "preview");
                } else {
                    push_str(&mut e, "review");
                }
                push_str(&mut e, " image: ");
                push_str(&mut e, p.as_str());
                review_failed_step(&j, e)
            },
            None => {
                if j.capture_previews_only {
                    (
                        AiJobState {
                            capture_previews_only: false,
                            has_shared_progress: false,
                            running: false,
                            build_complete: true,
                            phase: AiPhase::Idle,
                            ..j
                        },
                        PollAction::Finished {
                            status: owned(
                                "Build finished. (Preview renders saved.) Orbit/zoom the preview. Click Build to start a new run.",
                            ),
                            error: None,
                        },
                    )
                } else {
                    let message = if j.has_shared_progress {
                        Some(owned("Capturing move animation…"))
                    } else {
                        None
                    };
                    (
                        AiJobState { has_review_images: count > 0, has_motion_capture: true, ..j },
                        PollAction::StartMotionCapture { progress: message },
                    )
                }
            },
        }
    } else if job.has_motion_capture {
        (job, PollAction::PollMotionCapture)
    } else if job.has_review_images {
        (job, PollAction::StartReviewRequest)
    } else if !job.has_pass_dir {
        review_failed_step(&job, owned("Internal error: missing Gen3D cache dir."))
    } else {
        (job, PollAction::StartStaticCapture)
    }
}

/// One poll of a build job (see `poll_step`). `elapsed_secs` is the whole
/// seconds since the run started, when it has started.
pub fn poll_ai_job_step(job: &AiJobState, limits: &RunLimits, elapsed_secs: Option<u64>, event: PollEvent) -> (out: (
    AiJobState,
    PollAction,
))
    requires
        job.auto_refine_passes_done + job.auto_refine_passes_remaining <= u32::MAX,
    ensures
        (out.0, out.1@) == poll_step(*job, *limits, elapsed_secs, event@),
{
    let job = *job;
    if !job.running || job.phase == AiPhase::Idle {
        return (job, PollAction::Wait);
    }
    if limits.max_seconds > 0 {
        if let Some(e) = elapsed_secs {
            if e >= limits.max_seconds {
                return (job, PollAction::StopForTimeBudget);
            }
        }
    }
    if limits.max_tokens > 0 && job.current_run_tokens >= limits.max_tokens {
        let mut reason = owned("Token budget exhausted (");
        push_decimal(&mut reason, job.current_run_tokens);
        push_str(&mut reason, " >= ");
        push_decimal(&mut reason, limits.max_tokens);
        push_str(&mut reason, ").");
        return (job, PollAction::StopForTokenBudget { reason });
    }
    if job.mode == AiMode::Agent {
        return (job, PollAction::PollAgent);
    }
    let reviewing = job.phase == AiPhase::CapturingReview || job.phase == AiPhase::WaitingReview;
    if limits.refine_passes == 0 && reviewing && job.review_kind == ReviewKind::EndOfRun && !job.capture_previews_only {
        return (
            AiJobState {
                has_review_capture: false,
                has_shared_result: false,
                has_shared_progress: false,
                running: false,
                build_complete: true,
                phase: AiPhase::Idle,
                ..job
            },
            PollAction::Finished {
                status: owned(
                    "Build finished. (Auto-review skipped due to speed mode change.) Orbit/zoom the preview. Click Build to start a new run.",
                ),
                error: None,
            },
        );
    }
    let desired = limits.refine_passes;
    let remaining = if desired == job.auto_refine_passes_done + job.auto_refine_passes_remaining {
        job.auto_refine_passes_remaining
    } else if desired >= job.auto_refine_passes_done {
        desired - job.auto_refine_passes_done
    } else {
        0
    };
    let j = AiJobState { auto_refine_passes_remaining: remaining, ..job };
    if limits.component_refine_cycles == 0 && j.review_kind == ReviewKind::PerComponent && reviewing {
        return (
            AiJobState { has_review_capture: false, has_shared_result: false, ..j },
            PollAction::ResumeAfterPerComponentReview {
                status: owned("Auto-review skipped due to speed mode change (continuing build)."),
                error: None,
            },
        );
    }
    if j.phase == AiPhase::WaitingComponent && !j.has_shared_result {
        return (j, PollAction::PollParallelComponents);
    }
    if j.phase == AiPhase::CapturingReview {
        return capture_step_exec(j, event);
    }
    (j, PollAction::PollAiResult)
}

// ---------------------------------------------------------------------------
// Components generated in parallel
// ---------------------------------------------------------------------------

/// How many times a failed component request is tried again.
pub const MAX_COMPONENT_RETRIES: u8 = 1;

/// The component requests, as values.
pub struct ComponentQueueView {
    pub queue: Seq<usize>,
    pub queue_pos: usize,
    pub attempts: Seq<u8>,
    pub in_flight: usize,
}

impl ComponentQueue {
    pub open spec fn view(&self) -> ComponentQueueView {
        ComponentQueueView {
            queue: self.queue@,
            queue_pos: self.queue_pos,
            attempts: self.attempts@,
            in_flight: self.in_flight,
        }
    }
}

/// What becomes of a component whose request has come back.
#[derive(Clone, Copy, Debug, PartialEq, Eq, Structural)]
pub enum ComponentAction {
    /// The reply was usable: apply it to the draft.
    Apply,
    /// The request is queued again, first, as this attempt.
    Retry { next_attempt: u8 },
    /// The retries are spent: fail the run with the request's error.
    FailJob,
}

/// The attempts list grown with zeros to `total` entries when it does not
/// reach `idx`.
pub open spec fn attempts_covering(attempts: Seq<u8>, idx: usize, total: usize) -> Seq<u8> {
    if idx >= attempts.len() && total > attempts.len() {
        attempts + Seq::new((total - attempts.len()) as nat, |i: int| 0u8)
    } else {
        attempts
    }
}

/// A request for component `idx` came back, as attempt `attempt`, usable or
/// not: it leaves the requests in flight; a usable reply is applied; a
/// failed one is queued again at the front while retries remain, and fails
/// the run after that.
pub open spec fn component_step(q: ComponentQueueView, idx: usize, attempt: u8, ok: bool, total: usize) -> (
    ComponentQueueView,
    ComponentAction,
) {
    let q1 = ComponentQueueView { in_flight: (q.in_flight - 1) as usize, ..q };
    if ok {
        (q1, ComponentAction::Apply)
    } else if attempt < MAX_COMPONENT_RETRIES {
        (
            ComponentQueueView {
                queue: seq![idx] + q.queue,
                attempts: attempts_covering(q.attempts, idx, total).update(idx as int, (attempt + 1) as u8),
                ..q1
            },
            ComponentAction::Retry { next_attempt: (attempt + 1) as u8 },
        )
    } else {
        (q1, ComponentAction::FailJob)
    }
}

fn copy_indices(v: &Vec<usize>) -> (out: Vec<usize>)
    ensures
        out@ == v@,
{
    let mut out: Vec<usize> = Vec::new();
    let mut i: usize = 0;
    while i < v.len()
        invariant
            i <= v.len(),
            out@ == v@.take(i as int),
        decreases v.len() - i,
    {
        out.push(v[i]);
        assert(v@.take(i as int).push(v@[i as int]) =~= v@.take(i + 1));
        i = i + 1;
    }
    assert(v@.take(v.len() as int) =~= v@);
    out
}

fn copy_attempts(v: &Vec<u8>) -> (out: Vec<u8>)
    ensures
        out@ == v@,
{
    let mut out: Vec<u8> = Vec::new();
    let mut i: usize = 0;
    while i < v.len()
        invariant
            i <= v.len(),
            out@ == v@.take(i as int),
        decreases v.len() - i,
    {
        out.push(v[i]);
        assert(v@.take(i as int).push(v@[i as int]) =~= v@.take(i + 1));
        i = i + 1;
    }
    assert(v@.take(v.len() as int) =~= v@);
    out
}

/// The outcome of a component request that came back (see
/// `component_step`); `total` is the number of planned components.
pub fn component_outcome_step(q: &ComponentQueue, idx: usize, attempt: u8, ok: bool, total: usize) -> (r: (
    ComponentQueue,
    ComponentAction,
))
    requires
        q.in_flight > 0,
        idx < total,
    ensures
        (r.0@, r.1) == component_step(q@, idx, attempt, ok, total),
{
    let in_flight = q.in_flight - 1;
    let mut queue = copy_indices(&q.queue);
    let mut attempts = copy_attempts(&q.attempts);
    if ok {
        return (ComponentQueue { queue, queue_pos: q.queue_pos, attempts, in_flight }, ComponentAction::Apply);
    }
    if attempt < MAX_COMPONENT_RETRIES {
        let next = attempt + 1;
        if idx >= attempts.len() {
            let ghost before = attempts@;
            while attempts.len() < total
                invariant
                    before.len() <= attempts@.len() <= total,
                    attempts@ == before + Seq::new((attempts@.len() - before.len()) as nat, |i: int| 0u8),
                decreases total - attempts.len(),
            {
                let ghost a0 = attempts@;
                attempts.push(0);
                assert(attempts@ =~= before + Seq::new((attempts@.len() - before.len()) as nat, |i: int| 0u8));
            }
        }
        attempts.set(idx, next);
        queue.insert(0, idx);
        proof {
            assert(queue@ =~= seq![idx] + q.queue@);
        }
        return (
            ComponentQueue { queue, queue_pos: q.queue_pos, attempts, in_flight },
            ComponentAction::Retry { next_attempt: next },
        );
    }
    (ComponentQueue { queue, queue_pos: q.queue_pos, attempts, in_flight }, ComponentAction::FailJob)
}

/// How many component requests may be in flight at once: the configured
/// number, at least one and at most the number of components; only one
/// while it is unknown whether the provider continues from a previous
/// response and there is one to continue from.
pub open spec fn parallel_limit_spec(max_parallel: usize, total: usize, has_previous_id: bool, continuation_known: bool) -> usize {
    let p = if max_parallel < 1 {
        1usize
    } else {
        max_parallel
    };
    let p = if p < total {
        p
    } else {
        total
    };
    if has_previous_id && !continuation_known && p > 1 {
        1
    } else {
        p
    }
}

/// The number of component requests allowed in flight (see
/// `parallel_limit_spec`).
pub fn parallel_limit(max_parallel: usize, total: usize, has_previous_id: bool, continuation_known: bool) -> (p: usize)
    ensures
        p == parallel_limit_spec(max_parallel, total, has_previous_id, continuation_known),
        p <= max_parallel || p <= 1,
        p <= total,
        total >= 1 ==> p >= 1,
        !(has_previous_id && !continuation_known) ==> p == (if max_parallel <= 1 {
            if total < 1 {
                total
            } else {
                1
            }
        } else if max_parallel < total {
            max_parallel
        } else {
            total
        }),
{
    let p = if max_parallel < 1 {
        1
    } else {
        max_parallel
    };
    let p = if p < total {
        p
    } else {
        total
    };
    if has_previous_id && !continuation_known && p > 1 {
        1
    } else {
        p
    }
}

/// The queue with its first valid component taken, when fewer than
/// `parallel` requests are in flight: indices past the planned components
/// are dropped on the way. The result names the component and the attempt
/// recorded for it (0 when none is).
pub open spec fn next_request(q: ComponentQueueView, total: usize, parallel: usize) -> (ComponentQueueView, Option<(usize, u8)>)
    decreases q.queue.len(),
{
    if q.in_flight >= parallel || q.queue.len() == 0 {
        (q, None)
    } else {
        let idx = q.queue[0];
        let rest = ComponentQueueView { queue: q.queue.drop_first(), ..q };
        if idx >= total {
            next_request(rest, total, parallel)
        } else {
            (
                ComponentQueueView { in_flight: (q.in_flight + 1) as usize, ..rest },
                Some((idx, if idx < q.attempts.len() { q.attempts[idx as int] } else { 0u8 })),
            )
        }
    }
}

/// Takes the next component to request, if any (see `next_request`).
pub fn take_next_component(q: &mut ComponentQueue, total: usize, parallel: usize) -> (r: Option<(usize, u8)>)
    requires
        old(q).in_flight < usize::MAX,
    ensures
        (final(q)@, r) == next_request(old(q)@, total, parallel),
{
    loop
        invariant
            q.in_flight == old(q).in_flight,
            q.queue_pos == old(q).queue_pos,
            q.attempts@ == old(q).attempts@,
            q.in_flight < usize::MAX,
            next_request(q@, total, parallel) == next_request(old(q)@, total, parallel),
        decreases q.queue.len(),
    {
        if q.in_flight >= parallel || q.queue.len() == 0 {
            return None;
        }
        let idx = q.queue.remove(0);
        if idx < total {
            q.in_flight = q.in_flight + 1;
            let attempt = if idx < q.attempts.len() {
                q.attempts[idx]
            } else {
                0
            };
            return Some((idx, attempt));
        }
    }
}

/// What a poll of the parallel components does once all are built.
#[derive(Clone, Debug, PartialEq, Eq)]
pub enum ComponentsAction {
    /// Components are still being built.
    Continue,
    /// Start an automatic review pass, showing `progress` on the progress
    /// line when there is one.
    StartAutoReview { progress: Option<&'static str> },
    /// Capture preview renders of the finished build.
    CapturePreviews,
    /// The run is finished: close its metrics.
    Finished,
}

/// The status while components are built.
pub open spec fn building_status(done: usize, total: usize, in_flight: usize, pending: usize, parallel: usize) -> Seq<char> {
    "Building components… ("@ + decimal(done as nat) + "/"@ + decimal(total as nat) + ")\nIn flight: "@
        + decimal(in_flight as nat) + " | pending: "@ + decimal(pending as nat) + "\nParallel: "@
        + decimal(parallel as nat)
}

/// The job, status and action after a poll of the parallel components:
/// `done` of `total` components built, with `in_flight` requests out and
/// `pending` queued. Once all are built and nothing is out or queued, an
/// end-of-run refine pass starts when one remains; else preview renders are
/// captured when there is a pass directory; else the run is finished.
pub open spec fn components_progress(
    job: AiJobState,
    done: usize,
    total: usize,
    in_flight: usize,
    pending: usize,
    parallel: usize,
) -> (AiJobState, Seq<char>, ComponentsAction) {
    if done == total && in_flight == 0 && pending == 0 {
        if job.auto_refine_passes_remaining > 0 {
            let j = AiJobState {
                auto_refine_passes_remaining: (job.auto_refine_passes_remaining - 1) as u32,
                auto_refine_passes_done: (job.auto_refine_passes_done + 1) as u32,
                phase: AiPhase::CapturingReview,
                has_review_capture: false,
                has_review_images: false,
                has_motion_capture: false,
                capture_previews_only: false,
                ..job
            };
            (
                j,
                "Auto-reviewing assembly… (pass "@ + decimal(j.auto_refine_passes_done as nat) + "/"@ + decimal(
                    (j.auto_refine_passes_done + j.auto_refine_passes_remaining) as nat,
                ) + ")"@,
                ComponentsAction::StartAutoReview {
                    progress: if job.has_shared_progress {
                        Some("Preparing review capture…")
                    } else {
                        None
                    },
                },
            )
        } else if job.has_pass_dir {
            (
                AiJobState {
                    phase: AiPhase::CapturingReview,
                    has_review_capture: false,
                    has_review_images: false,
                    has_motion_capture: false,
                    capture_previews_only: true,
                    ..job
                },
                "Capturing preview renders…"@,
                ComponentsAction::CapturePreviews,
            )
        } else {
            (ended(job, true), finished_status(), ComponentsAction::Finished)
        }
    } else {
        (job, building_status(done, total, in_flight, pending, parallel), ComponentsAction::Continue)
    }
}

/// The job, status and action after a poll of the parallel components (see
/// `components_progress`).
pub fn components_progress_step(
    job: &AiJobState,
    done: usize,
    total: usize,
    in_flight: usize,
    pending: usize,
    parallel: usize,
) -> (out: (AiJobState, String, ComponentsAction))
    requires
        job.auto_refine_passes_done + job.auto_refine_passes_remaining <= u32::MAX,
    ensures
        (out.0, out.1@, out.2) == components_progress(*job, done, total, in_flight, pending, parallel),
{
    let job = *job;
    if done == total && in_flight == 0 && pending == 0 {
        if job.auto_refine_passes_remaining > 0 {
            let j = AiJobState {
                auto_refine_passes_remaining: job.auto_refine_passes_remaining - 1,
                auto_refine_passes_done: job.auto_refine_passes_done + 1,
                phase: AiPhase::CapturingReview,
                has_review_capture: false,
                has_review_images: false,
                has_motion_capture: false,
                capture_previews_only: false,
                ..job
            };
            let mut status = owned("Auto-reviewing assembly… (pass ");
            push_decimal(&mut status, j.auto_refine_passes_done as u64);
            push_str(&mut status, "/");
            push_decimal(&mut status, (j.auto_refine_passes_done + j.auto_refine_passes_remaining) as u64);
            push_str(&mut status, ")");
            let progress = if job.has_shared_progress {
                Some("Preparing review capture…")
            } else {
                None
            };
            (j, status, ComponentsAction::StartAutoReview { progress })
        } else if job.has_pass_dir {
            (
                AiJobState {
                    phase: AiPhase::CapturingReview,
                    has_review_capture: false,
                    has_review_images: false,
                    has_motion_capture: false,
                    capture_previews_only: true,
                    ..job
                },
                owned("Capturing preview renders…"),
                ComponentsAction::CapturePreviews,
            )
        } else {
            (
                AiJobState { running: false, build_complete: true, phase: AiPhase::Idle, ..job },
                owned("Build finished. Orbit/zoom the preview. Click Build to start a new run."),
                ComponentsAction::Finished,
            )
        }
    } else {
        let mut status = owned("Building components… (");
        push_decimal(&mut status, done as u64);
        push_str(&mut status, "/");
        push_decimal(&mut status, total as u64);
        push_str(&mut status, ")\nIn flight: ");
        push_decimal(&mut status, in_flight as u64);
        push_str(&mut status, " | pending: ");
        push_decimal(&mut status, pending as u64);
        push_str(&mut status, "\nParallel: ");
        push_decimal(&mut status, parallel as u64);
        (job, status, ComponentsAction::Continue)
    }
}

// ---------------------------------------------------------------------------
// Retrying a plan and repairing a review
// ---------------------------------------------------------------------------

/// How many times a failed plan is requested again.
pub const MAX_PLAN_RETRIES: u8 = 1;

/// How many times an invalid review delta is sent back for repair.
pub const MAX_REVIEW_DELTA_REPAIRS: u8 = 1;

/// A failed plan is requested again while retries remain: the job waits for
/// a new plan, and the status counts the attempt. `None` when the retries
/// are spent (the job is unchanged).
pub open spec fn plan_retry(job: AiJobState, image_count: usize) -> (AiJobState, Option<Seq<char>>) {
    if job.plan_attempt >= MAX_PLAN_RETRIES {
        (job, None)
    } else {
        (
            AiJobState {
                plan_attempt: (job.plan_attempt + 1) as u8,
                phase: AiPhase::WaitingPlan,
                has_shared_result: true,
                has_shared_progress: true,
                ..job
            },
            Some(
                "Planning components… (attempt "@ + decimal((job.plan_attempt + 2) as nat) + "/"@ + decimal(
                    (MAX_PLAN_RETRIES + 1) as nat,
                ) + ")\nImages: "@ + decimal(image_count as nat),
            ),
        )
    }
}

/// Decides whether a failed plan is requested again (see `plan_retry`).
pub fn retry_plan_step(job: &AiJobState, image_count: usize) -> (out: (AiJobState, Option<String>))
    ensures
        (out.0, opt_text(out.1)) == plan_retry(*job, image_count),
{
    let job = *job;
    if job.plan_attempt >= MAX_PLAN_RETRIES {
        return (job, None);
    }
    let mut status = owned("Planning components… (attempt ");
    push_decimal(&mut status, (job.plan_attempt + 2) as u64);
    push_str(&mut status, "/");
    push_decimal(&mut status, (MAX_PLAN_RETRIES + 1) as u64);
    push_str(&mut status, ")\nImages: ");
    push_decimal(&mut status, image_count as u64);
    (
        AiJobState {
            plan_attempt: job.plan_attempt + 1,
            phase: AiPhase::WaitingPlan,
            has_shared_result: true,
            has_shared_progress: true,
            ..job
        },
        Some(status),
    )
}

/// An invalid review delta is sent back for repair while repairs remain: the
/// repair counter goes up, and when the model, the pass directory, the
/// review images and the review text are all there the job waits for the
/// repaired review and the status counts the repair. `None` when no repair
/// request is made.
pub open spec fn review_repair(
    job: AiJobState,
    has_ai: bool,
    has_review_inputs: bool,
    review_user_text: Seq<char>,
) -> (AiJobState, Option<Seq<char>>) {
    if job.review_delta_repair_attempt >= MAX_REVIEW_DELTA_REPAIRS {
        (job, None)
    } else {
        let a = (job.review_delta_repair_attempt + 1) as u8;
        let j = AiJobState { review_delta_repair_attempt: a, ..job };
        if !has_ai || !job.has_pass_dir || !has_review_inputs || trim(review_user_text).len() == 0 {
            (j, None)
        } else {
            (
                AiJobState { phase: AiPhase::WaitingReview, has_shared_result: true, has_shared_progress: true, ..j },
                Some(
                    "Auto-reviewing assembly… (repair "@ + decimal(a as nat) + "/"@ + decimal(
                        MAX_REVIEW_DELTA_REPAIRS as nat,
                    ) + ")"@,
                ),
            )
        }
    }
}

/// Decides whether an invalid review delta is sent back for repair (see
/// `review_repair`).
pub fn retry_review_delta_step(job: &AiJobState, has_ai: bool, has_review_inputs: bool, review_user_text: &str) -> (out: (
    AiJobState,
    Option<String>,
))
    ensures
        (out.0, opt_text(out.1)) == review_repair(*job, has_ai, has_review_inputs, review_user_text@),
{
    let job = *job;
    if job.review_delta_repair_attempt >= MAX_REVIEW_DELTA_REPAIRS {
        return (job, None);
    }
    let a = job.review_delta_repair_attempt + 1;
    let j = AiJobState { review_delta_repair_attempt: a, ..job };
    let blank = crate::text::trim_chars(review_user_text).len() == 0;
    if !has_ai || !job.has_pass_dir || !has_review_inputs || blank {
        return (j, None);
    }
    let mut status = owned("Auto-reviewing assembly… (repair ");
    push_decimal(&mut status, a as u64);
    push_str(&mut status, "/");
    push_decimal(&mut status, MAX_REVIEW_DELTA_REPAIRS as u64);
    push_str(&mut status, ")");
    (
        AiJobState { phase: AiPhase::WaitingReview, has_shared_result: true, has_shared_progress: true, ..j },
        Some(status),
    )
}

/// The request text of a review repair: the previous request, the error,
/// and the demand for corrected JSON.
pub fn review_repair_user_text(previous: &str, reason: &str) -> (out: String)
    ensures
        out@ == previous@ + "\n\nYour previous response was invalid.\nError:\n"@ + trim(reason@)
            + "\n\nReturn corrected JSON ONLY. No markdown.\n"@,
{
    let mut out = owned(previous);
    push_str(&mut out, "\n\nYour previous response was invalid.\nError:\n");
    let r = crate::text::trim_str(reason);
    push_str(&mut out, r.as_str());
    push_str(&mut out, "\n\nReturn corrected JSON ONLY. No markdown.\n");
    out
}

// ---------------------------------------------------------------------------
// Handling a model reply
// ---------------------------------------------------------------------------

/// A reply has arrived: the pending reply is taken and its tokens counted
/// (saturating); when the token budget is then spent, the run stops with the
/// returned reason.
pub open spec fn reply_arrived(job: AiJobState, limits: RunLimits, tokens: Option<u64>) -> (AiJobState, Option<Seq<char>>) {
    let total = match tokens {
        Some(t) => if job.current_run_tokens + t > u64::MAX {
            u64::MAX
        } else {
            (job.current_run_tokens + t) as u64
        },
        None => job.current_run_tokens,
    };
    let j = AiJobState { has_shared_result: false, current_run_tokens: total, ..job };
    (j, if limits.max_tokens > 0 && total >= limits.max_tokens {
        Some(token_budget_reason(total, limits.max_tokens))
    } else {
        None
    })
}

/// Accounts for an arrived reply (see `reply_arrived`).
pub fn reply_arrived_step(job: &AiJobState, limits: &RunLimits, tokens: Option<u64>) -> (out: (AiJobState, Option<String>))
    ensures
        (out.0, opt_text(out.1)) == reply_arrived(*job, *limits, tokens),
{
    let total = match tokens {
        Some(t) => job.current_run_tokens.saturating_add(t),
        None => job.current_run_tokens,
    };
    let j = AiJobState { has_shared_result: false, current_run_tokens: total, ..*job };
    if limits.max_tokens > 0 && total >= limits.max_tokens {
        let mut reason = owned("Token budget exhausted (");
        push_decimal(&mut reason, total);
        push_str(&mut reason, " >= ");
        push_decimal(&mut reason, limits.max_tokens);
        push_str(&mut reason, ").");
        (j, Some(reason))
    } else {
        (j, None)
    }
}

/// The most components a plan may have; a longer plan is cut to this.
pub const MAX_PLAN_COMPONENTS: usize = 24;

/// How many components of a plan are kept.
pub fn plan_component_limit(count: usize) -> (n: usize)
    ensures
        n == if count < MAX_PLAN_COMPONENTS {
            count
        } else {
            MAX_PLAN_COMPONENTS
        },
{
    if count < MAX_PLAN_COMPONENTS {
        count
    } else {
        MAX_PLAN_COMPONENTS
    }
}

/// What becomes of a plan reply.
#[derive(Clone, Debug, PartialEq, Eq)]
pub enum PlanReplyAction {
    /// Request the plan again, showing `status` (and clearing the error).
    Retry { status: String },
    /// Fail the run with this error.
    FailRun { error: String },
    /// Clear the error, show `status` and start building the components.
    StartComponents { status: String },
}

/// The action, with its texts as character sequences.
pub enum PlanReplyView {
    Retry { status: Seq<char> },
    FailRun { error: Seq<char> },
    StartComponents { status: Seq<char> },
}

impl PlanReplyAction {
    pub open spec fn view(&self) -> PlanReplyView {
        match self {
            PlanReplyAction::Retry { status } => PlanReplyView::Retry { status: status@ },
            PlanReplyAction::FailRun { error } => PlanReplyView::FailRun { error: error@ },
            PlanReplyAction::StartComponents { status } => PlanReplyView::StartComponents { status: status@ },
        }
    }
}

/// A plan reply that could not be used, with this error: it is requested
/// again while retries remain, else the run fails.
pub open spec fn plan_failed(job: AiJobState, error: Seq<char>, image_count: usize) -> (AiJobState, PlanReplyView) {
    match plan_retry(job, image_count).1 {
        Some(status) => (plan_retry(job, image_count).0, PlanReplyView::Retry { status }),
        None => (job, PlanReplyView::FailRun { error }),
    }
}

/// A plan reply: `outcome` is the number of components the plan was turned
/// into, or why it could not be read or turned into components. A plan
/// without components fails like an unreadable one; otherwise the
/// components are built, in parallel.
pub open spec fn plan_reply(
    job: AiJobState,
    outcome: Result<usize, Seq<char>>,
    image_count: usize,
    max_parallel: usize,
) -> (AiJobState, PlanReplyView) {
    match outcome {
        Err(e) => plan_failed(job, e, image_count),
        Ok(n) => if n == 0 {
            plan_failed(job, "AI plan did not include any components."@, image_count)
        } else {
            (
                AiJobState { phase: AiPhase::WaitingComponent, has_shared_progress: false, ..job },
                PlanReplyView::StartComponents {
                    status: "Building components… (0/"@ + decimal(n as nat) + ")\nParallel: "@ + decimal(
                        (if max_parallel < 1 {
                            1
                        } else {
                            max_parallel
                        }) as nat,
                    ),
                },
            )
        },
    }
}

fn plan_failed_exec(job: AiJobState, error: String, image_count: usize) -> (out: (AiJobState, PlanReplyAction))
    ensures
        (out.0, out.1@) == plan_failed(job, error@, image_count),
{
    let (next, status) = retry_plan_step(&job, image_count);
    match status {
        Some(status) => (next, PlanReplyAction::Retry { status }),
        None => (job, PlanReplyAction::FailRun { error }),
    }
}

/// Handles a plan reply (see `plan_reply`); `outcome` is the number of
/// planned components, or the error.
pub fn plan_reply_step(job: &AiJobState, outcome: Result<usize, String>, image_count: usize, max_parallel: usize) -> (out: (
    AiJobState,
    PlanReplyAction,
))
    ensures
        (out.0, out.1@) == plan_reply(
            *job,
            match outcome {
                Ok(n) => Ok(n),
                Err(e) => Err(e@),
            },
            image_count,
            max_parallel,
        ),
{
    let job = *job;
    match outcome {
        Err(e) => plan_failed_exec(job, e, image_count),
        Ok(n) => {
            if n == 0 {
                plan_failed_exec(job, owned("AI plan did not include any components."), image_count)
            } else {
                let mut status = owned("Building components… (0/");
                push_decimal(&mut status, n as u64);
                push_str(&mut status, ")\nParallel: ");
                let p = if max_parallel < 1 {
                    1
                } else {
                    max_parallel
                };
                push_decimal(&mut status, p as u64);
                (
                    AiJobState { phase: AiPhase::WaitingComponent, has_shared_progress: false, ..job },
                    PlanReplyAction::StartComponents { status },
                )
            }
        },
    }
}

/// The error when a review answers for another run, attempt, plan or
/// assembly than the one under review; `None` when all four match.
pub open spec fn applies_to_mismatch(
    run_id: Seq<char>,
    attempt: u32,
    plan_hash: Seq<char>,
    assembly_rev: u32,
    got_run_id: Seq<char>,
    got_attempt: u32,
    got_plan_hash: Seq<char>,
    got_assembly_rev: u32,
) -> Option<Seq<char>> {
    if got_run_id == run_id && got_attempt == attempt && got_plan_hash == plan_hash && got_assembly_rev == assembly_rev {
        None
    } else {
        Some(
            "applies_to mismatch (expected run_id="@ + run_id + ", attempt="@ + decimal(attempt as nat) + ", plan_hash="@
                + plan_hash + ", assembly_rev="@ + decimal(assembly_rev as nat) + ")"@,
        )
    }
}

/// Checks what a review answers for (see `applies_to_mismatch`).
pub fn check_review_applies_to(
    run_id: &str,
    attempt: u32,
    plan_hash: &str,
    assembly_rev: u32,
    got_run_id: &str,
    got_attempt: u32,
    got_plan_hash: &str,
    got_assembly_rev: u32,
) -> (r: Option<String>)
    ensures
        opt_text(r) == applies_to_mismatch(
            run_id@,
            attempt,
            plan_hash@,
            assembly_rev,
            got_run_id@,
            got_attempt,
            got_plan_hash@,
            got_assembly_rev,
        ),
{
    let same_run = crate::text::eq_str(&crate::text::chars_of(got_run_id), run_id);
    let same_hash = crate::text::eq_str(&crate::text::chars_of(got_plan_hash), plan_hash);
    if same_run && got_attempt == attempt && same_hash && got_assembly_rev == assembly_rev {
        None
    } else {
        let mut m = owned("applies_to mismatch (expected run_id=");
        push_str(&mut m, run_id);
        push_str(&mut m, ", attempt=");
        push_decimal(&mut m, attempt as u64);
        push_str(&mut m, ", plan_hash=");
        push_str(&mut m, plan_hash);
        push_str(&mut m, ", assembly_rev=");
        push_decimal(&mut m, assembly_rev as u64);
        push_str(&mut m, ")");
        Some(m)
    }
}

/// A review that answered for the wrong run or could not be applied, once no
/// repair is possible: the run ends as a complete build with the error.
pub fn review_rejected_step(job: &AiJobState, error: String) -> (out: (AiJobState, PollAction))
    ensures
        out.0 == (AiJobState { has_shared_progress: false, ..ended(*job, true) }),
        out.1@ == (PollActionView::Finished { status: review_failed_finished_status(), error: Some(error@) }),
{
    (
        AiJobState { has_shared_progress: false, running: false, build_complete: true, phase: AiPhase::Idle, ..*job },
        PollAction::Finished {
            status: owned(
                "Build finished (auto-review failed). Orbit/zoom the preview, then click Build to start a new run.",
            ),
            error: Some(error),
        },
    )
}

/// What a review that was applied leads to.
#[derive(Clone, Debug, PartialEq, Eq)]
pub enum ReviewApplyAction {
    /// The review accepted the build: the run ends as a complete build, with
    /// the status that says so.
    Accepted,
    /// The run ends as a complete build with this status.
    Finished { status: String },
    /// Try to plan the object again (see `replan_step`).
    Replan,
    /// Resume the component queue saved before a per-component review.
    ResumeAfterPerComponentReview,
    /// Advance to the next pass and review again, with this status and the
    /// progress line `Preparing review capture…`.
    NextReviewPass { status: String },
    /// Regenerate the components the review asked for (see `regen_budget`).
    Regenerate,
}

/// The action, with its texts as character sequences.
pub enum ReviewApplyView {
    Accepted,
    Finished { status: Seq<char> },
    Replan,
    ResumeAfterPerComponentReview,
    NextReviewPass { status: Seq<char> },
    Regenerate,
}

impl ReviewApplyAction {
    pub open spec fn view(&self) -> ReviewApplyView {
        match self {
            ReviewApplyAction::Accepted => ReviewApplyView::Accepted,
            ReviewApplyAction::Finished { status } => ReviewApplyView::Finished { status: status@ },
            ReviewApplyAction::Replan => ReviewApplyView::Replan,
            ReviewApplyAction::ResumeAfterPerComponentReview => ReviewApplyView::ResumeAfterPerComponentReview,
            ReviewApplyAction::NextReviewPass { status } => ReviewApplyView::NextReviewPass { status: status@ },
            ReviewApplyAction::Regenerate => ReviewApplyView::Regenerate,
        }
    }
}

/// The status of an automatic review pass.
pub open spec fn review_pass_status(done: u32, remaining: u32) -> Seq<char> {
    "Auto-reviewing assembly… (pass "@ + decimal(done as nat) + "/"@ + decimal((done + remaining) as nat) + ")"@
}

/// What follows an applied review: an accepted review finishes the run; a
/// replan request is tried next; a per-component review without actions or
/// regenerations resumes the queue; an end-of-run review without actions
/// finishes; one with only tweaks goes to the next pass while passes remain,
/// and finishes otherwise; anything else regenerates components.
pub open spec fn review_applied(
    job: AiJobState,
    accepted: bool,
    had_actions: bool,
    replan: bool,
    regen_requested: bool,
) -> (AiJobState, ReviewApplyView) {
    let done = AiJobState { has_shared_progress: false, ..ended(job, true) };
    if accepted {
        (done, ReviewApplyView::Accepted)
    } else if replan {
        (job, ReviewApplyView::Replan)
    } else if job.review_kind == ReviewKind::PerComponent && (!had_actions || !regen_requested) {
        (job, ReviewApplyView::ResumeAfterPerComponentReview)
    } else if job.review_kind != ReviewKind::PerComponent && !had_actions {
        (done, ReviewApplyView::Finished {
            status: "Build finished. (Auto-review made no changes.) Orbit/zoom the preview. Click Build to start a new run."@,
        })
    } else if job.review_kind == ReviewKind::EndOfRun && !regen_requested {
        if job.auto_refine_passes_remaining > 0 {
            let j = AiJobState {
                auto_refine_passes_remaining: (job.auto_refine_passes_remaining - 1) as u32,
                auto_refine_passes_done: (job.auto_refine_passes_done + 1) as u32,
                phase: AiPhase::CapturingReview,
                has_review_capture: false,
                has_review_images: false,
                has_motion_capture: false,
                ..job
            };
            (j, ReviewApplyView::NextReviewPass {
                status: review_pass_status(j.auto_refine_passes_done, j.auto_refine_passes_remaining),
            })
        } else {
            (done, ReviewApplyView::Finished {
                status: "Build finished (auto-review applied tweaks). Orbit/zoom the preview. Click Build to start a new run."@,
            })
        }
    } else {
        (job, ReviewApplyView::Regenerate)
    }
}

/// Decides what follows an applied review (see `review_applied`).
pub fn review_applied_step(job: &AiJobState, accepted: bool, had_actions: bool, replan: bool, regen_requested: bool) -> (out: (
    AiJobState,
    ReviewApplyAction,
))
    requires
        job.auto_refine_passes_done + job.auto_refine_passes_remaining <= u32::MAX,
    ensures
        (out.0, out.1@) == review_applied(*job, accepted, had_actions, replan, regen_requested),
{
    let job = *job;
    let done = AiJobState { has_shared_progress: false, running: false, build_complete: true, phase: AiPhase::Idle, ..job };
    if accepted {
        return (done, ReviewApplyAction::Accepted);
    }
    if replan {
        return (job, ReviewApplyAction::Replan);
    }
    if job.review_kind == ReviewKind::PerComponent && (!had_actions || !regen_requested) {
        return (job, ReviewApplyAction::ResumeAfterPerComponentReview);
    }
    if job.review_kind != ReviewKind::PerComponent && !had_actions {
        return (done, ReviewApplyAction::Finished {
            status: owned(
                "Build finished. (Auto-review made no changes.) Orbit/zoom the preview. Click Build to start a new run.",
            ),
        });
    }
    if job.review_kind == ReviewKind::EndOfRun && !regen_requested {
        if job.auto_refine_passes_remaining > 0 {
            let j = AiJobState {
                auto_refine_passes_remaining: job.auto_refine_passes_remaining - 1,
                auto_refine_passes_done: job.auto_refine_passes_done + 1,
                phase: AiPhase::CapturingReview,
                has_review_capture: false,
                has_review_images: false,
                has_motion_capture: false,
                ..job
            };
            let mut status = owned("Auto-reviewing assembly… (pass ");
            push_decimal(&mut status, j.auto_refine_passes_done as u64);
            push_str(&mut status, "/");
            push_decimal(&mut status, (j.auto_refine_passes_done + j.auto_refine_passes_remaining) as u64);
            push_str(&mut status, ")");
            return (j, ReviewApplyAction::NextReviewPass { status });
        }
        return (done, ReviewApplyAction::Finished {
            status: owned(
                "Build finished (auto-review applied tweaks). Orbit/zoom the preview. Click Build to start a new run.",
            ),
        });
    }
    (job, ReviewApplyAction::Regenerate)
}

/// A replan while the replan budget lasts: the attempt is counted and the
/// build state reset (end-of-run reviews, `refine_passes` passes to do, no
/// per-component review). `None` when the budget is spent.
pub open spec fn replan(job: AiJobState, max_replans: u32, refine_passes: u32) -> Option<AiJobState> {
    if job.replan_attempts >= max_replans {
        None
    } else {
        Some(
            AiJobState {
                replan_attempts: (job.replan_attempts + 1) as u32,
                review_kind: ReviewKind::EndOfRun,
                review_component_idx: None,
                auto_refine_passes_done: 0,
                auto_refine_passes_remaining: refine_passes,
                per_component_refine_passes_remaining: 0,
                per_component_refine_passes_done: 0,
                ..job
            },
        )
    }
}

/// The reason a run stops when a replan is asked for and none is left.
pub open spec fn replan_budget_reason(max_replans: u32) -> Seq<char> {
    "Replan budget exhausted (max_replans="@ + decimal(max_replans as nat) + ")."@
}

/// Decides a replan (see `replan`); without budget, the reason the run
/// stops (see `replan_budget_reason`).
pub fn replan_step(job: &AiJobState, max_replans: u32, refine_passes: u32) -> (out: Result<AiJobState, String>)
    ensures
        match out {
            Ok(j) => replan(*job, max_replans, refine_passes) == Some(j),
            Err(reason) => replan(*job, max_replans, refine_passes) is None && reason@ == replan_budget_reason(
                max_replans,
            ),
        },
{
    if job.replan_attempts >= max_replans {
        let mut reason = owned("Replan budget exhausted (max_replans=");
        push_decimal(&mut reason, max_replans as u64);
        push_str(&mut reason, ").");
        return Err(reason);
    }
    Ok(AiJobState {
        replan_attempts: job.replan_attempts + 1,
        review_kind: ReviewKind::EndOfRun,
        review_component_idx: None,
        auto_refine_passes_done: 0,
        auto_refine_passes_remaining: refine_passes,
        per_component_refine_passes_remaining: 0,
        per_component_refine_passes_done: 0,
        ..*job
    })
}

// ---------------------------------------------------------------------------
// The regeneration budget
// ---------------------------------------------------------------------------

/// Regeneration counts after granting or refusing requests: the total, the
/// count of each component, and the requests granted and refused, in order.
pub struct RegenGrant {
    pub total: u32,
    pub per_component: Seq<u32>,
    pub allowed: Seq<usize>,
    pub skipped: Seq<usize>,
}

/// The per-component counts brought to `n` entries (cut, or grown with 0).
pub open spec fn counts_resized(per: Seq<u32>, n: nat) -> Seq<u32> {
    if per.len() >= n {
        per.take(n as int)
    } else {
        per + Seq::new((n - per.len()) as nat, |i: int| 0u32)
    }
}

/// `x + 1`, saturating.
pub open spec fn sat_inc(x: u32) -> u32 {
    if x == u32::MAX {
        x
    } else {
        (x + 1) as u32
    }
}

/// Goes through the requested components in order: one past the planned
/// components is ignored; one is refused when the total budget (`max_total`,
/// 0 for none) or its own budget (`max_per_component`, 0 for none) is spent;
/// otherwise it is granted and both counts go up.
pub open spec fn regen_grants(
    requested: Seq<usize>,
    planned_len: usize,
    max_total: u32,
    max_per_component: u32,
    total: u32,
    per_component: Seq<u32>,
) -> RegenGrant
    decreases requested.len(),
{
    if requested.len() == 0 {
        RegenGrant { total, per_component: counts_resized(per_component, planned_len as nat), allowed: Seq::empty(), skipped: Seq::empty() }
    } else {
        let g = regen_grants(requested.drop_last(), planned_len, max_total, max_per_component, total, per_component);
        let idx = requested.last();
        if idx >= planned_len {
            g
        } else if max_total > 0 && g.total >= max_total {
            RegenGrant { skipped: g.skipped.push(idx), ..g }
        } else if max_per_component > 0 && g.per_component[idx as int] >= max_per_component {
            RegenGrant { skipped: g.skipped.push(idx), ..g }
        } else {
            RegenGrant {
                total: sat_inc(g.total),
                per_component: g.per_component.update(idx as int, sat_inc(g.per_component[idx as int])),
                allowed: g.allowed.push(idx),
                skipped: g.skipped,
            }
        }
    }
}

/// The reason a run stops when no requested regeneration is granted.
pub open spec fn regen_budget_reason(max_total: u32, max_per_component: u32) -> Seq<char> {
    "Regen budget exhausted (max_regen_total="@ + decimal(max_total as nat) + ", max_regen_per_component="@ + decimal(
        max_per_component as nat,
    ) + ")."@
}

/// Grants the regenerations a review asks for (see `regen_grants`),
/// updating the total and the per-component counts; returns the granted and
/// refused components, or, when none is granted, the reason the run stops
/// (see `regen_budget_reason`).
pub fn regen_budget_step(
    requested: &Vec<usize>,
    planned_len: usize,
    max_total: u32,
    max_per_component: u32,
    total: &mut u32,
    per_component: &mut Vec<u32>,
) -> (r: Result<(Vec<usize>, Vec<usize>), String>)
    ensures
        ({
            let g = regen_grants(requested@, planned_len, max_total, max_per_component, *old(total), old(per_component)@);
            &&& *final(total) == g.total
            &&& final(per_component)@ == g.per_component
            &&& match r {
                Ok((allowed, skipped)) => g.allowed.len() > 0 && allowed@ == g.allowed && skipped@ == g.skipped,
                Err(reason) => g.allowed.len() == 0 && reason@ == regen_budget_reason(max_total, max_per_component),
            }
        }),
        max_total > 0 && *old(total) <= max_total ==> *final(total) <= max_total,
        max_per_component > 0 && (forall|i: int| 0 <= i < old(per_component)@.len() ==> old(per_component)@[i] <= max_per_component)
            ==> forall|i: int| 0 <= i < final(per_component)@.len() ==> final(per_component)@[i] <= max_per_component,
        max_total == 0 && max_per_component == 0 ==> match r {
            Ok((allowed, skipped)) => allowed@ == requested@.filter(|i: usize| i < planned_len) && skipped@.len() == 0,
            Err(_) => requested@.filter(|i: usize| i < planned_len).len() == 0,
        },
{
    let ghost per0 = per_component@;
    let ghost total0 = *total;
    if per_component.len() > planned_len {
        per_component.truncate(planned_len);
    } else {
        while per_component.len() < planned_len
            invariant
                per0.len() <= per_component@.len() <= planned_len,
                per_component@ == per0 + Seq::new((per_component@.len() - per0.len()) as nat, |i: int| 0u32),
            decreases planned_len - per_component.len(),
        {
            per_component.push(0);
            assert(per_component@ =~= per0 + Seq::new((per_component@.len() - per0.len()) as nat, |i: int| 0u32));
        }
    }
    proof {
        assert(per_component@ =~= counts_resized(per0, planned_len as nat));
    }
    let mut allowed: Vec<usize> = Vec::new();
    let mut skipped: Vec<usize> = Vec::new();
    let mut i: usize = 0;
    proof {
        assert(requested@.take(0) =~= Seq::<usize>::empty());
    }
    while i < requested.len()
        invariant
            i <= requested@.len(),
            ({
                let g = regen_grants(requested@.take(i as int), planned_len, max_total, max_per_component, total0, per0);
                &&& *total == g.total
                &&& per_component@ == g.per_component
                &&& allowed@ == g.allowed
                &&& skipped@ == g.skipped
            }),
            per_component@.len() == planned_len,
        decreases requested.len() - i,
    {
        let idx = requested[i];
        proof {
            assert(requested@.take(i + 1).drop_last() =~= requested@.take(i as int));
            assert(requested@.take(i + 1).last() == idx);
        }
        if idx >= planned_len {
        } else if max_total > 0 && *total >= max_total {
            skipped.push(idx);
        } else if max_per_component > 0 && per_component[idx] >= max_per_component {
            skipped.push(idx);
        } else {
            *total = total.saturating_add(1);
            let c = per_component[idx];
            per_component.set(idx, c.saturating_add(1));
            allowed.push(idx);
        }
        i = i + 1;
    }
    proof {
        assert(requested@.take(i as int) =~= requested@);
        if max_total == 0 && max_per_component == 0 {
            lemma_regen_without_limits(requested@, planned_len, total0, per0);
        }
        if (max_total > 0 ==> total0 <= max_total) && (max_per_component > 0 ==> forall|k: int| 0 <= k < per0.len() ==> per0[k] <= max_per_component) {
            lemma_regen_within_budget(requested@, planned_len, max_total, max_per_component, total0, per0);
        }
        if max_total > 0 && total0 <= max_total && !(max_per_component > 0 ==> forall|k: int| 0 <= k < per0.len() ==> per0[k] <= max_per_component) {
            lemma_regen_total_within_budget(requested@, planned_len, max_total, max_per_component, total0, per0);
        }
        if max_per_component > 0 && (forall|k: int| 0 <= k < per0.len() ==> per0[k] <= max_per_component) && !(max_total > 0 ==> total0 <= max_total) {
            lemma_regen_per_within_budget(requested@, planned_len, max_total, max_per_component, total0, per0);
        }
    }
    if allowed.len() == 0 {
        let mut reason = owned("Regen budget exhausted (max_regen_total=");
        push_decimal(&mut reason, max_total as u64);
        push_str(&mut reason, ", max_regen_per_component=");
        push_decimal(&mut reason, max_per_component as u64);
        push_str(&mut reason, ").");
        return Err(reason);
    }
    Ok((allowed, skipped))
}

// ---------------------------------------------------------------------------
// Starting a review request
// ---------------------------------------------------------------------------

/// `n` with at least two digits (`{:02}`).
pub open spec fn two_digits(n: nat) -> Seq<char> {
    if n < 10 {
        "0"@ + decimal(n)
    } else {
        decimal(n)
    }
}

fn push_two_digits(s: &mut String, n: u64)
    ensures
        final(s)@ == old(s)@ + two_digits(n as nat),
{
    if n < 10 {
        push_str(s, "0");
        push_decimal(s, n);
        proof {
            assert(old(s)@ + "0"@ + decimal(n as nat) =~= old(s)@ + ("0"@ + decimal(n as nat)));
        }
    } else {
        push_decimal(s, n);
    }
}

/// How a review request starts.
#[derive(Clone, Debug, PartialEq, Eq)]
pub enum ReviewStart {
    /// The review cannot be made: do what the action says.
    Failed { action: PollAction },
    /// Send the review with `inputs` images (the reference images first,
    /// then the captured views), showing `status`, under the artifact
    /// prefix `prefix`.
    Send { status: String, prefix: String, inputs: usize },
}

/// The start, with its texts as character sequences.
pub enum ReviewStartView {
    Failed { action: PollActionView },
    Send { status: Seq<char>, prefix: Seq<char>, inputs: usize },
}

impl ReviewStart {
    pub open spec fn view(&self) -> ReviewStartView {
        match self {
            ReviewStart::Failed { action } => ReviewStartView::Failed { action: action@ },
            ReviewStart::Send { status, prefix, inputs } => ReviewStartView::Send {
                status: status@,
                prefix: prefix@,
                inputs: *inputs,
            },
        }
    }
}

/// The status of an end-of-run review request.
pub open spec fn end_of_run_review_status(pass: nat) -> Seq<char> {
    "Auto-reviewing assembly… (pass "@ + decimal(pass) + ")"@
}

/// The status of a per-component review request.
pub open spec fn per_component_review_status(name: Seq<char>, pass: nat, remaining: nat) -> Seq<char> {
    "Auto-reviewing assembly… (after "@ + name + ")\n(pass "@ + decimal(pass) + "/"@ + decimal(pass + remaining) + ")"@
}

/// The artifact prefix of a per-component review request.
pub open spec fn per_component_review_prefix(position: nat, pass: nat) -> Seq<char> {
    "percomp_component"@ + two_digits(position) + "_review"@ + two_digits(pass)
}

fn end_of_run_review_texts(pass: u64) -> (out: (String, String))
    ensures
        out.0@ == end_of_run_review_status(pass as nat),
        out.1@ == "review"@ + two_digits(pass as nat),
{
    let mut status = owned("Auto-reviewing assembly… (pass ");
    push_decimal(&mut status, pass);
    push_str(&mut status, ")");
    let mut prefix = owned("review");
    push_two_digits(&mut prefix, pass);
    (status, prefix)
}

fn per_component_review_texts(name: &str, position: u64, pass: u64, remaining: u32) -> (out: (String, String))
    requires
        pass <= u32::MAX,
    ensures
        out.0@ == per_component_review_status(name@, pass as nat, remaining as nat),
        out.1@ == per_component_review_prefix(position as nat, pass as nat),
{
    let mut status = owned("Auto-reviewing assembly… (after ");
    push_str(&mut status, name);
    push_str(&mut status, ")\n(pass ");
    push_decimal(&mut status, pass);
    push_str(&mut status, "/");
    push_decimal(&mut status, pass + remaining as u64);
    push_str(&mut status, ")");
    let mut prefix = owned("percomp_component");
    push_two_digits(&mut prefix, position);
    push_str(&mut prefix, "_review");
    push_two_digits(&mut prefix, pass);
    (status, prefix)
}

/// The start of a review request. The captured views are taken from the job
/// in any case. Without the model or the pass directory the review fails
/// (see `review_failed`). Otherwise the images sent are the reference
/// images and the captured views, at most `max_images` of them (none when
/// the review does not look at appearance); the job waits for the review
/// with no repair made yet, and the status and prefix name the pass (and,
/// for a per-component review, the component `component_name`, the
/// component's position counted from 1, or 0 when there is none).
pub open spec fn review_start(
    job: AiJobState,
    has_ai: bool,
    user_images: usize,
    review_images: usize,
    max_images: usize,
    review_appearance: bool,
    component_name: Seq<char>,
) -> (AiJobState, ReviewStartView) {
    let j = AiJobState { has_review_images: false, ..job };
    if !has_ai {
        let (k, a) = review_failed(j, Some("Internal error: missing AI config."@));
        (k, ReviewStartView::Failed { action: a })
    } else if !j.has_pass_dir {
        let (k, a) = review_failed(j, Some("Internal error: missing Gen3D pass dir."@));
        (k, ReviewStartView::Failed { action: a })
    } else {
        let all = user_images + review_images;
        let inputs = if !review_appearance {
            0
        } else if all > max_images {
            max_images as int
        } else {
            all
        };
        let k = AiJobState {
            phase: AiPhase::WaitingReview,
            review_delta_repair_attempt: 0,
            has_shared_result: true,
            has_shared_progress: true,
            ..j
        };
        let pass = if j.auto_refine_passes_done < 1 {
            1
        } else {
            j.auto_refine_passes_done as nat
        };
        let cpass = if j.per_component_refine_passes_done < 1 {
            1
        } else {
            j.per_component_refine_passes_done as nat
        };
        let cpos: nat = match j.review_component_idx {
            Some(i) => (i + 1) as nat,
            None => 0,
        };
        (k, match j.review_kind {
            ReviewKind::EndOfRun => ReviewStartView::Send {
                status: end_of_run_review_status(pass),
                prefix: "review"@ + two_digits(pass),
                inputs: inputs as usize,
            },
            ReviewKind::PerComponent => ReviewStartView::Send {
                status: per_component_review_status(component_name, cpass, j.per_component_refine_passes_remaining as nat),
                prefix: per_component_review_prefix(cpos, cpass),
                inputs: inputs as usize,
            },
        })
    }
}

/// Starts a review request (see `review_start`).
#[verifier::rlimit(80)]
#[verifier::spinoff_prover]
pub fn review_request_start_step(
    job: &AiJobState,
    has_ai: bool,
    user_images: usize,
    review_images: usize,
    max_images: usize,
    review_appearance: bool,
    component_name: &str,
) -> (out: (AiJobState, ReviewStart))
    requires
        user_images + review_images <= usize::MAX,
        job.review_component_idx matches Some(i) ==> i < usize::MAX,
    ensures
        (out.0, out.1@) == review_start(*job, has_ai, user_images, review_images, max_images, review_appearance, component_name@),
{
    let j = AiJobState { has_review_images: false, ..*job };
    if !has_ai {
        let (k, a) = review_failed_step(&j, owned("Internal error: missing AI config."));
        return (k, ReviewStart::Failed { action: a });
    }
    if !j.has_pass_dir {
        let (k, a) = review_failed_step(&j, owned("Internal error: missing Gen3D pass dir."));
        return (k, ReviewStart::Failed { action: a });
    }
    let all = user_images + review_images;
    let inputs = if !review_appearance {
        0
    } else if all > max_images {
        max_images
    } else {
        all
    };
    let k = AiJobState {
        phase: AiPhase::WaitingReview,
        review_delta_repair_attempt: 0,
        has_shared_result: true,
        has_shared_progress: true,
        ..j
    };
    let pass: u64 = if j.auto_refine_passes_done < 1 {
        1
    } else {
        j.auto_refine_passes_done as u64
    };
    let cpass: u64 = if j.per_component_refine_passes_done < 1 {
        1
    } else {
        j.per_component_refine_passes_done as u64
    };
    match j.review_kind {
        ReviewKind::EndOfRun => {
            let (status, prefix) = end_of_run_review_texts(pass);
            (k, ReviewStart::Send { status, prefix, inputs })
        },
        ReviewKind::PerComponent => {
            let cpos: u64 = match j.review_component_idx {
                Some(i) => (i as u64) + 1,
                None => 0,
            };
            let (status, prefix) = per_component_review_texts(component_name, cpos, cpass, j.per_component_refine_passes_remaining);
            (k, ReviewStart::Send { status, prefix, inputs })
        },
    }
}

// ---------------------------------------------------------------------------
// Laws of the budgets and limits
// ---------------------------------------------------------------------------

/// Without budgets (both limits 0), every requested component that exists is
/// granted, in the order asked, and none is refused.
pub proof fn lemma_regen_without_limits(requested: Seq<usize>, planned_len: usize, total: u32, per_component: Seq<u32>)
    ensures
        regen_grants(requested, planned_len, 0, 0, total, per_component).allowed == requested.filter(
            |i: usize| i < planned_len,
        ),
        regen_grants(requested, planned_len, 0, 0, total, per_component).skipped.len() == 0,
    decreases requested.len(),
{
    reveal(Seq::filter);
    if requested.len() > 0 {
        lemma_regen_without_limits(requested.drop_last(), planned_len, total, per_component);
    }
}

proof fn lemma_regen_total_grows(
    requested: Seq<usize>,
    planned_len: usize,
    max_total: u32,
    max_per_component: u32,
    total: u32,
    per_component: Seq<u32>,
    k: int,
)
    requires
        0 <= k <= requested.len(),
    ensures
        regen_grants(requested.take(k), planned_len, max_total, max_per_component, total, per_component).total
            <= regen_grants(requested, planned_len, max_total, max_per_component, total, per_component).total,
    decreases requested.len(),
{
    if k < requested.len() {
        assert(requested.drop_last().take(k) =~= requested.take(k));
        lemma_regen_total_grows(requested.drop_last(), planned_len, max_total, max_per_component, total, per_component, k);
    } else {
        assert(requested.take(k) =~= requested);
    }
}

/// Without a per-component budget (0), a request is only ever refused once
/// the total budget is set and spent: whenever something is refused, the
/// total has reached `max_total > 0`.
pub proof fn lemma_regen_refused_only_by_total(
    requested: Seq<usize>,
    planned_len: usize,
    max_total: u32,
    total: u32,
    per_component: Seq<u32>,
)
    ensures
        regen_grants(requested, planned_len, max_total, 0, total, per_component).skipped.len() > 0 ==> max_total > 0
            && regen_grants(requested, planned_len, max_total, 0, total, per_component).total >= max_total,
    decreases requested.len(),
{
    if requested.len() > 0 {
        let d = requested.drop_last();
        lemma_regen_refused_only_by_total(d, planned_len, max_total, total, per_component);
        assert(requested.take(requested.len() - 1) =~= d);
        lemma_regen_total_grows(requested, planned_len, max_total, 0, total, per_component, requested.len() - 1);
    }
}

/// A request for an existing component, with no per-component budget and
/// the total budget not spent, is granted.
pub proof fn lemma_regen_grants_when_budget_left(
    requested: Seq<usize>,
    planned_len: usize,
    max_total: u32,
    total: u32,
    per_component: Seq<u32>,
)
    requires
        requested.len() > 0,
        requested.last() < planned_len,
        max_total == 0 || regen_grants(requested.drop_last(), planned_len, max_total, 0, total, per_component).total
            < max_total,
    ensures
        regen_grants(requested, planned_len, max_total, 0, total, per_component).allowed == regen_grants(
            requested.drop_last(),
            planned_len,
            max_total,
            0,
            total,
            per_component,
        ).allowed.push(requested.last()),
{
}

/// The number of component requests in flight at once is at most the
/// configured number (or one), at most the number of components, and at
/// least one when there is a component; without a continuation probe it is
/// exactly the configured number, capped by the number of components.
pub proof fn lemma_parallel_limit_bounds(max_parallel: usize, total: usize, has_previous_id: bool, continuation_known: bool)
    ensures
        ({
            let p = parallel_limit_spec(max_parallel, total, has_previous_id, continuation_known);
            let m = if max_parallel < 1 {
                1
            } else {
                max_parallel
            };
            &&& p <= m
            &&& p <= total
            &&& (total >= 1 ==> p >= 1)
            &&& (!(has_previous_id && !continuation_known) ==> p == if m < total {
                m
            } else {
                total
            })
            &&& (has_previous_id && !continuation_known && total >= 1 ==> p == 1)
        }),
{
}

/// The budgets hold: starting within them, the total never passes
/// `max_total` (when set) and no component's count passes
/// `max_per_component` (when set); every grant adds one to the total (short
/// of the saturation bound).
pub proof fn lemma_regen_within_budget(
    requested: Seq<usize>,
    planned_len: usize,
    max_total: u32,
    max_per_component: u32,
    total: u32,
    per_component: Seq<u32>,
)
    requires
        max_total > 0 ==> total <= max_total,
        max_per_component > 0 ==> forall|i: int| 0 <= i < per_component.len() ==> per_component[i] <= max_per_component,
    ensures
        ({
            let g = regen_grants(requested, planned_len, max_total, max_per_component, total, per_component);
            &&& max_total > 0 ==> g.total <= max_total
            &&& max_per_component > 0 ==> forall|i: int| 0 <= i < g.per_component.len() ==> g.per_component[i] <= max_per_component
            &&& g.per_component.len() == planned_len
            &&& g.allowed.len() <= requested.len()
            &&& (total + requested.len() <= u32::MAX ==> g.total == total + g.allowed.len())
        }),
    decreases requested.len(),
{
    if requested.len() > 0 {
        let d = requested.drop_last();
        lemma_regen_within_budget(d, planned_len, max_total, max_per_component, total, per_component);
        let p = regen_grants(d, planned_len, max_total, max_per_component, total, per_component);
        let g = regen_grants(requested, planned_len, max_total, max_per_component, total, per_component);
        let idx = requested.last();
        if idx < planned_len && !(max_total > 0 && p.total >= max_total) && !(max_per_component > 0
            && p.per_component[idx as int] >= max_per_component) {
            assert(g.per_component == p.per_component.update(idx as int, sat_inc(p.per_component[idx as int])));
            assert forall|i: int| 0 <= i < g.per_component.len() && max_per_component > 0 implies g.per_component[i]
                <= max_per_component by {
                if i != idx as int {
                    assert(g.per_component[i] == p.per_component[i]);
                }
            }
        }
    } else {
        let r = counts_resized(per_component, planned_len as nat);
        assert forall|i: int| 0 <= i < r.len() && max_per_component > 0 implies r[i] <= max_per_component by {
            if i < per_component.len() {
                assert(r[i] == per_component[i]);
            }
        }
    }
}

proof fn lemma_regen_total_within_budget(
    requested: Seq<usize>,
    planned_len: usize,
    max_total: u32,
    max_per_component: u32,
    total: u32,
    per_component: Seq<u32>,
)
    requires
        max_total > 0,
        total <= max_total,
    ensures
        regen_grants(requested, planned_len, max_total, max_per_component, total, per_component).total <= max_total,
    decreases requested.len(),
{
    if requested.len() > 0 {
        lemma_regen_total_within_budget(requested.drop_last(), planned_len, max_total, max_per_component, total, per_component);
    }
}

proof fn lemma_regen_per_within_budget(
    requested: Seq<usize>,
    planned_len: usize,
    max_total: u32,
    max_per_component: u32,
    total: u32,
    per_component: Seq<u32>,
)
    requires
        max_per_component > 0,
        forall|i: int| 0 <= i < per_component.len() ==> per_component[i] <= max_per_component,
    ensures
        ({
            let g = regen_grants(requested, planned_len, max_total, max_per_component, total, per_component);
            &&& g.per_component.len() == planned_len
            &&& forall|i: int| 0 <= i < g.per_component.len() ==> g.per_component[i] <= max_per_component
        }),
    decreases requested.len(),
{
    if requested.len() > 0 {
        let d = requested.drop_last();
        lemma_regen_per_within_budget(d, planned_len, max_total, max_per_component, total, per_component);
        let p = regen_grants(d, planned_len, max_total, max_per_component, total, per_component);
        let g = regen_grants(requested, planned_len, max_total, max_per_component, total, per_component);
        let idx = requested.last();
        if idx < planned_len && !(max_total > 0 && p.total >= max_total) && !(p.per_component[idx as int] >= max_per_component) {
            assert(g.per_component == p.per_component.update(idx as int, sat_inc(p.per_component[idx as int])));
            assert forall|i: int| 0 <= i < g.per_component.len() implies g.per_component[i] <= max_per_component by {
                if i != idx as int {
                    assert(g.per_component[i] == p.per_component[i]);
                }
            }
        }
    } else {
        let r = counts_resized(per_component, planned_len as nat);
        assert forall|i: int| 0 <= i < r.len() implies r[i] <= max_per_component by {
            if i < per_component.len() {
                assert(r[i] == per_component[i]);
            }
        }
    }
}

} // verus!
