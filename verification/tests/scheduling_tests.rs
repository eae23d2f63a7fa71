use toyoterm::layout::StatusBarPosition;
use toyoterm::scheduling::{
    begin_script_completion, earliest_deadline, finish_script_completion, next_wakeup,
    BarSchedule, CompletedRequest, CompletionSteps, ControlFlow, ScriptOutcome, ScriptUi,
    BAR_RETRY_MS,
};

fn ui() -> ScriptUi {
    ScriptUi { bars: BarSchedule::new(), config_error: None }
}

#[test]
fn earliest_deadline_is_the_minimum() {
    assert_eq!(earliest_deadline(&vec![]), None);
    assert_eq!(earliest_deadline(&vec![40, 10, 30]), Some(10));
}

#[test]
fn without_bars_the_loop_waits_for_the_terminals() {
    let mut schedule = BarSchedule::new();
    schedule.next_top = Some(5);
    let wake = next_wakeup(&mut schedule, &vec![], true, &vec![300, 200], 100);
    assert_eq!(wake.control, ControlFlow::WaitUntil(200));
    assert_eq!(wake.due_bar, None);
    assert_eq!(schedule.next_top, None);
    let idle = next_wakeup(&mut schedule, &vec![], true, &vec![], 100);
    assert_eq!(idle.control, ControlFlow::Wait);
}

#[test]
fn a_bar_without_items_is_due_at_once() {
    let mut schedule = BarSchedule::new();
    let bars = vec![StatusBarPosition::Bottom, StatusBarPosition::Top];
    let wake = next_wakeup(&mut schedule, &bars, true, &vec![], 100);
    assert_eq!(wake.due_bar, Some(StatusBarPosition::Bottom));
    assert_eq!(wake.control, ControlFlow::Wait);
    schedule.bar_submitted(StatusBarPosition::Bottom);
    assert_eq!(schedule.pending, Some(StatusBarPosition::Bottom));
    assert_eq!(schedule.next_bottom, None);
    let waiting = next_wakeup(&mut schedule, &bars, true, &vec![500], 100);
    assert_eq!(waiting.due_bar, None);
    assert_eq!(waiting.control, ControlFlow::WaitUntil(500));
}

#[test]
fn a_scheduled_bar_bounds_the_wait() {
    let mut schedule = BarSchedule::new();
    schedule.top_has_items = true;
    schedule.next_top = Some(400);
    let bars = vec![StatusBarPosition::Top];
    let wake = next_wakeup(&mut schedule, &bars, true, &vec![900], 100);
    assert_eq!(wake.due_bar, None);
    assert_eq!(wake.control, ControlFlow::WaitUntil(400));
    let no_window = next_wakeup(&mut schedule, &bars, false, &vec![900], 500);
    assert_eq!(no_window.due_bar, None);
    assert_eq!(no_window.control, ControlFlow::WaitUntil(900));
    let due = next_wakeup(&mut schedule, &bars, true, &vec![900], 500);
    assert_eq!(due.due_bar, Some(StatusBarPosition::Top));
}

#[test]
fn a_failed_bar_submission_retries_after_a_second() {
    let mut schedule = BarSchedule::new();
    let flow = schedule.bar_submit_failed(StatusBarPosition::Top, Some(5000), 1000);
    assert_eq!(schedule.next_top, Some(1000 + BAR_RETRY_MS));
    assert_eq!(flow, ControlFlow::WaitUntil(2000));
    let flow = schedule.bar_submit_failed(StatusBarPosition::Top, Some(1500), 1000);
    assert_eq!(flow, ControlFlow::WaitUntil(1500));
}

#[test]
fn a_failed_reload_leaves_a_folded_error_notice() {
    let mut ui = ui();
    let r = begin_script_completion(&mut ui, CompletedRequest::Reload, Err("bad config".to_string()), 0);
    assert_eq!(r, Err("bad config".to_string()));
    let notice = ui.config_error.as_ref().unwrap();
    assert_eq!(notice.message, "bad config");
    assert!(!notice.log_expanded);
}

#[test]
fn a_failed_bar_request_is_retried_after_a_second() {
    let mut ui = ui();
    ui.bars.pending = Some(StatusBarPosition::Top);
    let r = begin_script_completion(
        &mut ui,
        CompletedRequest::Bar(StatusBarPosition::Top),
        Err("boom".to_string()),
        700,
    );
    assert!(r.is_err());
    assert_eq!(ui.bars.pending, None);
    assert_eq!(ui.bars.next_top, Some(1700));
    assert!(ui.config_error.is_none());
}

#[test]
fn a_finished_bar_shows_items_and_is_rescheduled() {
    let mut ui = ui();
    ui.bars.pending = Some(StatusBarPosition::Bottom);
    let steps = begin_script_completion(
        &mut ui,
        CompletedRequest::Bar(StatusBarPosition::Bottom),
        Ok(ScriptOutcome { bar_refresh_ms: Some(250), has_snapshot: false }),
        1000,
    )
    .unwrap();
    assert_eq!(
        steps,
        CompletionSteps {
            store_bar_items: Some(StatusBarPosition::Bottom),
            clear_badges_and_selector: false,
            apply_snapshot: false,
        }
    );
    assert_eq!(ui.bars.pending, None);
    assert!(ui.bars.bottom_has_items);
    assert_eq!(ui.bars.next_bottom, Some(1250));
    let once = begin_script_completion(
        &mut ui,
        CompletedRequest::Bar(StatusBarPosition::Bottom),
        Ok(ScriptOutcome { bar_refresh_ms: None, has_snapshot: false }),
        2000,
    );
    assert!(once.is_ok());
    assert_eq!(ui.bars.next_bottom, None);
}

#[test]
fn a_reload_clears_badges_and_a_new_configuration_clears_the_notice() {
    let mut ui = ui();
    begin_script_completion(&mut ui, CompletedRequest::Reload, Err("bad".to_string()), 0).unwrap_err();
    let steps = begin_script_completion(
        &mut ui,
        CompletedRequest::Reload,
        Ok(ScriptOutcome { bar_refresh_ms: None, has_snapshot: true }),
        0,
    )
    .unwrap();
    assert!(steps.clear_badges_and_selector);
    assert!(steps.apply_snapshot);
    assert!(ui.config_error.is_none());
}

#[test]
fn async_callbacks_refresh_every_bar_and_commands_may_ask_for_reload() {
    let mut ui = ui();
    let bars = vec![StatusBarPosition::Top, StatusBarPosition::Bottom];
    let reload = finish_script_completion(&mut ui, CompletedRequest::AsyncCallback, &bars, true, 42);
    assert!(reload);
    assert_eq!(ui.bars.next_top, Some(42));
    assert_eq!(ui.bars.next_bottom, Some(42));
    let mut other = ScriptUi { bars: BarSchedule::new(), config_error: None };
    assert!(!finish_script_completion(&mut other, CompletedRequest::Reload, &bars, true, 0));
    assert!(!finish_script_completion(&mut other, CompletedRequest::Other, &bars, false, 0));
    assert_eq!(other.bars.next_top, None);
}

#[test]
fn a_new_configuration_restarts_the_bars() {
    let mut schedule = BarSchedule::new();
    schedule.pending = Some(StatusBarPosition::Top);
    schedule.top_has_items = true;
    schedule.restart(&vec![StatusBarPosition::Bottom], 77);
    assert_eq!(schedule.pending, None);
    assert!(!schedule.top_has_items);
    assert_eq!(schedule.next_top, None);
    assert_eq!(schedule.next_bottom, Some(77));
}
