use toyoterm::api::PaneId;
use toyoterm::session::{
    apply_terminal_progress, notification_alive_response, notification_expiry,
    notification_feedback_response, notification_feedbacks, notification_occasion_matches, notification_platform_id,
    progress_title_suffix, should_open_osc_url, visual_bell_deadline, ActiveNotifications,
    ClickTarget, ClickTracker, ConfigErrorNotice, NotificationFeedback, NotificationFeedbackKind,
    NotificationOccasion, NotificationReporting, NotificationResponseKind, PtyOutputBuffer, SessionStatusState, SessionStatusUpdate,
    TabColorComponent, TabColorState, TerminalProgress, WindowOcclusion, MULTI_CLICK_INTERVAL_MS,
    OSC_OPEN_URL_INTERVAL_MS, OSC_VISUAL_BELL_DURATION_MS,
};

#[test]
fn pty_output_coalesces_wakeups_until_the_buffer_is_drained() {
    let mut pending = PtyOutputBuffer::default();
    let mut wakeups = 0;
    let first = pending.append(b"one");
    assert_eq!(first.accepted, 3);
    if first.notify {
        wakeups += 1;
    }
    let second = pending.append(b"two");
    assert_eq!(second.accepted, 3);
    if second.notify {
        wakeups += 1;
    }

    assert_eq!(wakeups, 1);
    assert_eq!(pending.take(), b"onetwo");
    let third = pending.append(b"three");
    if third.notify {
        wakeups += 1;
    }
    assert_eq!(wakeups, 2);
}

#[test]
fn occlusion_suppresses_rendering_until_the_window_becomes_visible() {
    let mut state = WindowOcclusion::default();
    assert!(state.should_render());

    assert!(!state.update(true));
    assert!(!state.should_render());
    assert!(!state.update(true));

    assert!(state.update(false));
    assert!(state.should_render());
    assert!(!state.update(false));
}

#[test]
fn pty_output_reuses_drained_buffer_allocations() {
    let mut pending = PtyOutputBuffer::default();
    let payload = vec![b'x'; 64 * 1024];

    assert_eq!(pending.append(&payload).accepted, payload.len());
    let first = pending.take();
    let first_allocation = first.as_ptr();
    pending.recycle(first);

    // Two allocations allow the reader and main thread to operate on
    // separate buffers. The third batch should rotate back to the first.
    assert_eq!(pending.append(&payload).accepted, payload.len());
    let second = pending.take();
    pending.recycle(second);
    assert_eq!(pending.append(&payload).accepted, payload.len());
    let third = pending.take();

    assert_eq!(third.as_ptr(), first_allocation);
}

#[test]
fn pty_output_stops_at_the_memory_limit() {
    let mut pending = PtyOutputBuffer::default();
    let full = vec![0u8; toyoterm::session::MAX_PENDING_PTY_OUTPUT_BYTES];
    let first = pending.append(&full);
    assert_eq!(first.accepted, full.len());
    assert!(first.notify);
    let refused = pending.append(b"x");
    assert_eq!(refused.accepted, 0);
    assert!(!refused.notify);
    assert_eq!(pending.take().len(), toyoterm::session::MAX_PENDING_PTY_OUTPUT_BYTES);
    let after = pending.append(b"x");
    assert_eq!(after.accepted, 1);
    assert!(after.notify);
    assert_eq!(pending.take(), b"x");
}

#[test]
fn tab_color_requires_all_components_and_resets_atomically() {
    let mut color = TabColorState::default();
    color.set(TabColorComponent::Red, 12);
    color.set(TabColorComponent::Green, 34);
    assert_eq!(color.complete(), None);
    color.set(TabColorComponent::Blue, 56);
    assert_eq!(color.complete(), Some([12, 34, 56]));
    color = TabColorState::default();
    assert_eq!(color.complete(), None);
}

#[test]
fn value_less_paused_progress_keeps_the_current_percentage() {
    assert_eq!(
        apply_terminal_progress(
            Some(TerminalProgress::Normal(42)),
            TerminalProgress::Warning(None),
        ),
        Some(TerminalProgress::Warning(Some(42)))
    );
    assert_eq!(
        apply_terminal_progress(
            Some(TerminalProgress::Indeterminate),
            TerminalProgress::Warning(None),
        ),
        Some(TerminalProgress::Warning(None))
    );
    assert_eq!(
        apply_terminal_progress(
            Some(TerminalProgress::Normal(42)),
            TerminalProgress::Error(None),
        ),
        Some(TerminalProgress::Error(None))
    );
    assert_eq!(
        apply_terminal_progress(
            Some(TerminalProgress::Warning(Some(42))),
            TerminalProgress::Hidden,
        ),
        None
    );
}

#[test]
fn visual_bell_deadline_requires_an_osc21_color() {
    let now = 1_000_000;
    assert_eq!(visual_bell_deadline(None, now), None);
    assert_eq!(
        visual_bell_deadline(Some([1, 2, 3]), now),
        Some(now + OSC_VISUAL_BELL_DURATION_MS)
    );
}

#[test]
fn session_status_updates_only_present_fields_and_supports_clear() {
    let mut state = SessionStatusState::default();
    state.apply(&SessionStatusUpdate {
        indicator: Some(Some([1, 2, 3])),
        status: Some(Some("building".into())),
        status_color: Some(Some([4, 5, 6])),
    });
    state.apply(&SessionStatusUpdate {
        status: Some(Some("ready".into())),
        ..SessionStatusUpdate::default()
    });
    assert_eq!(state.indicator, Some([1, 2, 3]));
    assert_eq!(state.status.as_deref(), Some("ready"));
    assert_eq!(state.status_color, Some([4, 5, 6]));

    state.apply(&SessionStatusUpdate {
        indicator: Some(None),
        status: Some(None),
        status_color: Some(None),
    });
    assert_eq!(state.indicator, None);
    assert_eq!(state.status, None);
    assert_eq!(state.status_color, None);
}

#[test]
fn filters_notification_occasions_against_source_visibility() {
    assert!(notification_occasion_matches(
        NotificationOccasion::Always,
        true,
        true
    ));
    assert!(!notification_occasion_matches(
        NotificationOccasion::Unfocused,
        true,
        true
    ));
    assert!(notification_occasion_matches(
        NotificationOccasion::Unfocused,
        false,
        true
    ));
    assert!(!notification_occasion_matches(
        NotificationOccasion::Invisible,
        false,
        true
    ));
    assert!(notification_occasion_matches(
        NotificationOccasion::Invisible,
        false,
        false
    ));
}

#[test]
fn osc_url_opening_requires_opt_in_allowlisted_scheme_and_rate_limit() {
    let now = 1_000_000;
    assert!(should_open_osc_url(true, "https://example.com", None, now));
    assert!(!should_open_osc_url(
        false,
        "https://example.com",
        None,
        now
    ));
    assert!(!should_open_osc_url(true, "file:///tmp/a", None, now));
    assert!(!should_open_osc_url(
        true,
        "https://example.com",
        Some(now - 1_000),
        now
    ));
    assert!(should_open_osc_url(
        true,
        "mailto:user@example.com",
        Some(now - OSC_OPEN_URL_INTERVAL_MS),
        now
    ));
}

#[test]
fn notification_replacement_ids_are_stable_and_pane_scoped() {
    let first = notification_platform_id(PaneId(1), "build-42");
    assert_eq!(first, notification_platform_id(PaneId(1), "build-42"));
    assert_ne!(first, notification_platform_id(PaneId(2), "build-42"));
    assert_ne!(first, notification_platform_id(PaneId(1), "build-43"));
    assert_ne!(first, 0);
}

#[test]
fn notification_ids_follow_fnv1a_over_the_pane_and_the_id() {
    // FNV-1a of the eight zero bytes of pane 0 followed by nothing.
    let mut hash: u32 = 2_166_136_261;
    for _ in 0..8 {
        hash = hash.wrapping_mul(16_777_619);
    }
    assert_eq!(notification_platform_id(PaneId(0), ""), hash);
}

#[test]
fn reports_only_unexpired_accepted_notification_ids() {
    let now = 1_000_000;
    let mut active = ActiveNotifications::new();
    active.insert("persistent".into(), None);
    active.insert("expired".into(), Some(now - 1));
    active.insert("pending".into(), Some(now + 1));

    assert_eq!(
        notification_alive_response("probe", &mut active, now),
        "\x1b]99;i=probe:p=alive;pending,persistent\x1b\\"
    );
    assert!(!active.contains_key("expired"));
    assert_eq!(notification_expiry(Some(0), now), None);
    assert_eq!(notification_expiry(Some(25), now), Some(now + 25));
}

#[test]
fn active_notifications_replace_and_forget_by_id() {
    let mut active = ActiveNotifications::new();
    active.insert("b".into(), Some(5));
    active.insert("a".into(), None);
    active.insert("b".into(), None);
    assert_eq!(active.len(), 2);
    assert!(active.contains_key("a"));
    assert!(active.remove("a"));
    assert!(!active.remove("a"));
    assert_eq!(
        notification_alive_response("q", &mut active, 10),
        "\x1b]99;i=q:p=alive;b\x1b\\"
    );
}

#[test]
fn config_error_notice_switches_between_summary_and_log() {
    let mut notice = ConfigErrorNotice {
        message: "error\nconfig.rb:2\nconfig.rb:5\nextra".into(),
        log_expanded: false,
    };
    assert_eq!(notice.display_message(), "error\nconfig.rb:2\nconfig.rb:5");

    notice.log_expanded = true;
    assert_eq!(notice.display_message(), notice.message);
}

#[test]
fn config_error_summary_drops_carriage_returns_and_a_final_line_feed() {
    let notice = ConfigErrorNotice {
        message: "a\r\nb\n".into(),
        log_expanded: false,
    };
    assert_eq!(notice.display_message(), "a\nb");
    let empty = ConfigErrorNotice {
        message: String::new(),
        log_expanded: false,
    };
    assert_eq!(empty.display_message(), "");
}

#[test]
fn click_tracker_recognizes_double_and_triple_clicks() {
    let mut tracker = ClickTracker::default();
    let start = 5_000;
    let target = ClickTarget {
        pane: PaneId(1),
        column: 4,
        row: 2,
    };

    assert_eq!(tracker.register(start, target), 1);
    assert_eq!(tracker.register(start + 100, target), 2);
    assert_eq!(tracker.register(start + 200, target), 3);
    assert_eq!(tracker.register(start + 300, target), 1);
}

#[test]
fn click_tracker_resets_for_a_new_cell_or_after_timeout() {
    let mut tracker = ClickTracker::default();
    let start = 5_000;
    let target = ClickTarget {
        pane: PaneId(1),
        column: 4,
        row: 2,
    };
    tracker.register(start, target);

    assert_eq!(
        tracker.register(
            start + 100,
            ClickTarget {
                column: 5,
                ..target
            },
        ),
        1
    );
    assert_eq!(
        tracker.register(start + MULTI_CLICK_INTERVAL_MS + 200, target),
        1
    );
}

#[test]
fn encodes_osc99_notification_feedback() {
    let feedback = |kind| NotificationFeedback {
        pane: PaneId(7),
        id: "job-1".into(),
        kind,
    };

    assert_eq!(
        notification_feedback_response(&feedback(NotificationFeedbackKind::Activated)),
        "\x1b]99;i=job-1;\x1b\\"
    );
    assert_eq!(
        notification_feedback_response(&feedback(NotificationFeedbackKind::Button(2))),
        "\x1b]99;i=job-1;2\x1b\\"
    );
    assert_eq!(
        notification_feedback_response(&feedback(NotificationFeedbackKind::Closed)),
        "\x1b]99;i=job-1:p=close;\x1b\\"
    );
}

#[test]
fn formats_terminal_progress_for_tab_titles() {
    assert_eq!(
        progress_title_suffix(TerminalProgress::Normal(42)),
        " · 42%"
    );
    assert_eq!(
        progress_title_suffix(TerminalProgress::Error(Some(100))),
        " · error 100%"
    );
    assert_eq!(
        progress_title_suffix(TerminalProgress::Indeterminate),
        " · working"
    );
    assert_eq!(
        progress_title_suffix(TerminalProgress::Warning(Some(7))),
        " · warning 7%"
    );
    assert!(progress_title_suffix(TerminalProgress::Hidden).is_empty());
}

#[test]
fn maps_notification_responses_to_requested_feedback() {
    let reporting = NotificationReporting {
        activation: true,
        close: true,
    };
    assert_eq!(
        notification_feedbacks(
            PaneId(3),
            "job",
            reporting,
            NotificationResponseKind::Action("2".into()),
        ),
        vec![
            NotificationFeedback {
                pane: PaneId(3),
                id: "job".into(),
                kind: NotificationFeedbackKind::Button(2),
            },
            NotificationFeedback {
                pane: PaneId(3),
                id: "job".into(),
                kind: NotificationFeedbackKind::Closed,
            },
        ]
    );
    assert_eq!(
        notification_feedbacks(
            PaneId(3),
            "job",
            reporting,
            NotificationResponseKind::Default,
        )[0]
        .kind,
        NotificationFeedbackKind::Activated
    );
    assert!(notification_feedbacks(
        PaneId(3),
        "job",
        NotificationReporting::default(),
        NotificationResponseKind::Closed,
    )
    .is_empty());
    assert_eq!(
        notification_feedbacks(
            PaneId(3),
            "job",
            NotificationReporting { activation: true, close: false },
            NotificationResponseKind::Action("open".into()),
        ),
        Vec::new()
    );
}

#[test]
fn input_returns_the_view_to_the_bottom() {
    assert!(toyoterm::session::input_returns_to_bottom(b"a"));
    assert!(!toyoterm::session::input_returns_to_bottom(b""));
}

/// The rows a two-row viewport shows of `lines`, scrolled back by `offset`.
fn viewport(lines: &[&str], rows: usize, offset: usize) -> Vec<String> {
    let end = lines.len() - offset;
    lines[end - rows..end].iter().map(|line| line.to_string()).collect()
}

fn scrollback_after_input(input: &[u8]) -> (Vec<String>, Vec<String>) {
    let text = "one\r\ntwo\r\nthree";
    let lines: Vec<&str> = text.split("\r\n").collect();
    let mut offset = 1;
    let before = viewport(&lines, 2, offset);
    if toyoterm::session::input_returns_to_bottom(input) {
        offset = 0;
    }
    (before, viewport(&lines, 2, offset))
}

#[test]
fn terminal_input_returns_a_scrolled_viewport_to_the_bottom() {
    let (before, after) = scrollback_after_input(b"x");
    assert_eq!(before, ["one", "two"]);
    assert_eq!(after, ["two", "three"]);
}

#[test]
fn empty_terminal_input_preserves_a_scrolled_viewport() {
    let (_, after) = scrollback_after_input(b"");
    assert_eq!(after, ["one", "two"]);
}
