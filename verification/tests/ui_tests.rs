use std::collections::VecDeque;
use std::sync::Arc;

use toyoterm::api::{HandleKind, NativeId, PaneId, ScriptEventKind, TabId};
use toyoterm::palette::{filter_items, fuzzy_score, CommandPalette, PaletteAction, PaletteItem};
use toyoterm::script_queue::{
    enqueue_pending_script, reuse_immutable_snapshot, PendingScriptEnqueue, RubyEvent,
    ScriptInvocation, MAX_PENDING_SCRIPT_EVENTS,
};
use toyoterm::keys::{Key, NamedKey};
use toyoterm::platform::ModifiersState;
use toyoterm::selector::{handle_selector_key, SelectorCompletion, SelectorOverlay};

#[test]
fn native_handles_preserve_id_type() {
    let pane = PaneId(7).handle();
    assert_eq!(pane.kind(), HandleKind::Pane);
    assert_eq!(pane.id(), 7);
    assert_eq!(pane.downcast::<PaneId>(), Some(PaneId(7)));
    assert_eq!(pane.downcast::<TabId>(), None);
    assert_ne!(pane, TabId(7).handle());
}

#[test]
fn script_event_names_are_unique() {
    let names = ScriptEventKind::ALL.map(ScriptEventKind::as_str);
    let unique = names.into_iter().collect::<std::collections::HashSet<_>>();
    assert_eq!(unique.len(), ScriptEventKind::ALL.len());
}

#[test]
fn fuzzy_filter_prefers_consecutive_and_word_prefix_matches() {
    let items = vec![
        PaletteItem {
            label: "Close Pane".into(),
            action: PaletteAction::ClosePane,
        },
        PaletteItem {
            label: "Command Palette".into(),
            action: PaletteAction::RubyConsole,
        },
    ];
    let filtered = filter_items(&items, "cp");
    assert_eq!(filtered[0].label, "Close Pane");
}

#[test]
fn selection_wraps_and_query_edits_reset_it() {
    let mut palette = CommandPalette::default();
    palette.open();
    palette.move_selection(-1, 3);
    assert_eq!(palette.selected(), 2);
    palette.insert("x");
    assert_eq!(palette.selected(), 0);
    palette.backspace();
    assert_eq!(palette.query(), "");
}

#[test]
fn fuzzy_scores_refuse_missing_letters() {
    assert_eq!(fuzzy_score("close pane", "cz"), None);
    assert_eq!(fuzzy_score("close pane", ""), Some(0));
    // "c" starts the text (2 + 4), "p" starts a word (2 + 4); minus 10 / 8.
    assert_eq!(fuzzy_score("close pane", "cp"), Some(11));
    // "c" starts the text (2 + 4), "p" starts a word (2 + 4); minus 15 / 8.
    assert_eq!(fuzzy_score("command palette", "cp"), Some(11));
    // Consecutive letters earn more: "cl" scores 2 + 4 + 8.
    assert_eq!(fuzzy_score("close pane", "cl"), Some(13));
}

fn selector() -> SelectorOverlay {
    SelectorOverlay::new(
        7,
        "Theme".into(),
        vec![
            "Ayu".into(),
            "Solarized Dark".into(),
            "Solarized Light".into(),
        ],
    )
}

#[test]
fn filters_case_insensitively_and_resets_selection() {
    let mut selector = selector();
    selector.move_next();
    selector.append_query("LIGHT");
    assert_eq!(selector.selected_item().as_deref(), Some("Solarized Light"));
    assert_eq!(selector.render_lines(10).total, 1);
}

#[test]
fn navigation_wraps_and_pages_within_results() {
    let mut selector = selector();
    selector.move_previous();
    assert_eq!(selector.selected_item().as_deref(), Some("Solarized Light"));
    selector.move_next();
    assert_eq!(selector.selected_item().as_deref(), Some("Ayu"));
    selector.page_next();
    assert_eq!(selector.selected_item().as_deref(), Some("Solarized Light"));
    selector.move_first();
    selector.move_last();
    assert_eq!(selector.selected_item().as_deref(), Some("Solarized Light"));
}

#[test]
fn reports_no_selection_when_filter_has_no_matches() {
    let mut selector = selector();
    selector.append_query("missing");
    assert_eq!(selector.selected_item(), None);
    assert_eq!(selector.render_lines(10).selected, None);
}

#[test]
fn removing_the_query_shows_every_item_again() {
    let mut selector = selector();
    selector.append_query("ayu");
    assert_eq!(selector.render_lines(10).total, 1);
    selector.pop_query();
    selector.pop_query();
    selector.pop_query();
    assert_eq!(selector.render_lines(10).total, 3);
}

#[test]
fn immutable_snapshot_cache_reuses_equal_values() {
    let mut cache = None;
    let (first, reused) = reuse_immutable_snapshot(&mut cache, vec![1, 2, 3]);
    assert!(!reused);
    let (second, reused) = reuse_immutable_snapshot(&mut cache, vec![1, 2, 3]);
    assert!(reused);
    assert!(Arc::ptr_eq(&first, &second));

    let (third, reused) = reuse_immutable_snapshot(&mut cache, vec![1, 2, 4]);
    assert!(!reused);
    assert!(!Arc::ptr_eq(&second, &third));
}

fn event(kind: ScriptEventKind, pane: u64, title: &str) -> ScriptInvocation {
    let mut event = RubyEvent::new(kind);
    event.pane = Some(PaneId(pane));
    event.title = Some(title.to_owned());
    ScriptInvocation::Event(event)
}

#[test]
fn pending_event_queue_is_bounded_and_state_events_are_coalesced() {
    let mut queue = VecDeque::new();
    for id in 0..MAX_PENDING_SCRIPT_EVENTS as u64 {
        assert_eq!(
            enqueue_pending_script(&mut queue, id, event(ScriptEventKind::Bell, id, "old")),
            PendingScriptEnqueue::Queued
        );
    }
    assert_eq!(
        enqueue_pending_script(
            &mut queue,
            2_000,
            event(ScriptEventKind::Bell, 2_000, "new"),
        ),
        PendingScriptEnqueue::Dropped
    );
    assert_eq!(queue.len(), MAX_PENDING_SCRIPT_EVENTS);

    queue.pop_back();
    assert_eq!(
        enqueue_pending_script(
            &mut queue,
            3_000,
            event(ScriptEventKind::TitleChanged, 7, "old"),
        ),
        PendingScriptEnqueue::Queued
    );
    assert_eq!(
        enqueue_pending_script(
            &mut queue,
            3_001,
            event(ScriptEventKind::TitleChanged, 7, "new"),
        ),
        PendingScriptEnqueue::Coalesced
    );
    assert_eq!(queue.len(), MAX_PENDING_SCRIPT_EVENTS);
    let (_, ScriptInvocation::Event(latest)) = queue.back().unwrap() else {
        panic!("expected queued event");
    };
    assert_eq!(latest.title.as_deref(), Some("new"));
}

#[test]
fn pending_event_limit_never_drops_non_event_requests() {
    let mut queue = (0..MAX_PENDING_SCRIPT_EVENTS as u64)
        .map(|id| (id, event(ScriptEventKind::Bell, id, "event")))
        .collect::<VecDeque<_>>();
    assert_eq!(
        enqueue_pending_script(&mut queue, 9_000, ScriptInvocation::Eval("42".into())),
        PendingScriptEnqueue::Queued
    );
    assert_eq!(queue.len(), MAX_PENDING_SCRIPT_EVENTS + 1);
    assert!(matches!(
        queue.back(),
        Some((9_000, ScriptInvocation::Eval(source))) if source == "42"
    ));
}

fn pick_selector() -> Option<SelectorOverlay> {
    Some(SelectorOverlay::new(
        7,
        "Pick".to_string(),
        vec!["one".to_string(), "two".to_string(), "three".to_string()],
    ))
}

#[test]
fn selector_keys_choose_or_dismiss_items() {
    let none = ModifiersState::empty();
    let mut closed: Option<SelectorOverlay> = None;
    assert_eq!(handle_selector_key(&mut closed, &Key::Named(NamedKey::Enter), None, none), None);

    let mut selector = pick_selector();
    assert_eq!(
        handle_selector_key(&mut selector, &Key::Named(NamedKey::Escape), None, none),
        Some(SelectorCompletion { id: 7, selection: None })
    );
    assert!(selector.is_none());

    let mut selector = pick_selector();
    assert_eq!(handle_selector_key(&mut selector, &Key::Named(NamedKey::ArrowDown), None, none), None);
    assert_eq!(
        handle_selector_key(&mut selector, &Key::Named(NamedKey::Enter), None, none),
        Some(SelectorCompletion { id: 7, selection: Some("two".to_string()) })
    );
    assert!(selector.is_none());

    let mut selector = pick_selector();
    assert_eq!(handle_selector_key(&mut selector, &Key::Named(NamedKey::ArrowUp), None, none), None);
    assert_eq!(handle_selector_key(&mut selector, &Key::Named(NamedKey::Home), None, none), None);
    assert_eq!(handle_selector_key(&mut selector, &Key::Named(NamedKey::End), None, none), None);
    assert_eq!(
        handle_selector_key(&mut selector, &Key::Named(NamedKey::Enter), None, none),
        Some(SelectorCompletion { id: 7, selection: Some("three".to_string()) })
    );
}

#[test]
fn selector_keys_edit_the_query() {
    let none = ModifiersState::empty();
    let mut selector = pick_selector();
    let t = Key::Character("t".to_string());
    assert_eq!(handle_selector_key(&mut selector, &t, None, none), None);
    assert_eq!(selector.as_ref().unwrap().query, "t");
    assert_eq!(handle_selector_key(&mut selector, &t, None, ModifiersState::control()), None);
    assert_eq!(handle_selector_key(&mut selector, &t, None, ModifiersState::super_modifier()), None);
    assert_eq!(selector.as_ref().unwrap().query, "t");
    assert_eq!(handle_selector_key(&mut selector, &t, Some("hr"), none), None);
    assert_eq!(selector.as_ref().unwrap().query, "thr");
    assert_eq!(
        handle_selector_key(&mut selector, &Key::Named(NamedKey::Enter), None, none),
        Some(SelectorCompletion { id: 7, selection: Some("three".to_string()) })
    );

    let mut selector = pick_selector();
    let z = Key::Character("z".to_string());
    assert_eq!(handle_selector_key(&mut selector, &z, None, none), None);
    assert_eq!(handle_selector_key(&mut selector, &Key::Named(NamedKey::Enter), None, none), None);
    assert!(selector.is_some());
    assert_eq!(handle_selector_key(&mut selector, &Key::Named(NamedKey::Backspace), None, none), None);
    assert_eq!(selector.as_ref().unwrap().query, "");
    assert_eq!(handle_selector_key(&mut selector, &Key::Named(NamedKey::Tab), None, none), None);
    assert_eq!(
        handle_selector_key(&mut selector, &Key::Named(NamedKey::Enter), None, none),
        Some(SelectorCompletion { id: 7, selection: Some("one".to_string()) })
    );
}
