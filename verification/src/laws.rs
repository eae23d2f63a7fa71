//! Properties that hold across operations, or of every step, of the
//! multiplexer (runs of splits and closes among them), the file-name rules,
//! drawn lines, the window's edge layout, a pane's environment, the PTY
//! output buffer, the palette's matching and ranking, a pane's protocol state
//! and the event loop's wake-ups, stated over the models that the
//! operations' contracts use.
use vstd::prelude::*;

use crate::api::{PaneId, SplitDirection, TabId, WorkspaceId};
use crate::downloads::{
    before_first_dot, is_forbidden_name_char, is_reserved_device_name, leaf_name, safe_name,
    sanitized, trim_trailing_dots_and_spaces,
};
use crate::icons::{distance, line_points, line_walk};
use crate::layout::{
    after_bottom_bar, after_top_bar, below_chrome, edge_layout, has_bar, minus, PaneRect,
    StatusBarPosition,
};
use crate::platform::PhysicalSize;
use crate::mux_model::{lemma_close_pane, lemma_split, MuxView};
use crate::api::{Command, CommandResult};
use crate::mux::MuxError;
use crate::session::MAX_PENDING_PTY_OUTPUT_BYTES;
use crate::pane_events::{
    interval_passed, terminal_event_step, url_opens, OutputPolicy, PaneAction,
    PaneProtocolState, MAX_TRACKED_NOTIFICATION_IDS,
};
use crate::scheduling::{earliest_bar, wakeup_step, BarSchedule, ControlFlow, Wakeup};
use crate::terminal_events::{TerminalAttention, TerminalEvent};
use crate::tree::{
    lemma_flat_map_add, lemma_split_absent, lemma_split_panes, lemma_without_absent,
    lemma_without_panes, new_pane_goes_first, other_than, panes_after_split, panes_without,
    split_image, PaneNode,
};
use crate::api::ScriptEventKind;
use crate::palette::{
    filtered, first_match, fuzzy_points, lowered, rank_position, ranked, ranks_before,
    scored_items, spec_fuzzy_score, utf8_width, PaletteItem,
};
use crate::text::{lemma_bytes_less_irreflexive, lemma_bytes_less_transitive};
use crate::pty::{env_apply, env_with, launch_bindings, outer_terminal_variables};

verus! {

/// Splitting a pane puts the new pane right beside it and leaves every
/// other pane where it was: before it when splitting to the left or
/// upwards, after it when splitting to the right or downwards.
pub proof fn law_split_order_follows_direction(
    panes: Seq<PaneId>,
    i: int,
    new_pane: PaneId,
    direction: SplitDirection,
)
    requires
        0 <= i < panes.len(),
        panes.no_duplicates(),
    ensures
        panes_after_split(panes, panes[i], new_pane, new_pane_goes_first(direction)) == panes.take(i)
            + (if direction == SplitDirection::Left || direction == SplitDirection::Up {
            seq![new_pane, panes[i]]
        } else {
            seq![panes[i], new_pane]
        }) + panes.skip(i + 1),
{
    let target = panes[i];
    let first = new_pane_goes_first(direction);
    let f = |p: PaneId| split_image(p, target, new_pane, first);
    let before = panes.take(i);
    let after = panes.skip(i + 1);
    assert(panes =~= before + (seq![target] + after));
    assert(!before.contains(target)) by {
        if before.contains(target) {
            let j = choose|j: int| 0 <= j < before.len() && before[j] == target;
            assert(panes[j] == panes[i]);
        }
    }
    assert(!after.contains(target)) by {
        if after.contains(target) {
            let j = choose|j: int| 0 <= j < after.len() && after[j] == target;
            assert(panes[i + 1 + j] == panes[i]);
        }
    }
    lemma_flat_map_add(before, seq![target] + after, f);
    lemma_flat_map_add(seq![target], after, f);
    lemma_split_absent(before, target, new_pane, first);
    lemma_split_absent(after, target, new_pane, first);
    let image = split_image(target, target, new_pane, first);
    assert(seq![target].flat_map(f) =~= image) by {
        assert(seq![target].map_values(f) =~= seq![image]);
        assert(seq![image].drop_first() =~= Seq::<Seq<PaneId>>::empty());
        assert(Seq::<Seq<PaneId>>::empty().flatten() =~= Seq::<PaneId>::empty());
        assert(seq![image].flatten() == image + seq![image].drop_first().flatten());
        assert(image + Seq::<PaneId>::empty() =~= image);
    }
}

/// Activating a tab focuses it and its own focused pane, and changes the
/// focused pane of no tab.
pub proof fn law_activating_a_tab_keeps_focused_panes(v: MuxView, t: u64)
    requires
        v.wf(),
        v.tabs.contains_key(t),
    ensures
        v.after_activate_tab(t).current_tab() == TabId(t),
        v.after_activate_tab(t).current_pane() == v.tabs[t].active_pane,
        forall|k: u64|
            #[trigger] v.tabs.contains_key(k) ==> v.after_activate_tab(t).tabs[k].active_pane
                == v.tabs[k].active_pane,
{
    let n = v.tabs[t].window;
    let w = v.windows[n.0].workspace;
    assert(v.window_ok(n.0));
    let f = v.after_activate_tab(t);
    assert(f.current_workspace == w);
    assert(f.workspaces[w.0].active_window == n);
    assert(f.windows[n.0].active_tab == TabId(t));
}

/// Switching to another workspace and back restores the workspace, window,
/// tab and pane that were current; switching changes no workspace's,
/// window's or tab's own selection.
pub proof fn law_workspace_switch_round_trip(v: MuxView, away: Seq<char>)
    requires
        v.wf(),
        v.has_room(4),
        away != v.workspaces[v.current_workspace.0].name,
    ensures
        ({
            let there = v.after_switch_workspace(away);
            let back = there.after_switch_workspace(v.workspaces[v.current_workspace.0].name);
            &&& back.current_workspace == v.current_workspace
            &&& back.current_window() == v.current_window()
            &&& back.current_tab() == v.current_tab()
            &&& back.current_pane() == v.current_pane()
        }),
        forall|w: u64|
            #[trigger] v.workspaces.contains_key(w) ==> v.after_switch_workspace(
                away,
            ).workspaces[w].active_window == v.workspaces[w].active_window,
        forall|n: u64|
            #[trigger] v.windows.contains_key(n) ==> v.after_switch_workspace(away).windows[n].active_tab
                == v.windows[n].active_tab,
        forall|k: u64|
            #[trigger] v.tabs.contains_key(k) ==> v.after_switch_workspace(away).tabs[k].active_pane
                == v.tabs[k].active_pane,
{
    let cw = v.current_workspace.0;
    let name = v.workspaces[cw].name;
    let there = v.after_switch_workspace(away);
    // Existing entries are kept; a new workspace only takes fresh ids.
    assert(!v.workspaces.contains_key(v.next_id));
    assert(forall|w: u64| #[trigger] v.workspaces.contains_key(w) ==> there.workspaces[w] == v.workspaces[w]);
    assert(forall|n: u64| #[trigger] v.windows.contains_key(n) ==> there.windows[n] == v.windows[n]);
    assert(forall|k: u64| #[trigger] v.tabs.contains_key(k) ==> there.tabs[k] == v.tabs[k]);
    assert(there.workspaces.contains_key(cw));
    assert(there.workspaces[cw].name == name);
    assert(there.has_workspace_named(name));
    // Only the original current workspace carries its name afterwards.
    let found = there.workspace_named(name);
    assert(there.workspaces.contains_key(found) && there.workspaces[found].name == name);
    if found != cw {
        if v.workspaces.contains_key(found) {
            assert(v.workspaces[found].name == name);
        } else {
            assert(found == v.next_id);
            assert(!v.has_workspace_named(away));
            assert(there.workspaces[found].name == away);
        }
    }
    assert(found == cw);
    let back = there.after_switch_workspace(name);
    assert(back.current_workspace == WorkspaceId(cw));
    assert(back.workspaces[cw] == v.workspaces[cw]);
    assert(v.workspace_ok(cw));
    let n = v.workspaces[cw].active_window;
    assert(v.windows.contains_key(n.0));
    assert(back.windows[n.0] == v.windows[n.0]);
    assert(v.window_ok(n.0));
    let t = v.windows[n.0].active_tab;
    assert(v.tabs.contains_key(t.0));
    assert(back.tabs[t.0] == v.tabs[t.0]);
}

/// Text queued for a pane is read back after what was queued before it, and
/// taking the input leaves nothing queued.
pub proof fn law_queued_input_reads_back(v: MuxView, p: u64, first: Seq<u8>, second: Seq<u8>)
    requires
        v.panes.contains_key(p),
    ensures
        v.with_queued_input(p, first).with_queued_input(p, second).panes[p].pending_input
            == v.panes[p].pending_input + first + second,
        v.with_queued_input(p, first).with_cleared_input(p).panes[p].pending_input.len() == 0,
{
    assert(v.panes[p].pending_input + first + second =~= v.panes[p].pending_input + (first
        + second));
}

proof fn lemma_sanitized_plain(s: Seq<char>)
    ensures
        forall|i: int| 0 <= i < sanitized(s).len() ==> !is_forbidden_name_char(#[trigger] sanitized(s)[i]),
    decreases s.len(),
{
    if s.len() > 0 {
        lemma_sanitized_plain(s.drop_last());
        let kept = sanitized(s.drop_last());
        let out = sanitized(s);
        assert forall|i: int| 0 <= i < out.len() implies !is_forbidden_name_char(#[trigger] out[i]) by {
            if i < kept.len() {
                assert(out[i] == kept[i]);
            }
        }
    }
}

proof fn lemma_trim_plain(s: Seq<char>)
    requires
        forall|i: int| 0 <= i < s.len() ==> !is_forbidden_name_char(#[trigger] s[i]),
    ensures
        forall|i: int|
            0 <= i < trim_trailing_dots_and_spaces(s).len() ==> !is_forbidden_name_char(
                #[trigger] trim_trailing_dots_and_spaces(s)[i],
            ),
        trim_trailing_dots_and_spaces(s).len() > 0 ==> trim_trailing_dots_and_spaces(s).last()
            != ' ' && trim_trailing_dots_and_spaces(s).last() != '.',
    decreases s.len(),
{
    if s.len() > 0 && (s.last() == ' ' || s.last() == '.') {
        lemma_trim_plain(s.drop_last());
    }
}

/// The name a download is stored under is never empty, holds no path
/// separator, no control character and no character that file systems
/// refuse, and does not end in a dot or a space; so it names a file inside
/// the download directory.
pub proof fn law_safe_name_is_a_plain_file_name(name: Seq<char>)
    ensures
        safe_name(name).len() > 0,
        forall|i: int|
            0 <= i < safe_name(name).len() ==> !is_forbidden_name_char(#[trigger] safe_name(name)[i]),
        safe_name(name).last() != ' ' && safe_name(name).last() != '.',
{
    let leaf = leaf_name(name);
    lemma_sanitized_plain(leaf);
    lemma_trim_plain(sanitized(leaf));
    let safe = trim_trailing_dots_and_spaces(sanitized(leaf));
    if safe.len() == 0 || is_reserved_device_name(before_first_dot(safe)) {
        let fixed = seq!['U', 'n', 'n', 'a', 'm', 'e', 'd', ' ', 'f', 'i', 'l', 'e'];
        assert(safe_name(name) == fixed);
        assert forall|i: int| 0 <= i < fixed.len() implies !is_forbidden_name_char(
            #[trigger] fixed[i],
        ) by {
            assert(fixed[i] == 'U' || fixed[i] == 'n' || fixed[i] == 'a' || fixed[i] == 'm' || fixed[i]
                == 'e' || fixed[i] == 'd' || fixed[i] == ' ' || fixed[i] == 'f' || fixed[i] == 'i'
                || fixed[i] == 'l');
        }
    }
}

proof fn lemma_walk_reaches_target(
    x0: int,
    y0: int,
    tx: int,
    ty: int,
    i: int,
    j: int,
    fuel: nat,
)
    requires
        0 <= i <= distance(x0, tx),
        0 <= j <= distance(y0, ty),
        fuel >= (distance(x0, tx) - i) + (distance(y0, ty) - j),
    ensures
        ({
            let a = distance(x0, tx);
            let b = distance(y0, ty);
            let sx = if x0 < tx {
                1int
            } else {
                -1int
            };
            let sy = if y0 < ty {
                1int
            } else {
                -1int
            };
            let x = if x0 < tx {
                x0 + i
            } else {
                x0 - i
            };
            let y = if y0 < ty {
                y0 + j
            } else {
                y0 - j
            };
            let walk = line_walk(x, y, tx, ty, a, b, sx, sy, a * (1 + j) - b * (1 + i), fuel);
            walk.len() > 0 && walk[0] == (x, y) && walk.last() == (tx, ty)
        }),
    decreases fuel,
{
    let a = distance(x0, tx);
    let b = distance(y0, ty);
    let sx = if x0 < tx {
        1int
    } else {
        -1int
    };
    let sy = if y0 < ty {
        1int
    } else {
        -1int
    };
    let x = if x0 < tx {
        x0 + i
    } else {
        x0 - i
    };
    let y = if y0 < ty {
        y0 + j
    } else {
        y0 - j
    };
    let error = a * (1 + j) - b * (1 + i);
    if x == tx && y == ty {
        return;
    }
    let d = 2 * error;
    if i == a {
        assert(j < b);
        assert(a * (1 + j) <= a * b) by (nonlinear_arith)
            requires
                0 <= a,
                1 + j <= b,
        ;
        assert(a * b <= b * (1 + a) - b) by (nonlinear_arith)
            requires
                0 <= a,
                0 <= b,
        ;
    }
    if j == b {
        assert(i < a);
        assert(b * (1 + i) <= b * a) by (nonlinear_arith)
            requires
                0 <= b,
                1 + i <= a,
        ;
        assert(a * b + a <= a * (1 + b)) by (nonlinear_arith)
            requires
                0 <= a,
        ;
    }
    let i2 = if d >= -b {
        i + 1
    } else {
        i
    };
    let j2 = if d <= a {
        j + 1
    } else {
        j
    };
    assert(b * (1 + (i + 1)) == b * (1 + i) + b) by (nonlinear_arith);
    assert(a * (1 + (j + 1)) == a * (1 + j) + a) by (nonlinear_arith);
    lemma_walk_reaches_target(x0, y0, tx, ty, i2, j2, (fuel - 1) as nat);
}

/// A line starts at its first point and ends at its second: the points
/// that a drawn line visits join the two points it was drawn between.
pub proof fn law_lines_join_their_ends(from: (int, int), to: (int, int))
    ensures
        line_points(from, to).len() > 0,
        line_points(from, to)[0] == from,
        line_points(from, to).last() == to,
{
    lemma_walk_reaches_target(from.0, from.1, to.0, to.1, 0, 0, (distance(from.0, to.0) + distance(from.1, to.1)) as nat);
    let a = distance(from.0, to.0);
    let b = distance(from.1, to.1);
    assert(a * (1 + 0) - b * (1 + 0) == a - b);
}

/// The heights of the bars, added up.
pub open spec fn bar_heights(bars: Seq<(StatusBarPosition, PaneRect)>) -> int
    decreases bars.len(),
{
    if bars.len() == 0 {
        0
    } else {
        bar_heights(bars.drop_last()) + bars.last().1.height
    }
}

/// The status bars and the panes' area share exactly the space below the
/// chrome: they span the window's width, their heights add up to what the
/// chrome leaves, and the panes' area starts right below a top bar and
/// ends right above a bottom bar.
pub proof fn law_edge_bars_share_the_space_below_the_chrome(
    size: PhysicalSize<u32>,
    chrome_height: u32,
    bar_height: u32,
    bars: Seq<StatusBarPosition>,
)
    ensures
        ({
            let (content, placed) = edge_layout(size, chrome_height, bar_height, bars);
            &&& content.width == size.width
            &&& forall|i: int| 0 <= i < placed.len() ==> (#[trigger] placed[i]).1.width == size.width
            &&& content.height + bar_heights(placed) == minus(size.height, chrome_height)
            &&& forall|i: int|
                0 <= i < placed.len() && (#[trigger] placed[i]).0 == StatusBarPosition::Top
                    ==> content.y == placed[i].1.y + placed[i].1.height
            &&& forall|i: int|
                0 <= i < placed.len() && (#[trigger] placed[i]).0 == StatusBarPosition::Bottom
                    ==> placed[i].1.y == content.y + content.height
        }),
{
    let start = below_chrome(size, chrome_height);
    assert(start.y + start.height <= size.height);
    let top = has_bar(bars, StatusBarPosition::Top);
    let bottom = has_bar(bars, StatusBarPosition::Bottom);
    let (t_rest, t_bar) = after_top_bar(start, bar_height);
    let mid = if top {
        t_rest
    } else {
        start
    };
    assert(mid.y + mid.height <= size.height);
    let (b_rest, b_bar) = after_bottom_bar(mid, bar_height);
    let empty = Seq::<(StatusBarPosition, PaneRect)>::empty();
    let first = if top {
        seq![(StatusBarPosition::Top, t_bar)]
    } else {
        empty
    };
    let (content, placed) = edge_layout(size, chrome_height, bar_height, bars);
    assert(bar_heights(empty) == 0);
    if top {
        assert(first.drop_last() =~= empty);
        assert(bar_heights(first) == t_bar.height);
    } else {
        assert(bar_heights(first) == 0);
    }
    if bottom {
        assert(content == b_rest);
        assert(placed == first.push((StatusBarPosition::Bottom, b_bar)));
        assert(placed.drop_last() == first);
        if top {
            assert(first.drop_last() =~= empty);
        }
    } else {
        assert(content == mid);
        assert(placed == first);
        if top {
            assert(first.drop_last() =~= empty);
        }
    }
}


/// Whether `actions` asks for a desktop notification.
pub open spec fn shows_any(actions: Seq<PaneAction>) -> bool {
    exists|i: int| 0 <= i < actions.len() && #[trigger] actions[i] is ShowNotification
}

/// A pane shows a desktop notification only when notifications are
/// allowed and none of its notifications was shown in the last two
/// seconds, and it then remembers when; a report that shows none leaves
/// that time as it was.
pub proof fn law_notifications_are_spaced(
    before: PaneProtocolState,
    after: PaneProtocolState,
    pane: PaneId,
    event: TerminalEvent,
    policy: OutputPolicy,
    now: u64,
    actions: Seq<PaneAction>,
)
    requires
        terminal_event_step(before, after, pane, event, policy, now, actions),
    ensures
        shows_any(actions) ==> policy.allow_notifications && interval_passed(
            before.last_notification_at,
            now,
        ) && after.last_notification_at == Some(now),
        !shows_any(actions) ==> after.last_notification_at == before.last_notification_at,
{
    if shows_any(actions) {
        let i = choose|i: int| 0 <= i < actions.len() && #[trigger] actions[i] is ShowNotification;
        assert(actions[i] is ShowNotification);
    }
    match event {
        TerminalEvent::Notification(request) => {
            if !shows_any(actions) {
                if actions.len() == 1 {
                    assert(actions[0] is ShowNotification);
                }
            }
        },
        _ => {},
    }
}

/// A pane keeps track of at most thirty-two notification ids: no report
/// takes it past that bound.
pub proof fn law_tracked_notification_ids_stay_bounded(
    before: PaneProtocolState,
    after: PaneProtocolState,
    pane: PaneId,
    event: TerminalEvent,
    policy: OutputPolicy,
    now: u64,
    actions: Seq<PaneAction>,
)
    requires
        terminal_event_step(before, after, pane, event, policy, now, actions),
        before.active_notifications.entries().len() <= MAX_TRACKED_NOTIFICATION_IDS,
    ensures
        after.active_notifications.entries().len() <= MAX_TRACKED_NOTIFICATION_IDS,
{
    let es = before.active_notifications.entries();
    match event {
        TerminalEvent::NotificationAliveQuery(_) => {
            let f = |e: (Seq<char>, Option<u64>)| crate::session::still_alive(e.1, now);
            es.lemma_filter_len(f);
        },
        TerminalEvent::Notification(request) => {
            if request.id is Some && after.active_notifications.entries() != es {
                let id = request.id->0@;
                if crate::session::has_id(es, id) {
                    let i = choose|i: int|
                        0 <= i < es.len() && es[i].0 == id && after.active_notifications.entries()
                            == es.update(i, (id, crate::pane_events::expiry(request.timeout_ms, now)));
                } else {
                    let p = choose|p: int|
                        0 <= p <= es.len() && after.active_notifications.entries() == es.insert(
                            p,
                            (id, crate::pane_events::expiry(request.timeout_ms, now)),
                        );
                }
            }
        },
        _ => {},
    }
}

/// Programs get the user's attention only where the user allows it: any
/// attention request but a cancel, and the cursor fireworks, need the
/// permission; a cancel always goes through.
pub proof fn law_attention_needs_permission(
    before: PaneProtocolState,
    after: PaneProtocolState,
    pane: PaneId,
    event: TerminalEvent,
    policy: OutputPolicy,
    now: u64,
    actions: Seq<PaneAction>,
)
    requires
        terminal_event_step(before, after, pane, event, policy, now, actions),
    ensures
        forall|i: int|
            #![trigger actions[i]]
            0 <= i < actions.len() ==> (actions[i] matches PaneAction::RequestAttention(a) && a
                != TerminalAttention::Cancel ==> policy.allow_attention),
        after.cursor_fireworks_deadline != before.cursor_fireworks_deadline
            ==> policy.allow_attention,
        event == TerminalEvent::AttentionRequested(TerminalAttention::Cancel) ==> actions == seq![
            PaneAction::RequestAttention(TerminalAttention::Cancel),
        ],
{
}

/// A URL is opened only at a program's request, when opening is allowed,
/// the URL acceptable and the last one opened long enough ago; it is then
/// remembered as the last one opened.
pub proof fn law_urls_open_only_when_allowed(
    before: PaneProtocolState,
    after: PaneProtocolState,
    pane: PaneId,
    event: TerminalEvent,
    policy: OutputPolicy,
    now: u64,
    actions: Seq<PaneAction>,
)
    requires
        terminal_event_step(before, after, pane, event, policy, now, actions),
    ensures
        forall|i: int|
            #![trigger actions[i]]
            0 <= i < actions.len() ==> (actions[i] matches PaneAction::OpenUrl(url) ==> event
                == TerminalEvent::OpenUrlRequested(url) && url_opens(
                policy.allow_open_url,
                url@,
                before.last_open_url_at,
                now,
            ) && after.last_open_url_at == Some(now)),
{
}

/// The event loop never sleeps past a terminal's deadline, and a bar is
/// only reported due when it is configured and its time has come.
pub proof fn law_wakeup_respects_deadlines(
    before: BarSchedule,
    after: BarSchedule,
    bars: Seq<StatusBarPosition>,
    window_present: bool,
    terminal: Option<u64>,
    now: u64,
    r: Wakeup,
)
    requires
        wakeup_step(before, after, bars, window_present, terminal, now, r),
    ensures
        r.control matches ControlFlow::WaitUntil(d) ==> (terminal matches Some(t) ==> d <= t),
        terminal is Some ==> r.control is WaitUntil,
        r.due_bar matches Some(p) ==> bars.contains(p) && (after.next_at(p) matches Some(d)
            && d <= now),
{
    if r.due_bar is Some && bars.len() > 0 && before.pending is None && window_present {
        lemma_earliest_bar_is_configured(bars, after);
    }
}

proof fn lemma_earliest_bar_is_configured(bars: Seq<StatusBarPosition>, s: BarSchedule)
    ensures
        earliest_bar(bars, s) matches Some((p, d)) ==> bars.contains(p) && s.next_at(p) == Some(d),
    decreases bars.len(),
{
    if bars.len() > 0 {
        lemma_earliest_bar_is_configured(bars.drop_last(), s);
        if let Some((p, d)) = earliest_bar(bars.drop_last(), s) {
            let k = choose|k: int| 0 <= k < bars.drop_last().len() && bars.drop_last()[k] == p;
            assert(bars[k] == p);
        }
        assert(bars[bars.len() - 1] == bars.last());
    }
}


/// Splitting and closing keep a tab's pane order free of repeats: a split
/// adds the new pane once and keeps every other pane, a close drops exactly
/// the closed pane; and closing the pane that a split just made gives back
/// the order from before the split.
pub proof fn law_split_and_close_keep_each_pane_once(
    panes: Seq<PaneId>,
    i: int,
    new_pane: PaneId,
    direction: SplitDirection,
    closed: PaneId,
)
    requires
        0 <= i < panes.len(),
        panes.no_duplicates(),
        !panes.contains(new_pane),
    ensures
        ({
            let after = panes_after_split(panes, panes[i], new_pane, new_pane_goes_first(direction));
            &&& after.no_duplicates()
            &&& forall|p: PaneId| #[trigger] after.contains(p) <==> (panes.contains(p) || p == new_pane)
            &&& panes_without(after, new_pane) == panes
        }),
        panes_without(panes, closed).no_duplicates(),
        forall|p: PaneId| #[trigger]
            panes_without(panes, closed).contains(p) <==> (panes.contains(p) && p != closed),
{
    let target = panes[i];
    let first = new_pane_goes_first(direction);
    let after = panes_after_split(panes, target, new_pane, first);
    lemma_split_panes(panes, target, new_pane, first);
    assert(panes.contains(target));
    lemma_without_panes(panes, closed);
    law_split_order_follows_direction(panes, i, new_pane, direction);
    let before = panes.take(i);
    let rest = panes.skip(i + 1);
    let pair = if first {
        seq![new_pane, target]
    } else {
        seq![target, new_pane]
    };
    assert(after == before + pair + rest);
    assert(!before.contains(new_pane)) by {
        if before.contains(new_pane) {
            let j = choose|j: int| 0 <= j < before.len() && before[j] == new_pane;
            assert(panes[j] == new_pane);
        }
    }
    assert(!rest.contains(new_pane)) by {
        if rest.contains(new_pane) {
            let j = choose|j: int| 0 <= j < rest.len() && rest[j] == new_pane;
            assert(panes[i + 1 + j] == new_pane);
        }
    }
    lemma_without_absent(before, new_pane);
    lemma_without_absent(rest, new_pane);
    assert(target != new_pane);
    let keep = other_than(new_pane);
    Seq::filter_distributes_over_add(before + pair, rest, keep);
    Seq::filter_distributes_over_add(before, pair, keep);
    reveal_with_fuel(Seq::filter, 3);
    assert(pair.filter(keep) =~= seq![target]);
    assert(panes =~= before + seq![target] + rest);
}

/// Different kinds of script events have different names, so a script can
/// tell every kind by its name.
pub proof fn law_script_event_names_are_unique(a: ScriptEventKind, b: ScriptEventKind)
    ensures
        a.spec_name() == b.spec_name() ==> a == b,
{
    ScriptEventKind::lemma_names_unique(a, b);
}

/// Moving the palette's selection by any amount among a positive number of
/// entries lands on one of them.
pub proof fn law_selection_stays_among_the_entries(selected: int, delta: int, item_count: int)
    requires
        item_count > 0,
    ensures
        0 <= (selected + delta) % item_count < item_count,
{
}


/// An environment change list: a variable and its value, or `None` to
/// remove it.
pub type EnvBindings = Seq<(Seq<char>, Option<Seq<char>>)>;

/// What the last entry for `key` in `bindings` says of it; none when no
/// entry names it. In an environment that names each variable once, it is
/// the variable's value, or its removal.
pub open spec fn last_binding(bindings: EnvBindings, key: Seq<char>) -> Option<Option<Seq<char>>>
    decreases bindings.len(),
{
    if bindings.len() == 0 {
        None
    } else if bindings.last().0 == key {
        Some(bindings.last().1)
    } else {
        last_binding(bindings.drop_last(), key)
    }
}

/// Whether `env` names each variable once.
pub open spec fn distinct_keys(env: EnvBindings) -> bool {
    forall|i: int, j: int| 0 <= i < j < env.len() ==> (#[trigger] env[i]).0 != (#[trigger] env[j]).0
}

proof fn lemma_last_binding_at(env: EnvBindings, key: Seq<char>)
    requires
        distinct_keys(env),
    ensures
        (forall|i: int| 0 <= i < env.len() ==> (#[trigger] env[i]).0 != key) ==> last_binding(env, key)
            is None,
        forall|i: int|
            0 <= i < env.len() && (#[trigger] env[i]).0 == key ==> last_binding(env, key) == Some(
                env[i].1,
            ),
    decreases env.len(),
{
    if env.len() > 0 {
        let rest = env.drop_last();
        assert(distinct_keys(rest)) by {
            assert forall|i: int, j: int| 0 <= i < j < rest.len() implies (#[trigger] rest[i]).0 != (
            #[trigger] rest[j]).0 by {
                assert(rest[i] == env[i] && rest[j] == env[j]);
            }
        }
        lemma_last_binding_at(rest, key);
        assert forall|i: int| 0 <= i < env.len() && (#[trigger] env[i]).0 == key implies last_binding(
            env,
            key,
        ) == Some(env[i].1) by {
            if i < env.len() - 1 {
                assert(rest[i] == env[i]);
                assert(env[i].0 != env[env.len() - 1].0);
            }
        }
        if forall|i: int| 0 <= i < env.len() ==> (#[trigger] env[i]).0 != key {
            assert(env[env.len() - 1].0 != key);
            assert forall|i: int| 0 <= i < rest.len() implies (#[trigger] rest[i]).0 != key by {
                assert(rest[i] == env[i]);
            }
        }
    }
}

proof fn lemma_env_with(env: EnvBindings, k: Seq<char>, v: Option<Seq<char>>, key: Seq<char>)
    requires
        distinct_keys(env),
    ensures
        distinct_keys(env_with(env, k, v)),
        last_binding(env_with(env, k, v), key) == if key == k {
            Some(v)
        } else {
            last_binding(env, key)
        },
{
    let r = env_with(env, k, v);
    lemma_last_binding_at(env, key);
    if exists|i: int| 0 <= i < env.len() && (#[trigger] env[i]).0 == k {
        let c = choose|i: int| 0 <= i < env.len() && (#[trigger] env[i]).0 == k;
        assert(r == env.update(c, (k, v)));
        assert(distinct_keys(r)) by {
            assert forall|i: int, j: int| 0 <= i < j < r.len() implies (#[trigger] r[i]).0 != (
            #[trigger] r[j]).0 by {
                assert(r[i].0 == env[i].0);
                assert(r[j].0 == env[j].0);
            }
        }
        lemma_last_binding_at(r, key);
        if key == k {
            assert(r[c] == (k, v));
        } else {
            if exists|i: int| 0 <= i < env.len() && (#[trigger] env[i]).0 == key {
                let m = choose|i: int| 0 <= i < env.len() && (#[trigger] env[i]).0 == key;
                assert(r[m] == env[m]);
            } else {
                assert forall|i: int| 0 <= i < r.len() implies (#[trigger] r[i]).0 != key by {
                    assert(r[i].0 == env[i].0 || i == c);
                }
            }
        }
    } else {
        assert(r == env.push((k, v)));
        assert(distinct_keys(r)) by {
            assert forall|i: int, j: int| 0 <= i < j < r.len() implies (#[trigger] r[i]).0 != (
            #[trigger] r[j]).0 by {
                assert(r[i] == env[i]);
                if j < env.len() {
                    assert(r[j] == env[j]);
                }
            }
        }
        assert(r.drop_last() =~= env);
    }
}

proof fn lemma_env_apply(env: EnvBindings, bindings: EnvBindings, key: Seq<char>)
    requires
        distinct_keys(env),
    ensures
        distinct_keys(env_apply(env, bindings)),
        last_binding(env_apply(env, bindings), key) == match last_binding(bindings, key) {
            Some(v) => Some(v),
            None => last_binding(env, key),
        },
    decreases bindings.len(),
{
    if bindings.len() > 0 {
        let b = bindings.last();
        lemma_env_apply(env, bindings.drop_last(), key);
        lemma_env_apply(env, bindings.drop_last(), b.0);
        lemma_env_with(env_apply(env, bindings.drop_last()), b.0, b.1, key);
    }
}

proof fn lemma_last_binding_add(a: EnvBindings, b: EnvBindings, key: Seq<char>)
    ensures
        last_binding(a + b, key) == match last_binding(b, key) {
            Some(v) => Some(v),
            None => last_binding(a, key),
        },
    decreases b.len(),
{
    if b.len() > 0 {
        assert((a + b).drop_last() =~= a + b.drop_last());
        lemma_last_binding_add(a, b.drop_last(), key);
    } else {
        assert(a + b =~= a);
    }
}

proof fn lemma_last_binding_removals(keys: Seq<Seq<char>>, key: Seq<char>)
    ensures
        last_binding(keys.map_values(|k: Seq<char>| (k, None::<Seq<char>>)), key) == if keys.contains(
            key,
        ) {
            Some(None::<Seq<char>>)
        } else {
            None
        },
    decreases keys.len(),
{
    let f = |k: Seq<char>| (k, None::<Seq<char>>);
    if keys.len() > 0 {
        let rest = keys.drop_last();
        assert(keys.map_values(f).drop_last() =~= rest.map_values(f));
        lemma_last_binding_removals(rest, key);
        if keys.last() != key {
            assert(keys.contains(key) ==> rest.contains(key)) by {
                if keys.contains(key) {
                    let i = choose|i: int| 0 <= i < keys.len() && keys[i] == key;
                    assert(rest[i] == key);
                }
            }
            assert(rest.contains(key) ==> keys.contains(key)) by {
                if rest.contains(key) {
                    let i = choose|i: int| 0 <= i < rest.len() && rest[i] == key;
                    assert(keys[i] == key);
                }
            }
        } else {
            assert(keys[keys.len() - 1] == key);
        }
    }
}

/// The environment of a pane's program names each variable once. Whatever
/// the launch asks for, `TERM` is `xterm-256color`, `TERM_PROGRAM` is
/// `toyoterm` and `TERM_PROGRAM_VERSION` the version, and each variable by
/// which an outer terminal identifies itself is removed; every other
/// variable is as the launch last set or removed it.
pub proof fn law_pane_environment(launch_env: EnvBindings, version: Seq<char>, key: Seq<char>)
    ensures
        distinct_keys(env_apply(Seq::empty(), launch_bindings(launch_env, version))),
        last_binding(env_apply(Seq::empty(), launch_bindings(launch_env, version)), key) == if outer_terminal_variables().contains(key) {
            Some(None::<Seq<char>>)
        } else if key == "TERM"@ {
            Some(Some("xterm-256color"@))
        } else if key == "TERM_PROGRAM"@ {
            Some(Some("toyoterm"@))
        } else if key == "TERM_PROGRAM_VERSION"@ {
            Some(Some(version))
        } else {
            last_binding(launch_env, key)
        },
{
    let empty = Seq::<(Seq<char>, Option<Seq<char>>)>::empty();
    let own = seq![
        ("TERM"@, Some("xterm-256color"@)),
        ("TERM_PROGRAM"@, Some("toyoterm"@)),
        ("TERM_PROGRAM_VERSION"@, Some(version)),
    ];
    let removals = outer_terminal_variables().map_values(|k: Seq<char>| (k, None::<Seq<char>>));
    let bindings = launch_bindings(launch_env, version);
    assert(bindings == launch_env + own + removals);
    lemma_env_apply(empty, bindings, key);
    assert(last_binding(empty, key) is None);
    lemma_last_binding_add(launch_env + own, removals, key);
    lemma_last_binding_add(launch_env, own, key);
    lemma_last_binding_removals(outer_terminal_variables(), key);
    reveal_with_fuel(last_binding, 4);
    assert(own.drop_last().drop_last().drop_last() =~= empty);
    assert(own.drop_last().drop_last().last() == ("TERM"@, Some("xterm-256color"@)));
    assert(own.drop_last().last() == ("TERM_PROGRAM"@, Some("toyoterm"@)));
    if key == "TERM"@ || key == "TERM_PROGRAM"@ || key == "TERM_PROGRAM_VERSION"@ {
        reveal_strlit("TERM");
        reveal_strlit("TERM_PROGRAM");
        reveal_strlit("TERM_PROGRAM_VERSION");
        reveal_strlit("ITERM_SESSION_ID");
        reveal_strlit("KITTY_LISTEN_ON");
        reveal_strlit("KITTY_WINDOW_ID");
        reveal_strlit("KONSOLE_DBUS_SERVICE");
        reveal_strlit("KONSOLE_DBUS_SESSION");
        reveal_strlit("KONSOLE_VERSION");
        reveal_strlit("LC_TERMINAL");
        reveal_strlit("LC_TERMINAL_VERSION");
        reveal_strlit("TMUX");
        reveal_strlit("TMUX_PANE");
        reveal_strlit("WEZTERM_EXECUTABLE");
        reveal_strlit("WEZTERM_PANE");
        reveal_strlit("WT_SESSION");
        assert(!outer_terminal_variables().contains(key)) by {
            if outer_terminal_variables().contains(key) {
                let i = choose|i: int|
                    0 <= i < outer_terminal_variables().len() && outer_terminal_variables()[i] == key;
                assert(outer_terminal_variables()[i].len() == key.len());
                assert(outer_terminal_variables()[i][0] == key[0]);
                assert(outer_terminal_variables()[i][1] == key[1]);
                assert(outer_terminal_variables()[i][2] == key[2]);
                assert(outer_terminal_variables()[i][3] == key[3]);
            }
        }
        assert("TERM"@.len() != "TERM_PROGRAM"@.len());
        assert("TERM"@.len() != "TERM_PROGRAM_VERSION"@.len());
        assert("TERM_PROGRAM"@ != "TERM_PROGRAM_VERSION"@);
    }
}


/// The byte width of the query character that starts at byte `at`, cut
/// at the end of the query.
pub open spec fn char_width_at(query: Seq<u8>, at: int) -> int {
    if utf8_width(query[at]) <= query.len() - at {
        utf8_width(query[at])
    } else {
        query.len() - at
    }
}

/// Whether the characters of `query` from byte `at` on occur in
/// `candidate` in order: the first at or after byte `from`, each one after
/// the previous.
pub open spec fn occurs_in_order(candidate: Seq<u8>, query: Seq<u8>, at: int, from: int) -> bool
    decreases query.len() - at,
{
    if at < 0 || at >= query.len() {
        true
    } else {
        let w = char_width_at(query, at);
        exists|index: int|
            0 <= from <= index && index + w <= candidate.len() && #[trigger] candidate.subrange(
                index,
                index + w,
            ) == query.subrange(at, at + w) && occurs_in_order(candidate, query, at + w, index + w)
    }
}

proof fn lemma_first_match_is_first(hay: Seq<u8>, needle: Seq<u8>, from: int, j: int)
    requires
        0 <= from <= j,
        j + needle.len() <= hay.len(),
        hay.subrange(j, j + needle.len()) == needle,
    ensures
        first_match(hay, needle, from) matches Some(i) && from <= i <= j && hay.subrange(
            i,
            i + needle.len(),
        ) == needle,
    decreases j - from,
{
    if hay.subrange(from, from + needle.len()) != needle {
        lemma_first_match_is_first(hay, needle, from + 1, j);
    }
}

proof fn lemma_first_match_found(hay: Seq<u8>, needle: Seq<u8>, from: int)
    ensures
        first_match(hay, needle, from) matches Some(i) ==> 0 <= from <= i && i + needle.len()
            <= hay.len() && hay.subrange(i, i + needle.len()) == needle,
    decreases hay.len() + 1 - from,
{
    if from >= 0 && from + needle.len() <= hay.len() && hay.subrange(from, from + needle.len())
        != needle {
        lemma_first_match_found(hay, needle, from + 1);
    }
}

proof fn lemma_in_order_from_earlier(candidate: Seq<u8>, query: Seq<u8>, at: int, from: int, earlier: int)
    requires
        0 <= earlier <= from,
        occurs_in_order(candidate, query, at, from),
    ensures
        occurs_in_order(candidate, query, at, earlier),
{
    if 0 <= at < query.len() {
        let w = char_width_at(query, at);
        let index = choose|index: int|
            0 <= from <= index && index + w <= candidate.len() && #[trigger] candidate.subrange(
                index,
                index + w,
            ) == query.subrange(at, at + w) && occurs_in_order(candidate, query, at + w, index + w);
        assert(candidate.subrange(index, index + w) == query.subrange(at, at + w));
    }
}

proof fn lemma_points_iff_in_order(candidate: Seq<u8>, query: Seq<u8>, at: int, from: int, previous: int)
    requires
        0 <= from,
    ensures
        fuzzy_points(candidate, query, at, from, previous) is Some <==> occurs_in_order(
            candidate,
            query,
            at,
            from,
        ),
    decreases query.len() - at,
{
    if 0 <= at < query.len() {
        let w = char_width_at(query, at);
        let needle = query.subrange(at, at + w);
        lemma_first_match_found(candidate, needle, from);
        match first_match(candidate, needle, from) {
            Some(index) => {
                lemma_points_iff_in_order(candidate, query, at + w, index + w, index);
                if occurs_in_order(candidate, query, at, from) {
                    let j = choose|j: int|
                        0 <= from <= j && j + w <= candidate.len() && #[trigger] candidate.subrange(
                            j,
                            j + w,
                        ) == query.subrange(at, at + w) && occurs_in_order(
                            candidate,
                            query,
                            at + w,
                            j + w,
                        );
                    lemma_first_match_is_first(candidate, needle, from, j);
                    lemma_in_order_from_earlier(candidate, query, at + w, j + w, index + w);
                }
                if occurs_in_order(candidate, query, at + w, index + w) {
                    assert(candidate.subrange(index, index + w) == query.subrange(at, at + w));
                }
            },
            None => {
                if occurs_in_order(candidate, query, at, from) {
                    let j = choose|j: int|
                        0 <= from <= j && j + w <= candidate.len() && #[trigger] candidate.subrange(
                            j,
                            j + w,
                        ) == query.subrange(at, at + w) && occurs_in_order(
                            candidate,
                            query,
                            at + w,
                            j + w,
                        );
                    lemma_first_match_is_first(candidate, needle, from, j);
                }
            },
        }
    }
}

/// A palette item matches a query exactly when the characters of the
/// lower-cased query occur, in order, in the item's lower-cased label: the
/// score is only there to rank the matches.
pub proof fn law_palette_matches_are_subsequences(candidate: Seq<u8>, query: Seq<u8>)
    ensures
        spec_fuzzy_score(candidate, query) is Some <==> occurs_in_order(candidate, query, 0, 0),
{
    lemma_points_iff_in_order(candidate, query, 0, 0, -1);
}


/// A tab whose tree holds a single pane is that pane alone, not a split.
pub proof fn law_single_pane_tree_is_a_leaf(tree: PaneNode)
    requires
        tree.spec_panes().len() == 1,
    ensures
        tree == PaneNode::Leaf(tree.spec_panes()[0]),
{
    tree.lemma_panes_nonempty();
}


/// The panes of a tab after the first `k` commands of a run of splits and
/// closes: those it held at the start, plus each pane a split created, less
/// each pane closed.
pub open spec fn run_panes(start: Seq<PaneId>, views: Seq<MuxView>, commands: Seq<Command>, k: int) -> Set<
    PaneId,
>
    decreases k,
{
    if k <= 0 {
        Set::new(|p: PaneId| start.contains(p))
    } else {
        let before = run_panes(start, views, commands, k - 1);
        match commands[k - 1] {
            Command::Split { .. } => before.insert(PaneId(views[k - 1].next_id)),
            Command::ClosePane(q) => before.remove(q),
            _ => before,
        }
    }
}

/// The panes closed by the first `k` commands of a run.
pub open spec fn run_closed(commands: Seq<Command>, k: int) -> Set<PaneId>
    decreases k,
{
    if k <= 0 {
        Set::empty()
    } else {
        match commands[k - 1] {
            Command::ClosePane(q) => run_closed(commands, k - 1).insert(q),
            _ => run_closed(commands, k - 1),
        }
    }
}

/// A run in which every command splits a live pane of tab `t`, or closes
/// one while `t` holds at least two panes, and every state is the one the
/// previous command leaves behind.
pub open spec fn split_close_run(
    views: Seq<MuxView>,
    commands: Seq<Command>,
    results: Seq<Result<CommandResult, MuxError>>,
    t: u64,
) -> bool {
    &&& views.len() == commands.len() + 1
    &&& results.len() == commands.len()
    &&& forall|i: int|
        0 <= i < commands.len() ==> #[trigger] views[i].dispatch_result(
            commands[i],
            results[i],
            views[i + 1],
        )
    &&& forall|i: int| 0 <= i < commands.len() ==> views[i].has_room(4)
    &&& forall|i: int|
        #![trigger commands[i]]
        0 <= i < commands.len() ==> match commands[i] {
            Command::Split { pane, .. } => views[i].panes.contains_key(pane.0)
                && views[i].panes[pane.0].tab.0 == t,
            Command::ClosePane(q) => views[i].panes.contains_key(q.0) && views[i].panes[q.0].tab.0
                == t && views[i].tabs[t].root.spec_panes().len() >= 2,
            _ => false,
        }
}

/// What holds after the first `k` commands of such a run.
pub open spec fn run_state_ok(
    views: Seq<MuxView>,
    commands: Seq<Command>,
    t: u64,
    k: int,
) -> bool {
    let v = views[k];
    let ps = v.tabs[t].root.spec_panes();
    &&& v.wf()
    &&& v.tabs.contains_key(t)
    &&& v.current_tab() == TabId(t)
    &&& ps.no_duplicates()
    &&& ps.contains(v.current_pane())
    &&& forall|p: PaneId|
        #[trigger] ps.contains(p) <==> run_panes(
            views[0].tabs[t].root.spec_panes(),
            views,
            commands,
            k,
        ).contains(p)
    &&& forall|q: PaneId|
        #[trigger] run_closed(commands, k).contains(q) ==> !v.panes.contains_key(q.0) && q.0
            < v.next_id
}

proof fn lemma_run_prefix(
    views: Seq<MuxView>,
    commands: Seq<Command>,
    results: Seq<Result<CommandResult, MuxError>>,
    t: u64,
    k: int,
)
    requires
        split_close_run(views, commands, results, t),
        views[0].wf(),
        views[0].tabs.contains_key(t),
        views[0].current_tab() == TabId(t),
        0 <= k <= commands.len(),
    ensures
        run_state_ok(views, commands, t, k),
        k > 0 ==> results[k - 1] is Ok,
    decreases k,
{
    let v0 = views[0];
    let ps0 = v0.tabs[t].root.spec_panes();
    if k == 0 {
        assert(v0.tab_ok(t));
        lemma_wf_current_pane(v0);
    } else {
        lemma_run_prefix(views, commands, results, t, k - 1);
        let j = k - 1;
        assert(views[j].dispatch_result(commands[j], results[j], views[j + 1]));
        assert(j + 1 == k);
        let v = views[j];
        let f = views[k];
        let c = commands[j];
        assert(v.dispatch_result(c, results[j], f));
        let ps = v.tabs[t].root.spec_panes();
        match c {
            Command::Split { pane, direction } => {
                assert(v.pane_ok(pane.0));
                lemma_split(v, pane.0, f.tabs[t].root, crate::tree::new_pane_goes_first(direction));
                lemma_split_panes(ps, pane, PaneId(v.next_id), crate::tree::new_pane_goes_first(direction));
                assert(f.tab_ok(t));
                assert forall|q: PaneId| #[trigger] run_closed(commands, k).contains(q) implies !f.panes.contains_key(q.0)
                    && q.0 < f.next_id by {
                    assert(run_closed(commands, k - 1).contains(q));
                }
            },
            Command::ClosePane(q) => {
                assert(v.pane_ok(q.0));
                v.tabs[t].root.lemma_panes_nonempty();
                assert(!v.tabs[t].root.is_leaf()) by {
                    if v.tabs[t].root.is_leaf() {
                        assert(ps.len() == 1);
                    }
                }
                lemma_close_pane(v, q.0, f.tabs[t].root);
                lemma_without_panes(ps, q);
                assert(f.tab_ok(t));
                assert(v.ids_below());
                lemma_wf_current_pane(f);
                assert forall|r: PaneId| #[trigger] run_closed(commands, k).contains(r) implies !f.panes.contains_key(r.0)
                    && r.0 < f.next_id by {
                    if r != q {
                        assert(run_closed(commands, k - 1).contains(r));
                    }
                }
            },
            _ => {},
        }
    }
}

proof fn lemma_wf_current_pane(v: MuxView)
    requires
        v.wf(),
        v.tabs.contains_key(v.current_tab().0),
    ensures
        v.tabs[v.current_tab().0].root.spec_panes().contains(v.current_pane()),
{
    assert(v.tab_ok(v.current_tab().0));
}

/// Over any run of splits of live panes of a tab and closes of its panes
/// while it holds at least two, from a well-formed multiplexer in which that
/// tab is current: every command succeeds, and after each one the tab holds
/// each pane it started with or that a split created, and that was not
/// closed since, exactly once; no closed pane is live; the tab stays current
/// and its active pane is one of its panes; and a tab left with a single
/// pane is that pane alone.
pub proof fn law_split_and_close_runs_keep_the_tab_sound(
    views: Seq<MuxView>,
    commands: Seq<Command>,
    results: Seq<Result<CommandResult, MuxError>>,
    t: u64,
)
    requires
        split_close_run(views, commands, results, t),
        views[0].wf(),
        views[0].tabs.contains_key(t),
        views[0].current_tab() == TabId(t),
    ensures
        forall|i: int| 0 <= i < commands.len() ==> (#[trigger] results[i]) is Ok,
        forall|k: int| 0 <= k <= commands.len() ==> #[trigger] run_state_ok(views, commands, t, k),
        forall|k: int|
            0 <= k <= commands.len() && (#[trigger] views[k]).tabs[t].root.spec_panes().len() == 1
                ==> views[k].tabs[t].root == PaneNode::Leaf(views[k].tabs[t].root.spec_panes()[0]),
{
    assert forall|k: int| 0 <= k <= commands.len() implies #[trigger] run_state_ok(views, commands, t, k) by {
        lemma_run_prefix(views, commands, results, t, k);
    }
    assert forall|i: int| 0 <= i < commands.len() implies (#[trigger] results[i]) is Ok by {
        lemma_run_prefix(views, commands, results, t, i + 1);
    }
    assert forall|k: int|
        0 <= k <= commands.len() && (#[trigger] views[k]).tabs[t].root.spec_panes().len() == 1 implies views[k].tabs[t].root
            == PaneNode::Leaf(views[k].tabs[t].root.spec_panes()[0]) by {
        views[k].tabs[t].root.lemma_panes_nonempty();
    }
}


/// The chunks one after the other.
pub open spec fn concat_all(chunks: Seq<Seq<u8>>) -> Seq<u8>
    decreases chunks.len(),
{
    if chunks.len() == 0 {
        Seq::empty()
    } else {
        concat_all(chunks.drop_last()) + chunks.last()
    }
}

/// How many bytes of `input` an append takes when `pending` bytes wait, as
/// [`crate::session::PtyOutputBuffer::append`] states it.
pub open spec fn append_room(pending: Seq<u8>, input: Seq<u8>) -> int {
    if input.len() <= MAX_PENDING_PTY_OUTPUT_BYTES - pending.len() {
        input.len() as int
    } else {
        MAX_PENDING_PTY_OUTPUT_BYTES - pending.len()
    }
}

/// Output appended chunk after chunk to an empty buffer, as long as it all
/// fits within the limit, is taken in full and waits as exactly the chunks
/// one after the other, in order, with nothing lost or repeated.
pub proof fn law_pty_output_reads_back_in_order(chunks: Seq<Seq<u8>>, pending: Seq<Seq<u8>>)
    requires
        pending.len() == chunks.len() + 1,
        pending[0] == Seq::<u8>::empty(),
        forall|i: int|
            0 <= i < chunks.len() ==> #[trigger] pending[i + 1] == pending[i] + chunks[i].take(
                append_room(pending[i], chunks[i]),
            ),
        concat_all(chunks).len() <= MAX_PENDING_PTY_OUTPUT_BYTES,
    ensures
        forall|i: int|
            0 <= i < chunks.len() ==> append_room(pending[i], #[trigger] chunks[i]) == chunks[i].len(),
        pending.last() == concat_all(chunks),
{
    lemma_pty_prefix(chunks, pending, chunks.len() as int);
    assert(chunks.take(chunks.len() as int) =~= chunks);
    assert forall|i: int| 0 <= i < chunks.len() implies append_room(pending[i], #[trigger] chunks[i])
        == chunks[i].len() by {
        lemma_pty_prefix(chunks, pending, i);
        lemma_concat_all_prefix_len(chunks, i + 1);
        assert(chunks.take(i + 1).drop_last() =~= chunks.take(i));
        assert(chunks.take(i + 1).last() == chunks[i]);
    }
}

proof fn lemma_concat_all_prefix_len(chunks: Seq<Seq<u8>>, k: int)
    requires
        0 <= k <= chunks.len(),
    ensures
        concat_all(chunks.take(k)).len() <= concat_all(chunks).len(),
    decreases chunks.len() - k,
{
    if k < chunks.len() {
        lemma_concat_all_prefix_len(chunks, k + 1);
        assert(chunks.take(k + 1).drop_last() =~= chunks.take(k));
    } else {
        assert(chunks.take(k) =~= chunks);
    }
}

proof fn lemma_pty_prefix(chunks: Seq<Seq<u8>>, pending: Seq<Seq<u8>>, k: int)
    requires
        pending.len() == chunks.len() + 1,
        pending[0] == Seq::<u8>::empty(),
        forall|i: int|
            0 <= i < chunks.len() ==> #[trigger] pending[i + 1] == pending[i] + chunks[i].take(
                append_room(pending[i], chunks[i]),
            ),
        concat_all(chunks).len() <= MAX_PENDING_PTY_OUTPUT_BYTES,
        0 <= k <= chunks.len(),
    ensures
        pending[k] == concat_all(chunks.take(k)),
    decreases k,
{
    if k == 0 {
        assert(chunks.take(0) =~= Seq::<Seq<u8>>::empty());
    } else {
        lemma_pty_prefix(chunks, pending, k - 1);
        let j = k - 1;
        assert(pending[j + 1] == pending[j] + chunks[j].take(append_room(pending[j], chunks[j])));
        assert(chunks.take(k).drop_last() =~= chunks.take(j));
        assert(chunks.take(k).last() == chunks[j]);
        lemma_concat_all_prefix_len(chunks, k);
        assert(chunks[j].take(chunks[j].len() as int) =~= chunks[j]);
    }
}


/// Whether an item's lower-cased label matches the lower-cased `query`.
pub open spec fn item_matches(query: Seq<u8>) -> spec_fn(PaletteItem) -> bool {
    |x: PaletteItem| spec_fuzzy_score(lowered(x.label@), query) is Some
}

/// Entries in rank order: none ranks strictly before an earlier one.
pub open spec fn rank_sorted(s: Seq<(int, PaletteItem)>) -> bool {
    forall|i: int, j: int| 0 <= i < j < s.len() ==> !ranks_before(#[trigger] s[j], #[trigger] s[i])
}

proof fn lemma_scored_items(items: Seq<PaletteItem>, query: Seq<u8>)
    ensures
        scored_items(items, query).map_values(|e: (int, PaletteItem)| e.1) == items.filter(
            item_matches(query),
        ),
    decreases items.len(),
{
    reveal_with_fuel(Seq::filter, 2);
    if items.len() > 0 {
        lemma_scored_items(items.drop_last(), query);
        let rest = scored_items(items.drop_last(), query);
        assert(rest.push((0, items.last())).map_values(|e: (int, PaletteItem)| e.1)
            =~= rest.map_values(|e: (int, PaletteItem)| e.1).push(items.last()));
        match spec_fuzzy_score(lowered(items.last().label@), query) {
            Some(score) => {
                assert(rest.push((score, items.last())).map_values(|e: (int, PaletteItem)| e.1)
                    =~= rest.map_values(|e: (int, PaletteItem)| e.1).push(items.last()));
            },
            None => {},
        }
    } else {
        assert(scored_items(items, query).map_values(|e: (int, PaletteItem)| e.1) =~= Seq::<
            PaletteItem,
        >::empty());
    }
}

proof fn lemma_ranks_before_order(a: (int, PaletteItem), b: (int, PaletteItem), c: (int, PaletteItem))
    ensures
        !ranks_before(a, a),
        ranks_before(a, b) && ranks_before(b, c) ==> ranks_before(a, c),
{
    lemma_bytes_less_irreflexive(encode_utf8_of(a));
    if ranks_before(a, b) && ranks_before(b, c) && a.0 == b.0 && b.0 == c.0 {
        lemma_bytes_less_transitive(encode_utf8_of(a), encode_utf8_of(b), encode_utf8_of(c));
    }
}

/// The UTF-8 bytes of an entry's label.
pub open spec fn encode_utf8_of(e: (int, PaletteItem)) -> Seq<u8> {
    vstd::utf8::encode_utf8(e.1.label@)
}

proof fn lemma_rank_position(sorted: Seq<(int, PaletteItem)>, x: (int, PaletteItem))
    ensures
        0 <= rank_position(sorted, x) <= sorted.len(),
        forall|k: int| 0 <= k < rank_position(sorted, x) ==> !ranks_before(x, #[trigger] sorted[k]),
        rank_position(sorted, x) < sorted.len() ==> ranks_before(x, sorted[rank_position(sorted, x)]),
    decreases sorted.len(),
{
    if sorted.len() > 0 && !ranks_before(x, sorted[0]) {
        lemma_rank_position(sorted.drop_first(), x);
        assert forall|k: int| 0 <= k < rank_position(sorted, x) implies !ranks_before(x, #[trigger] sorted[k]) by {
            if k > 0 {
                assert(sorted[k] == sorted.drop_first()[k - 1]);
            }
        }
    }
}

proof fn lemma_ranked(s: Seq<(int, PaletteItem)>)
    ensures
        ranked(s).to_multiset() == s.to_multiset(),
        ranked(s).len() == s.len(),
        rank_sorted(ranked(s)),
    decreases s.len(),
{
    broadcast use vstd::seq_lib::to_multiset_insert, vstd::seq_lib::to_multiset_build;

    if s.len() == 0 {
        assert(ranked(s) =~= s);
    } else {
        let x = s.last();
        lemma_ranked(s.drop_last());
        let r = ranked(s.drop_last());
        lemma_rank_position(r, x);
        let pos = rank_position(r, x);
        let n = r.insert(pos, x);
        assert(s =~= s.drop_last().push(x));
        assert forall|a: int, b: int| 0 <= a < b < n.len() implies !ranks_before(#[trigger] n[b], #[trigger] n[a]) by {
            if b < pos {
                assert(n[a] == r[a] && n[b] == r[b]);
            } else if a > pos {
                assert(n[a] == r[a - 1] && n[b] == r[b - 1]);
            } else if a < pos && b > pos {
                assert(n[a] == r[a] && n[b] == r[b - 1]);
            } else if a == pos {
                assert(n[a] == x && n[b] == r[b - 1]);
                lemma_ranks_before_order(r[b - 1], x, r[pos]);
                lemma_ranks_before_order(x, r[pos], x);
                if b - 1 > pos {
                    assert(!ranks_before(r[b - 1], r[pos]));
                }
            } else {
                assert(b == pos);
                assert(n[a] == r[a] && n[b] == x);
            }
        }
    }
}

/// The palette shows exactly the items whose lower-cased label holds the
/// characters of the lower-cased query in order, each as often as it occurs
/// among the items, best score first and, between equal scores, by label;
/// an empty query matches every item.
pub proof fn law_palette_filter_keeps_the_matches_in_rank_order(items: Seq<PaletteItem>, query: Seq<char>)
    ensures
        ranked(scored_items(items, lowered(query))).to_multiset() == scored_items(
            items,
            lowered(query),
        ).to_multiset(),
        scored_items(items, lowered(query)).map_values(|e: (int, PaletteItem)| e.1) == items.filter(
            item_matches(lowered(query)),
        ),
        filtered(items, query) == ranked(scored_items(items, lowered(query))).map_values(
            |e: (int, PaletteItem)| e.1,
        ),
        rank_sorted(ranked(scored_items(items, lowered(query)))),
        forall|x: PaletteItem|
            #[trigger] item_matches(lowered(query))(x) <==> occurs_in_order(
                lowered(x.label@),
                lowered(query),
                0,
                0,
            ),
        lowered(query).len() == 0 ==> forall|x: PaletteItem| #[trigger] item_matches(lowered(query))(x),
{
    let q = lowered(query);
    lemma_scored_items(items, q);
    lemma_ranked(scored_items(items, q));
    assert forall|x: PaletteItem|
        #[trigger] item_matches(q)(x) <==> occurs_in_order(lowered(x.label@), q, 0, 0) by {
        law_palette_matches_are_subsequences(lowered(x.label@), q);
    }
}

} // verus!
