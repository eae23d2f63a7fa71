//! Per-window and per-pane session state that the event loop consults:
//! buffered PTY output, click counting, occlusion, terminal progress and
//! status, and the answers owed to OSC requests.
//!
//! Times are milliseconds on a monotonic clock, read by the caller.
use vstd::prelude::*;
use crate::api::PaneId;
use crate::cli::{parse_u64, parsed_u64};
use crate::keys::{url_verdict, validate_allowed_url};
use crate::text::{
    bytes_less, decimal, lemma_bytes_less_irreflexive, lemma_bytes_less_total,
    lemma_bytes_less_transitive, less_bytes, push_decimal, push_str,
};
use vstd::string::StrSliceExecFns;
use vstd::string::StringSliceAdditionalSpecFns;
use vstd::utf8::{decode_utf8, encode_utf8, encode_utf8_decode_utf8};

verus! {

/// The most PTY output that may wait for the main thread.
pub const MAX_PENDING_PTY_OUTPUT_BYTES: usize = 1048576;

/// The longest pause between clicks that still counts towards a double or
/// triple click, in milliseconds.
pub const MULTI_CLICK_INTERVAL_MS: u64 = 500;

/// How long the visual bell stays lit, in milliseconds.
pub const OSC_VISUAL_BELL_DURATION_MS: u64 = 150;

/// The shortest pause between two URLs opened on a program's request, in
/// milliseconds.
pub const OSC_OPEN_URL_INTERVAL_MS: u64 = 2000;

/// What the allocator gave a vector: how many bytes it can hold.
/// Nothing is promised of the number, which depends on the allocator.
#[verifier::external_body]
fn vec_capacity(v: &Vec<u8>) -> usize {
    v.capacity()
}

/// PTY output read by the reader and not yet taken by the main thread,
/// with a second, drained allocation kept for reuse.
pub struct PtyOutputBuffer {
    bytes: Vec<u8>,
    spare: Vec<u8>,
}

/// What one call of [`PtyOutputBuffer::append`] did.
#[derive(Clone, Copy, Debug, PartialEq, Eq, Structural)]
pub struct PtyAppend {
    /// How many bytes of the input were buffered.
    pub accepted: usize,
    /// Whether the buffer went from empty to non-empty, so that the main
    /// thread must be woken.
    pub notify: bool,
}

impl PtyOutputBuffer {
    /// The bytes waiting, oldest first.
    pub closed spec fn pending(&self) -> Seq<u8> {
        self.bytes@
    }

    /// The spare allocation holds nothing, and the pending bytes stay
    /// within the limit.
    pub closed spec fn wf(&self) -> bool {
        &&& self.spare@.len() == 0
        &&& self.bytes@.len() <= MAX_PENDING_PTY_OUTPUT_BYTES
    }

    /// An empty buffer.
    pub fn new() -> (r: Self)
        ensures
            r.wf(),
            r.pending() == Seq::<u8>::empty(),
    {
        PtyOutputBuffer { bytes: Vec::new(), spare: Vec::new() }
    }

    /// Buffers as much of `input` as the limit allows. The caller waits for
    /// the main thread to drain the buffer before it hands over the rest.
    pub fn append(&mut self, input: &[u8]) -> (r: PtyAppend)
        requires
            old(self).wf(),
        ensures
            final(self).wf(),
            r.accepted as int == if input@.len() <= MAX_PENDING_PTY_OUTPUT_BYTES - old(
                self,
            ).pending().len() {
                input@.len() as int
            } else {
                MAX_PENDING_PTY_OUTPUT_BYTES - old(self).pending().len()
            },
            final(self).pending() == old(self).pending() + input@.take(r.accepted as int),
            r.notify == (old(self).pending().len() == 0 && input@.len() > 0),
    {
        let notify = self.bytes.len() == 0 && input.len() > 0;
        let room = MAX_PENDING_PTY_OUTPUT_BYTES - self.bytes.len();
        let count = if input.len() <= room {
            input.len()
        } else {
            room
        };
        let ghost before = self.bytes@;
        let mut i: usize = 0;
        while i < count
            invariant
                i <= count,
                count <= input@.len(),
                before.len() + count <= MAX_PENDING_PTY_OUTPUT_BYTES,
                self.bytes@ == before + input@.take(i as int),
                self.spare@.len() == 0,
            decreases count - i,
        {
            self.bytes.push(input[i]);
            proof {
                assert(input@.take(i + 1) =~= input@.take(i as int).push(input@[i as int]));
            }
            i = i + 1;
        }
        PtyAppend { accepted: count, notify }
    }

    /// Hands every pending byte to the caller, and continues in the spare
    /// allocation.
    pub fn take(&mut self) -> (r: Vec<u8>)
        requires
            old(self).wf(),
        ensures
            final(self).wf(),
            r@ == old(self).pending(),
            final(self).pending() == Seq::<u8>::empty(),
    {
        std::mem::swap(&mut self.bytes, &mut self.spare);
        let mut out: Vec<u8> = Vec::new();
        std::mem::swap(&mut out, &mut self.spare);
        out
    }

    /// Takes back a drained buffer, and keeps its allocation when it is the
    /// larger one. The pending bytes are unchanged.
    pub fn recycle(&mut self, bytes: Vec<u8>)
        requires
            old(self).wf(),
        ensures
            final(self).wf(),
            final(self).pending() == old(self).pending(),
    {
        let mut bytes = bytes;
        bytes.clear();
        if vec_capacity(&bytes) > vec_capacity(&self.spare) {
            self.spare = bytes;
        }
    }
}

impl Default for PtyOutputBuffer {
    fn default() -> (r: Self)
        ensures
            r.wf(),
            r.pending() == Seq::<u8>::empty(),
    {
        PtyOutputBuffer::new()
    }
}

/// Whether a window is hidden behind others.
#[derive(Clone, Copy, Debug, Default, PartialEq, Eq, Structural)]
pub struct WindowOcclusion {
    pub occluded: bool,
}

impl WindowOcclusion {
    /// Records the new occlusion, and says whether the window just became
    /// visible.
    pub fn update(&mut self, occluded: bool) -> (became_visible: bool)
        ensures
            final(self).occluded == occluded,
            became_visible == (old(self).occluded && !occluded),
    {
        let became_visible = self.occluded && !occluded;
        self.occluded = occluded;
        became_visible
    }

    /// Whether the window is worth drawing.
    pub fn should_render(self) -> (r: bool)
        ensures
            r == !self.occluded,
    {
        !self.occluded
    }
}

/// The cell a mouse click landed on.
#[derive(Clone, Copy, Debug, PartialEq, Eq, Structural)]
pub struct ClickTarget {
    pub pane: PaneId,
    pub column: u16,
    pub row: u16,
}

/// Counts repeated clicks on one cell, for word and line selection.
#[derive(Clone, Copy, Debug, PartialEq, Eq)]
pub struct ClickTracker {
    /// The last click: its time, its cell and its count.
    pub previous: Option<(u64, ClickTarget, u8)>,
}

/// The count of a click at `now` on `target`, after `previous`: one more
/// than the last, cycling through one, two and three, when it hits the same
/// cell within the interval; otherwise one.
pub open spec fn click_count(previous: Option<(u64, ClickTarget, u8)>, now: u64, target: ClickTarget) -> u8 {
    match previous {
        Some((time, last_target, count)) => {
            let elapsed = if now >= time { now - time } else { 0 };
            if target == last_target && elapsed <= MULTI_CLICK_INTERVAL_MS {
                (count % 3 + 1) as u8
            } else {
                1
            }
        },
        None => 1,
    }
}

impl ClickTracker {
    /// A tracker that has seen no click.
    pub fn new() -> (r: Self)
        ensures
            r.previous is None,
    {
        ClickTracker { previous: None }
    }

    /// Registers a click and returns its count.
    pub fn register(&mut self, now: u64, target: ClickTarget) -> (count: u8)
        ensures
            count == click_count(old(self).previous, now, target),
            final(self).previous == Some((now, target, count)),
            1 <= count <= 3,
    {
        let count: u8 = match self.previous {
            Some((previous, previous_target, count)) => {
                let elapsed = if now >= previous {
                    now - previous
                } else {
                    0
                };
                if target == previous_target && elapsed <= MULTI_CLICK_INTERVAL_MS {
                    count % 3 + 1
                } else {
                    1
                }
            },
            None => 1,
        };
        self.previous = Some((now, target, count));
        count
    }
}

impl Default for ClickTracker {
    fn default() -> (r: Self)
        ensures
            r.previous is None,
    {
        ClickTracker::new()
    }
}

/// A colour channel of a tab colour set by an escape sequence.
#[derive(Clone, Copy, Debug, PartialEq, Eq, Structural)]
pub enum TabColorComponent {
    Red,
    Green,
    Blue,
}

/// The channels of a tab colour received so far.
#[derive(Clone, Copy, Debug, Default, PartialEq, Eq, Structural)]
pub struct TabColorState {
    pub red: Option<u8>,
    pub green: Option<u8>,
    pub blue: Option<u8>,
}

impl TabColorState {
    /// Sets one channel, leaving the others as they are.
    pub fn set(&mut self, component: TabColorComponent, value: u8)
        ensures
            final(self).red == (if component is Red { Some(value) } else { old(self).red }),
            final(self).green == (if component is Green { Some(value) } else { old(self).green }),
            final(self).blue == (if component is Blue { Some(value) } else { old(self).blue }),
    {
        match component {
            TabColorComponent::Red => self.red = Some(value),
            TabColorComponent::Green => self.green = Some(value),
            TabColorComponent::Blue => self.blue = Some(value),
        }
    }

    /// The colour, once all three channels are known.
    pub fn complete(&self) -> (r: Option<[u8; 3]>)
        ensures
            r is Some <==> (self.red is Some && self.green is Some && self.blue is Some),
            r is Some ==> r->0@ == seq![self.red->0, self.green->0, self.blue->0],
    {
        match (self.red, self.green, self.blue) {
            (Some(red), Some(green), Some(blue)) => {
                let color = [red, green, blue];
                proof {
                    assert(color@ =~= seq![red, green, blue]);
                }
                Some(color)
            },
            _ => None,
        }
    }
}

/// Progress that a program reports for its tab.
#[derive(Clone, Copy, Debug, PartialEq, Eq, Structural)]
pub enum TerminalProgress {
    Hidden,
    Normal(u8),
    Error(Option<u8>),
    Indeterminate,
    Warning(Option<u8>),
}

/// The percentage that a progress state shows, if any.
pub open spec fn progress_value(progress: TerminalProgress) -> Option<u8> {
    match progress {
        TerminalProgress::Normal(value) => Some(value),
        TerminalProgress::Error(value) => value,
        TerminalProgress::Warning(value) => value,
        _ => None,
    }
}

/// The progress after `update`: hidden clears it; a warning without a
/// value keeps the percentage shown so far; anything else replaces it.
pub fn apply_terminal_progress(current: Option<TerminalProgress>, update: TerminalProgress) -> (r:
    Option<TerminalProgress>)
    ensures
        update is Hidden ==> r is None,
        update == TerminalProgress::Warning(None) ==> r == Some(
            TerminalProgress::Warning(
                match current {
                    Some(progress) => progress_value(progress),
                    None => None,
                },
            ),
        ),
        !(update is Hidden) && update != TerminalProgress::Warning(None) ==> r == Some(update),
{
    match update {
        TerminalProgress::Hidden => None,
        TerminalProgress::Warning(None) => {
            let value = match current {
                Some(TerminalProgress::Normal(value)) => Some(value),
                Some(TerminalProgress::Error(value)) => value,
                Some(TerminalProgress::Warning(value)) => value,
                _ => None,
            };
            Some(TerminalProgress::Warning(value))
        },
        progress => Some(progress),
    }
}

/// Whether input written to a pane returns its view to the bottom of the
/// scrollback: any input that is not empty does.
pub fn input_returns_to_bottom(bytes: &[u8]) -> (r: bool)
    ensures
        r == (bytes@.len() > 0),
{
    bytes.len() > 0
}

/// When the visual bell goes out, if a bell colour is set.
pub fn visual_bell_deadline(color: Option<[u8; 3]>, now: u64) -> (r: Option<u64>)
    requires
        now + OSC_VISUAL_BELL_DURATION_MS <= u64::MAX,
    ensures
        r == (if color is Some { Some((now + OSC_VISUAL_BELL_DURATION_MS) as u64) } else { None }),
{
    match color {
        Some(_) => Some(now + OSC_VISUAL_BELL_DURATION_MS),
        None => None,
    }
}

/// A change of a pane's session status: a field that is present replaces
/// the current value, and `Some(None)` clears it.
#[derive(Clone, Debug, Default, PartialEq, Eq)]
pub struct SessionStatusUpdate {
    pub indicator: Option<Option<[u8; 3]>>,
    pub status: Option<Option<String>>,
    pub status_color: Option<Option<[u8; 3]>>,
}

/// A pane's session status, as shown in its tab.
#[derive(Clone, Debug, Default, PartialEq, Eq)]
pub struct SessionStatusState {
    pub indicator: Option<[u8; 3]>,
    pub status: Option<String>,
    pub status_color: Option<[u8; 3]>,
}

fn clone_status(status: &Option<String>) -> (r: Option<String>)
    ensures
        r == *status,
{
    match status {
        Some(text) => Some(text.clone()),
        None => None,
    }
}

impl SessionStatusState {
    /// Applies the fields that `update` carries.
    pub fn apply(&mut self, update: &SessionStatusUpdate)
        ensures
            final(self).indicator == match update.indicator {
                Some(indicator) => indicator,
                None => old(self).indicator,
            },
            final(self).status == match update.status {
                Some(status) => status,
                None => old(self).status,
            },
            final(self).status_color == match update.status_color {
                Some(color) => color,
                None => old(self).status_color,
            },
    {
        if let Some(indicator) = update.indicator {
            self.indicator = indicator;
        }
        if let Some(status) = &update.status {
            self.status = clone_status(status);
        }
        if let Some(status_color) = update.status_color {
            self.status_color = status_color;
        }
    }
}

/// Whether a URL that a program asks to open may be opened now: opening
/// must be enabled, the URL allowed, and the last one opened at least the
/// interval ago (a clock that went back counts as no time).
pub fn should_open_osc_url(enabled: bool, url: &str, last_opened_at: Option<u64>, now: u64) -> (r:
    bool)
    ensures
        r == (enabled && url_verdict(url@, url.spec_bytes().len()) is Ok && match last_opened_at {
            None => true,
            Some(last) => (if now >= last { now - last } else { 0 }) >= OSC_OPEN_URL_INTERVAL_MS,
        }),
{
    if !enabled {
        return false;
    }
    if validate_allowed_url(url).is_err() {
        return false;
    }
    match last_opened_at {
        None => true,
        Some(last) => {
            let elapsed = if now >= last {
                now - last
            } else {
                0
            };
            elapsed >= OSC_OPEN_URL_INTERVAL_MS
        },
    }
}

/// When a program wants a desktop notification shown.
#[derive(Clone, Copy, Debug, PartialEq, Eq, Structural)]
pub enum NotificationOccasion {
    Always,
    Unfocused,
    Invisible,
}

/// Whether a notification asked for on `occasion` is shown, given whether
/// its pane has the focus and whether it can be seen.
pub fn notification_occasion_matches(
    occasion: NotificationOccasion,
    source_focused: bool,
    source_visible: bool,
) -> (r: bool)
    ensures
        r == match occasion {
            NotificationOccasion::Always => true,
            NotificationOccasion::Unfocused => !source_focused,
            NotificationOccasion::Invisible => !source_visible,
        },
{
    match occasion {
        NotificationOccasion::Always => true,
        NotificationOccasion::Unfocused => !source_focused,
        NotificationOccasion::Invisible => !source_visible,
    }
}

/// How the user answered a desktop notification.
#[derive(Clone, Copy, Debug, PartialEq, Eq, Structural)]
pub enum NotificationFeedbackKind {
    Activated,
    Button(usize),
    Closed,
}

/// A user's answer to the notification with protocol id `id` of `pane`.
#[derive(Clone, Debug, PartialEq, Eq)]
pub struct NotificationFeedback {
    pub pane: PaneId,
    pub id: String,
    pub kind: NotificationFeedbackKind,
}

/// The OSC 99 report of `kind` for the notification `id`.
pub open spec fn feedback_report(id: Seq<char>, kind: NotificationFeedbackKind) -> Seq<char> {
    match kind {
        NotificationFeedbackKind::Activated => "\x1b]99;i="@ + id + ";"@ + "\x1b\\"@,
        NotificationFeedbackKind::Button(button) => "\x1b]99;i="@ + id + ";"@ + decimal(
            button as nat,
        ) + "\x1b\\"@,
        NotificationFeedbackKind::Closed => "\x1b]99;i="@ + id + ":p=close;"@ + "\x1b\\"@,
    }
}

/// The report written back to the program that asked for a notification.
pub fn notification_feedback_response(feedback: &NotificationFeedback) -> (r: String)
    ensures
        r@ == feedback_report(feedback.id@, feedback.kind),
{
    let mut out = String::new();
    push_str(&mut out, "\x1b]99;i=");
    push_str(&mut out, feedback.id.as_str());
    match feedback.kind {
        NotificationFeedbackKind::Activated => {
            push_str(&mut out, ";");
        },
        NotificationFeedbackKind::Button(button) => {
            push_str(&mut out, ";");
            push_decimal(&mut out, button as u128);
        },
        NotificationFeedbackKind::Closed => {
            push_str(&mut out, ":p=close;");
        },
    }
    push_str(&mut out, "\x1b\\");
    out
}

/// The eight bytes of `x`, least significant first.
pub open spec fn le_bytes(x: u64) -> Seq<u8> {
    Seq::new(8, |k: int| ((x as nat / pow256(k)) % 256) as u8)
}

/// 256 to the power `k`.
pub open spec fn pow256(k: int) -> nat
    decreases k,
{
    if k <= 0 {
        1
    } else {
        256 * pow256(k - 1)
    }
}

/// One step of FNV-1a: mix in a byte, then multiply by the prime.
pub open spec fn fnv_step(hash: u32, byte: u8) -> u32 {
    (((hash ^ (byte as u32)) as nat * 16777619) % 0x1_0000_0000) as u32
}

/// FNV-1a with 32-bit arithmetic over `bytes`.
pub open spec fn fnv1a(bytes: Seq<u8>) -> u32
    decreases bytes.len(),
{
    if bytes.len() == 0 {
        2166136261
    } else {
        fnv_step(fnv1a(bytes.drop_last()), bytes.last())
    }
}

/// The platform id of the notification `id` of the pane numbered `pane`:
/// FNV-1a over the pane number's bytes and then the id's, never zero.
pub open spec fn platform_id(pane: u64, id: Seq<char>) -> u32 {
    let hash = fnv1a(le_bytes(pane) + encode_utf8(id));
    if hash == 0 {
        1
    } else {
        hash
    }
}

/// The id under which the platform shows the notification `id` of `pane`,
/// so that a repeated id replaces the earlier notification of that pane only.
pub fn notification_platform_id(pane: PaneId, id: &str) -> (r: u32)
    ensures
        r == platform_id(pane.0, id@),
        r != 0,
{
    let mut bytes: Vec<u8> = Vec::new();
    let mut x: u64 = pane.0;
    let mut k: usize = 0;
    proof {
        assert(pow256(0) == 1);
        vstd::arithmetic::div_mod::lemma_div_basics(pane.0 as int);
    }
    while k < 8
        invariant
            k <= 8,
            bytes@.len() == k,
            x as nat == pane.0 as nat / pow256(k as int),
            forall|j: int| 0 <= j < k ==> bytes@[j] == le_bytes(pane.0)[j],
        decreases 8 - k,
    {
        proof {
            lemma_pow256_div(pane.0 as nat, k as int);
        }
        bytes.push((x % 256) as u8);
        x = x / 256;
        k = k + 1;
    }
    let id_bytes = id.as_bytes();
    let mut i: usize = 0;
    while i < id_bytes.len()
        invariant
            i <= id_bytes@.len(),
            id_bytes@ == encode_utf8(id@),
            bytes@ == le_bytes(pane.0) + id_bytes@.take(i as int),
        decreases id_bytes@.len() - i,
    {
        proof {
            assert(id_bytes@.take(i + 1) =~= id_bytes@.take(i as int).push(id_bytes@[i as int]));
        }
        bytes.push(id_bytes[i]);
        i = i + 1;
    }
    proof {
        assert(id_bytes@.take(i as int) =~= id_bytes@);
    }
    let mut hash: u32 = 2166136261;
    let mut j: usize = 0;
    while j < bytes.len()
        invariant
            j <= bytes@.len(),
            hash == fnv1a(bytes@.take(j as int)),
        decreases bytes@.len() - j,
    {
        proof {
            assert(bytes@.take(j + 1).drop_last() =~= bytes@.take(j as int));
        }
        hash = (hash ^ (bytes[j] as u32)).wrapping_mul(16777619);
        j = j + 1;
    }
    proof {
        assert(bytes@.take(j as int) =~= bytes@);
    }
    if hash == 0 {
        1
    } else {
        hash
    }
}

proof fn lemma_pow256_div(n: nat, k: int)
    requires
        0 <= k,
    ensures
        pow256(k) > 0,
        pow256(k + 1) == 256 * pow256(k),
        (n / pow256(k)) / 256 == n / pow256(k + 1),
        (n / pow256(k)) * pow256(k) <= n,
    decreases k,
{
    if k > 0 {
        lemma_pow256_div(n, k - 1);
    }
    let p = pow256(k);
    assert(p > 0);
    vstd::arithmetic::div_mod::lemma_div_denominator(n as int, p as int, 256);
    vstd::arithmetic::mul::lemma_mul_is_commutative(p as int, 256);
    vstd::arithmetic::div_mod::lemma_fundamental_div_mod(n as int, p as int);
    vstd::arithmetic::div_mod::lemma_mod_pos_bound(n as int, p as int);
    vstd::arithmetic::mul::lemma_mul_is_commutative(p as int, (n / p) as int);
}

/// When a notification shown for `timeout_ms` milliseconds from `now`
/// expires: never for no timeout or zero, nor where the time overflows.
pub fn notification_expiry(timeout_ms: Option<u32>, now: u64) -> (r: Option<u64>)
    ensures
        r == match timeout_ms {
            Some(timeout) => if timeout > 0 && now + timeout <= u64::MAX {
                Some((now + timeout) as u64)
            } else {
                None
            },
            None => None,
        },
{
    match timeout_ms {
        Some(timeout) => {
            if timeout > 0 {
                now.checked_add(timeout as u64)
            } else {
                None
            }
        },
        None => None,
    }
}

/// Whether a notification that expires at `deadline` is still shown at
/// `now`: one without a deadline always is.
pub open spec fn still_alive(deadline: Option<u64>, now: u64) -> bool {
    match deadline {
        None => true,
        Some(deadline) => deadline > now,
    }
}

/// The entries are sorted strictly by the UTF-8 bytes of their ids, the
/// order of `String`.
pub open spec fn ids_sorted(es: Seq<(Seq<char>, Option<u64>)>) -> bool {
    forall|i: int, j: int|
        0 <= i < j < es.len() ==> bytes_less(
            #[trigger] encode_utf8(es[i].0),
            #[trigger] encode_utf8(es[j].0),
        )
}

/// Whether some entry has the id `id`.
pub open spec fn has_id(es: Seq<(Seq<char>, Option<u64>)>, id: Seq<char>) -> bool {
    exists|i: int| 0 <= i < es.len() && (#[trigger] es[i]).0 == id
}

/// The ids of the entries joined by commas.
pub open spec fn joined_ids(es: Seq<(Seq<char>, Option<u64>)>) -> Seq<char>
    decreases es.len(),
{
    if es.len() == 0 {
        Seq::empty()
    } else if es.len() == 1 {
        es[0].0
    } else {
        joined_ids(es.drop_last()) + ","@ + es.last().0
    }
}

/// The report of which notifications are alive, answering the query
/// `request_id`.
pub open spec fn alive_report(request_id: Seq<char>, alive: Seq<(Seq<char>, Option<u64>)>) -> Seq<
    char,
> {
    "\x1b]99;i="@ + request_id + ":p=alive;"@ + joined_ids(alive) + "\x1b\\"@
}

/// The notifications of a pane that the platform accepted, by protocol id,
/// each with the time it expires.
pub struct ActiveNotifications {
    entries: Vec<(String, Option<u64>)>,
}

proof fn lemma_chars_differ_bytes_differ(a: Seq<char>, b: Seq<char>)
    requires
        a != b,
    ensures
        encode_utf8(a) != encode_utf8(b),
{
    encode_utf8_decode_utf8(a);
    encode_utf8_decode_utf8(b);
}

impl ActiveNotifications {
    /// The entries, sorted by id.
    pub closed spec fn entries(&self) -> Seq<(Seq<char>, Option<u64>)> {
        self.entries@.map_values(|e: (String, Option<u64>)| (e.0@, e.1))
    }

    /// The entries stay sorted, which also keeps their ids distinct.
    pub open spec fn wf(&self) -> bool {
        ids_sorted(self.entries())
    }

    /// No notification is active.
    pub fn new() -> (r: Self)
        ensures
            r.wf(),
            r.entries() == Seq::<(Seq<char>, Option<u64>)>::empty(),
    {
        let r = ActiveNotifications { entries: Vec::new() };
        proof {
            assert(r.entries() =~= Seq::<(Seq<char>, Option<u64>)>::empty());
        }
        r
    }

    /// How many notifications are active.
    pub fn len(&self) -> (r: usize)
        ensures
            r == self.entries().len(),
    {
        self.entries.len()
    }

    /// Whether the notification `id` is active.
    pub fn contains_key(&self, id: &str) -> (r: bool)
        ensures
            r == has_id(self.entries(), id@),
    {
        let key: String = id.to_owned();
        let mut i: usize = 0;
        while i < self.entries.len()
            invariant
                i <= self.entries@.len(),
                key@ == id@,
                forall|j: int| 0 <= j < i ==> (#[trigger] self.entries()[j]).0 != id@,
            decreases self.entries@.len() - i,
        {
            assert(self.entries()[i as int] == (self.entries@[i as int].0@, self.entries@[i as int].1));
            if self.entries[i].0 == key {
                return true;
            }
            i = i + 1;
        }
        false
    }

    /// Records the notification `id` with its expiry: an entry with that id
    /// is replaced, and a new one goes where its id sorts.
    pub fn insert(&mut self, id: String, deadline: Option<u64>)
        requires
            old(self).wf(),
        ensures
            final(self).wf(),
            has_id(old(self).entries(), id@) ==> exists|i: int|
                0 <= i < old(self).entries().len() && old(self).entries()[i].0 == id@
                    && final(self).entries() == old(self).entries().update(i, (id@, deadline)),
            !has_id(old(self).entries(), id@) ==> exists|p: int|
                0 <= p <= old(self).entries().len() && final(self).entries() == old(
                    self,
                ).entries().insert(p, (id@, deadline)),
    {
        let ghost es = self.entries();
        let mut i: usize = 0;
        let mut stop = false;
        while i < self.entries.len() && !stop
            invariant
                es == self.entries(),
                es == old(self).entries(),
                ids_sorted(es),
                i <= self.entries@.len(),
                stop ==> i < es.len() && bytes_less(encode_utf8(id@), encode_utf8(es[i as int].0)),
                forall|j: int|
                    0 <= j < i ==> bytes_less(
                        #[trigger] encode_utf8(es[j].0),
                        encode_utf8(id@),
                    ),
            decreases self.entries@.len() - i + if stop { 0int } else { 1int },
        {
            assert(es[i as int] == (self.entries@[i as int].0@, self.entries@[i as int].1));
            if self.entries[i].0 == id {
                assert(es[i as int].0 == id@);
                assert(has_id(es, id@));
                self.entries.set(i, (id, deadline));
                proof {
                    assert(self.entries() =~= es.update(i as int, (id@, deadline)));
                    assert forall|a: int, b: int| 0 <= a < b < self.entries().len() implies bytes_less(
                        #[trigger] encode_utf8(self.entries()[a].0),
                        #[trigger] encode_utf8(self.entries()[b].0),
                    ) by {
                        assert(self.entries()[a].0 == es[a].0);
                        assert(self.entries()[b].0 == es[b].0);
                    }
                }
                return ;
            }
            let before = less_bytes(self.entries[i].0.as_str().as_bytes(), id.as_str().as_bytes());
            if before {
                i = i + 1;
            } else {
                proof {
                    let e = es[i as int].0;
                    assert(e != id@);
                    lemma_chars_differ_bytes_differ(e, id@);
                    lemma_bytes_less_total(encode_utf8(e), encode_utf8(id@));
                }
                stop = true;
            }
        }
        // Every entry before `i` sorts before `id`, every one from `i` after it.
        proof {
            assert forall|j: int| i <= j < es.len() implies bytes_less(
                encode_utf8(id@),
                #[trigger] encode_utf8(es[j].0),
            ) by {
                if j > i {
                    lemma_bytes_less_transitive(
                        encode_utf8(id@),
                        encode_utf8(es[i as int].0),
                        encode_utf8(es[j].0),
                    );
                }
            }
            assert forall|j: int| 0 <= j < es.len() implies (#[trigger] es[j]).0 != id@ by {
                if j < i {
                    assert(bytes_less(encode_utf8(es[j].0), encode_utf8(id@)));
                } else {
                    assert(bytes_less(encode_utf8(id@), encode_utf8(es[j].0)));
                }
                if es[j].0 == id@ {
                    lemma_bytes_less_irreflexive(encode_utf8(id@));
                }
            }
        }
        let ghost key = id@;
        self.entries.insert(i, (id, deadline));
        proof {
            let ns = self.entries();
            assert(ns =~= es.insert(i as int, (key, deadline)));
            assert forall|a: int, b: int| 0 <= a < b < ns.len() implies bytes_less(
                #[trigger] encode_utf8(ns[a].0),
                #[trigger] encode_utf8(ns[b].0),
            ) by {
                if b < i {
                } else if b == i {
                    assert(ns[a] == es[a]);
                } else if a < i {
                    assert(ns[b] == es[b - 1]);
                    assert(ns[a] == es[a]);
                    lemma_bytes_less_transitive(
                        encode_utf8(es[a].0),
                        encode_utf8(key),
                        encode_utf8(es[b - 1].0),
                    );
                } else if a == i {
                    assert(ns[b] == es[b - 1]);
                } else {
                    assert(ns[b] == es[b - 1]);
                    assert(ns[a] == es[a - 1]);
                }
            }
        }
    }

    /// Forgets the notification `id`, and says whether it was active.
    pub fn remove(&mut self, id: &str) -> (r: bool)
        requires
            old(self).wf(),
        ensures
            final(self).wf(),
            r == has_id(old(self).entries(), id@),
            r ==> exists|i: int|
                0 <= i < old(self).entries().len() && old(self).entries()[i].0 == id@
                    && final(self).entries() == old(self).entries().remove(i),
            !r ==> final(self).entries() == old(self).entries(),
    {
        let ghost es = self.entries();
        let key: String = id.to_owned();
        let mut i: usize = 0;
        while i < self.entries.len()
            invariant
                es == self.entries(),
                es == old(self).entries(),
                ids_sorted(es),
                key@ == id@,
                i <= self.entries@.len(),
                forall|j: int| 0 <= j < i ==> (#[trigger] es[j]).0 != id@,
            decreases self.entries@.len() - i,
        {
            assert(es[i as int] == (self.entries@[i as int].0@, self.entries@[i as int].1));
            if self.entries[i].0 == key {
                assert(es[i as int].0 == id@);
                assert(has_id(es, id@));
                let _ = self.entries.remove(i);
                proof {
                    let ns = self.entries();
                    assert(ns =~= es.remove(i as int));
                    assert forall|a: int, b: int| 0 <= a < b < ns.len() implies bytes_less(
                        #[trigger] encode_utf8(ns[a].0),
                        #[trigger] encode_utf8(ns[b].0),
                    ) by {
                        if b < i {
                        } else if a < i {
                            assert(ns[b] == es[b + 1]);
                        } else {
                            assert(ns[b] == es[b + 1]);
                            assert(ns[a] == es[a + 1]);
                        }
                    }
                }
                return true;
            }
            i = i + 1;
        }
        false
    }
}

/// Drops the notifications that have expired by `now`, and reports the
/// ids of the others, in order, to the query `request_id`.
pub fn notification_alive_response(request_id: &str, active: &mut ActiveNotifications, now: u64) -> (r:
    String)
    requires
        old(active).wf(),
    ensures
        final(active).wf(),
        final(active).entries() == old(active).entries().filter(
            |e: (Seq<char>, Option<u64>)| still_alive(e.1, now),
        ),
        r@ == alive_report(request_id@, final(active).entries()),
{
    let ghost es = active.entries();
    let ghost pred = |e: (Seq<char>, Option<u64>)| still_alive(e.1, now);
    let mut kept: Vec<(String, Option<u64>)> = Vec::new();
    let mut i: usize = 0;
    while i < active.entries.len()
        invariant
            es == active.entries(),
            ids_sorted(es),
            i <= es.len(),
            pred == (|e: (Seq<char>, Option<u64>)| still_alive(e.1, now)),
            kept@.map_values(|e: (String, Option<u64>)| (e.0@, e.1)) == es.take(i as int).filter(
                pred,
            ),
            ids_sorted(kept@.map_values(|e: (String, Option<u64>)| (e.0@, e.1))),
            forall|a: int, j: int|
                0 <= a < kept@.len() && i <= j < es.len() ==> bytes_less(
                    #[trigger] encode_utf8(kept@[a].0@),
                    #[trigger] encode_utf8(es[j].0),
                ),
        decreases es.len() - i,
    {
        let ghost old_kept = kept@;
        proof {
            assert(es.take(i + 1).drop_last() =~= es.take(i as int));
            assert(es.take(i + 1).last() == es[i as int]);
        }
        let alive = match active.entries[i].1 {
            None => true,
            Some(deadline) => deadline > now,
        };
        assert(es[i as int] == (active.entries@[i as int].0@, active.entries@[i as int].1));
        assert(pred(es[i as int]) == alive);
        proof {
            reveal(Seq::filter);
            let s1 = es.take(i + 1);
            assert(s1.len() > 0);
            assert(s1.filter(pred) == if pred(s1.last()) {
                s1.drop_last().filter(pred).push(s1.last())
            } else {
                s1.drop_last().filter(pred)
            });
        }
        if alive {
            let entry = (active.entries[i].0.clone(), active.entries[i].1);
            kept.push(entry);
            proof {
                let kv = kept@.map_values(|e: (String, Option<u64>)| (e.0@, e.1));
                let ov = old_kept.map_values(|e: (String, Option<u64>)| (e.0@, e.1));
                assert(kv =~= ov.push(es[i as int]));
                assert forall|a: int, b: int| 0 <= a < b < kv.len() implies bytes_less(
                    #[trigger] encode_utf8(kv[a].0),
                    #[trigger] encode_utf8(kv[b].0),
                ) by {
                    if b == kv.len() - 1 {
                        assert(kv[a].0 == old_kept[a].0@);
                        assert(bytes_less(encode_utf8(old_kept[a].0@), encode_utf8(es[i as int].0)));
                    } else {
                        assert(kv[a] == ov[a]);
                        assert(kv[b] == ov[b]);
                    }
                }
                assert forall|a: int, j: int|
                    0 <= a < kept@.len() && i + 1 <= j < es.len() implies bytes_less(
                    #[trigger] encode_utf8(kept@[a].0@),
                    #[trigger] encode_utf8(es[j].0),
                ) by {
                    if a == kept@.len() - 1 {
                        assert(kept@[a].0@ == es[i as int].0);
                    } else {
                        assert(kept@[a] == old_kept[a]);
                    }
                }
            }
        } else {
            proof {
                assert forall|a: int, j: int|
                    0 <= a < kept@.len() && i + 1 <= j < es.len() implies bytes_less(
                    #[trigger] encode_utf8(kept@[a].0@),
                    #[trigger] encode_utf8(es[j].0),
                ) by {
                }
            }
        }
        i = i + 1;
    }
    proof {
        assert(es.take(i as int) =~= es);
    }
    active.entries = kept;
    let mut out = String::new();
    push_str(&mut out, "\x1b]99;i=");
    push_str(&mut out, request_id);
    push_str(&mut out, ":p=alive;");
    let ghost prefix = out@;
    let ghost ks = active.entries();
    let mut k: usize = 0;
    while k < active.entries.len()
        invariant
            ks == active.entries(),
            k <= ks.len(),
            out@ == prefix + joined_ids(ks.take(k as int)),
        decreases ks.len() - k,
    {
        proof {
            assert(ks.take(k + 1).drop_last() =~= ks.take(k as int));
            assert(ks.take(k + 1).last() == ks[k as int]);
        }
        if k > 0 {
            push_str(&mut out, ",");
        } else {
            assert(ks.take(1) =~= seq![ks[0]]);
            assert(ks.take(0) =~= Seq::<(Seq<char>, Option<u64>)>::empty());
        }
        push_str(&mut out, active.entries[k].0.as_str());
        proof {
            if k == 0 {
                assert(out@ =~= prefix + joined_ids(ks.take(1)));
            } else {
                assert(out@ =~= prefix + joined_ids(ks.take(k + 1)));
            }
        }
        k = k + 1;
    }
    proof {
        assert(ks.take(k as int) =~= ks);
    }
    push_str(&mut out, "\x1b\\");
    proof {
        assert(out@ =~= alive_report(request_id@, ks));
    }
    out
}

/// A line without the carriage return that ended it, if any.
pub open spec fn strip_cr(line: Seq<char>) -> Seq<char> {
    if line.len() > 0 && line.last() == '\r' {
        line.drop_last()
    } else {
        line
    }
}

/// The lines of `rest`, the current line having started with `current`:
/// lines end at a line feed, which drops a carriage return before it, and
/// the last line needs none.
pub open spec fn lines_from(rest: Seq<char>, current: Seq<char>) -> Seq<Seq<char>>
    decreases rest.len(),
{
    if rest.len() == 0 {
        if current.len() == 0 {
            Seq::empty()
        } else {
            seq![current]
        }
    } else if rest[0] == '\n' {
        seq![strip_cr(current)] + lines_from(rest.drop_first(), Seq::empty())
    } else {
        lines_from(rest.drop_first(), current.push(rest[0]))
    }
}

/// The lines of a text, as `str::lines` splits them.
pub open spec fn text_lines(text: Seq<char>) -> Seq<Seq<char>> {
    lines_from(text, Seq::empty())
}

/// Lines joined by line feeds.
pub open spec fn joined_lines(lines: Seq<Seq<char>>) -> Seq<char>
    decreases lines.len(),
{
    if lines.len() == 0 {
        Seq::empty()
    } else if lines.len() == 1 {
        lines[0]
    } else {
        joined_lines(lines.drop_last()) + "\n"@ + lines.last()
    }
}

/// How many lines of a configuration error the folded notice shows.
pub const CONFIG_ERROR_SUMMARY_LINES: usize = 3;

/// A configuration error shown in the window: folded to its first lines,
/// or the whole log once expanded.
pub struct ConfigErrorNotice {
    pub message: String,
    pub log_expanded: bool,
}

/// The first `n` lines of `lines`, or all of them if there are fewer.
pub open spec fn first_lines(lines: Seq<Seq<char>>, n: nat) -> Seq<Seq<char>> {
    if lines.len() <= n {
        lines
    } else {
        lines.take(n as int)
    }
}

impl ConfigErrorNotice {
    /// The text shown: the whole message when the log is expanded,
    /// otherwise its first lines joined by line feeds.
    pub fn display_message(&self) -> (r: String)
        ensures
            self.log_expanded ==> r@ == self.message@,
            !self.log_expanded ==> r@ == joined_lines(
                first_lines(text_lines(self.message@), CONFIG_ERROR_SUMMARY_LINES as nat),
            ),
    {
        if self.log_expanded {
            return self.message.clone();
        }
        let text = self.message.as_str();
        let ghost t = text@;
        let n = text.unicode_len();
        let mut out = String::new();
        let ghost mut emitted: Seq<Seq<char>> = Seq::empty();
        let mut count: usize = 0;
        let mut start: usize = 0;
        let mut i: usize = 0;
        proof {
            assert(t.skip(0) =~= t);
            assert(t.subrange(0, 0) =~= Seq::<char>::empty());
            assert(emitted + text_lines(t) =~= text_lines(t));
        }
        while i < n && count < CONFIG_ERROR_SUMMARY_LINES
            invariant
                t == text@,
                n == t.len(),
                start <= i <= n,
                count == emitted.len(),
                count <= CONFIG_ERROR_SUMMARY_LINES,
                text_lines(t) == emitted + lines_from(t.skip(i as int), t.subrange(
                    start as int,
                    i as int,
                )),
                out@ == joined_lines(emitted),
            decreases n - i,
        {
            let c = text.get_char(i);
            proof {
                assert(t.skip(i as int).drop_first() =~= t.skip(i + 1));
                assert(t.skip(i as int)[0] == c);
            }
            if c == '\n' {
                let mut end = i;
                if i > start && text.get_char(i - 1) == '\r' {
                    end = i - 1;
                }
                let line = text.substring_char(start, end);
                proof {
                    assert(line@ == strip_cr(t.subrange(start as int, i as int)));
                    assert(t.subrange(i + 1, i + 1) =~= Seq::<char>::empty());
                }
                if count > 0 {
                    crate::text::push_str(&mut out, "\n");
                }
                crate::text::push_str(&mut out, line);
                proof {
                    let before = emitted;
                    emitted = emitted.push(line@);
                    assert(emitted.drop_last() =~= before);
                    if count == 0 {
                        assert(out@ =~= joined_lines(emitted));
                    } else {
                        assert(out@ =~= joined_lines(emitted));
                    }
                    assert(emitted + lines_from(t.skip(i + 1), Seq::empty()) =~= before + (seq![
                        line@] + lines_from(t.skip(i + 1), Seq::empty())));
                }
                count = count + 1;
                start = i + 1;
            } else {
                proof {
                    assert(t.subrange(start as int, i + 1) =~= t.subrange(start as int, i as int).push(
                        c,
                    ));
                }
            }
            i = i + 1;
        }
        if count < CONFIG_ERROR_SUMMARY_LINES {
            // The whole text was read; a last line without a line feed remains.
            proof {
                assert(t.skip(i as int) =~= Seq::<char>::empty());
            }
            if start < n {
                let line = text.substring_char(start, n);
                if count > 0 {
                    crate::text::push_str(&mut out, "\n");
                }
                crate::text::push_str(&mut out, line);
                proof {
                    let before = emitted;
                    emitted = emitted.push(line@);
                    assert(emitted.drop_last() =~= before);
                    assert(out@ =~= joined_lines(emitted));
                    assert(text_lines(t) =~= emitted);
                }
            } else {
                proof {
                    assert(text_lines(t) =~= emitted);
                }
            }
            proof {
                assert(first_lines(text_lines(t), CONFIG_ERROR_SUMMARY_LINES as nat) == emitted);
            }
        } else {
            proof {
                let all = text_lines(t);
                assert(all.take(3) =~= emitted);
                if all.len() <= 3 {
                    assert(all =~= emitted);
                }
            }
        }
        out
    }
}

/// What a tab's title gains to show its progress.
pub open spec fn progress_suffix(progress: TerminalProgress) -> Seq<char> {
    match progress {
        TerminalProgress::Hidden => Seq::empty(),
        TerminalProgress::Normal(value) => " · "@ + decimal(value as nat) + "%"@,
        TerminalProgress::Error(Some(value)) => " · error "@ + decimal(value as nat) + "%"@,
        TerminalProgress::Error(None) => " · error"@,
        TerminalProgress::Indeterminate => " · working"@,
        TerminalProgress::Warning(Some(value)) => " · warning "@ + decimal(value as nat) + "%"@,
        TerminalProgress::Warning(None) => " · warning"@,
    }
}

/// The suffix of a tab title for its progress.
pub fn progress_title_suffix(progress: TerminalProgress) -> (r: String)
    ensures
        r@ == progress_suffix(progress),
{
    let mut out = String::new();
    match progress {
        TerminalProgress::Hidden => {},
        TerminalProgress::Normal(value) => {
            push_str(&mut out, " · ");
            push_decimal(&mut out, value as u128);
            push_str(&mut out, "%");
        },
        TerminalProgress::Error(value) => {
            match value {
                Some(value) => {
                    push_str(&mut out, " · error ");
                    push_decimal(&mut out, value as u128);
                    push_str(&mut out, "%");
                },
                None => push_str(&mut out, " · error"),
            }
        },
        TerminalProgress::Indeterminate => push_str(&mut out, " · working"),
        TerminalProgress::Warning(value) => {
            match value {
                Some(value) => {
                    push_str(&mut out, " · warning ");
                    push_decimal(&mut out, value as u128);
                    push_str(&mut out, "%");
                },
                None => push_str(&mut out, " · warning"),
            }
        },
    }
    proof {
        assert(out@ =~= progress_suffix(progress));
    }
    out
}

/// Which answers to a notification a program asked to hear about.
#[derive(Clone, Copy, Debug, Default, PartialEq, Eq, Structural)]
pub struct NotificationReporting {
    pub activation: bool,
    pub close: bool,
}

/// How the platform reports that the user answered a notification.
#[derive(Clone, Debug, PartialEq, Eq)]
pub enum NotificationResponseKind {
    Default,
    Action(String),
    Closed,
}

/// The button that the platform's action name `action` stands for.
pub open spec fn action_button(action: Seq<char>) -> Option<usize> {
    match parsed_u64(action) {
        Some(n) => if n <= usize::MAX {
            Some(n as usize)
        } else {
            None
        },
        None => None,
    }
}

/// The kinds of feedback owed for `response`: an activation or a pressed
/// button when activations are reported, then a close when closes are.
pub open spec fn feedback_kinds(reporting: NotificationReporting, response: NotificationResponseKind) -> Seq<
    NotificationFeedbackKind,
> {
    let first: Seq<NotificationFeedbackKind> = match response {
        NotificationResponseKind::Default => if reporting.activation {
            seq![NotificationFeedbackKind::Activated]
        } else {
            Seq::empty()
        },
        NotificationResponseKind::Action(action) => if reporting.activation {
            match action_button(action@) {
                Some(button) => seq![NotificationFeedbackKind::Button(button)],
                None => Seq::empty(),
            }
        } else {
            Seq::empty()
        },
        NotificationResponseKind::Closed => Seq::empty(),
    };
    if reporting.close {
        first.push(NotificationFeedbackKind::Closed)
    } else {
        first
    }
}

/// The feedback owed to the program of `pane` for the user's `response`
/// to its notification `id`.
pub fn notification_feedbacks(
    pane: PaneId,
    id: &str,
    reporting: NotificationReporting,
    response: NotificationResponseKind,
) -> (r: Vec<NotificationFeedback>)
    ensures
        r@.map_values(|f: NotificationFeedback| f.kind) == feedback_kinds(reporting, response),
        forall|i: int| 0 <= i < r@.len() ==> (#[trigger] r@[i]).pane == pane && r@[i].id@ == id@,
{
    let ghost kinds = feedback_kinds(reporting, response);
    let mut events: Vec<NotificationFeedback> = Vec::new();
    match &response {
        NotificationResponseKind::Default => {
            if reporting.activation {
                events.push(
                    NotificationFeedback {
                        pane,
                        id: id.to_owned(),
                        kind: NotificationFeedbackKind::Activated,
                    },
                );
            }
        },
        NotificationResponseKind::Action(action) => {
            if reporting.activation {
                match parse_u64(action.as_str()) {
                    Some(n) => {
                        if n <= usize::MAX as u64 {
                            events.push(
                                NotificationFeedback {
                                    pane,
                                    id: id.to_owned(),
                                    kind: NotificationFeedbackKind::Button(n as usize),
                                },
                            );
                        }
                    },
                    None => {},
                }
            }
        },
        NotificationResponseKind::Closed => {},
    }
    if reporting.close {
        events.push(
            NotificationFeedback { pane, id: id.to_owned(), kind: NotificationFeedbackKind::Closed },
        );
    }
    proof {
        assert(events@.map_values(|f: NotificationFeedback| f.kind) =~= kinds);
    }
    events
}

} // verus!
