//! Identifiers, handles, commands and events shared by the multiplexer,
//! the command dispatcher and the scripting layer.
use vstd::prelude::*;

verus! {

/// The four kinds of objects that make up the multiplexer hierarchy.
#[derive(Clone, Copy, Debug, PartialEq, Eq, Hash, Structural)]
pub enum HandleKind {
    Workspace,
    Window,
    Tab,
    Pane,
}

/// A workspace identifier.
#[derive(Clone, Copy, Debug, PartialEq, Eq, Hash, PartialOrd, Ord, Structural)]
pub struct WorkspaceId(pub u64);

/// A window identifier.
#[derive(Clone, Copy, Debug, PartialEq, Eq, Hash, PartialOrd, Ord, Structural)]
pub struct WindowId(pub u64);

/// A tab identifier.
#[derive(Clone, Copy, Debug, PartialEq, Eq, Hash, PartialOrd, Ord, Structural)]
pub struct TabId(pub u64);

/// A pane identifier.
#[derive(Clone, Copy, Debug, PartialEq, Eq, Hash, PartialOrd, Ord, Structural)]
pub struct PaneId(pub u64);

/// A kind-tagged identifier, as handed to scripts.
#[derive(Clone, Copy, Debug, PartialEq, Eq, Hash, Structural)]
pub struct NativeHandle {
    kind: HandleKind,
    id: u64,
}

impl NativeHandle {
    pub closed spec fn spec_kind(self) -> HandleKind {
        self.kind
    }

    pub closed spec fn spec_id(self) -> u64 {
        self.id
    }

    pub fn new(kind: HandleKind, id: u64) -> (h: Self)
        ensures
            h.spec_kind() == kind,
            h.spec_id() == id,
    {
        Self { kind, id }
    }

    pub fn kind(self) -> (k: HandleKind)
        ensures
            k == self.spec_kind(),
    {
        self.kind
    }

    pub fn id(self) -> (i: u64)
        ensures
            i == self.spec_id(),
    {
        self.id
    }

    /// Recovers the typed identifier when the handle has the kind of `T`.
    pub fn downcast<T: NativeId>(self) -> (r: Option<T>)
        ensures
            r == if self.spec_kind() == T::spec_kind() {
                Some(T::spec_from_raw(self.spec_id()))
            } else {
                None
            },
    {
        if self.kind == T::kind() {
            Some(T::from_raw(self.id))
        } else {
            None
        }
    }

    /// Two handles are equal exactly when their kinds and raw ids are.
    pub proof fn lemma_handle_equality(a: Self, b: Self)
        ensures
            a == b <==> (a.spec_kind() == b.spec_kind() && a.spec_id() == b.spec_id()),
    {
    }
}

/// A typed identifier of one of the four hierarchy kinds.
pub trait NativeId: Copy + Sized {
    spec fn spec_kind() -> HandleKind;

    spec fn spec_raw(self) -> u64;

    /// The identifier of this type with the raw id `raw`.
    spec fn spec_from_raw(raw: u64) -> Self;

    fn kind() -> (k: HandleKind)
        ensures
            k == Self::spec_kind(),
    ;

    fn from_raw(raw: u64) -> (r: Self)
        ensures
            r == Self::spec_from_raw(raw),
            r.spec_raw() == raw,
    ;

    fn raw(self) -> (r: u64)
        ensures
            r == self.spec_raw(),
    ;

    fn handle(self) -> (h: NativeHandle)
        ensures
            h.spec_kind() == Self::spec_kind(),
            h.spec_id() == self.spec_raw(),
    {
        NativeHandle::new(Self::kind(), self.raw())
    }
}

impl NativeId for WorkspaceId {
    open spec fn spec_from_raw(raw: u64) -> Self {
        WorkspaceId(raw)
    }

    open spec fn spec_kind() -> HandleKind {
        HandleKind::Workspace
    }

    open spec fn spec_raw(self) -> u64 {
        self.0
    }

    fn kind() -> (k: HandleKind) {
        HandleKind::Workspace
    }

    fn from_raw(raw: u64) -> (r: Self) {
        WorkspaceId(raw)
    }

    fn raw(self) -> (r: u64) {
        self.0
    }
}

impl NativeId for WindowId {
    open spec fn spec_from_raw(raw: u64) -> Self {
        WindowId(raw)
    }

    open spec fn spec_kind() -> HandleKind {
        HandleKind::Window
    }

    open spec fn spec_raw(self) -> u64 {
        self.0
    }

    fn kind() -> (k: HandleKind) {
        HandleKind::Window
    }

    fn from_raw(raw: u64) -> (r: Self) {
        WindowId(raw)
    }

    fn raw(self) -> (r: u64) {
        self.0
    }
}

impl NativeId for TabId {
    open spec fn spec_from_raw(raw: u64) -> Self {
        TabId(raw)
    }

    open spec fn spec_kind() -> HandleKind {
        HandleKind::Tab
    }

    open spec fn spec_raw(self) -> u64 {
        self.0
    }

    fn kind() -> (k: HandleKind) {
        HandleKind::Tab
    }

    fn from_raw(raw: u64) -> (r: Self) {
        TabId(raw)
    }

    fn raw(self) -> (r: u64) {
        self.0
    }
}

impl NativeId for PaneId {
    open spec fn spec_from_raw(raw: u64) -> Self {
        PaneId(raw)
    }

    open spec fn spec_kind() -> HandleKind {
        HandleKind::Pane
    }

    open spec fn spec_raw(self) -> u64 {
        self.0
    }

    fn kind() -> (k: HandleKind) {
        HandleKind::Pane
    }

    fn from_raw(raw: u64) -> (r: Self) {
        PaneId(raw)
    }

    fn raw(self) -> (r: u64) {
        self.0
    }
}

/// The side of an existing pane on which a split places the new pane.
#[derive(Clone, Copy, Debug, PartialEq, Eq, Structural)]
pub enum SplitDirection {
    Left,
    Right,
    Up,
    Down,
}

/// A cursor motion of the keyboard-driven (visual) selection.
#[derive(Clone, Copy, Debug, PartialEq, Eq, Structural)]
pub enum SelectionMotion {
    Left,
    Right,
    Up,
    Down,
    LineStart,
    LineEnd,
}

/// The direction of a search within a pane.
#[derive(Clone, Copy, Debug, PartialEq, Eq, Structural)]
pub enum PaneSearchDirection {
    Next,
    Previous,
}

/// A request to the multiplexer.
#[derive(Clone, Debug, PartialEq)]
pub enum Command {
    NewTab,
    NewTabIn(WindowId),
    CreateWindow(WorkspaceId),
    ActivateWindow(WindowId),
    CloseWindow(WindowId),
    ActivateTab(TabId),
    CloseTab(TabId),
    Split { pane: PaneId, direction: SplitDirection },
    ClosePane(PaneId),
    ActivatePane(PaneId),
    SendText { pane: PaneId, text: String },
    ActivateWorkspace(WorkspaceId),
    SwitchWorkspace(String),
    ToggleZoom,
}

/// The object that a multiplexer command created or activated.
#[derive(Clone, Copy, Debug, PartialEq, Eq, Structural)]
pub enum CommandResult {
    Empty,
    Workspace(WorkspaceId),
    Window(WindowId),
    Tab(TabId),
    Pane(PaneId),
}

/// A change of the multiplexer hierarchy, in the order it happened.
#[derive(Clone, Copy, Debug, PartialEq, Eq, Structural)]
pub enum Event {
    WorkspaceChanged { workspace: WorkspaceId },
    WindowCreated { window: WindowId },
    WindowClosed { window: WindowId },
    TabCreated { tab: TabId },
    TabClosed { tab: TabId },
    PaneCreated { pane: PaneId },
    PaneClosed { pane: PaneId },
    PaneFocused { pane: PaneId },
    TextQueued { pane: PaneId, bytes: usize },
}

/// The kinds of events that scripts can subscribe to.
#[derive(Clone, Copy, Debug, PartialEq, Eq, Hash, Structural)]
pub enum ScriptEventKind {
    AppStarted,
    ConfigReloaded,
    WorkspaceChanged,
    WindowCreated,
    WindowClosed,
    TabCreated,
    TabClosed,
    PaneCreated,
    PaneClosed,
    PaneFocused,
    TitleChanged,
    CwdChanged,
    PromptStarted,
    CommandLineStarted,
    CommandStarted,
    CommandFinished,
    Bell,
}

impl ScriptEventKind {
    /// Every event kind, in declaration order.
    pub const ALL: [ScriptEventKind; 17] = [
        ScriptEventKind::AppStarted,
        ScriptEventKind::ConfigReloaded,
        ScriptEventKind::WorkspaceChanged,
        ScriptEventKind::WindowCreated,
        ScriptEventKind::WindowClosed,
        ScriptEventKind::TabCreated,
        ScriptEventKind::TabClosed,
        ScriptEventKind::PaneCreated,
        ScriptEventKind::PaneClosed,
        ScriptEventKind::PaneFocused,
        ScriptEventKind::TitleChanged,
        ScriptEventKind::CwdChanged,
        ScriptEventKind::PromptStarted,
        ScriptEventKind::CommandLineStarted,
        ScriptEventKind::CommandStarted,
        ScriptEventKind::CommandFinished,
        ScriptEventKind::Bell,
    ];

    /// The name under which scripts subscribe to the event kind.
    pub open spec fn spec_name(self) -> Seq<char> {
        match self {
            ScriptEventKind::AppStarted => "app_started"@,
            ScriptEventKind::ConfigReloaded => "config_reloaded"@,
            ScriptEventKind::WorkspaceChanged => "workspace_changed"@,
            ScriptEventKind::WindowCreated => "window_created"@,
            ScriptEventKind::WindowClosed => "window_closed"@,
            ScriptEventKind::TabCreated => "tab_created"@,
            ScriptEventKind::TabClosed => "tab_closed"@,
            ScriptEventKind::PaneCreated => "pane_created"@,
            ScriptEventKind::PaneClosed => "pane_closed"@,
            ScriptEventKind::PaneFocused => "pane_focused"@,
            ScriptEventKind::TitleChanged => "title_changed"@,
            ScriptEventKind::CwdChanged => "cwd_changed"@,
            ScriptEventKind::PromptStarted => "prompt_started"@,
            ScriptEventKind::CommandLineStarted => "command_line_started"@,
            ScriptEventKind::CommandStarted => "command_started"@,
            ScriptEventKind::CommandFinished => "command_finished"@,
            ScriptEventKind::Bell => "bell"@,
        }
    }

    /// Returns the name under which scripts subscribe to the event kind.
    pub fn as_str(self) -> (s: &'static str)
        ensures
            s@ == self.spec_name(),
    {
        match self {
            ScriptEventKind::AppStarted => "app_started",
            ScriptEventKind::ConfigReloaded => "config_reloaded",
            ScriptEventKind::WorkspaceChanged => "workspace_changed",
            ScriptEventKind::WindowCreated => "window_created",
            ScriptEventKind::WindowClosed => "window_closed",
            ScriptEventKind::TabCreated => "tab_created",
            ScriptEventKind::TabClosed => "tab_closed",
            ScriptEventKind::PaneCreated => "pane_created",
            ScriptEventKind::PaneClosed => "pane_closed",
            ScriptEventKind::PaneFocused => "pane_focused",
            ScriptEventKind::TitleChanged => "title_changed",
            ScriptEventKind::CwdChanged => "cwd_changed",
            ScriptEventKind::PromptStarted => "prompt_started",
            ScriptEventKind::CommandLineStarted => "command_line_started",
            ScriptEventKind::CommandStarted => "command_started",
            ScriptEventKind::CommandFinished => "command_finished",
            ScriptEventKind::Bell => "bell",
        }
    }

    /// Length, first character and sixth character (or a space) of the name.
    spec fn name_key(self) -> (nat, char, char) {
        match self {
            ScriptEventKind::AppStarted => (11nat, 'a', 't'),
            ScriptEventKind::ConfigReloaded => (15nat, 'c', 'g'),
            ScriptEventKind::WorkspaceChanged => (17nat, 'w', 'p'),
            ScriptEventKind::WindowCreated => (14nat, 'w', 'w'),
            ScriptEventKind::WindowClosed => (13nat, 'w', 'w'),
            ScriptEventKind::TabCreated => (11nat, 't', 'r'),
            ScriptEventKind::TabClosed => (10nat, 't', 'l'),
            ScriptEventKind::PaneCreated => (12nat, 'p', 'c'),
            ScriptEventKind::PaneClosed => (11nat, 'p', 'c'),
            ScriptEventKind::PaneFocused => (12nat, 'p', 'f'),
            ScriptEventKind::TitleChanged => (13nat, 't', '_'),
            ScriptEventKind::CwdChanged => (11nat, 'c', 'h'),
            ScriptEventKind::PromptStarted => (14nat, 'p', 't'),
            ScriptEventKind::CommandLineStarted => (20nat, 'c', 'n'),
            ScriptEventKind::CommandStarted => (15nat, 'c', 'n'),
            ScriptEventKind::CommandFinished => (16nat, 'c', 'n'),
            ScriptEventKind::Bell => (4nat, 'b', ' '),
        }
    }

    proof fn lemma_name_key(self)
        ensures
            self.spec_name().len() == self.name_key().0,
            self.spec_name()[0] == self.name_key().1,
            self.spec_name().len() > 5 ==> self.spec_name()[5] == self.name_key().2,
    {
        match self {
            ScriptEventKind::AppStarted => {
                reveal_strlit("app_started");
            },
            ScriptEventKind::ConfigReloaded => {
                reveal_strlit("config_reloaded");
            },
            ScriptEventKind::WorkspaceChanged => {
                reveal_strlit("workspace_changed");
            },
            ScriptEventKind::WindowCreated => {
                reveal_strlit("window_created");
            },
            ScriptEventKind::WindowClosed => {
                reveal_strlit("window_closed");
            },
            ScriptEventKind::TabCreated => {
                reveal_strlit("tab_created");
            },
            ScriptEventKind::TabClosed => {
                reveal_strlit("tab_closed");
            },
            ScriptEventKind::PaneCreated => {
                reveal_strlit("pane_created");
            },
            ScriptEventKind::PaneClosed => {
                reveal_strlit("pane_closed");
            },
            ScriptEventKind::PaneFocused => {
                reveal_strlit("pane_focused");
            },
            ScriptEventKind::TitleChanged => {
                reveal_strlit("title_changed");
            },
            ScriptEventKind::CwdChanged => {
                reveal_strlit("cwd_changed");
            },
            ScriptEventKind::PromptStarted => {
                reveal_strlit("prompt_started");
            },
            ScriptEventKind::CommandLineStarted => {
                reveal_strlit("command_line_started");
            },
            ScriptEventKind::CommandStarted => {
                reveal_strlit("command_started");
            },
            ScriptEventKind::CommandFinished => {
                reveal_strlit("command_finished");
            },
            ScriptEventKind::Bell => {
                reveal_strlit("bell");
            },
        }
    }

    /// Different event kinds have different names.
    pub proof fn lemma_names_unique(a: Self, b: Self)
        ensures
            a.spec_name() == b.spec_name() ==> a == b,
    {
        a.lemma_name_key();
        b.lemma_name_key();
        if a.spec_name() == b.spec_name() {
            assert(a.name_key() == b.name_key());
        }
    }
}

/// A user-level operation that a key binding or a script can request.
#[derive(Debug, PartialEq, Eq)]
pub enum NativeAction {
    NewTab,
    ClosePane,
    CloseTab,
    NewWorkspace,
    ReloadConfig,
    Search,
    MaximizeWindow,
    ToggleMaximize,
    MinimizeWindow,
    ToggleFullscreen,
    NextTab,
    PreviousTab,
    NextWorkspace,
    PreviousWorkspace,
    NextPrompt,
    PreviousPrompt,
    NextMark,
    PreviousMark,
    SelectNextCommandOutput,
    SelectPreviousCommandOutput,
    SelectLastCommandOutput,
    CopySelection,
    PasteClipboard,
    StartVisualMode,
    ToggleVisualMode,
    StartVisualSelection,
    SelectVisualSelection,
    EndVisualSelection,
    MoveVisualSelection(SelectionMotion),
    YankSelection,
    UserCommand(String),
    Split(SplitDirection),
    ActivatePane(SplitDirection),
    ToggleZoom,
}

impl Clone for NativeAction {
    fn clone(&self) -> (r: NativeAction)
        ensures
            r == *self,
    {
        match self {
            NativeAction::NewTab => NativeAction::NewTab,
            NativeAction::ClosePane => NativeAction::ClosePane,
            NativeAction::CloseTab => NativeAction::CloseTab,
            NativeAction::NewWorkspace => NativeAction::NewWorkspace,
            NativeAction::ReloadConfig => NativeAction::ReloadConfig,
            NativeAction::Search => NativeAction::Search,
            NativeAction::MaximizeWindow => NativeAction::MaximizeWindow,
            NativeAction::ToggleMaximize => NativeAction::ToggleMaximize,
            NativeAction::MinimizeWindow => NativeAction::MinimizeWindow,
            NativeAction::ToggleFullscreen => NativeAction::ToggleFullscreen,
            NativeAction::NextTab => NativeAction::NextTab,
            NativeAction::PreviousTab => NativeAction::PreviousTab,
            NativeAction::NextWorkspace => NativeAction::NextWorkspace,
            NativeAction::PreviousWorkspace => NativeAction::PreviousWorkspace,
            NativeAction::NextPrompt => NativeAction::NextPrompt,
            NativeAction::PreviousPrompt => NativeAction::PreviousPrompt,
            NativeAction::NextMark => NativeAction::NextMark,
            NativeAction::PreviousMark => NativeAction::PreviousMark,
            NativeAction::SelectNextCommandOutput => NativeAction::SelectNextCommandOutput,
            NativeAction::SelectPreviousCommandOutput => NativeAction::SelectPreviousCommandOutput,
            NativeAction::SelectLastCommandOutput => NativeAction::SelectLastCommandOutput,
            NativeAction::CopySelection => NativeAction::CopySelection,
            NativeAction::PasteClipboard => NativeAction::PasteClipboard,
            NativeAction::StartVisualMode => NativeAction::StartVisualMode,
            NativeAction::ToggleVisualMode => NativeAction::ToggleVisualMode,
            NativeAction::StartVisualSelection => NativeAction::StartVisualSelection,
            NativeAction::SelectVisualSelection => NativeAction::SelectVisualSelection,
            NativeAction::EndVisualSelection => NativeAction::EndVisualSelection,
            NativeAction::YankSelection => NativeAction::YankSelection,
            NativeAction::ToggleZoom => NativeAction::ToggleZoom,
            NativeAction::MoveVisualSelection(motion) => NativeAction::MoveVisualSelection(*motion),
            NativeAction::UserCommand(name) => NativeAction::UserCommand(name.clone()),
            NativeAction::Split(direction) => NativeAction::Split(*direction),
            NativeAction::ActivatePane(direction) => NativeAction::ActivatePane(*direction),
        }
    }
}

/// The hierarchy position that an action was requested for.
#[derive(Clone, Copy, Debug, PartialEq, Eq, Structural)]
pub struct ActionContext {
    pub workspace: WorkspaceId,
    pub window: WindowId,
    pub tab: TabId,
    pub pane: PaneId,
}

/// How to start the process of a new pane: program, arguments, working
/// directory and environment changes (`None` removes a variable).
#[derive(Clone, Debug, PartialEq)]
pub struct PaneLaunchSpec {
    pub program: Option<String>,
    pub args: Vec<String>,
    pub cwd: Option<String>,
    pub environment: Vec<(String, Option<String>)>,
}

/// A request from a script, the IPC server or a key binding, by domain.
#[derive(Clone, Debug, PartialEq)]
pub enum NativeCommand {
    Mux(Command),
    Action(ActionCommand),
    Pane(PaneCommand),
    Window(WindowCommand),
    Ui(UiCommand),
    Clipboard(ClipboardCommand),
    Script(ScriptCommand),
    Config(ConfigCommand),
}

/// An action to resolve against a hierarchy position.
#[derive(Clone, Debug, PartialEq)]
pub enum ActionCommand {
    Invoke { action: NativeAction, context: ActionContext },
}

/// Requests handled by a pane's terminal.
#[derive(Clone, Debug, PartialEq)]
pub enum PaneCommand {
    Search { pane: PaneId, query: String, direction: PaneSearchDirection },
    SplitWithLaunch { pane: PaneId, direction: SplitDirection, launch: PaneLaunchSpec },
}

/// Requests handled by the native window.
#[derive(Clone, Debug, PartialEq)]
pub enum WindowCommand {
    CreateWithLaunch { workspace: WorkspaceId, launch: PaneLaunchSpec },
    NewTabWithLaunch { window: WindowId, launch: PaneLaunchSpec },
    Maximize,
    ToggleMaximize,
    Minimize,
    ToggleFullscreen,
}

/// Requests handled by the user interface state.
#[derive(Clone, Debug, PartialEq)]
pub enum UiCommand {
    OpenSearch { pane: PaneId },
    SelectLastCommandOutput { pane: PaneId },
    StartVisualMode { pane: PaneId },
    ToggleVisualMode { pane: PaneId },
    StartVisualSelection { pane: PaneId },
    SelectVisualSelection { pane: PaneId },
    EndVisualSelection { pane: PaneId },
    MoveVisualSelection { pane: PaneId, motion: SelectionMotion },
    NavigatePrompt { pane: PaneId, direction: PaneSearchDirection },
    NavigateMark { pane: PaneId, direction: PaneSearchDirection },
    SelectCommandOutput { pane: PaneId, direction: PaneSearchDirection },
    SetPaneBadge { pane: PaneId, badge: Option<String> },
    OpenSelector { id: u64, title: String, items: Vec<String> },
}

/// Requests handled by the clipboard.
#[derive(Clone, Debug, PartialEq)]
pub enum ClipboardCommand {
    Write(String),
    CopySelection { pane: PaneId },
    Paste { pane: PaneId },
    YankSelection { pane: PaneId },
}

/// Requests handled by the scripting runtime.
#[derive(Clone, Debug, PartialEq)]
pub enum ScriptCommand {
    InvokeUserCommand { name: String, pane: PaneId },
}

/// Requests about the configuration.
#[derive(Clone, Copy, Debug, PartialEq, Eq, Structural)]
pub enum ConfigCommand {
    Reload,
}

impl From<WorkspaceId> for NativeHandle {
    fn from(id: WorkspaceId) -> (h: NativeHandle)
        ensures
            h.spec_kind() == HandleKind::Workspace,
            h.spec_id() == id.0,
    {
        NativeHandle { kind: HandleKind::Workspace, id: id.0 }
    }
}

impl vstd::std_specs::convert::FromSpecImpl<WorkspaceId> for NativeHandle {
    open spec fn obeys_from_spec() -> bool {
        true
    }

    closed spec fn from_spec(v: WorkspaceId) -> NativeHandle {
        NativeHandle { kind: HandleKind::Workspace, id: v.0 }
    }
}

impl From<WindowId> for NativeHandle {
    fn from(id: WindowId) -> (h: NativeHandle)
        ensures
            h.spec_kind() == HandleKind::Window,
            h.spec_id() == id.0,
    {
        NativeHandle { kind: HandleKind::Window, id: id.0 }
    }
}

impl vstd::std_specs::convert::FromSpecImpl<WindowId> for NativeHandle {
    open spec fn obeys_from_spec() -> bool {
        true
    }

    closed spec fn from_spec(v: WindowId) -> NativeHandle {
        NativeHandle { kind: HandleKind::Window, id: v.0 }
    }
}

impl From<TabId> for NativeHandle {
    fn from(id: TabId) -> (h: NativeHandle)
        ensures
            h.spec_kind() == HandleKind::Tab,
            h.spec_id() == id.0,
    {
        NativeHandle { kind: HandleKind::Tab, id: id.0 }
    }
}

impl vstd::std_specs::convert::FromSpecImpl<TabId> for NativeHandle {
    open spec fn obeys_from_spec() -> bool {
        true
    }

    closed spec fn from_spec(v: TabId) -> NativeHandle {
        NativeHandle { kind: HandleKind::Tab, id: v.0 }
    }
}

impl From<PaneId> for NativeHandle {
    fn from(id: PaneId) -> (h: NativeHandle)
        ensures
            h.spec_kind() == HandleKind::Pane,
            h.spec_id() == id.0,
    {
        NativeHandle { kind: HandleKind::Pane, id: id.0 }
    }
}

impl vstd::std_specs::convert::FromSpecImpl<PaneId> for NativeHandle {
    open spec fn obeys_from_spec() -> bool {
        true
    }

    closed spec fn from_spec(v: PaneId) -> NativeHandle {
        NativeHandle { kind: HandleKind::Pane, id: v.0 }
    }
}

} // verus!
