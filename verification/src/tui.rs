//! The terminal interface's screens and how a key press moves between
//! them: a function from the interface's state and a key to its next state
//! and the work the key asks for.

use vstd::prelude::*;
use crate::text::{
    chars_of, concat3, decimal, opt_view, owned, push_char, push_str, slice_chars, str_contains, str_eq,
    str_starts_with, string_of, u64_to_string,
};

verus! {

/// The screens of the interface, in tab order.
#[derive(Debug, Clone, Copy, PartialEq, Eq, Structural)]
pub enum Screen {
    Services,
    Profiles,
    Wallets,
    RpcTokens,
    Config,
    Ssl,
    Logs,
}

/// The screen's position in tab order.
pub open spec fn screen_index(s: Screen) -> int {
    match s {
        Screen::Services => 0,
        Screen::Profiles => 1,
        Screen::Wallets => 2,
        Screen::RpcTokens => 3,
        Screen::Config => 4,
        Screen::Ssl => 5,
        Screen::Logs => 6,
    }
}

/// The screen at position `i` (modulo 7) in tab order.
pub open spec fn screen_at(i: int) -> Screen {
    let j = i % 7;
    if j == 0 {
        Screen::Services
    } else if j == 1 {
        Screen::Profiles
    } else if j == 2 {
        Screen::Wallets
    } else if j == 3 {
        Screen::RpcTokens
    } else if j == 4 {
        Screen::Config
    } else if j == 5 {
        Screen::Ssl
    } else {
        Screen::Logs
    }
}

/// The screens in tab order.
pub open spec fn all_screens() -> Seq<Screen> {
    seq![
        Screen::Services,
        Screen::Profiles,
        Screen::Wallets,
        Screen::RpcTokens,
        Screen::Config,
        Screen::Ssl,
        Screen::Logs,
    ]
}

impl Screen {
    /// The screen's title.
    pub fn title(&self) -> (r: &'static str)
        ensures
            r@ == match self {
                Screen::Services => "Services"@,
                Screen::Profiles => "Profiles"@,
                Screen::Wallets => "Wallets"@,
                Screen::RpcTokens => "RPC Tokens"@,
                Screen::Config => "Configuration"@,
                Screen::Ssl => "SSL Certificates"@,
                Screen::Logs => "Logs"@,
            },
    {
        match self {
            Screen::Services => "Services",
            Screen::Profiles => "Profiles",
            Screen::Wallets => "Wallets",
            Screen::RpcTokens => "RPC Tokens",
            Screen::Config => "Configuration",
            Screen::Ssl => "SSL Certificates",
            Screen::Logs => "Logs",
        }
    }

    /// Every screen, in tab order.
    pub fn all() -> (r: Vec<Screen>)
        ensures
            r@ == all_screens(),
    {
        let r = vec![
            Screen::Services,
            Screen::Profiles,
            Screen::Wallets,
            Screen::RpcTokens,
            Screen::Config,
            Screen::Ssl,
            Screen::Logs,
        ];
        assert(r@ =~= all_screens());
        r
    }

    /// The screen after this one, the last wrapping to the first.
    pub fn next(&self) -> (r: Screen)
        ensures
            r == screen_at(screen_index(*self) + 1),
    {
        match self {
            Screen::Services => Screen::Profiles,
            Screen::Profiles => Screen::Wallets,
            Screen::Wallets => Screen::RpcTokens,
            Screen::RpcTokens => Screen::Config,
            Screen::Config => Screen::Ssl,
            Screen::Ssl => Screen::Logs,
            Screen::Logs => Screen::Services,
        }
    }

    /// The screen before this one, the first wrapping to the last.
    pub fn prev(&self) -> (r: Screen)
        ensures
            r == screen_at(screen_index(*self) + 6),
    {
        match self {
            Screen::Services => Screen::Logs,
            Screen::Profiles => Screen::Services,
            Screen::Wallets => Screen::Profiles,
            Screen::RpcTokens => Screen::Wallets,
            Screen::Config => Screen::RpcTokens,
            Screen::Ssl => Screen::Config,
            Screen::Logs => Screen::Ssl,
        }
    }
}

/// A key press.
#[derive(Debug, Clone, Copy, PartialEq, Eq, Structural)]
pub enum Key {
    Char(char),
    F(u8),
    Esc,
    Tab,
    BackTab,
    Left,
    Right,
    Up,
    Down,
    Enter,
    PageUp,
    PageDown,
    Backspace,
    Other,
}

/// The level that the log viewer shows.
#[derive(Debug, Clone, Copy, PartialEq, Eq, Structural)]
pub enum LogFilter {
    Error,
    Warn,
    Info,
}

/// The work a key asks of the program.
#[derive(Debug, Clone, PartialEq, Eq)]
pub enum KeyAction {
    /// Nothing to do.
    Nothing,
    /// The key belongs to the value editor.
    EditKey,
    /// The key belongs to the transaction search.
    TxSearchKey,
    /// The key belongs to the list search.
    SearchKey,
    /// The key belongs to the send dialog.
    SendDialogKey,
    /// The key belongs to the detail view.
    DetailViewKey,
    /// Fetch the logs of the service again.
    RefreshLogs(String),
    RefreshAll,
    /// Show the current screen's data.
    UpdateDashboard,
    /// Act on the selected item.
    Activate,
    StartService,
    StartProfile,
    StopService,
    StopProfile,
    RestartService,
    GenerateTokens,
    GenerateWallet,
    OpenSendDialog,
    EnterEditMode,
    SslCheck,
    SslRenew,
    Upgrade,
    /// Forget the shown log lines.
    ClearLogs,
    /// Start a transaction search with empty text.
    BeginTxSearch,
    /// Start a list search with empty text.
    BeginSearch,
}

/// What the interface knows when a key arrives.
#[derive(Debug)]
pub struct NavState {
    pub screen: Screen,
    pub selected_index: usize,
    pub should_quit: bool,
    pub show_help: bool,
    pub status_message: Option<String>,
    pub edit_mode: bool,
    pub tx_search_mode: bool,
    pub search_mode: bool,
    pub show_send_dialog: bool,
    pub detail_service_open: bool,
    pub detail_wallet_open: bool,
    /// The service whose logs are open in the log viewer.
    pub logs_service: Option<String>,
    pub logs_follow: bool,
    pub logs_filter: Option<LogFilter>,
    pub logs_scroll: usize,
    /// How many log lines are shown.
    pub logs_len: usize,
    pub containers_len: usize,
    pub wallets_len: usize,
    pub config_len: usize,
    /// How many transactions the open wallet has.
    pub wallet_tx_len: usize,
    /// How many transactions the transaction search kept.
    pub filtered_tx_len: usize,
    pub selected_tx: Option<usize>,
    pub show_tx_detail: bool,
}

pub struct NavView {
    pub screen: Screen,
    pub selected_index: usize,
    pub should_quit: bool,
    pub show_help: bool,
    pub status_message: Option<Seq<char>>,
    pub edit_mode: bool,
    pub tx_search_mode: bool,
    pub search_mode: bool,
    pub show_send_dialog: bool,
    pub detail_service_open: bool,
    pub detail_wallet_open: bool,
    pub logs_service: Option<Seq<char>>,
    pub logs_follow: bool,
    pub logs_filter: Option<LogFilter>,
    pub logs_scroll: usize,
    pub logs_len: usize,
    pub containers_len: usize,
    pub wallets_len: usize,
    pub config_len: usize,
    pub wallet_tx_len: usize,
    pub filtered_tx_len: usize,
    pub selected_tx: Option<usize>,
    pub show_tx_detail: bool,
}

impl View for NavState {
    type V = NavView;

    open spec fn view(&self) -> NavView {
        NavView {
            screen: self.screen,
            selected_index: self.selected_index,
            should_quit: self.should_quit,
            show_help: self.show_help,
            status_message: opt_view(self.status_message),
            edit_mode: self.edit_mode,
            tx_search_mode: self.tx_search_mode,
            search_mode: self.search_mode,
            show_send_dialog: self.show_send_dialog,
            detail_service_open: self.detail_service_open,
            detail_wallet_open: self.detail_wallet_open,
            logs_service: opt_view(self.logs_service),
            logs_follow: self.logs_follow,
            logs_filter: self.logs_filter,
            logs_scroll: self.logs_scroll,
            logs_len: self.logs_len,
            containers_len: self.containers_len,
            wallets_len: self.wallets_len,
            config_len: self.config_len,
            wallet_tx_len: self.wallet_tx_len,
            filtered_tx_len: self.filtered_tx_len,
            selected_tx: self.selected_tx,
            show_tx_detail: self.show_tx_detail,
        }
    }
}

/// What a key does, as plain values.
pub enum ActionView {
    Nothing,
    EditKey,
    TxSearchKey,
    SearchKey,
    SendDialogKey,
    DetailViewKey,
    RefreshLogs(Seq<char>),
    RefreshAll,
    UpdateDashboard,
    Activate,
    StartService,
    StartProfile,
    StopService,
    StopProfile,
    RestartService,
    GenerateTokens,
    GenerateWallet,
    OpenSendDialog,
    EnterEditMode,
    SslCheck,
    SslRenew,
    Upgrade,
    ClearLogs,
    BeginTxSearch,
    BeginSearch,
}

impl View for KeyAction {
    type V = ActionView;

    open spec fn view(&self) -> ActionView {
        match self {
            KeyAction::Nothing => ActionView::Nothing,
            KeyAction::EditKey => ActionView::EditKey,
            KeyAction::TxSearchKey => ActionView::TxSearchKey,
            KeyAction::SearchKey => ActionView::SearchKey,
            KeyAction::SendDialogKey => ActionView::SendDialogKey,
            KeyAction::DetailViewKey => ActionView::DetailViewKey,
            KeyAction::RefreshLogs(s) => ActionView::RefreshLogs(s@),
            KeyAction::RefreshAll => ActionView::RefreshAll,
            KeyAction::UpdateDashboard => ActionView::UpdateDashboard,
            KeyAction::Activate => ActionView::Activate,
            KeyAction::StartService => ActionView::StartService,
            KeyAction::StartProfile => ActionView::StartProfile,
            KeyAction::StopService => ActionView::StopService,
            KeyAction::StopProfile => ActionView::StopProfile,
            KeyAction::RestartService => ActionView::RestartService,
            KeyAction::GenerateTokens => ActionView::GenerateTokens,
            KeyAction::GenerateWallet => ActionView::GenerateWallet,
            KeyAction::OpenSendDialog => ActionView::OpenSendDialog,
            KeyAction::EnterEditMode => ActionView::EnterEditMode,
            KeyAction::SslCheck => ActionView::SslCheck,
            KeyAction::SslRenew => ActionView::SslRenew,
            KeyAction::Upgrade => ActionView::Upgrade,
            KeyAction::ClearLogs => ActionView::ClearLogs,
            KeyAction::BeginTxSearch => ActionView::BeginTxSearch,
            KeyAction::BeginSearch => ActionView::BeginSearch,
        }
    }
}

/// `a - b`, or 0 when `b` is larger.
pub open spec fn sat_sub(a: usize, b: usize) -> usize {
    if a > b {
        (a - b) as usize
    } else {
        0
    }
}

/// The last selectable row of the current screen.
pub open spec fn max_selection(s: NavView) -> usize {
    match s.screen {
        Screen::Services => sat_sub(s.containers_len, 1),
        Screen::Profiles => 6,
        Screen::Wallets => sat_sub(s.wallets_len, 1),
        Screen::RpcTokens => 45,
        Screen::Config => sat_sub(s.config_len, 1),
        Screen::Logs => if s.logs_service is None {
            sat_sub(s.containers_len, 1)
        } else {
            0
        },
        Screen::Ssl => 0,
    }
}

/// The log viewer is open on a service.
pub open spec fn viewing_logs(s: NavView) -> bool {
    s.screen == Screen::Logs && s.logs_service is Some
}

/// The open wallet has transactions to pick from.
pub open spec fn picking_tx(s: NavView) -> bool {
    s.detail_wallet_open && s.wallet_tx_len > 0
}

/// Switching to screen `to`: first row selected, dashboard refreshed.
pub open spec fn go_to(s: NavView, to: Screen) -> (NavView, ActionView) {
    (NavView { screen: to, selected_index: 0, ..s }, ActionView::UpdateDashboard)
}

/// The log viewer filtered to `f`, from the top.
pub open spec fn filter_logs(s: NavView, f: LogFilter, msg: Seq<char>) -> (NavView, ActionView) {
    if viewing_logs(s) {
        (NavView { logs_filter: Some(f), logs_scroll: 0, status_message: Some(msg), ..s }, ActionView::Nothing)
    } else {
        (s, ActionView::Nothing)
    }
}

/// What a key that quits, helps, refreshes or upgrades does in the main view.
pub open spec fn general_key(s: NavView, key: Key) -> (NavView, ActionView) {
    match key {
        Key::Char('q') => (NavView { should_quit: true, ..s }, ActionView::Nothing),
        Key::Esc => if s.show_help {
            (NavView { show_help: false, ..s }, ActionView::Nothing)
        } else if viewing_logs(s) {
            (
                NavView {
                    logs_service: None,
                    logs_len: 0,
                    logs_filter: None,
                    logs_follow: false,
                    logs_scroll: 0,
                    ..s
                },
                ActionView::ClearLogs,
            )
        } else {
            (NavView { should_quit: true, ..s }, ActionView::Nothing)
        },
        Key::Char('?') | Key::F(1) => (NavView { show_help: !s.show_help, ..s }, ActionView::Nothing),
        Key::Char('r') => if viewing_logs(s) {
            let name = s.logs_service->0;
            (
                NavView { status_message: Some("Refreshing logs for "@ + name + "..."@), ..s },
                ActionView::RefreshLogs(name),
            )
        } else {
            (NavView { status_message: Some("Refreshing..."@), ..s }, ActionView::RefreshAll)
        },
        Key::Char('u') => (s, ActionView::Upgrade),
        _ => (s, ActionView::Nothing),
    }
}

/// Whether `key` is a key that quits, helps, refreshes or upgrades.
pub open spec fn is_general_key(key: Key) -> bool {
    matches!(key, Key::Char('q') | Key::Esc | Key::Char('?') | Key::F(1) | Key::Char('r') | Key::Char('u'))
}

/// What a key that changes screen does in the main view.
pub open spec fn screens_key(s: NavView, key: Key) -> (NavView, ActionView) {
    match key {
        Key::Tab | Key::Right => go_to(s, screen_at(screen_index(s.screen) + 1)),
        Key::BackTab | Key::Left => go_to(s, screen_at(screen_index(s.screen) + 6)),
        Key::Char('1') => go_to(s, Screen::Services),
        Key::Char('2') => go_to(s, Screen::Profiles),
        Key::Char('3') => go_to(s, Screen::Wallets),
        Key::Char('4') => go_to(s, Screen::RpcTokens),
        Key::Char('5') => go_to(s, Screen::Config),
        Key::Char('6') => go_to(s, Screen::Ssl),
        Key::Char('7') => go_to(s, Screen::Logs),
        _ => (s, ActionView::Nothing),
    }
}

/// Whether `key` is a key that changes screen.
pub open spec fn is_screens_key(key: Key) -> bool {
    matches!(key, Key::Tab | Key::Right | Key::BackTab | Key::Left | Key::Char('1') | Key::Char('2') | Key::Char('3') | Key::Char('4') | Key::Char('5') | Key::Char('6') | Key::Char('7'))
}

/// What a key that moves the selection or scrolls does in the main view.
pub open spec fn moves_key(s: NavView, key: Key) -> (NavView, ActionView) {
    match key {
        Key::Up | Key::Char('k') => if picking_tx(s) {
            let cur: usize = match s.selected_tx {
                Some(c) => c,
                None => 0,
            };
            if cur > 0 {
                (NavView { selected_tx: Some((cur - 1) as usize), ..s }, ActionView::Nothing)
            } else {
                (s, ActionView::Nothing)
            }
        } else if viewing_logs(s) {
            (NavView { logs_scroll: sat_sub(s.logs_scroll, 1), ..s }, ActionView::Nothing)
        } else if s.selected_index > 0 {
            (NavView { selected_index: (s.selected_index - 1) as usize, ..s }, ActionView::Nothing)
        } else {
            (s, ActionView::Nothing)
        },
        Key::Down | Key::Char('j') => if picking_tx(s) {
            let count = if s.tx_search_mode && s.filtered_tx_len > 0 {
                s.filtered_tx_len
            } else {
                s.wallet_tx_len
            };
            let cur: usize = match s.selected_tx {
                Some(c) => c,
                None => 0,
            };
            if cur < sat_sub(count, 1) {
                (NavView { selected_tx: Some((cur + 1) as usize), ..s }, ActionView::Nothing)
            } else {
                (s, ActionView::Nothing)
            }
        } else if viewing_logs(s) {
            let max_scroll = sat_sub(s.logs_len, 10);
            (
                NavView {
                    logs_scroll: if s.logs_scroll + 1 < max_scroll {
                        (s.logs_scroll + 1) as usize
                    } else {
                        max_scroll
                    },
                    ..s
                },
                ActionView::Nothing,
            )
        } else if s.selected_index < max_selection(s) {
            (NavView { selected_index: (s.selected_index + 1) as usize, ..s }, ActionView::Nothing)
        } else {
            (s, ActionView::Nothing)
        },
        _ => (s, ActionView::Nothing),
    }
}

/// Whether `key` is a key that moves the selection or scrolls.
pub open spec fn is_moves_key(key: Key) -> bool {
    matches!(key, Key::Up | Key::Char('k') | Key::Down | Key::Char('j'))
}

/// What a key that acts on the selection does in the main view.
pub open spec fn actions_key(s: NavView, key: Key) -> (NavView, ActionView) {
    match key {
        Key::Enter => if picking_tx(s) {
            if s.show_tx_detail {
                (NavView { show_tx_detail: false, ..s }, ActionView::Nothing)
            } else {
                (
                    NavView {
                        selected_tx: if s.selected_tx is None {
                            Some(0usize)
                        } else {
                            s.selected_tx
                        },
                        show_tx_detail: true,
                        ..s
                    },
                    ActionView::Nothing,
                )
            }
        } else {
            (s, ActionView::Activate)
        },
        Key::Char(' ') => (s, if s.screen == Screen::Profiles {
            ActionView::Activate
        } else {
            ActionView::Nothing
        }),
        Key::Char('s') => (s, match s.screen {
            Screen::Services => ActionView::StartService,
            Screen::Profiles => ActionView::StartProfile,
            _ => ActionView::Nothing,
        }),
        Key::Char('x') => (s, match s.screen {
            Screen::Services => ActionView::StopService,
            Screen::Profiles => ActionView::StopProfile,
            _ => ActionView::Nothing,
        }),
        Key::Char('R') => (s, if s.screen == Screen::Services {
            ActionView::RestartService
        } else {
            ActionView::Nothing
        }),
        Key::Char('g') => (s, match s.screen {
            Screen::RpcTokens => ActionView::GenerateTokens,
            Screen::Wallets => ActionView::GenerateWallet,
            _ => ActionView::Nothing,
        }),
        Key::Char('t') => (s, if s.screen == Screen::Wallets {
            ActionView::OpenSendDialog
        } else {
            ActionView::Nothing
        }),
        Key::Char('n') => (s, if s.screen == Screen::Ssl {
            ActionView::SslRenew
        } else {
            ActionView::Nothing
        }),
        _ => (s, ActionView::Nothing),
    }
}

/// Whether `key` is a key that acts on the selection.
pub open spec fn is_actions_key(key: Key) -> bool {
    matches!(key, Key::Enter | Key::Char(' ') | Key::Char('s') | Key::Char('x') | Key::Char('R') | Key::Char('g') | Key::Char('t') | Key::Char('n'))
}

/// What a key of the log viewer, editor or search does in the main view.
pub open spec fn logs_key(s: NavView, key: Key) -> (NavView, ActionView) {
    match key {
        Key::Char('e') => if s.screen == Screen::Config {
            (s, ActionView::EnterEditMode)
        } else {
            filter_logs(s, LogFilter::Error, "Filtering: ERROR"@)
        },
        Key::Char('c') => if s.screen == Screen::Ssl {
            (s, ActionView::SslCheck)
        } else if viewing_logs(s) {
            (NavView { logs_filter: None, status_message: Some("Filter cleared"@), ..s }, ActionView::Nothing)
        } else {
            (s, ActionView::Nothing)
        },
        Key::Char('f') => if viewing_logs(s) {
            (
                NavView {
                    logs_follow: !s.logs_follow,
                    status_message: Some(
                        if !s.logs_follow {
                            "Follow mode enabled - logs will auto-refresh"@
                        } else {
                            "Follow mode disabled"@
                        },
                    ),
                    ..s
                },
                ActionView::Nothing,
            )
        } else {
            (s, ActionView::Nothing)
        },
        Key::Char('w') => filter_logs(s, LogFilter::Warn, "Filtering: WARN"@),
        Key::Char('i') => filter_logs(s, LogFilter::Info, "Filtering: INFO"@),
        Key::PageUp => if viewing_logs(s) {
            (NavView { logs_scroll: sat_sub(s.logs_scroll, 20), ..s }, ActionView::Nothing)
        } else {
            (s, ActionView::Nothing)
        },
        Key::PageDown => if viewing_logs(s) {
            let max_scroll = sat_sub(s.logs_len, 10);
            (
                NavView {
                    logs_scroll: if s.logs_scroll + 20 < max_scroll {
                        (s.logs_scroll + 20) as usize
                    } else {
                        max_scroll
                    },
                    ..s
                },
                ActionView::Nothing,
            )
        } else {
            (s, ActionView::Nothing)
        },
        Key::Char('/') => if s.detail_wallet_open {
            (
                NavView {
                    tx_search_mode: true,
                    filtered_tx_len: 0,
                    status_message: Some("Search transactions: (type TxID, address, or amount)"@),
                    ..s
                },
                ActionView::BeginTxSearch,
            )
        } else if s.screen == Screen::Services || s.screen == Screen::Config || s.screen
            == Screen::Wallets {
            (
                NavView {
                    search_mode: true,
                    status_message: Some("Search: (type to filter, Enter to apply, Esc to cancel)"@),
                    ..s
                },
                ActionView::BeginSearch,
            )
        } else {
            (s, ActionView::Nothing)
        },

        _ => (s, ActionView::Nothing),
    }
}

/// Whether `key` is a key of the log viewer, editor or search.
pub open spec fn is_logs_key(key: Key) -> bool {
    matches!(key, Key::Char('e') | Key::Char('c') | Key::Char('f') | Key::Char('w') | Key::Char('i') | Key::PageUp | Key::PageDown | Key::Char('/'))
}

/// A key in the main view: the status line is cleared first, then the key
/// acts as the interface's key map says.
pub open spec fn main_key(s0: NavView, key: Key) -> (NavView, ActionView) {
    let s = NavView { status_message: None, ..s0 };
    if is_general_key(key) {
        general_key(s, key)
    } else if is_screens_key(key) {
        screens_key(s, key)
    } else if is_moves_key(key) {
        moves_key(s, key)
    } else if is_actions_key(key) {
        actions_key(s, key)
    } else if is_logs_key(key) {
        logs_key(s, key)
    } else {
        (s, ActionView::Nothing)
    }
}

/// A key press: the open editor, search, dialog or detail view (in that
/// order) takes it; otherwise it acts in the main view.
pub open spec fn key_step(s: NavView, key: Key) -> (NavView, ActionView) {
    if s.edit_mode {
        (s, ActionView::EditKey)
    } else if s.tx_search_mode {
        (s, ActionView::TxSearchKey)
    } else if s.search_mode {
        (s, ActionView::SearchKey)
    } else if s.show_send_dialog {
        (s, ActionView::SendDialogKey)
    } else if s.detail_service_open || s.detail_wallet_open {
        (s, ActionView::DetailViewKey)
    } else {
        main_key(s, key)
    }
}

fn sat_sub_exec(a: usize, b: usize) -> (r: usize)
    ensures
        r == sat_sub(a, b),
{
    if a > b {
        a - b
    } else {
        0
    }
}

impl NavState {
    fn get_max_selection(&self) -> (r: usize)
        ensures
            r == max_selection(self@),
    {
        match self.screen {
            Screen::Services => sat_sub_exec(self.containers_len, 1),
            Screen::Profiles => 6,
            Screen::Wallets => sat_sub_exec(self.wallets_len, 1),
            Screen::RpcTokens => 45,
            Screen::Config => sat_sub_exec(self.config_len, 1),
            Screen::Logs => if self.logs_service.is_none() {
                sat_sub_exec(self.containers_len, 1)
            } else {
                0
            },
            Screen::Ssl => 0,
        }
    }

    fn viewing_logs_exec(&self) -> (r: bool)
        ensures
            r == viewing_logs(self@),
    {
        self.screen == Screen::Logs && self.logs_service.is_some()
    }

    fn go_to_exec(&mut self, to: Screen) -> (r: KeyAction)
        ensures
            (final(self)@, r@) == go_to(old(self)@, to),
    {
        self.screen = to;
        self.selected_index = 0;
        KeyAction::UpdateDashboard
    }

    fn filter_logs_exec(&mut self, f: LogFilter, msg: &str) -> (r: KeyAction)
        ensures
            (final(self)@, r@) == filter_logs(old(self)@, f, msg@),
    {
        if self.viewing_logs_exec() {
            self.logs_filter = Some(f);
            self.logs_scroll = 0;
            self.status_message = Some(owned(msg));
        }
        KeyAction::Nothing
    }

    #[verifier::rlimit(40)]
    fn key_general(&mut self, key: Key) -> (r: KeyAction)
        requires
            old(self).status_message is None,
            old(self).logs_scroll + 20 <= usize::MAX,
            is_general_key(key),
        ensures
            (final(self)@, r@) == general_key(old(self)@, key),
    {
        let picking = self.detail_wallet_open && self.wallet_tx_len > 0;
        match key {
            Key::Char('q') => {
                self.should_quit = true;
                KeyAction::Nothing
            },
            Key::Esc => {
                if self.show_help {
                    self.show_help = false;
                    KeyAction::Nothing
                } else if self.viewing_logs_exec() {
                    self.logs_service = None;
                    self.logs_len = 0;
                    self.logs_filter = None;
                    self.logs_follow = false;
                    self.logs_scroll = 0;
                    KeyAction::ClearLogs
                } else {
                    self.should_quit = true;
                    KeyAction::Nothing
                }
            },
            Key::Char('?') | Key::F(1) => {
                self.show_help = !self.show_help;
                KeyAction::Nothing
            },
            Key::Char('r') => {
                if self.viewing_logs_exec() {
                    let name = match &self.logs_service {
                        Some(n) => n.clone(),
                        None => String::new(),
                    };
                    let mut m: Vec<char> = chars_of("Refreshing logs for ");
                    push_str(&mut m, name.as_str());
                    push_str(&mut m, "...");
                    self.status_message = Some(string_of(&m));
                    KeyAction::RefreshLogs(name)
                } else {
                    self.status_message = Some(owned("Refreshing..."));
                    KeyAction::RefreshAll
                }
            },
            Key::Char('u') => KeyAction::Upgrade,
            _ => KeyAction::Nothing,
        }
    }

    #[verifier::rlimit(40)]
    fn key_screens(&mut self, key: Key) -> (r: KeyAction)
        requires
            old(self).status_message is None,
            old(self).logs_scroll + 20 <= usize::MAX,
            is_screens_key(key),
        ensures
            (final(self)@, r@) == screens_key(old(self)@, key),
    {
        let picking = self.detail_wallet_open && self.wallet_tx_len > 0;
        match key {
            Key::Tab | Key::Right => {
                let to = self.screen.next();
                self.go_to_exec(to)
            },
            Key::BackTab | Key::Left => {
                let to = self.screen.prev();
                self.go_to_exec(to)
            },
            Key::Char('1') => self.go_to_exec(Screen::Services),
            Key::Char('2') => self.go_to_exec(Screen::Profiles),
            Key::Char('3') => self.go_to_exec(Screen::Wallets),
            Key::Char('4') => self.go_to_exec(Screen::RpcTokens),
            Key::Char('5') => self.go_to_exec(Screen::Config),
            Key::Char('6') => self.go_to_exec(Screen::Ssl),
            Key::Char('7') => self.go_to_exec(Screen::Logs),
            _ => KeyAction::Nothing,
        }
    }

    #[verifier::rlimit(40)]
    fn key_moves(&mut self, key: Key) -> (r: KeyAction)
        requires
            old(self).status_message is None,
            old(self).logs_scroll + 20 <= usize::MAX,
            is_moves_key(key),
        ensures
            (final(self)@, r@) == moves_key(old(self)@, key),
    {
        let picking = self.detail_wallet_open && self.wallet_tx_len > 0;
        match key {
            Key::Up | Key::Char('k') => {
                if picking {
                    let cur = match self.selected_tx {
                        Some(c) => c,
                        None => 0,
                    };
                    if cur > 0 {
                        self.selected_tx = Some(cur - 1);
                    }
                } else if self.viewing_logs_exec() {
                    self.logs_scroll = sat_sub_exec(self.logs_scroll, 1);
                } else if self.selected_index > 0 {
                    self.selected_index = self.selected_index - 1;
                }
                KeyAction::Nothing
            },
            Key::Down | Key::Char('j') => {
                if picking {
                    let count = if self.tx_search_mode && self.filtered_tx_len > 0 {
                        self.filtered_tx_len
                    } else {
                        self.wallet_tx_len
                    };
                    let cur = match self.selected_tx {
                        Some(c) => c,
                        None => 0,
                    };
                    if cur < sat_sub_exec(count, 1) {
                        self.selected_tx = Some(cur + 1);
                    }
                } else if self.viewing_logs_exec() {
                    let max_scroll = sat_sub_exec(self.logs_len, 10);
                    self.logs_scroll = if self.logs_scroll + 1 < max_scroll {
                        self.logs_scroll + 1
                    } else {
                        max_scroll
                    };
                } else {
                    let max = self.get_max_selection();
                    if self.selected_index < max {
                        self.selected_index = self.selected_index + 1;
                    }
                }
                KeyAction::Nothing
            },
            _ => KeyAction::Nothing,
        }
    }

    #[verifier::rlimit(40)]
    fn key_actions(&mut self, key: Key) -> (r: KeyAction)
        requires
            old(self).status_message is None,
            old(self).logs_scroll + 20 <= usize::MAX,
            is_actions_key(key),
        ensures
            (final(self)@, r@) == actions_key(old(self)@, key),
    {
        let picking = self.detail_wallet_open && self.wallet_tx_len > 0;
        match key {
            Key::Enter => {
                if picking {
                    if self.show_tx_detail {
                        self.show_tx_detail = false;
                    } else {
                        if self.selected_tx.is_none() {
                            self.selected_tx = Some(0);
                        }
                        self.show_tx_detail = true;
                    }
                    KeyAction::Nothing
                } else {
                    KeyAction::Activate
                }
            },
            Key::Char(' ') => if self.screen == Screen::Profiles {
                KeyAction::Activate
            } else {
                KeyAction::Nothing
            },
            Key::Char('s') => match self.screen {
                Screen::Services => KeyAction::StartService,
                Screen::Profiles => KeyAction::StartProfile,
                _ => KeyAction::Nothing,
            },
            Key::Char('x') => match self.screen {
                Screen::Services => KeyAction::StopService,
                Screen::Profiles => KeyAction::StopProfile,
                _ => KeyAction::Nothing,
            },
            Key::Char('R') => if self.screen == Screen::Services {
                KeyAction::RestartService
            } else {
                KeyAction::Nothing
            },
            Key::Char('g') => match self.screen {
                Screen::RpcTokens => KeyAction::GenerateTokens,
                Screen::Wallets => KeyAction::GenerateWallet,
                _ => KeyAction::Nothing,
            },
            Key::Char('t') => if self.screen == Screen::Wallets {
                KeyAction::OpenSendDialog
            } else {
                KeyAction::Nothing
            },
            Key::Char('n') => if self.screen == Screen::Ssl {
                KeyAction::SslRenew
            } else {
                KeyAction::Nothing
            },
            _ => KeyAction::Nothing,
        }
    }

    #[verifier::rlimit(40)]
    fn key_logs(&mut self, key: Key) -> (r: KeyAction)
        requires
            old(self).status_message is None,
            old(self).logs_scroll + 20 <= usize::MAX,
            is_logs_key(key),
        ensures
            (final(self)@, r@) == logs_key(old(self)@, key),
    {
        let picking = self.detail_wallet_open && self.wallet_tx_len > 0;
        match key {
            Key::Char('e') => if self.screen == Screen::Config {
                KeyAction::EnterEditMode
            } else {
                self.filter_logs_exec(LogFilter::Error, "Filtering: ERROR")
            },
            Key::Char('c') => {
                if self.screen == Screen::Ssl {
                    KeyAction::SslCheck
                } else if self.viewing_logs_exec() {
                    self.logs_filter = None;
                    self.status_message = Some(owned("Filter cleared"));
                    KeyAction::Nothing
                } else {
                    KeyAction::Nothing
                }
            },
            Key::Char('f') => {
                if self.viewing_logs_exec() {
                    self.logs_follow = !self.logs_follow;
                    let msg = if self.logs_follow {
                        "Follow mode enabled - logs will auto-refresh"
                    } else {
                        "Follow mode disabled"
                    };
                    self.status_message = Some(owned(msg));
                }
                KeyAction::Nothing
            },
            Key::Char('w') => self.filter_logs_exec(LogFilter::Warn, "Filtering: WARN"),
            Key::Char('i') => self.filter_logs_exec(LogFilter::Info, "Filtering: INFO"),
            Key::PageUp => {
                if self.viewing_logs_exec() {
                    self.logs_scroll = sat_sub_exec(self.logs_scroll, 20);
                }
                KeyAction::Nothing
            },
            Key::PageDown => {
                if self.viewing_logs_exec() {
                    let max_scroll = sat_sub_exec(self.logs_len, 10);
                    self.logs_scroll = if self.logs_scroll + 20 < max_scroll {
                        self.logs_scroll + 20
                    } else {
                        max_scroll
                    };
                }
                KeyAction::Nothing
            },
            Key::Char('/') => {
                if self.detail_wallet_open {
                    self.tx_search_mode = true;
                    self.filtered_tx_len = 0;
                    self.status_message = Some(owned("Search transactions: (type TxID, address, or amount)"));
                    KeyAction::BeginTxSearch
                } else if self.screen == Screen::Services || self.screen == Screen::Config
                    || self.screen == Screen::Wallets {
                    self.search_mode = true;
                    self.status_message = Some(owned("Search: (type to filter, Enter to apply, Esc to cancel)"));
                    KeyAction::BeginSearch
                } else {
                    KeyAction::Nothing
                }
            },

            _ => KeyAction::Nothing,
        }
    }

    /// What a key press does (see `key_step`).
    pub fn handle_key(&mut self, key: Key) -> (r: KeyAction)
        requires
            old(self).logs_scroll + 20 <= usize::MAX,
        ensures
            (final(self)@, r@) == key_step(old(self)@, key),
    {
        if self.edit_mode {
            return KeyAction::EditKey;
        }
        if self.tx_search_mode {
            return KeyAction::TxSearchKey;
        }
        if self.search_mode {
            return KeyAction::SearchKey;
        }
        if self.show_send_dialog {
            return KeyAction::SendDialogKey;
        }
        if self.detail_service_open || self.detail_wallet_open {
            return KeyAction::DetailViewKey;
        }
        let ghost s0 = self@;
        self.status_message = None;
        assert(self@ == NavView { status_message: None, ..s0 });
        match key {
            Key::Char('q') | Key::Esc | Key::Char('?') | Key::F(1) | Key::Char('r') | Key::Char('u') => self.key_general(key),
            Key::Tab | Key::Right | Key::BackTab | Key::Left | Key::Char('1') | Key::Char('2') | Key::Char('3') | Key::Char('4') | Key::Char('5') | Key::Char('6') | Key::Char('7') => self.key_screens(key),
            Key::Up | Key::Char('k') | Key::Down | Key::Char('j') => self.key_moves(key),
            Key::Enter | Key::Char(' ') | Key::Char('s') | Key::Char('x') | Key::Char('R') | Key::Char('g') | Key::Char('t') | Key::Char('n') => self.key_actions(key),
            Key::Char('e') | Key::Char('c') | Key::Char('f') | Key::Char('w') | Key::Char('i') | Key::PageUp | Key::PageDown | Key::Char('/') => self.key_logs(key),
            _ => KeyAction::Nothing,
        }
    }
}


// ---------------------------------------------------------------------------
// The detail view
// ---------------------------------------------------------------------------

/// The work a key asks for in the detail view.
#[derive(Debug, Clone, Copy, PartialEq, Eq, Structural)]
pub enum DetailAction {
    Nothing,
    /// The view closed: forget its logs, addresses and transactions.
    Close,
    StartService,
    StopService,
    RestartService,
    RefreshLogs,
}

/// What a key does in the detail view of a service or a wallet. `Enter`
/// opens the selected transaction of a wallet with transactions (the first
/// one where none is selected) or closes it; `Esc` and `q` close that, or
/// else the view; `s`, `x`, `R` and `r` act on the service shown.
pub open spec fn detail_key(s: NavView, key: Key) -> (NavView, DetailAction) {
    match key {
        Key::Enter => if picking_tx(s) {
            if s.show_tx_detail {
                (NavView { show_tx_detail: false, ..s }, DetailAction::Nothing)
            } else {
                (NavView {
                    selected_tx: if s.selected_tx is None { Some(0usize) } else { s.selected_tx },
                    show_tx_detail: true,
                    ..s
                }, DetailAction::Nothing)
            }
        } else {
            (s, DetailAction::Nothing)
        },
        Key::Esc | Key::Char('q') => if s.show_tx_detail {
            (NavView { show_tx_detail: false, ..s }, DetailAction::Nothing)
        } else {
            (NavView {
                detail_service_open: false,
                detail_wallet_open: false,
                wallet_tx_len: 0,
                selected_tx: None,
                ..s
            }, DetailAction::Close)
        },
        Key::Char('s') => (s, if s.detail_service_open { DetailAction::StartService } else { DetailAction::Nothing }),
        Key::Char('x') => (s, if s.detail_service_open { DetailAction::StopService } else { DetailAction::Nothing }),
        Key::Char('R') => (s, if s.detail_service_open { DetailAction::RestartService } else { DetailAction::Nothing }),
        Key::Char('r') => (s, if s.detail_service_open { DetailAction::RefreshLogs } else { DetailAction::Nothing }),
        _ => (s, DetailAction::Nothing),
    }
}

impl NavState {
    /// Takes a key in the detail view.
    pub fn handle_detail_view_key(&mut self, key: Key) -> (r: DetailAction)
        ensures
            (final(self)@, r) == detail_key(old(self)@, key),
    {
        match key {
            Key::Enter => {
                if self.detail_wallet_open && self.wallet_tx_len > 0 {
                    if self.show_tx_detail {
                        self.show_tx_detail = false;
                    } else {
                        if self.selected_tx.is_none() {
                            self.selected_tx = Some(0);
                        }
                        self.show_tx_detail = true;
                    }
                }
                DetailAction::Nothing
            },
            Key::Esc | Key::Char('q') => {
                if self.show_tx_detail {
                    self.show_tx_detail = false;
                    DetailAction::Nothing
                } else {
                    self.detail_service_open = false;
                    self.detail_wallet_open = false;
                    self.wallet_tx_len = 0;
                    self.selected_tx = None;
                    DetailAction::Close
                }
            },
            Key::Char('s') => if self.detail_service_open { DetailAction::StartService } else { DetailAction::Nothing },
            Key::Char('x') => if self.detail_service_open { DetailAction::StopService } else { DetailAction::Nothing },
            Key::Char('R') => if self.detail_service_open { DetailAction::RestartService } else { DetailAction::Nothing },
            Key::Char('r') => if self.detail_service_open { DetailAction::RefreshLogs } else { DetailAction::Nothing },
            _ => DetailAction::Nothing,
        }
    }
}

// ---------------------------------------------------------------------------
// Profiles, configuration values and search
// ---------------------------------------------------------------------------

/// The profiles in the order the profiles screen lists them.
pub open spec fn profile_names() -> Seq<Seq<char>> {
    seq!["kaspad"@, "backend"@, "frontend-w1"@, "frontend-w2"@, "frontend-w3"@, "frontend-w4"@, "frontend-w5"@]
}

/// The profile on row `index` of the profiles screen.
pub fn get_profile_name(index: usize) -> (r: Option<String>)
    ensures
        index < 7 ==> opt_view(r) == Some(profile_names()[index as int]),
        index >= 7 ==> r is None,
{
    if index == 0 {
        Some(owned("kaspad"))
    } else if index == 1 {
        Some(owned("backend"))
    } else if index == 2 {
        Some(owned("frontend-w1"))
    } else if index == 3 {
        Some(owned("frontend-w2"))
    } else if index == 4 {
        Some(owned("frontend-w3"))
    } else if index == 5 {
        Some(owned("frontend-w4"))
    } else if index == 6 {
        Some(owned("frontend-w5"))
    } else {
        None
    }
}

/// Why a configuration value may not be saved under `key`, checked in
/// this order: it is blank; a domain, e-mail, hex key or secret (other than
/// the OVH application key and secret), port, URL or endpoint that is
/// malformed; a network other than `testnet` or `mainnet`.
pub open spec fn config_value_error(key: Seq<char>, value: Seq<char>) -> Option<Seq<char>> {
    if crate::text::trim(value).len() == 0 {
        Some("Value cannot be empty"@)
    } else if crate::text::contains(key, "DOMAIN"@) && !crate::config::valid_domain(value) {
        Some("Invalid domain format"@)
    } else if crate::text::contains(key, "EMAIL"@) && !crate::config::valid_email(value) {
        Some("Invalid email format"@)
    } else if (crate::text::contains(key, "_KEY"@) || crate::text::contains(key, "_SECRET"@))
        && key != "OVH_APPLICATION_KEY"@ && key != "OVH_APPLICATION_SECRET"@
        && !crate::config::valid_hex(value) {
        Some("Must be a valid hex string"@)
    } else if crate::text::contains(key, "PORT"@) && crate::text::parse_u16_spec(value) is None {
        Some("Must be a valid port number (1-65535)"@)
    } else if (crate::text::contains(key, "URL"@) || crate::text::contains(key, "ENDPOINT"@))
        && !crate::text::starts_with(value, "http://"@) && !crate::text::starts_with(value, "https://"@) {
        Some("Must start with http:// or https://"@)
    } else if key == "NETWORK"@ && value != "testnet"@ && value != "mainnet"@ {
        Some("Must be either 'testnet' or 'mainnet'"@)
    } else {
        None
    }
}

/// Checks a value the user typed for a configuration key.
pub fn validate_config_value(key: &str, value: &str) -> (r: Option<String>)
    ensures
        opt_view(r) == config_value_error(key@, value@),
{
    let t = crate::text::trim_chars(&chars_of(value));
    if t.len() == 0 {
        return Some(owned("Value cannot be empty"));
    }
    if str_contains(key, "DOMAIN") && !crate::config::is_valid_domain(value) {
        return Some(owned("Invalid domain format"));
    }
    if str_contains(key, "EMAIL") && !crate::config::is_valid_email(value) {
        return Some(owned("Invalid email format"));
    }
    if (str_contains(key, "_KEY") || str_contains(key, "_SECRET")) && !str_eq(key, "OVH_APPLICATION_KEY")
        && !str_eq(key, "OVH_APPLICATION_SECRET") {
        if !crate::config::is_valid_hex(value) {
            return Some(owned("Must be a valid hex string"));
        }
    }
    if str_contains(key, "PORT") {
        if crate::text::parse_u16(&chars_of(value)).is_none() {
            return Some(owned("Must be a valid port number (1-65535)"));
        }
    }
    if str_contains(key, "URL") || str_contains(key, "ENDPOINT") {
        if !str_starts_with(value, "http://") && !str_starts_with(value, "https://") {
            return Some(owned("Must start with http:// or https://"));
        }
    }
    if str_eq(key, "NETWORK") {
        if !str_eq(value, "testnet") && !str_eq(value, "mainnet") {
            return Some(owned("Must be either 'testnet' or 'mainnet'"));
        }
    }
    None
}

/// Some field of an item contains the query once both are in lower case.
pub open spec fn item_matches(fields: Seq<Seq<char>>, query: Seq<char>) -> bool {
    exists|k: int| 0 <= k < fields.len() && crate::text::contains(
        crate::text::lowercase(#[trigger] fields[k]),
        crate::text::lowercase(query),
    )
}

/// The positions of the items that match a query, in order; none for an
/// empty query.
pub open spec fn search_hits(items: Seq<Seq<Seq<char>>>, query: Seq<char>) -> Seq<usize>
    decreases items.len(),
{
    if query.len() == 0 || items.len() == 0 {
        Seq::empty()
    } else {
        let rest = search_hits(items.drop_last(), query);
        if item_matches(items.last(), query) {
            rest.push((items.len() - 1) as usize)
        } else {
            rest
        }
    }
}

/// The search of a list screen: the rows whose fields (a service's name,
/// status and image; a setting's key and value; a wallet's `worker N` and
/// address) contain the query, ignoring case.
pub fn apply_search_filter(items: &Vec<Vec<String>>, query: &str) -> (r: Vec<usize>)
    ensures
        r@ == search_hits(items@.map_values(|f: Vec<String>| crate::text::string_views(f@)), query@),
{
    let ghost all = items@.map_values(|f: Vec<String>| crate::text::string_views(f@));
    let mut out: Vec<usize> = Vec::new();
    if crate::text::chars_of(query).len() == 0 {
        return out;
    }
    let q = crate::text::to_lower(query);
    let mut i: usize = 0;
    while i < items.len()
        invariant
            i <= items@.len(),
            all == items@.map_values(|f: Vec<String>| crate::text::string_views(f@)),
            query@.len() > 0,
            q@ == crate::text::lowercase(query@),
            out@ == search_hits(all.take(i as int), query@),
        decreases items@.len() - i,
    {
        let fields = &items[i];
        let ghost fv = crate::text::string_views(fields@);
        let mut hit = false;
        let mut k: usize = 0;
        while k < fields.len()
            invariant
                k <= fields@.len(),
                fv == crate::text::string_views(fields@),
                q@ == crate::text::lowercase(query@),
                hit == exists|m: int| 0 <= m < k && crate::text::contains(
                    crate::text::lowercase(#[trigger] fv[m]),
                    crate::text::lowercase(query@),
                ),
            decreases fields@.len() - k,
        {
            let lf = crate::text::to_lower(fields[k].as_str());
            if crate::text::str_contains(lf.as_str(), q.as_str()) {
                hit = true;
            }
            proof {
                assert(fv[k as int] == fields@[k as int]@);
            }
            k += 1;
        }
        proof {
            let t = all.take(i + 1);
            assert(t.drop_last() =~= all.take(i as int));
            assert(t.last() == fv);
            assert(hit == item_matches(fv, query@));
        }
        if hit {
            out.push(i);
        }
        i += 1;
    }
    proof {
        assert(all.take(items@.len() as int) =~= all);
    }
    out
}

/// No editor, search, dialog or detail view is open.
pub open spec fn in_main_view(s: NavView) -> bool {
    !s.edit_mode && !s.tx_search_mode && !s.search_mode && !s.show_send_dialog && !s.detail_service_open
        && !s.detail_wallet_open
}

/// In the main view, `Tab` then `BackTab` comes back to the same screen
/// (with its first row selected), and `BackTab` then `Tab` too.
pub proof fn law_tab_then_backtab(s: NavView)
    requires
        in_main_view(s),
    ensures
        key_step(key_step(s, Key::Tab).0, Key::BackTab).0.screen == s.screen,
        key_step(key_step(s, Key::Tab).0, Key::BackTab).0.selected_index == 0,
        key_step(key_step(s, Key::BackTab).0, Key::Tab).0.screen == s.screen,
{
}

/// Seven presses of `Tab` visit every screen and come back to the first.
pub proof fn law_tabs_cycle(s: Screen)
    ensures
        screen_at(screen_index(s) + 7) == s,
        forall|k: int| 0 <= k < 7 ==> #[trigger] screen_index(screen_at(screen_index(s) + k)) == (screen_index(s) + k) % 7,
{
}

/// In the main view, `?` opens the help and a second `?` closes it again.
pub proof fn law_help_toggles(s: NavView)
    requires
        in_main_view(s),
    ensures
        key_step(s, Key::Char('?')).0.show_help == !s.show_help,
        key_step(key_step(s, Key::Char('?')).0, Key::Char('?')).0.show_help == s.show_help,
{
}

/// While an editor, a search, a dialog or a detail view is open, it takes
/// every key and nothing else changes.
pub proof fn law_open_view_takes_keys(s: NavView, key: Key)
    requires
        !in_main_view(s),
    ensures
        key_step(s, key).0 == s,
{
}

/// A setting that the dashboard lets the user edit: none whose key names a
/// password, secret, key or token.
pub open spec fn editable_key(key: Seq<char>) -> bool {
    !(crate::text::contains(key, "PASSWORD"@) || crate::text::contains(key, "SECRET"@)
        || crate::text::contains(key, "KEY"@) || crate::text::contains(key, "TOKEN"@))
}

/// Whether the dashboard may edit the setting `key` in place.
pub fn is_editable_config_key(key: &str) -> (r: bool)
    ensures
        r == editable_key(key@),
{
    !(str_contains(key, "PASSWORD") || str_contains(key, "SECRET") || str_contains(key, "KEY")
        || str_contains(key, "TOKEN"))
}
// ---------------------------------------------------------------------------
// Typing: the value editor, the searches and the send dialog
// ---------------------------------------------------------------------------

/// A line of text after a key: a character is appended, `Backspace` takes
/// the last one away, other keys leave it.
pub open spec fn typed(text: Seq<char>, key: Key) -> Seq<char> {
    match key {
        Key::Char(c) => text.push(c),
        Key::Backspace => if text.len() > 0 {
            text.drop_last()
        } else {
            text
        },
        _ => text,
    }
}

/// Typing a character and then `Backspace` gives the text back.
pub proof fn law_type_then_erase(text: Seq<char>, c: char)
    ensures
        typed(typed(text, Key::Char(c)), Key::Backspace) == text,
{
    assert(text.push(c).drop_last() =~= text);
}

/// `String::pop`, the character itself dropped.
fn drop_last_char(text: &mut String)
    ensures
        final(text)@ == if old(text)@.len() > 0 {
            old(text)@.drop_last()
        } else {
            old(text)@
        },
{
    let v = chars_of(text.as_str());
    if v.len() > 0 {
        let w = slice_chars(&v, 0, v.len() - 1);
        *text = string_of(&w);
    }
}

/// Applies a typing key to a line of text.
fn type_key(text: &mut String, key: Key)
    ensures
        final(text)@ == typed(old(text)@, key),
{
    match key {
        Key::Char(c) => push_char(text, c),
        Key::Backspace => drop_last_char(text),
        _ => {},
    }
}

/// What a key asks of the value editor.
#[derive(Debug, Clone, Copy, PartialEq, Eq, Structural)]
pub enum EditOutcome {
    /// The value changed or stayed; keep editing.
    Typing,
    /// Validate and save the value.
    Save,
    /// The editor closed without saving.
    Cancelled,
}

/// What a key asks of the send dialog.
#[derive(Debug, Clone, Copy, PartialEq, Eq, Structural)]
pub enum SendOutcome {
    Typing,
    /// Send the transaction.
    Submit,
    /// The dialog closed.
    Cancelled,
}

/// The fields of the send dialog: the amount, the destination address, and
/// which of the two takes the keys (0 for the amount).
#[derive(Debug)]
pub struct SendForm {
    pub amount: String,
    pub address: String,
    pub field: usize,
}

/// A character that the amount field accepts: an ASCII digit or a point.
pub open spec fn amount_char(c: char) -> bool {
    ('0' <= c && c <= '9') || c == '.'
}

/// The search's status line while typing.
pub open spec fn search_prompt(text: Seq<char>) -> Seq<char> {
    "Search: "@ + text + " (Enter to apply, Esc to cancel)"@
}

/// The status line after a search of `text` found `count` rows; `what` names
/// them.
pub open spec fn found_message(count: nat, what: Seq<char>, text: Seq<char>) -> Seq<char> {
    "Found "@ + decimal(count) + what + " for '"@ + text + "'"@
}

/// The searchable rows as text.
pub open spec fn rows_view(items: Seq<Vec<String>>) -> Seq<Seq<Seq<char>>> {
    items.map_values(|f: Vec<String>| crate::text::string_views(f@))
}

/// The list search after a key, with the state, the text and the hits.
pub open spec fn search_step(s: NavView, text: Seq<char>, hits: Seq<usize>, rows: Seq<Seq<Seq<char>>>, key: Key) -> (
    NavView,
    Seq<char>,
    Seq<usize>,
) {
    match key {
        Key::Char(_) | Key::Backspace => {
            let t = typed(text, key);
            (NavView { status_message: Some(search_prompt(t)), ..s }, t, search_hits(rows, t))
        },
        Key::Enter => {
            let h = search_hits(rows, text);
            if text.len() == 0 {
                (NavView { search_mode: false, status_message: Some("Search cleared"@), ..s }, text, h)
            } else {
                (
                    NavView {
                        search_mode: false,
                        status_message: Some(found_message(h.len(), " matches"@, text)),
                        selected_index: if h.len() > 0 {
                            h[0]
                        } else {
                            s.selected_index
                        },
                        ..s
                    },
                    text,
                    h,
                )
            }
        },
        Key::Esc => (
            NavView { search_mode: false, status_message: Some("Search cancelled"@), ..s },
            Seq::empty(),
            Seq::empty(),
        ),
        _ => (s, text, hits),
    }
}

/// The transaction search after a key, with the state, the text and the
/// hits; the flag says to scroll back to the first transaction.
pub open spec fn tx_search_step(s: NavView, text: Seq<char>, hits: Seq<usize>, rows: Seq<Seq<Seq<char>>>, key: Key) -> (
    NavView,
    Seq<char>,
    Seq<usize>,
    bool,
) {
    match key {
        Key::Char(_) | Key::Backspace => {
            let t = typed(text, key);
            let h = search_hits(rows, t);
            (NavView { status_message: Some(search_prompt(t)), filtered_tx_len: h.len() as usize, ..s }, t, h, false)
        },
        Key::Enter => {
            let h = search_hits(rows, text);
            let s1 = NavView { tx_search_mode: false, filtered_tx_len: h.len() as usize, ..s };
            if text.len() == 0 {
                (NavView { status_message: Some("Search cleared"@), ..s1 }, text, h, false)
            } else {
                (
                    NavView {
                        status_message: Some(found_message(h.len(), " matching transactions"@, text)),
                        ..s1
                    },
                    text,
                    h,
                    h.len() > 0,
                )
            }
        },
        Key::Esc => (
            NavView {
                tx_search_mode: false,
                filtered_tx_len: 0,
                status_message: Some("Search cancelled"@),
                ..s
            },
            Seq::empty(),
            Seq::empty(),
            false,
        ),
        _ => (s, text, hits, false),
    }
}

/// The send dialog's amount, address and field after a key.
pub open spec fn form_step(amount: Seq<char>, address: Seq<char>, field: usize, key: Key) -> (Seq<char>, Seq<char>, usize) {
    match key {
        Key::Char(c) => if field == 0 {
            (if amount_char(c) {
                amount.push(c)
            } else {
                amount
            }, address, field)
        } else {
            (amount, address.push(c), field)
        },
        Key::Backspace => if field == 0 {
            (typed(amount, key), address, field)
        } else {
            (amount, typed(address, key), field)
        },
        Key::Tab => (amount, address, if field == 0 {
            1
        } else {
            0
        }),
        Key::Esc => (Seq::empty(), Seq::empty(), field),
        _ => (amount, address, field),
    }
}

/// The status line that opens the send dialog.
pub open spec fn send_prompt() -> Seq<char> {
    "Enter transaction details (Tab to switch fields, Enter to send, Esc to cancel)"@
}

/// The state with a new status line.
pub open spec fn with_status(s: NavView, msg: Seq<char>) -> NavView {
    NavView { status_message: Some(msg), ..s }
}

/// The state once the editor opened on the setting `key`.
pub open spec fn edit_opened(s: NavView, key: Seq<char>) -> NavView {
    NavView {
        edit_mode: true,
        status_message: Some("Editing "@ + key + " - [Enter] Save | [Esc] Cancel"@),
        ..s
    }
}

/// Why a sensitive setting is not edited in place.
pub open spec fn edit_refused_message() -> Seq<char> {
    "Cannot edit sensitive fields directly. Edit .env file manually."@
}

/// The state once the editor closed without saving.
pub open spec fn edit_closed(s: NavView) -> NavView {
    NavView { edit_mode: false, status_message: Some("Edit cancelled"@), ..s }
}

/// Why the send dialog does not open for a wallet: its container is down,
/// or it has no address yet.
pub open spec fn send_refusal(worker_id: nat, container_running: bool) -> Seq<char> {
    if !container_running {
        "✗ Wallet "@ + decimal(worker_id) + " container not running"@
    } else {
        "✗ Wallet "@ + decimal(worker_id) + " not generated yet"@
    }
}

/// The state once the send dialog opened.
pub open spec fn send_opened(s: NavView) -> NavView {
    NavView { show_send_dialog: true, status_message: Some(send_prompt()), ..s }
}

/// The state once the send dialog closed without sending.
pub open spec fn send_closed(s: NavView) -> NavView {
    NavView { show_send_dialog: false, status_message: Some("Transaction cancelled"@), ..s }
}

impl NavState {
    /// Opens the editor on the setting `key`, holding `value`, unless the
    /// key names a password, secret, key or token. Says whether it opened.
    pub fn enter_edit_mode(&mut self, buffer: &mut String, key: &str, value: &str) -> (r: bool)
        ensures
            r == editable_key(key@),
            r ==> final(self)@ == edit_opened(old(self)@, key@) && final(buffer)@ == value@,
            !r ==> final(self)@ == with_status(old(self)@, edit_refused_message()) && final(buffer)@ == old(buffer)@,
    {
        if !is_editable_config_key(key) {
            self.status_message = Some(owned("Cannot edit sensitive fields directly. Edit .env file manually."));
            return false;
        }
        self.edit_mode = true;
        *buffer = owned(value);
        self.status_message = Some(concat3("Editing ", key, " - [Enter] Save | [Esc] Cancel"));
        true
    }

    /// A key in the value editor: typing changes the value, `Enter` asks to
    /// save it, `Esc` closes the editor and forgets the value.
    pub fn handle_edit_key(&mut self, buffer: &mut String, key: Key) -> (r: EditOutcome)
        ensures
            match key {
                Key::Enter => r == EditOutcome::Save && final(self)@ == old(self)@ && final(buffer)@ == old(buffer)@,
                Key::Esc => r == EditOutcome::Cancelled && final(self)@ == edit_closed(old(self)@)
                    && final(buffer)@ == Seq::<char>::empty(),
                _ => r == EditOutcome::Typing && final(self)@ == old(self)@ && final(buffer)@ == typed(
                    old(buffer)@,
                    key,
                ),
            },
    {
        match key {
            Key::Enter => EditOutcome::Save,
            Key::Esc => {
                self.edit_mode = false;
                *buffer = String::new();
                self.status_message = Some(owned("Edit cancelled"));
                EditOutcome::Cancelled
            },
            _ => {
                type_key(buffer, key);
                EditOutcome::Typing
            },
        }
    }

    /// A key in the list search; `items` holds the searchable fields of the
    /// screen's rows (see `apply_search_filter`).
    pub fn handle_search_key(&mut self, text: &mut String, hits: &mut Vec<usize>, items: &Vec<Vec<String>>, key: Key)
        ensures
            (final(self)@, final(text)@, final(hits)@) == search_step(
                old(self)@,
                old(text)@,
                old(hits)@,
                rows_view(items@),
                key,
            ),
    {
        match key {
            Key::Char(_) | Key::Backspace => {
                type_key(text, key);
                *hits = apply_search_filter(items, text.as_str());
                self.status_message = Some(concat3("Search: ", text.as_str(), " (Enter to apply, Esc to cancel)"));
            },
            Key::Enter => {
                *hits = apply_search_filter(items, text.as_str());
                self.search_mode = false;
                if chars_of(text.as_str()).len() == 0 {
                    self.status_message = Some(owned("Search cleared"));
                } else {
                    self.status_message = Some(found_line(hits.len(), " matches", text.as_str()));
                    if hits.len() > 0 {
                        self.selected_index = hits[0];
                    }
                }
            },
            Key::Esc => {
                self.search_mode = false;
                *text = String::new();
                *hits = Vec::new();
                self.status_message = Some(owned("Search cancelled"));
            },
            _ => {},
        }
    }

    /// A key in the transaction search; `items` holds each transaction's id,
    /// address and amount as shown. The result says to scroll back to the
    /// first transaction.
    #[verifier::rlimit(40)]
    pub fn handle_tx_search_key(&mut self, text: &mut String, hits: &mut Vec<usize>, items: &Vec<Vec<String>>, key: Key) -> (r: bool)
        ensures
            (final(self)@, final(text)@, final(hits)@, r) == tx_search_step(
                old(self)@,
                old(text)@,
                old(hits)@,
                rows_view(items@),
                key,
            ),
    {
        match key {
            Key::Char(_) | Key::Backspace => {
                type_key(text, key);
                *hits = apply_search_filter(items, text.as_str());
                self.filtered_tx_len = hits.len();
                self.status_message = Some(concat3("Search: ", text.as_str(), " (Enter to apply, Esc to cancel)"));
                false
            },
            Key::Enter => {
                *hits = apply_search_filter(items, text.as_str());
                self.filtered_tx_len = hits.len();
                self.tx_search_mode = false;
                if chars_of(text.as_str()).len() == 0 {
                    self.status_message = Some(owned("Search cleared"));
                    false
                } else {
                    self.status_message = Some(found_line(hits.len(), " matching transactions", text.as_str()));
                    hits.len() > 0
                }
            },
            Key::Esc => {
                self.tx_search_mode = false;
                self.filtered_tx_len = 0;
                *text = String::new();
                *hits = Vec::new();
                self.status_message = Some(owned("Search cancelled"));
                false
            },
            _ => false,
        }
    }

    /// Opens the send dialog for the selected wallet (its worker number,
    /// whether its container runs, whether it has an address), or says why
    /// not. Says whether it opened.
    pub fn open_send_dialog(&mut self, form: &mut SendForm, worker_id: usize, container_running: bool, has_address: bool) -> (r: bool)
        ensures
            r == (container_running && has_address),
            !r ==> final(self)@ == with_status(old(self)@, send_refusal(worker_id as nat, container_running)),
            !r ==> final(form).amount@ == old(form).amount@ && final(form).address@ == old(form).address@
                && final(form).field == old(form).field,
            r ==> final(self)@ == send_opened(old(self)@) && final(form).amount@ == Seq::<char>::empty()
                && final(form).address@ == Seq::<char>::empty() && final(form).field == 0,
    {
        if !container_running {
            let n = u64_to_string(worker_id as u64);
            self.status_message = Some(concat3("✗ Wallet ", n.as_str(), " container not running"));
            return false;
        }
        if !has_address {
            let n = u64_to_string(worker_id as u64);
            self.status_message = Some(concat3("✗ Wallet ", n.as_str(), " not generated yet"));
            return false;
        }
        self.show_send_dialog = true;
        form.amount = String::new();
        form.address = String::new();
        form.field = 0;
        self.status_message = Some(
            owned("Enter transaction details (Tab to switch fields, Enter to send, Esc to cancel)"),
        );
        true
    }

    /// A key in the send dialog: the amount takes digits and points only,
    /// `Tab` switches fields, `Enter` asks to send, `Esc` closes the dialog
    /// and clears both fields.
    pub fn handle_send_dialog_key(&mut self, form: &mut SendForm, key: Key) -> (r: SendOutcome)
        ensures
            (final(form).amount@, final(form).address@, final(form).field) == form_step(
                old(form).amount@,
                old(form).address@,
                old(form).field,
                key,
            ),
            r == match key {
                Key::Enter => SendOutcome::Submit,
                Key::Esc => SendOutcome::Cancelled,
                _ => SendOutcome::Typing,
            },
            final(self)@ == match key {
                Key::Esc => send_closed(old(self)@),
                _ => old(self)@,
            },
    {
        match key {
            Key::Char(c) => {
                if form.field == 0 {
                    if ('0' <= c && c <= '9') || c == '.' {
                        push_char(&mut form.amount, c);
                    }
                } else {
                    push_char(&mut form.address, c);
                }
                SendOutcome::Typing
            },
            Key::Backspace => {
                if form.field == 0 {
                    drop_last_char(&mut form.amount);
                } else {
                    drop_last_char(&mut form.address);
                }
                SendOutcome::Typing
            },
            Key::Tab => {
                form.field = if form.field == 0 {
                    1
                } else {
                    0
                };
                SendOutcome::Typing
            },
            Key::Enter => SendOutcome::Submit,
            Key::Esc => {
                self.show_send_dialog = false;
                form.amount = String::new();
                form.address = String::new();
                self.status_message = Some(owned("Transaction cancelled"));
                SendOutcome::Cancelled
            },
            _ => SendOutcome::Typing,
        }
    }
}

/// The status line after a search: `Found <count><what> for '<text>'`.
fn found_line(count: usize, what: &str, text: &str) -> (r: String)
    ensures
        r@ == found_message(count as nat, what@, text@),
{
    let mut v: Vec<char> = Vec::new();
    push_str(&mut v, "Found ");
    let n = u64_to_string(count as u64);
    push_str(&mut v, n.as_str());
    push_str(&mut v, what);
    push_str(&mut v, " for '");
    push_str(&mut v, text);
    push_str(&mut v, "'");
    proof {
        assert(v@ =~= "Found "@ + decimal(count as nat) + what@ + " for '"@ + text@ + "'"@);
    }
    string_of(&v)
}

/// The first check before sending: an amount and an address are both given.
pub fn missing_send_field(form: &SendForm) -> (r: Option<&'static str>)
    ensures
        match r {
            Some(m) => (form.amount@.len() == 0 && m@ == "✗ Amount is required"@) || (form.amount@.len() > 0
                && form.address@.len() == 0 && m@ == "✗ Destination address is required"@),
            None => form.amount@.len() > 0 && form.address@.len() > 0,
        },
{
    if chars_of(form.amount.as_str()).len() == 0 {
        return Some("✗ Amount is required");
    }
    if chars_of(form.address.as_str()).len() == 0 {
        return Some("✗ Destination address is required");
    }
    None
}

} // verus!
