use igra_cli::tui::{
    apply_search_filter, get_profile_name, missing_send_field, validate_config_value, DetailAction,
    EditOutcome, Key, KeyAction, LogFilter, NavState, Screen, SendForm, SendOutcome,
};

fn state() -> NavState {
    NavState {
        screen: Screen::Services,
        selected_index: 0,
        should_quit: false,
        show_help: false,
        status_message: Some("old".to_string()),
        edit_mode: false,
        tx_search_mode: false,
        search_mode: false,
        show_send_dialog: false,
        detail_service_open: false,
        detail_wallet_open: false,
        logs_service: None,
        logs_follow: false,
        logs_filter: None,
        logs_scroll: 0,
        logs_len: 0,
        containers_len: 3,
        wallets_len: 0,
        config_len: 0,
        wallet_tx_len: 0,
        filtered_tx_len: 0,
        selected_tx: None,
        show_tx_detail: false,
    }
}

#[test]
fn screens_titles_and_order() {
    assert_eq!(Screen::all().len(), 7);
    assert_eq!(Screen::all()[3], Screen::RpcTokens);
    assert_eq!(Screen::RpcTokens.title(), "RPC Tokens");
    assert_eq!(Screen::Ssl.title(), "SSL Certificates");
    assert_eq!(Screen::Logs.next(), Screen::Services);
    assert_eq!(Screen::Services.prev(), Screen::Logs);
}

#[test]
fn tab_cycles_and_clears_status() {
    let mut s = state();
    s.selected_index = 2;
    assert_eq!(s.handle_key(Key::Tab), KeyAction::UpdateDashboard);
    assert_eq!(s.screen, Screen::Profiles);
    assert_eq!(s.selected_index, 0);
    assert_eq!(s.status_message, None);
    s.handle_key(Key::BackTab);
    assert_eq!(s.screen, Screen::Services);
    s.handle_key(Key::Char('7'));
    assert_eq!(s.screen, Screen::Logs);
}

#[test]
fn selection_stays_in_range() {
    let mut s = state();
    s.handle_key(Key::Down);
    s.handle_key(Key::Char('j'));
    s.handle_key(Key::Down);
    assert_eq!(s.selected_index, 2);
    s.handle_key(Key::Up);
    assert_eq!(s.selected_index, 1);
    s.screen = Screen::Profiles;
    for _ in 0..10 {
        s.handle_key(Key::Down);
    }
    assert_eq!(s.selected_index, 6);
}

#[test]
fn log_viewer_keys() {
    let mut s = state();
    s.screen = Screen::Logs;
    s.logs_service = Some("kaspad".to_string());
    s.logs_len = 35;
    assert_eq!(s.handle_key(Key::Char('r')), KeyAction::RefreshLogs("kaspad".to_string()));
    assert_eq!(s.status_message, Some("Refreshing logs for kaspad...".to_string()));
    s.handle_key(Key::PageDown);
    assert_eq!(s.logs_scroll, 20);
    s.handle_key(Key::PageDown);
    assert_eq!(s.logs_scroll, 25);
    s.handle_key(Key::Char('w'));
    assert_eq!(s.logs_filter, Some(LogFilter::Warn));
    assert_eq!(s.logs_scroll, 0);
    s.handle_key(Key::Char('f'));
    assert!(s.logs_follow);
    assert_eq!(s.status_message, Some("Follow mode enabled - logs will auto-refresh".to_string()));
    assert_eq!(s.handle_key(Key::Esc), KeyAction::ClearLogs);
    assert_eq!(s.logs_service, None);
    assert!(!s.should_quit);
    s.handle_key(Key::Esc);
    assert!(s.should_quit);
}

#[test]
fn modes_take_keys_first() {
    let mut s = state();
    s.search_mode = true;
    assert_eq!(s.handle_key(Key::Char('q')), KeyAction::SearchKey);
    assert!(!s.should_quit);
    assert_eq!(s.status_message, Some("old".to_string()));

    let mut s = state();
    assert_eq!(s.handle_key(Key::Char('/')), KeyAction::BeginSearch);
    assert!(s.search_mode);
    let mut s = state();
    s.screen = Screen::Ssl;
    assert_eq!(s.handle_key(Key::Char('c')), KeyAction::SslCheck);
    assert_eq!(s.handle_key(Key::Char('?')), KeyAction::Nothing);
    assert!(s.show_help);
    s.handle_key(Key::Esc);
    assert!(!s.show_help);
    assert_eq!(s.handle_key(Key::Enter), KeyAction::Activate);
}

#[test]
fn detail_view_keys() {
    let mut s = state();
    s.detail_wallet_open = true;
    s.wallet_tx_len = 3;
    assert_eq!(s.handle_detail_view_key(Key::Enter), DetailAction::Nothing);
    assert!(s.show_tx_detail);
    assert_eq!(s.selected_tx, Some(0));
    assert_eq!(s.handle_detail_view_key(Key::Esc), DetailAction::Nothing);
    assert!(!s.show_tx_detail);
    assert!(s.detail_wallet_open);
    assert_eq!(s.handle_detail_view_key(Key::Char('q')), DetailAction::Close);
    assert!(!s.detail_wallet_open);
    assert_eq!(s.selected_tx, None);
    let mut d = state();
    d.detail_service_open = true;
    assert_eq!(d.handle_detail_view_key(Key::Char('s')), DetailAction::StartService);
    assert_eq!(d.handle_detail_view_key(Key::Char('x')), DetailAction::StopService);
    assert_eq!(d.handle_detail_view_key(Key::Char('R')), DetailAction::RestartService);
    assert_eq!(d.handle_detail_view_key(Key::Char('r')), DetailAction::RefreshLogs);
    assert_eq!(d.handle_detail_view_key(Key::Enter), DetailAction::Nothing);
    assert!(!d.show_tx_detail);
}

#[test]
fn profile_rows() {
    assert_eq!(get_profile_name(0).as_deref(), Some("kaspad"));
    assert_eq!(get_profile_name(6).as_deref(), Some("frontend-w5"));
    assert_eq!(get_profile_name(7), None);
}

#[test]
fn config_values_validated() {
    assert_eq!(validate_config_value("X", "   ").as_deref(), Some("Value cannot be empty"));
    assert_eq!(validate_config_value("RPC_PORT", "80a").as_deref(), Some("Must be a valid port number (1-65535)"));
    assert_eq!(validate_config_value("RPC_PORT", "8545"), None);
    assert_eq!(validate_config_value("RPC_PORT", "+80"), None);
    assert_eq!(validate_config_value("L1_URL", "ws://x").as_deref(), Some("Must start with http:// or https://"));
    assert_eq!(validate_config_value("L1_ENDPOINT", "https://x"), None);
    assert_eq!(validate_config_value("NETWORK", "devnet").as_deref(), Some("Must be either 'testnet' or 'mainnet'"));
    assert_eq!(validate_config_value("NETWORK", "mainnet"), None);
    assert_eq!(validate_config_value("NODE_SECRET", "xyz").as_deref(), Some("Must be a valid hex string"));
    assert_eq!(validate_config_value("NODE_SECRET", "deadbeef"), None);
    assert_eq!(validate_config_value("OVH_APPLICATION_SECRET", "xyz"), None);
}

#[test]
fn search_filter_ignores_case() {
    let rows = vec![
        vec!["kaspad".to_string(), "Up 2 hours".to_string(), "kaspanet/rusty-kaspad".to_string()],
        vec!["viaduct".to_string(), "Exited".to_string(), "igranetwork/viaduct".to_string()],
        vec!["Worker 1".to_string(), "kaspatest:qq".to_string()],
    ];
    assert_eq!(apply_search_filter(&rows, "KASPA"), vec![0, 2]);
    assert_eq!(apply_search_filter(&rows, "exited"), vec![1]);
    assert_eq!(apply_search_filter(&rows, "worker 1"), vec![2]);
    assert!(apply_search_filter(&rows, "").is_empty());
}

fn row(fields: &[&str]) -> Vec<String> {
    fields.iter().map(|f| f.to_string()).collect()
}

#[test]
fn value_editor_types_saves_and_cancels() {
    let mut s = state();
    let mut buffer = String::new();
    assert!(!s.enter_edit_mode(&mut buffer, "RPC_TOKEN_1", "abc"));
    assert_eq!(s.status_message.as_deref(), Some("Cannot edit sensitive fields directly. Edit .env file manually."));
    assert!(!s.edit_mode);
    assert!(s.enter_edit_mode(&mut buffer, "IGRA_DOMAIN", "a.io"));
    assert!(s.edit_mode);
    assert_eq!(buffer, "a.io");
    assert_eq!(s.status_message.as_deref(), Some("Editing IGRA_DOMAIN - [Enter] Save | [Esc] Cancel"));
    assert_eq!(s.handle_edit_key(&mut buffer, Key::Backspace), EditOutcome::Typing);
    assert_eq!(s.handle_edit_key(&mut buffer, Key::Char('x')), EditOutcome::Typing);
    assert_eq!(buffer, "a.ix");
    assert_eq!(s.handle_edit_key(&mut buffer, Key::Up), EditOutcome::Typing);
    assert_eq!(buffer, "a.ix");
    assert_eq!(s.handle_edit_key(&mut buffer, Key::Enter), EditOutcome::Save);
    assert!(s.edit_mode);
    assert_eq!(s.handle_edit_key(&mut buffer, Key::Esc), EditOutcome::Cancelled);
    assert!(!s.edit_mode);
    assert_eq!(buffer, "");
    assert_eq!(s.status_message.as_deref(), Some("Edit cancelled"));
    let mut empty = String::new();
    s.handle_edit_key(&mut empty, Key::Backspace);
    assert_eq!(empty, "");
}

#[test]
fn list_search_filters_while_typing() {
    let mut s = state();
    s.search_mode = true;
    s.selected_index = 0;
    let items = vec![row(&["kaspad", "running"]), row(&["reth", "exited"]), row(&["Kaspa-Miner", "running"])];
    let mut text = String::new();
    let mut hits: Vec<usize> = Vec::new();
    s.handle_search_key(&mut text, &mut hits, &items, Key::Char('K'));
    assert_eq!(hits, vec![0, 2]);
    assert_eq!(s.status_message.as_deref(), Some("Search: K (Enter to apply, Esc to cancel)"));
    s.handle_search_key(&mut text, &mut hits, &items, Key::Char('a'));
    s.handle_search_key(&mut text, &mut hits, &items, Key::Char('s'));
    s.handle_search_key(&mut text, &mut hits, &items, Key::Char('p'));
    s.handle_search_key(&mut text, &mut hits, &items, Key::Char('a'));
    s.handle_search_key(&mut text, &mut hits, &items, Key::Char('-'));
    assert_eq!(hits, vec![2]);
    s.handle_search_key(&mut text, &mut hits, &items, Key::Enter);
    assert!(!s.search_mode);
    assert_eq!(s.selected_index, 2);
    assert_eq!(s.status_message.as_deref(), Some("Found 1 matches for 'Kaspa-'"));
    s.search_mode = true;
    s.handle_search_key(&mut text, &mut hits, &items, Key::Esc);
    assert!(!s.search_mode);
    assert_eq!(text, "");
    assert!(hits.is_empty());
    assert_eq!(s.status_message.as_deref(), Some("Search cancelled"));
    s.search_mode = true;
    s.handle_search_key(&mut text, &mut hits, &items, Key::Enter);
    assert_eq!(s.status_message.as_deref(), Some("Search cleared"));
}

#[test]
fn transaction_search_counts_matches() {
    let mut s = state();
    s.tx_search_mode = true;
    let items = vec![row(&["ab12", "kaspa:qq1", "1.50000000"]), row(&["cd34", "kaspa:qq2", "20.00000000"])];
    let mut text = String::new();
    let mut hits: Vec<usize> = Vec::new();
    assert!(!s.handle_tx_search_key(&mut text, &mut hits, &items, Key::Char('2')));
    assert_eq!(hits, vec![0, 1]);
    assert_eq!(s.filtered_tx_len, 2);
    s.handle_tx_search_key(&mut text, &mut hits, &items, Key::Char('0'));
    assert_eq!(hits, vec![1]);
    assert!(s.handle_tx_search_key(&mut text, &mut hits, &items, Key::Enter));
    assert_eq!(s.status_message.as_deref(), Some("Found 1 matching transactions for '20'"));
    assert!(!s.tx_search_mode);
    s.tx_search_mode = true;
    assert!(!s.handle_tx_search_key(&mut text, &mut hits, &items, Key::Esc));
    assert_eq!(s.filtered_tx_len, 0);
    assert_eq!(text, "");
}

#[test]
fn send_dialog_fields() {
    let mut s = state();
    let mut form = SendForm { amount: "9".to_string(), address: "x".to_string(), field: 1 };
    assert!(!s.open_send_dialog(&mut form, 3, false, true));
    assert_eq!(s.status_message.as_deref(), Some("✗ Wallet 3 container not running"));
    assert!(!s.open_send_dialog(&mut form, 12, true, false));
    assert_eq!(s.status_message.as_deref(), Some("✗ Wallet 12 not generated yet"));
    assert_eq!(form.amount, "9");
    assert!(s.open_send_dialog(&mut form, 0, true, true));
    assert!(s.show_send_dialog);
    assert_eq!((form.amount.as_str(), form.address.as_str(), form.field), ("", "", 0));
    assert_eq!(missing_send_field(&form), Some("✗ Amount is required"));
    for c in ['1', 'a', '.', '5'] {
        assert_eq!(s.handle_send_dialog_key(&mut form, Key::Char(c)), SendOutcome::Typing);
    }
    assert_eq!(form.amount, "1.5");
    assert_eq!(missing_send_field(&form), Some("✗ Destination address is required"));
    s.handle_send_dialog_key(&mut form, Key::Tab);
    assert_eq!(form.field, 1);
    s.handle_send_dialog_key(&mut form, Key::Char('k'));
    s.handle_send_dialog_key(&mut form, Key::Char('q'));
    s.handle_send_dialog_key(&mut form, Key::Backspace);
    assert_eq!(form.address, "k");
    assert_eq!(missing_send_field(&form), None);
    assert_eq!(s.handle_send_dialog_key(&mut form, Key::Enter), SendOutcome::Submit);
    assert_eq!(s.handle_send_dialog_key(&mut form, Key::Esc), SendOutcome::Cancelled);
    assert!(!s.show_send_dialog);
    assert_eq!((form.amount.as_str(), form.address.as_str()), ("", ""));
    assert_eq!(s.status_message.as_deref(), Some("Transaction cancelled"));
}
