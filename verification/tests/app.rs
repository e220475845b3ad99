use caddyup::app::{
    bool_label, edit_prompt, empty_fallback, field_display, field_row_label, footer_help,
    wrap_index, App, Field, Mode, FIELD_COUNT, LABEL_WIDTH,
};
use caddyup::caddyfile::CaddyDocument;
use caddyup::model::Site;

fn empty_app() -> App {
    let doc = CaddyDocument::load("/srv/Caddyfile".to_string(), String::new()).unwrap();
    App::new(doc)
}

#[test]
fn new_app_gets_an_example_site() {
    let app = empty_app();
    assert_eq!(app.document.config.sites, vec![Site::default()]);
    assert_eq!(app.selected_site, 0);
    assert_eq!(app.selected_field, 0);
    assert_eq!(app.mode, Mode::Navigate);
    assert_eq!(app.input, "");
    assert_eq!(app.status, "Loaded /srv/Caddyfile");
    assert!(!app.should_quit);
}

#[test]
fn labels_and_field_order() {
    assert_eq!(FIELD_COUNT, 9);
    assert_eq!(Field::at(0), Field::Address);
    assert_eq!(Field::at(3), Field::RateLimitEvents);
    assert_eq!(Field::at(8), Field::TlsInternal);
    assert_eq!(Field::Address.label(), "Server address");
    assert_eq!(Field::Upstream.label(), "Reverse proxy");
    assert_eq!(Field::RateLimitEnabled.label(), "Rate limit");
    assert_eq!(Field::RateLimitEvents.label(), "Events");
    assert_eq!(Field::RateLimitWindow.label(), "Window");
    assert_eq!(Field::RateLimitZone.label(), "Zone");
    assert_eq!(Field::EncodeZstd.label(), "Encode zstd");
    assert_eq!(Field::EncodeGzip.label(), "Encode gzip");
    assert_eq!(Field::TlsInternal.label(), "TLS internal");
}

#[test]
fn wrap_index_wraps_both_ways() {
    assert_eq!(wrap_index(0, 9, -1), 8);
    assert_eq!(wrap_index(8, 9, 1), 0);
    assert_eq!(wrap_index(3, 9, 20), 5);
    assert_eq!(wrap_index(3, 9, -21), 0);
    assert_eq!(wrap_index(wrap_index(4, 7, 12), 7, -12), 4);
}

#[test]
fn moving_selection_wraps_and_comes_back() {
    let mut app = empty_app();
    app.add_site();
    app.add_site();
    assert_eq!(app.selected_site, 2);
    app.move_site(1);
    assert_eq!(app.selected_site, 0);
    app.move_site(-1);
    assert_eq!(app.selected_site, 2);
    app.move_field(-1);
    assert_eq!(app.selected_field, 8);
    app.move_field(1);
    assert_eq!(app.selected_field, 0);
}

#[test]
fn add_then_delete_restores_sites() {
    let mut app = empty_app();
    let before = app.document.config.sites.clone();
    app.add_site();
    assert_eq!(app.status, "Added server");
    assert_eq!(app.document.config.sites.len(), 2);
    app.delete_site();
    assert_eq!(app.status, "Deleted server");
    assert_eq!(app.document.config.sites, before);
    assert_eq!(app.selected_site, 0);
}

#[test]
fn last_site_cannot_be_deleted() {
    let mut app = empty_app();
    app.delete_site();
    assert_eq!(app.document.config.sites.len(), 1);
    assert_eq!(
        app.status,
        "Keep at least one server; edit it or add another first"
    );
}

#[test]
fn toggling_twice_restores_site() {
    let mut app = empty_app();
    app.selected_field = 8;
    app.begin_edit();
    assert!(app.document.config.sites[0].tls_internal);
    assert_eq!(app.status, "Toggled TLS internal");
    assert_eq!(app.mode, Mode::Navigate);
    app.begin_edit();
    assert_eq!(app.document.config.sites[0], Site::default());
}

#[test]
fn editing_text_field_commits_trimmed_value() {
    let mut app = empty_app();
    app.begin_edit();
    assert_eq!(app.mode, Mode::Edit);
    assert_eq!(app.input, "example.com");
    assert_eq!(app.status, "Editing Server address");
    app.input = "  api.example.com  ".to_string();
    app.commit_edit();
    assert_eq!(app.document.config.sites[0].address, "api.example.com");
    assert_eq!(app.mode, Mode::Navigate);
    assert_eq!(app.input, "");
    assert_eq!(app.status, "Updated Server address");
}

#[test]
fn blank_text_falls_back_to_default() {
    let mut app = empty_app();
    app.selected_field = 1;
    app.document.config.sites[0].upstream = "10.0.0.1:80".to_string();
    app.begin_edit();
    app.input = "   ".to_string();
    app.commit_edit();
    assert_eq!(app.document.config.sites[0].upstream, "127.0.0.1:3000");
}

#[test]
fn events_accept_numbers_only() {
    let mut app = empty_app();
    app.selected_field = 3;
    app.begin_edit();
    assert_eq!(app.input, "100");
    app.input = " 250 ".to_string();
    app.commit_edit();
    assert_eq!(app.document.config.sites[0].rate_limit_events, 250);
    app.begin_edit();
    app.input = "lots".to_string();
    app.commit_edit();
    assert_eq!(app.document.config.sites[0].rate_limit_events, 250);
    app.begin_edit();
    app.input = "4294967296".to_string();
    app.commit_edit();
    assert_eq!(app.document.config.sites[0].rate_limit_events, 250);
}

#[test]
fn cancel_leaves_site_unchanged() {
    let mut app = empty_app();
    app.selected_field = 4;
    app.begin_edit();
    app.input = "5m".to_string();
    app.cancel_edit();
    assert_eq!(app.mode, Mode::Navigate);
    assert_eq!(app.input, "");
    assert_eq!(app.status, "Edit cancelled");
    assert_eq!(app.document.config.sites[0].rate_limit_window, "1m");
}

#[test]
fn commit_without_selected_site_does_nothing() {
    let mut app = empty_app();
    app.selected_site = 5;
    app.mode = Mode::Edit;
    app.input = "x".to_string();
    app.commit_edit();
    assert_eq!(app.mode, Mode::Edit);
    assert_eq!(app.input, "x");
    assert!(app.current_site().is_none());
    app.begin_edit();
    assert_eq!(app.input, "");
    assert_eq!(app.mode, Mode::Edit);
}

#[test]
fn save_reports_outcome() {
    let mut app = empty_app();
    app.save(Ok(()));
    assert_eq!(app.status, "Saved /srv/Caddyfile");
    app.save(Err("disk full".to_string()));
    assert_eq!(app.status, "Save failed: disk full");
}

#[test]
fn field_display_and_helpers() {
    let site = Site::default();
    assert_eq!(field_display(&site, Field::Address), "example.com");
    assert_eq!(field_display(&site, Field::RateLimitEvents), "100");
    assert_eq!(field_display(&site, Field::EncodeZstd), "on");
    assert_eq!(field_display(&site, Field::TlsInternal), "off");
    assert_eq!(bool_label(true), "on");
    assert_eq!(bool_label(false), "off");
    assert_eq!(empty_fallback(" \t".to_string(), "dynamic"), "dynamic");
    assert_eq!(empty_fallback("zone".to_string(), "dynamic"), "zone");
}

#[test]
fn typing_and_deleting_input() {
    let mut app = empty_app();
    app.push_input('a');
    app.push_input('é');
    assert_eq!(app.input, "aé");
    app.pop_input();
    assert_eq!(app.input, "a");
    app.pop_input();
    app.pop_input();
    assert_eq!(app.input, "");
}

#[test]
fn edit_without_change_keeps_site() {
    let mut app = empty_app();
    app.document.config.sites[0].rate_limit_events = 4242;
    let before = app.document.config.sites[0].clone();
    for field in [0usize, 1, 3, 4, 5] {
        app.selected_field = field;
        app.begin_edit();
        assert_eq!(app.mode, Mode::Edit);
        app.commit_edit();
        assert_eq!(app.document.config.sites[0], before);
    }
}

fn holds_invariant(app: &App) -> bool {
    !app.document.config.sites.is_empty()
        && app.selected_site < app.document.config.sites.len()
        && app.selected_field < FIELD_COUNT
        && app.current_site() == Some(&app.document.config.sites[app.selected_site])
}

#[test]
fn every_operation_keeps_a_selected_site() {
    let mut app = empty_app();
    assert!(holds_invariant(&app));
    app.add_site();
    assert!(holds_invariant(&app));
    app.move_site(-3);
    assert!(holds_invariant(&app));
    app.move_field(-1);
    assert_eq!(app.selected_field, 8);
    app.delete_site();
    assert!(holds_invariant(&app));
    app.delete_site();
    assert!(holds_invariant(&app));
    assert_eq!(app.document.config.sites.len(), 1);
    app.move_field(4);
    app.begin_edit();
    app.push_input('9');
    app.pop_input();
    app.commit_edit();
    assert!(holds_invariant(&app));
    app.begin_edit();
    app.cancel_edit();
    app.save(Ok(()));
    assert!(holds_invariant(&app));
}

#[test]
fn row_titles_are_padded_to_the_name_column() {
    assert_eq!(LABEL_WIDTH, 18);
    assert_eq!(field_row_label(Field::Address), "Server address    ");
    assert_eq!(field_row_label(Field::RateLimitZone), "Zone              ");
    for i in 0..FIELD_COUNT {
        let field = Field::at(i);
        assert_eq!(field_row_label(field), format!("{:<18}", field.label()));
    }
}

#[test]
fn footer_and_prompt_texts() {
    assert_eq!(
        footer_help(Mode::Navigate),
        "arrows/hjkl move  enter edit/toggle  a add  d delete  s save  q quit"
    );
    assert_eq!(footer_help(Mode::Edit), "enter apply  esc cancel");
    assert_eq!(edit_prompt(Field::RateLimitWindow), "Window:");
}
