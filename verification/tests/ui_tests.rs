use seer::monitor::processes::ProcessGroupBy;
use seer::ui::advanced_monitoring::{AdvancedMonitoringView, AdvancedTab};
use seer::ui::{process_listed_by, AppView, ColorTheme, SortBy, UiState};

#[test]
fn advanced_view_starts_on_database() {
    let v = AdvancedMonitoringView::new();
    assert_eq!(v.current_tab, AdvancedTab::Database);
    assert_eq!((v.database_scroll, v.apm_scroll, v.iot_scroll, v.backup_scroll), (0, 0, 0, 0));
}

#[test]
fn advanced_tabs_cycle_both_ways() {
    let mut v = AdvancedMonitoringView::new();
    v.next_tab();
    assert_eq!(v.current_tab, AdvancedTab::APM);
    v.previous_tab();
    assert_eq!(v.current_tab, AdvancedTab::Database);
    v.previous_tab();
    assert_eq!(v.current_tab, AdvancedTab::Backup);
    for _ in 0..4 {
        v.next_tab();
    }
    assert_eq!(v.current_tab, AdvancedTab::Backup);
    assert_eq!(v.current_tab.index(), 3);
}

#[test]
fn ui_state_starts_on_dashboard() {
    let s = UiState::new(true);
    assert_eq!(s.current_view, AppView::Dashboard);
    assert_eq!(s.sort_by, SortBy::Cpu);
    assert_eq!(s.group_by, ProcessGroupBy::NoGrouping);
    assert!(s.show_zombies_highlighted);
    assert_eq!(s.theme, ColorTheme::Default);
    assert!(s.search_query.is_empty());
}

#[test]
fn view_toggles_return_to_dashboard() {
    let mut s = UiState::new(false);
    s.toggle_network_view();
    assert_eq!(s.current_view, AppView::NetworkView);
    s.toggle_disk_view();
    assert_eq!(s.current_view, AppView::DiskView);
    s.toggle_disk_view();
    assert_eq!(s.current_view, AppView::Dashboard);
    s.toggle_process_view();
    assert_eq!(s.current_view, AppView::ProcessList);
    s.toggle_process_view();
    assert_eq!(s.current_view, AppView::Dashboard);
    s.toggle_history_view();
    s.toggle_process_view();
    assert_eq!(s.current_view, AppView::Dashboard);
}

#[test]
fn process_details_need_a_selection() {
    let mut s = UiState::new(false);
    s.toggle_process_details(None);
    assert_eq!(s.current_view, AppView::Dashboard);
    assert_eq!(s.selected_process_pid, None);
    s.toggle_process_details(Some(42));
    assert_eq!(s.current_view, AppView::ProcessDetails);
    assert_eq!(s.selected_process_pid, Some(42));
    s.toggle_process_affinity(Some(7));
    assert_eq!(s.current_view, AppView::ProcessAffinity);
    assert_eq!(s.selected_process_pid, Some(7));
}

#[test]
fn selection_wraps_both_ways() {
    let mut s = UiState::new(false);
    s.previous_process(3);
    assert_eq!(s.selected_process_index, 2);
    s.next_process(3);
    assert_eq!(s.selected_process_index, 0);
    s.next_process(3);
    s.previous_process(3);
    assert_eq!(s.selected_process_index, 0);
    s.next_process(0);
    assert_eq!(s.selected_process_index, 0);
    s.next_group(2);
    s.next_group(2);
    assert_eq!(s.selected_group_index, 0);
}

#[test]
fn themes_and_groupings_cycle() {
    let mut s = UiState::new(false);
    s.cycle_theme();
    assert_eq!(s.theme, ColorTheme::Dark);
    for _ in 0..5 {
        s.cycle_theme();
    }
    assert_eq!(s.theme, ColorTheme::Dark);
    s.selected_group_index = 3;
    s.cycle_group_by();
    assert_eq!(s.group_by, ProcessGroupBy::User);
    assert_eq!(s.selected_group_index, 0);
    assert_eq!(s.cached_group_by, None);
}

#[test]
fn search_editing() {
    let mut s = UiState::new(false);
    s.add_search_char('x');
    assert!(s.search_query.is_empty());
    s.toggle_search();
    s.add_search_char('a');
    s.add_search_char('b');
    assert_eq!(s.search_query, "ab");
    s.backspace_search();
    assert_eq!(s.search_query, "a");
    s.toggle_search();
    assert!(!s.search_mode);
    assert!(s.search_query.is_empty());
}

#[test]
fn sorting_marks_the_list_stale() {
    let mut s = UiState::new(false);
    s.cached_sort_by = Some(SortBy::Cpu);
    assert!(!s.process_list_stale(false));
    assert!(s.process_list_stale(true));
    s.sort_by_name();
    assert_eq!(s.sort_by, SortBy::Name);
    assert!(s.process_list_stale(false));
    s.cached_group_by = Some(ProcessGroupBy::NoGrouping);
    assert!(!s.groups_stale(false));
    s.update_data();
    assert!(s.groups_stale(false));
    assert_eq!(s.selected_pid(&[10, 20]), Some(10));
    assert_eq!(s.selected_pid(&[]), None);
}

#[test]
fn process_filter_and_search() {
    assert!(process_listed_by("firefox", None, ""));
    assert!(process_listed_by("firefox", Some("fire"), ""));
    assert!(!process_listed_by("firefox", Some("Fire"), ""));
    assert!(process_listed_by("FireFox", None, "fox"));
    assert!(process_listed_by("firefox", None, "FOX"));
    assert!(!process_listed_by("firefox", None, "chrome"));
    assert!(!process_listed_by("bash", Some("fire"), "bash"));
}
