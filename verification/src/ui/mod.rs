//! The state of the terminal interface and how key presses change it.
pub mod advanced_monitoring;

use vstd::prelude::*;
use crate::monitor::processes::{next_group_by, ProcessGroupBy};
use crate::text::{chars_of, contains, has_sub, lower_text, push_char, string_of, to_lower};

verus! {

/// The screen being shown.
#[derive(Debug, Clone, Copy, PartialEq, Eq, Structural)]
pub enum AppView {
    Dashboard,
    ProcessList,
    ProcessTree,
    ProcessGroups,
    ProcessDetails,
    ProcessAffinity,
    NetworkView,
    DiskView,
    SystemInfo,
    HistoryView,
    PerformanceView,
}

/// The colour theme.
#[derive(Debug, Clone, Copy, PartialEq, Eq, Structural)]
pub enum ColorTheme {
    Default,
    Dark,
    Gruvbox,
    Dracula,
    Solarized,
}

/// The order of the process list.
#[derive(Debug, Clone, Copy, PartialEq, Eq, Structural)]
pub enum SortBy {
    Cpu,
    Memory,
    Pid,
    Name,
}

/// The theme that follows `t` when the user cycles through them.
pub open spec fn next_theme(t: ColorTheme) -> ColorTheme {
    match t {
        ColorTheme::Default => ColorTheme::Dark,
        ColorTheme::Dark => ColorTheme::Gruvbox,
        ColorTheme::Gruvbox => ColorTheme::Dracula,
        ColorTheme::Dracula => ColorTheme::Solarized,
        ColorTheme::Solarized => ColorTheme::Default,
    }
}

impl ColorTheme {
    /// The theme that follows this one.
    pub fn next(&self) -> (r: ColorTheme)
        ensures
            r == next_theme(*self),
    {
        match self {
            ColorTheme::Default => ColorTheme::Dark,
            ColorTheme::Dark => ColorTheme::Gruvbox,
            ColorTheme::Gruvbox => ColorTheme::Dracula,
            ColorTheme::Dracula => ColorTheme::Solarized,
            ColorTheme::Solarized => ColorTheme::Default,
        }
    }
}

/// The view after toggling `target` from `v`: back to the dashboard when `target` is
/// shown, else `target`.
pub open spec fn toggled(v: AppView, target: AppView) -> AppView {
    if v == target {
        AppView::Dashboard
    } else {
        target
    }
}

/// The position after `i` in a list of `len` entries, wrapping to the first.
pub open spec fn next_index(i: nat, len: nat) -> nat {
    if len > 0 {
        (i + 1) % len
    } else {
        i
    }
}

/// The position before `i` in a list of `len` entries, wrapping to the last.
pub open spec fn previous_index(i: nat, len: nat) -> nat {
    if len > 0 {
        if i == 0 {
            (len - 1) as nat
        } else {
            (i - 1) as nat
        }
    } else {
        i
    }
}

/// What the interface shows and which entries are selected.
#[derive(Debug, Clone)]
pub struct UiState {
    pub current_view: AppView,
    pub selected_process_index: usize,
    pub selected_group_index: usize,
    pub sort_by: SortBy,
    pub group_by: ProcessGroupBy,
    pub show_zombies_highlighted: bool,
    pub show_confirmation_dialog: bool,
    pub error_message: Option<String>,
    pub theme: ColorTheme,
    pub show_help: bool,
    pub search_query: String,
    pub search_mode: bool,
    pub export_message: Option<String>,
    /// The order the cached process list was sorted in, if it is current.
    pub cached_sort_by: Option<SortBy>,
    /// The grouping of the cached groups, if they are current.
    pub cached_group_by: Option<ProcessGroupBy>,
    pub selected_process_pid: Option<u32>,
}

impl UiState {
    /// The state on start-up: the dashboard, sorted by CPU, nothing grouped.
    pub fn new(show_zombies: bool) -> (r: UiState)
        ensures
            r == (UiState {
                current_view: AppView::Dashboard,
                selected_process_index: 0,
                selected_group_index: 0,
                sort_by: SortBy::Cpu,
                group_by: ProcessGroupBy::NoGrouping,
                show_zombies_highlighted: show_zombies,
                show_confirmation_dialog: false,
                error_message: None,
                theme: ColorTheme::Default,
                show_help: false,
                search_query: r.search_query,
                search_mode: false,
                export_message: None,
                cached_sort_by: None,
                cached_group_by: None,
                selected_process_pid: None,
            }),
            r.search_query@ == Seq::<char>::empty(),
    {
        UiState {
            current_view: AppView::Dashboard,
            selected_process_index: 0,
            selected_group_index: 0,
            sort_by: SortBy::Cpu,
            group_by: ProcessGroupBy::NoGrouping,
            show_zombies_highlighted: show_zombies,
            show_confirmation_dialog: false,
            error_message: None,
            theme: ColorTheme::Default,
            show_help: false,
            search_query: String::new(),
            search_mode: false,
            export_message: None,
            cached_sort_by: None,
            cached_group_by: None,
            selected_process_pid: None,
        }
    }

    /// New metrics arrived: the cached list and groups are stale.
    pub fn update_data(&mut self)
        ensures
            *final(self) == (UiState { cached_sort_by: None, cached_group_by: None, ..*old(self) }),
    {
        self.cached_sort_by = None;
        self.cached_group_by = None;
    }

    /// Sets or clears the error shown.
    pub fn set_error_message(&mut self, message: Option<String>)
        ensures
            *final(self) == (UiState { error_message: message, ..*old(self) }),
    {
        self.error_message = message;
    }

    /// Switches between the dashboard and the process list; from any other view, back
    /// to the dashboard.
    pub fn toggle_process_view(&mut self)
        ensures
            *final(self) == (UiState {
                current_view: if old(self).current_view == AppView::Dashboard {
                    AppView::ProcessList
                } else {
                    AppView::Dashboard
                },
                ..*old(self)
            }),
    {
        self.current_view = match self.current_view {
            AppView::Dashboard => AppView::ProcessList,
            AppView::ProcessList => AppView::Dashboard,
            _ => AppView::Dashboard,
        };
    }

    /// Shows `target`, or the dashboard if `target` is already shown.
    fn toggle_view(&mut self, target: AppView)
        ensures
            *final(self) == (UiState {
                current_view: toggled(old(self).current_view, target),
                ..*old(self)
            }),
    {
        self.current_view = if self.current_view == target {
            AppView::Dashboard
        } else {
            target
        };
    }

    /// Toggles the network view.
    pub fn toggle_network_view(&mut self)
        ensures
            *final(self) == (UiState {
                current_view: toggled(old(self).current_view, AppView::NetworkView),
                ..*old(self)
            }),
    {
        self.toggle_view(AppView::NetworkView);
    }

    /// Toggles the disk view.
    pub fn toggle_disk_view(&mut self)
        ensures
            *final(self) == (UiState {
                current_view: toggled(old(self).current_view, AppView::DiskView),
                ..*old(self)
            }),
    {
        self.toggle_view(AppView::DiskView);
    }

    /// Toggles the process groups view.
    pub fn toggle_process_groups(&mut self)
        ensures
            *final(self) == (UiState {
                current_view: toggled(old(self).current_view, AppView::ProcessGroups),
                ..*old(self)
            }),
    {
        self.toggle_view(AppView::ProcessGroups);
    }

    /// Toggles the performance view.
    pub fn toggle_performance_view(&mut self)
        ensures
            *final(self) == (UiState {
                current_view: toggled(old(self).current_view, AppView::PerformanceView),
                ..*old(self)
            }),
    {
        self.toggle_view(AppView::PerformanceView);
    }

    /// Toggles the system information view.
    pub fn toggle_system_info(&mut self)
        ensures
            *final(self) == (UiState {
                current_view: toggled(old(self).current_view, AppView::SystemInfo),
                ..*old(self)
            }),
    {
        self.toggle_view(AppView::SystemInfo);
    }

    /// Toggles the history view.
    pub fn toggle_history_view(&mut self)
        ensures
            *final(self) == (UiState {
                current_view: toggled(old(self).current_view, AppView::HistoryView),
                ..*old(self)
            }),
    {
        self.toggle_view(AppView::HistoryView);
    }

    /// Toggles the process tree view.
    pub fn toggle_process_tree(&mut self)
        ensures
            *final(self) == (UiState {
                current_view: toggled(old(self).current_view, AppView::ProcessTree),
                ..*old(self)
            }),
    {
        self.toggle_view(AppView::ProcessTree);
    }

    /// Toggles the details of the selected process (`selected`: its pid, if one is
    /// selected); nothing happens when none is.
    pub fn toggle_process_details(&mut self, selected: Option<u32>)
        ensures
            *final(self) == match selected {
                Some(pid) => UiState {
                    selected_process_pid: Some(pid),
                    current_view: toggled(old(self).current_view, AppView::ProcessDetails),
                    ..*old(self)
                },
                None => *old(self),
            },
    {
        if let Some(pid) = selected {
            self.selected_process_pid = Some(pid);
            self.toggle_view(AppView::ProcessDetails);
        }
    }

    /// Toggles the CPU affinity of the selected process (`selected`: its pid, if one
    /// is selected); nothing happens when none is.
    pub fn toggle_process_affinity(&mut self, selected: Option<u32>)
        ensures
            *final(self) == match selected {
                Some(pid) => UiState {
                    selected_process_pid: Some(pid),
                    current_view: toggled(old(self).current_view, AppView::ProcessAffinity),
                    ..*old(self)
                },
                None => *old(self),
            },
    {
        if let Some(pid) = selected {
            self.selected_process_pid = Some(pid);
            self.toggle_view(AppView::ProcessAffinity);
        }
    }

    /// Turns the highlighting of zombies on or off.
    pub fn toggle_zombie_highlighting(&mut self)
        ensures
            *final(self) == (UiState {
                show_zombies_highlighted: !old(self).show_zombies_highlighted,
                ..*old(self)
            }),
    {
        self.show_zombies_highlighted = !self.show_zombies_highlighted;
    }

    /// Turns the help on or off.
    pub fn toggle_help(&mut self)
        ensures
            *final(self) == (UiState { show_help: !old(self).show_help, ..*old(self) }),
    {
        self.show_help = !self.show_help;
    }

    /// Selects the next of `len` processes, wrapping around.
    pub fn next_process(&mut self, len: usize)
        requires
            len > 0 ==> old(self).selected_process_index < usize::MAX,
        ensures
            *final(self) == (UiState {
                selected_process_index: next_index(
                    old(self).selected_process_index as nat,
                    len as nat,
                ) as usize,
                ..*old(self)
            }),
    {
        if len > 0 {
            self.selected_process_index = (self.selected_process_index + 1) % len;
        }
    }

    /// Selects the previous of `len` processes, wrapping around.
    pub fn previous_process(&mut self, len: usize)
        ensures
            *final(self) == (UiState {
                selected_process_index: previous_index(
                    old(self).selected_process_index as nat,
                    len as nat,
                ) as usize,
                ..*old(self)
            }),
    {
        if len > 0 {
            self.selected_process_index = if self.selected_process_index == 0 {
                len - 1
            } else {
                self.selected_process_index - 1
            };
        }
    }

    /// Selects the next of `len` groups, wrapping around.
    pub fn next_group(&mut self, len: usize)
        requires
            len > 0 ==> old(self).selected_group_index < usize::MAX,
        ensures
            *final(self) == (UiState {
                selected_group_index: next_index(old(self).selected_group_index as nat, len as nat)
                    as usize,
                ..*old(self)
            }),
    {
        if len > 0 {
            self.selected_group_index = (self.selected_group_index + 1) % len;
        }
    }

    /// Selects the previous of `len` groups, wrapping around.
    pub fn previous_group(&mut self, len: usize)
        ensures
            *final(self) == (UiState {
                selected_group_index: previous_index(
                    old(self).selected_group_index as nat,
                    len as nat,
                ) as usize,
                ..*old(self)
            }),
    {
        if len > 0 {
            self.selected_group_index = if self.selected_group_index == 0 {
                len - 1
            } else {
                self.selected_group_index - 1
            };
        }
    }

    /// Sorts the process list in `order`; the cached list is stale.
    fn sort_in(&mut self, order: SortBy)
        ensures
            *final(self) == (UiState { sort_by: order, cached_sort_by: None, ..*old(self) }),
    {
        self.sort_by = order;
        self.cached_sort_by = None;
    }

    /// Sorts the process list by CPU use.
    pub fn sort_by_cpu(&mut self)
        ensures
            *final(self) == (UiState { sort_by: SortBy::Cpu, cached_sort_by: None, ..*old(self) }),
    {
        self.sort_in(SortBy::Cpu);
    }

    /// Sorts the process list by memory use.
    pub fn sort_by_memory(&mut self)
        ensures
            *final(self) == (UiState {
                sort_by: SortBy::Memory,
                cached_sort_by: None,
                ..*old(self)
            }),
    {
        self.sort_in(SortBy::Memory);
    }

    /// Sorts the process list by pid.
    pub fn sort_by_pid(&mut self)
        ensures
            *final(self) == (UiState { sort_by: SortBy::Pid, cached_sort_by: None, ..*old(self) }),
    {
        self.sort_in(SortBy::Pid);
    }

    /// Sorts the process list by name.
    pub fn sort_by_name(&mut self)
        ensures
            *final(self) == (UiState { sort_by: SortBy::Name, cached_sort_by: None, ..*old(self) }),
    {
        self.sort_in(SortBy::Name);
    }

    /// Enters or leaves search mode; leaving it clears the query.
    pub fn toggle_search(&mut self)
        ensures
            final(self).search_mode == !old(self).search_mode,
            final(self).search_query@ == if old(self).search_mode {
                Seq::<char>::empty()
            } else {
                old(self).search_query@
            },
            *final(self) == (UiState {
                search_mode: !old(self).search_mode,
                search_query: final(self).search_query,
                cached_sort_by: if old(self).search_mode {
                    None
                } else {
                    old(self).cached_sort_by
                },
                ..*old(self)
            }),
    {
        self.search_mode = !self.search_mode;
        if !self.search_mode {
            self.search_query = String::new();
            self.cached_sort_by = None;
        }
    }

    /// Adds a character to the query while searching.
    pub fn add_search_char(&mut self, c: char)
        ensures
            final(self).search_query@ == if old(self).search_mode {
                old(self).search_query@.push(c)
            } else {
                old(self).search_query@
            },
            *final(self) == (UiState {
                search_query: final(self).search_query,
                cached_sort_by: if old(self).search_mode {
                    None
                } else {
                    old(self).cached_sort_by
                },
                ..*old(self)
            }),
    {
        if self.search_mode {
            let mut q = self.search_query.clone();
            push_char(&mut q, c);
            self.search_query = q;
            self.cached_sort_by = None;
        }
    }

    /// Removes the last character of the query while searching.
    pub fn backspace_search(&mut self)
        ensures
            final(self).search_query@ == if old(self).search_mode && old(self).search_query@.len() > 0 {
                old(self).search_query@.drop_last()
            } else {
                old(self).search_query@
            },
            *final(self) == (UiState {
                search_query: final(self).search_query,
                cached_sort_by: if old(self).search_mode && old(self).search_query@.len() > 0 {
                    None
                } else {
                    old(self).cached_sort_by
                },
                ..*old(self)
            }),
    {
        let v = chars_of(self.search_query.as_str());
        if self.search_mode && v.len() > 0 {
            self.search_query = string_of(&v, 0, v.len() - 1);
            self.cached_sort_by = None;
        }
    }

    /// Leaves search mode (clearing the query) and dismisses the export message.
    pub fn escape(&mut self)
        ensures
            final(self).search_mode == false,
            final(self).search_query@ == if old(self).search_mode {
                Seq::<char>::empty()
            } else {
                old(self).search_query@
            },
            *final(self) == (UiState {
                search_mode: false,
                search_query: final(self).search_query,
                cached_sort_by: if old(self).search_mode {
                    None
                } else {
                    old(self).cached_sort_by
                },
                export_message: None,
                ..*old(self)
            }),
    {
        if self.search_mode {
            self.toggle_search();
        }
        if self.export_message.is_some() {
            self.export_message = None;
        }
    }

    /// Moves to the next colour theme.
    pub fn cycle_theme(&mut self)
        ensures
            *final(self) == (UiState { theme: next_theme(old(self).theme), ..*old(self) }),
    {
        self.theme = self.theme.next();
    }

    /// Moves to the next grouping; the groups are stale and the first is selected.
    pub fn cycle_group_by(&mut self)
        ensures
            *final(self) == (UiState {
                group_by: next_group_by(old(self).group_by),
                cached_group_by: None,
                selected_group_index: 0,
                ..*old(self)
            }),
    {
        self.group_by = self.group_by.next();
        self.cached_group_by = None;
        self.selected_group_index = 0;
    }

    /// Whether the process list must be rebuilt: it was sorted otherwise, or is empty.
    pub fn process_list_stale(&self, cached_empty: bool) -> (r: bool)
        ensures
            r == (self.cached_sort_by != Some(self.sort_by) || cached_empty),
    {
        match self.cached_sort_by {
            Some(s) => s != self.sort_by || cached_empty,
            None => true,
        }
    }

    /// Whether the groups must be rebuilt: they were grouped otherwise, or there are none.
    pub fn groups_stale(&self, cached_empty: bool) -> (r: bool)
        ensures
            r == (self.cached_group_by != Some(self.group_by) || cached_empty),
    {
        match self.cached_group_by {
            Some(g) => g != self.group_by || cached_empty,
            None => true,
        }
    }

    /// The pid of the selected process among `pids`, if the selection is in range.
    pub fn selected_pid(&self, pids: &[u32]) -> (r: Option<u32>)
        ensures
            r == if self.selected_process_index < pids@.len() {
                Some(pids@[self.selected_process_index as int])
            } else {
                None::<u32>
            },
    {
        if pids.len() > 0 && self.selected_process_index < pids.len() {
            Some(pids[self.selected_process_index])
        } else {
            None
        }
    }
}

/// Moving forward then back returns to the same entry of a non-empty list.
pub proof fn lemma_previous_undoes_next(i: nat, len: nat)
    requires
        i < len,
    ensures
        previous_index(next_index(i, len), len) == i,
        next_index(previous_index(i, len), len) == i,
{
    if i + 1 < len {
        vstd::arithmetic::div_mod::lemma_small_mod(i + 1, len);
    } else {
        vstd::arithmetic::div_mod::lemma_mod_self_0(len as int);
    }
    if i > 0 {
        vstd::arithmetic::div_mod::lemma_small_mod(i, len);
    } else {
        vstd::arithmetic::div_mod::lemma_mod_self_0(len as int);
    }
}

/// A selection stays inside a non-empty list.
pub proof fn lemma_selection_in_range(i: nat, len: nat)
    requires
        i < len,
    ensures
        next_index(i, len) < len,
        previous_index(i, len) < len,
{
}

/// Cycling through the themes five times comes back to the start.
pub proof fn lemma_theme_cycle(t: ColorTheme)
    ensures
        next_theme(next_theme(next_theme(next_theme(next_theme(t))))) == t,
{
}

/// Cycling through the groupings five times comes back to the start.
pub proof fn lemma_group_by_cycle(g: ProcessGroupBy)
    ensures
        next_group_by(next_group_by(next_group_by(next_group_by(next_group_by(g))))) == g,
{
}

/// Toggling a view twice returns to the dashboard; toggling from the dashboard shows
/// the view.
pub proof fn lemma_toggle_twice(v: AppView, target: AppView)
    requires
        target != AppView::Dashboard,
    ensures
        toggled(toggled(v, target), target) == if v == target { target } else { AppView::Dashboard },
        toggled(AppView::Dashboard, target) == target,
{
}

/// Whether a process named `name` is listed: its name holds the configured filter, if
/// there is one, and, when a search query is typed, its lower-case name holds the
/// lower-case query.
pub open spec fn process_listed(name: Seq<char>, filter: Option<Seq<char>>, query: Seq<char>) -> bool {
    &&& match filter {
        Some(f) => contains(name, f),
        None => true,
    }
    &&& (query.len() == 0 || contains(lower_text(name), lower_text(query)))
}

/// Whether the process named `name` is listed (see `process_listed`).
pub fn process_listed_by(name: &str, filter: Option<&str>, query: &str) -> (r: bool)
    ensures
        r == process_listed(
            name@,
            match filter {
                Some(f) => Some(f@),
                None => None,
            },
            query@,
        ),
{
    let n = chars_of(name);
    let passes_filter = match filter {
        Some(f) => {
            let fc = chars_of(f);
            has_sub(&n, &fc)
        },
        None => true,
    };
    if !passes_filter {
        return false;
    }
    if query.is_empty() {
        proof {
            assert(query@.len() == 0);
        }
        return true;
    }
    let ln = to_lower(name);
    let lq = to_lower(query);
    let lnc = chars_of(ln.as_str());
    let lqc = chars_of(lq.as_str());
    has_sub(&lnc, &lqc)
}

/// A key press, as far as the interface tells keys apart.
#[derive(Debug, Clone, Copy, PartialEq, Eq, Structural)]
pub enum KeyInput {
    Char(char),
    Up,
    Down,
    Esc,
    Backspace,
    Other,
}

/// What a key press asks the interface to do.
#[derive(Debug, Clone, Copy, PartialEq, Eq, Structural)]
pub enum UiCommand {
    /// Dismiss the error shown (any key does, and does nothing else).
    ClearError,
    Quit,
    Refresh,
    ToggleProcessView,
    ToggleNetworkView,
    ToggleDiskView,
    ToggleSystemInfo,
    ToggleHistoryView,
    ToggleProcessTree,
    ToggleProcessGroups,
    ToggleProcessDetails,
    ToggleProcessAffinity,
    TogglePerformanceView,
    CycleGroupBy,
    ToggleZombieHighlighting,
    ToggleHelp,
    CycleTheme,
    ToggleSearch,
    PreviousGroup,
    PreviousProcess,
    NextGroup,
    NextProcess,
    SortByCpu,
    SortByMemory,
    SortByPid,
    SortByName,
    KillSelected,
    ExportCurrent,
    ExportHistory,
    /// Leave search mode and dismiss the export message.
    Escape,
    Backspace,
    /// Add the character to the search query, when searching.
    SearchChar(char),
    Nothing,
}

/// The command a character key gives, before search input is considered.
pub open spec fn char_command(c: char) -> Option<UiCommand> {
    if c == 'q' {
        Some(UiCommand::Quit)
    } else if c == 'r' {
        Some(UiCommand::Refresh)
    } else if c == 'p' {
        Some(UiCommand::ToggleProcessView)
    } else if c == 'n' {
        Some(UiCommand::ToggleNetworkView)
    } else if c == 'd' {
        Some(UiCommand::ToggleDiskView)
    } else if c == 'i' {
        Some(UiCommand::ToggleSystemInfo)
    } else if c == 'H' {
        Some(UiCommand::ToggleHistoryView)
    } else if c == 'T' {
        Some(UiCommand::ToggleProcessTree)
    } else if c == 'G' {
        Some(UiCommand::ToggleProcessGroups)
    } else if c == 'D' {
        Some(UiCommand::ToggleProcessDetails)
    } else if c == 'A' {
        Some(UiCommand::ToggleProcessAffinity)
    } else if c == 'P' {
        Some(UiCommand::TogglePerformanceView)
    } else if c == 'g' {
        Some(UiCommand::CycleGroupBy)
    } else if c == 'z' {
        Some(UiCommand::ToggleZombieHighlighting)
    } else if c == 'h' || c == '?' {
        Some(UiCommand::ToggleHelp)
    } else if c == 't' {
        Some(UiCommand::CycleTheme)
    } else if c == '/' {
        Some(UiCommand::ToggleSearch)
    } else if c == 'c' {
        Some(UiCommand::SortByCpu)
    } else if c == 'm' {
        Some(UiCommand::SortByMemory)
    } else if c == '1' {
        Some(UiCommand::SortByPid)
    } else if c == '2' {
        Some(UiCommand::SortByName)
    } else if c == 'k' {
        Some(UiCommand::KillSelected)
    } else if c == 'e' {
        Some(UiCommand::ExportCurrent)
    } else if c == 'E' {
        Some(UiCommand::ExportHistory)
    } else {
        None
    }
}

/// The command of a key press: any key dismisses a shown error; the arrows move through
/// the groups in the groups view and through the processes elsewhere; a character
/// without a command of its own is search input.
pub open spec fn command_for(has_error: bool, key: KeyInput, view: AppView) -> UiCommand {
    if has_error {
        UiCommand::ClearError
    } else {
        match key {
            KeyInput::Char(c) => match char_command(c) {
                Some(cmd) => cmd,
                None => UiCommand::SearchChar(c),
            },
            KeyInput::Up => if view == AppView::ProcessGroups {
                UiCommand::PreviousGroup
            } else {
                UiCommand::PreviousProcess
            },
            KeyInput::Down => if view == AppView::ProcessGroups {
                UiCommand::NextGroup
            } else {
                UiCommand::NextProcess
            },
            KeyInput::Esc => UiCommand::Escape,
            KeyInput::Backspace => UiCommand::Backspace,
            KeyInput::Other => UiCommand::Nothing,
        }
    }
}

/// The command of a character key, if it has one (see `char_command`).
fn command_of_char(c: char) -> (r: Option<UiCommand>)
    ensures
        r == char_command(c),
{
    if c == 'q' {
        Some(UiCommand::Quit)
    } else if c == 'r' {
        Some(UiCommand::Refresh)
    } else if c == 'p' {
        Some(UiCommand::ToggleProcessView)
    } else if c == 'n' {
        Some(UiCommand::ToggleNetworkView)
    } else if c == 'd' {
        Some(UiCommand::ToggleDiskView)
    } else if c == 'i' {
        Some(UiCommand::ToggleSystemInfo)
    } else if c == 'H' {
        Some(UiCommand::ToggleHistoryView)
    } else if c == 'T' {
        Some(UiCommand::ToggleProcessTree)
    } else if c == 'G' {
        Some(UiCommand::ToggleProcessGroups)
    } else if c == 'D' {
        Some(UiCommand::ToggleProcessDetails)
    } else if c == 'A' {
        Some(UiCommand::ToggleProcessAffinity)
    } else if c == 'P' {
        Some(UiCommand::TogglePerformanceView)
    } else if c == 'g' {
        Some(UiCommand::CycleGroupBy)
    } else if c == 'z' {
        Some(UiCommand::ToggleZombieHighlighting)
    } else if c == 'h' || c == '?' {
        Some(UiCommand::ToggleHelp)
    } else if c == 't' {
        Some(UiCommand::CycleTheme)
    } else if c == '/' {
        Some(UiCommand::ToggleSearch)
    } else if c == 'c' {
        Some(UiCommand::SortByCpu)
    } else if c == 'm' {
        Some(UiCommand::SortByMemory)
    } else if c == '1' {
        Some(UiCommand::SortByPid)
    } else if c == '2' {
        Some(UiCommand::SortByName)
    } else if c == 'k' {
        Some(UiCommand::KillSelected)
    } else if c == 'e' {
        Some(UiCommand::ExportCurrent)
    } else if c == 'E' {
        Some(UiCommand::ExportHistory)
    } else {
        None
    }
}

/// The command of a key press (see `command_for`).
pub fn key_command(has_error: bool, key: KeyInput, view: AppView) -> (r: UiCommand)
    ensures
        r == command_for(has_error, key, view),
{
    if has_error {
        return UiCommand::ClearError;
    }
    match key {
        KeyInput::Char(c) => match command_of_char(c) {
            Some(cmd) => cmd,
            None => UiCommand::SearchChar(c),
        },
        KeyInput::Up => if view == AppView::ProcessGroups {
            UiCommand::PreviousGroup
        } else {
            UiCommand::PreviousProcess
        },
        KeyInput::Down => if view == AppView::ProcessGroups {
            UiCommand::NextGroup
        } else {
            UiCommand::NextProcess
        },
        KeyInput::Esc => UiCommand::Escape,
        KeyInput::Backspace => UiCommand::Backspace,
        KeyInput::Other => UiCommand::Nothing,
    }
}

} // verus!
