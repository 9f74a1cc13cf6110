//! The tabbed view of database, application, IoT and backup monitoring.
use vstd::prelude::*;

verus! {

/// The tabs of the advanced monitoring view, in display order.
#[derive(Debug, Clone, Copy, PartialEq, Eq, Structural)]
pub enum AdvancedTab {
    Database,
    APM,
    IoT,
    Backup,
}

/// The tab shown and how far each tab is scrolled.
#[derive(Debug, Clone, Copy, PartialEq, Eq, Structural)]
pub struct AdvancedMonitoringView {
    pub current_tab: AdvancedTab,
    pub database_scroll: usize,
    pub apm_scroll: usize,
    pub iot_scroll: usize,
    pub backup_scroll: usize,
}

/// The position of a tab in display order.
pub open spec fn tab_index(t: AdvancedTab) -> nat {
    match t {
        AdvancedTab::Database => 0,
        AdvancedTab::APM => 1,
        AdvancedTab::IoT => 2,
        AdvancedTab::Backup => 3,
    }
}

/// The tab at position `i` (taken modulo 4).
pub open spec fn tab_at(i: nat) -> AdvancedTab {
    let k = i % 4;
    if k == 0 {
        AdvancedTab::Database
    } else if k == 1 {
        AdvancedTab::APM
    } else if k == 2 {
        AdvancedTab::IoT
    } else {
        AdvancedTab::Backup
    }
}

/// The tab after `t`, wrapping to the first.
pub open spec fn tab_after(t: AdvancedTab) -> AdvancedTab {
    tab_at(tab_index(t) + 1)
}

/// The tab before `t`, wrapping to the last.
pub open spec fn tab_before(t: AdvancedTab) -> AdvancedTab {
    tab_at(tab_index(t) + 3)
}

impl AdvancedTab {
    /// The position of the tab in display order.
    pub fn index(&self) -> (r: usize)
        ensures
            r == tab_index(*self),
    {
        match self {
            AdvancedTab::Database => 0,
            AdvancedTab::APM => 1,
            AdvancedTab::IoT => 2,
            AdvancedTab::Backup => 3,
        }
    }
}

impl AdvancedMonitoringView {
    /// The view on its first tab, nothing scrolled.
    pub fn new() -> (r: Self)
        ensures
            r == (AdvancedMonitoringView {
                current_tab: AdvancedTab::Database,
                database_scroll: 0,
                apm_scroll: 0,
                iot_scroll: 0,
                backup_scroll: 0,
            }),
    {
        AdvancedMonitoringView {
            current_tab: AdvancedTab::Database,
            database_scroll: 0,
            apm_scroll: 0,
            iot_scroll: 0,
            backup_scroll: 0,
        }
    }

    /// Moves to the next tab, wrapping around.
    pub fn next_tab(&mut self)
        ensures
            *final(self) == (AdvancedMonitoringView {
                current_tab: tab_after(old(self).current_tab),
                ..*old(self)
            }),
    {
        self.current_tab = match self.current_tab {
            AdvancedTab::Database => AdvancedTab::APM,
            AdvancedTab::APM => AdvancedTab::IoT,
            AdvancedTab::IoT => AdvancedTab::Backup,
            AdvancedTab::Backup => AdvancedTab::Database,
        };
    }

    /// Moves to the previous tab, wrapping around.
    pub fn previous_tab(&mut self)
        ensures
            *final(self) == (AdvancedMonitoringView {
                current_tab: tab_before(old(self).current_tab),
                ..*old(self)
            }),
    {
        self.current_tab = match self.current_tab {
            AdvancedTab::Database => AdvancedTab::Backup,
            AdvancedTab::APM => AdvancedTab::Database,
            AdvancedTab::IoT => AdvancedTab::APM,
            AdvancedTab::Backup => AdvancedTab::IoT,
        };
    }
}

/// Going back a tab undoes going forward one, and the other way round.
pub proof fn lemma_previous_tab_undoes_next(t: AdvancedTab)
    ensures
        tab_before(tab_after(t)) == t,
        tab_after(tab_before(t)) == t,
{
}

/// Four steps forward come back to the same tab.
pub proof fn lemma_tab_cycle(t: AdvancedTab)
    ensures
        tab_after(tab_after(tab_after(tab_after(t)))) == t,
{
}

} // verus!
