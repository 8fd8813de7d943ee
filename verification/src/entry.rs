//! Snapshots of tabs, as the query service reports them.
use crate::ids::{TabId, WindowId};
use crate::size::TerminalSize;
use vstd::prelude::*;

verus! {

/// A snapshot of one tab, as the query service reports it.
#[derive(Clone, Debug, PartialEq, Eq)]
pub struct TabEntry {
    pub window_id: WindowId,
    pub tab_id: TabId,
    pub size: TerminalSize,
    pub title: String,
}

/// A `TabEntry` as a mathematical value.
pub struct TabEntryView {
    pub window_id: WindowId,
    pub tab_id: TabId,
    pub size: TerminalSize,
    pub title: Seq<char>,
}

impl View for TabEntry {
    type V = TabEntryView;

    open spec fn view(&self) -> TabEntryView {
        TabEntryView {
            window_id: self.window_id,
            tab_id: self.tab_id,
            size: self.size,
            title: self.title@,
        }
    }
}

pub open spec fn entry_views(entries: Seq<TabEntry>) -> Seq<TabEntryView> {
    entries.map_values(|e: TabEntry| e@)
}

impl TabEntry {
    /// A copy with the same contents.
    pub fn duplicate(&self) -> (r: TabEntry)
        ensures
            r@ == self@,
    {
        TabEntry {
            window_id: self.window_id,
            tab_id: self.tab_id,
            size: self.size,
            title: self.title.clone(),
        }
    }
}

} // verus!
