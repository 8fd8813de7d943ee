//! The registry as a mathematical value, and its operations.
use crate::domain::{DomainState, DomainView};
use crate::entry::TabEntryView;
use crate::error::ErrorKind;
use crate::ids::{DomainId, TabId, WindowId};
use crate::size::TerminalSize;
use vstd::prelude::*;

verus! {

/// A tab as a mathematical value.
pub struct TabView {
    pub id: TabId,
    /// The domain that owns the tab.
    pub domain: DomainId,
    pub size: TerminalSize,
    pub title: Seq<char>,
}

/// A window as a mathematical value.
pub struct WindowView {
    pub id: WindowId,
    pub title: Seq<char>,
    /// The tabs, in the order in which they were created.
    pub tabs: Seq<TabView>,
}

/// The entry that the tab `t` of the window `window_id` is listed as.
pub open spec fn entry_of(window_id: WindowId, t: TabView) -> TabEntryView {
    TabEntryView { window_id, tab_id: t.id, size: t.size, title: t.title }
}

/// The entries of one window, in the order of its tabs.
pub open spec fn window_entries(w: WindowView) -> Seq<TabEntryView> {
    w.tabs.map_values(|t: TabView| entry_of(w.id, t))
}

/// The entries of all windows: window by window, and within a window tab
/// by tab.
pub open spec fn tab_entries(windows: Seq<WindowView>) -> Seq<TabEntryView>
    decreases windows.len(),
{
    if windows.len() == 0 {
        Seq::empty()
    } else {
        tab_entries(windows.drop_last()) + window_entries(windows.last())
    }
}

/// The number of tabs of all windows.
pub open spec fn tab_count(windows: Seq<WindowView>) -> nat
    decreases windows.len(),
{
    if windows.len() == 0 {
        0
    } else {
        tab_count(windows.drop_last()) + windows.last().tabs.len()
    }
}

/// `e` is the snapshot of a tab of one of the windows.
pub open spec fn lists_tab(windows: Seq<WindowView>, e: TabEntryView) -> bool {
    exists|w: int, t: int|
        0 <= w < windows.len() && 0 <= t < windows[w].tabs.len() && e == entry_of(
            windows[w].id,
            #[trigger] windows[w].tabs[t],
        )
}

/// The window identifiers that occur in `entries`, each once, in the order
/// in which they first occur.
pub open spec fn remote_windows(entries: Seq<TabEntryView>) -> Seq<WindowId>
    decreases entries.len(),
{
    if entries.len() == 0 {
        Seq::empty()
    } else {
        let init = remote_windows(entries.drop_last());
        if init.contains(entries.last().window_id) {
            init
        } else {
            init.push(entries.last().window_id)
        }
    }
}

/// The local tabs that mirror the entries of the remote window `remote`:
/// one for each such entry, in the order of the entries.  The entry at
/// position `i` of `entries` gets the identifier `first_tab + i`.
pub open spec fn mirrored_tabs(
    entries: Seq<TabEntryView>,
    remote: WindowId,
    domain: DomainId,
    first_tab: TabId,
) -> Seq<TabView>
    decreases entries.len(),
{
    if entries.len() == 0 {
        Seq::empty()
    } else {
        let init = mirrored_tabs(entries.drop_last(), remote, domain, first_tab);
        let e = entries.last();
        if e.window_id == remote {
            init.push(
                TabView {
                    id: (first_tab + entries.len() - 1) as TabId,
                    domain,
                    size: e.size,
                    title: e.title,
                },
            )
        } else {
            init
        }
    }
}

/// The registry as a mathematical value.
pub struct RegistryView {
    /// The domains, in the order in which they were added.
    pub domains: Seq<DomainView>,
    /// The windows, in the order in which they were created.
    pub windows: Seq<WindowView>,
    /// The domain that is used where none is asked for.
    pub default_domain: DomainId,
    /// The identifier that the next window gets.
    pub next_window: WindowId,
    /// The identifier that the next tab gets.
    pub next_tab: TabId,
}

impl RegistryView {
    pub open spec fn has_domain(self, id: DomainId) -> bool {
        exists|i: int| 0 <= i < self.domains.len() && (#[trigger] self.domains[i]).id == id
    }

    pub open spec fn has_window(self, id: WindowId) -> bool {
        exists|i: int| 0 <= i < self.windows.len() && (#[trigger] self.windows[i]).id == id
    }

    pub open spec fn has_tab(self, id: TabId) -> bool {
        exists|w: int, t: int|
            0 <= w < self.windows.len() && 0 <= t < self.windows[w].tabs.len() && (
            #[trigger] self.windows[w].tabs[t]).id == id
    }

    /// The position of the domain `id`, where the registry has it.
    pub open spec fn domain_index(self, id: DomainId) -> int {
        choose|i: int| 0 <= i < self.domains.len() && (#[trigger] self.domains[i]).id == id
    }

    /// The position of the window `id`, where the registry has it.
    pub open spec fn window_index(self, id: WindowId) -> int {
        choose|i: int| 0 <= i < self.windows.len() && (#[trigger] self.windows[i]).id == id
    }

    /// The domain `id`, where the registry has it.
    pub open spec fn domain(self, id: DomainId) -> DomainView {
        self.domains[self.domain_index(id)]
    }

    /// The window `id`, where the registry has it.
    pub open spec fn window(self, id: WindowId) -> WindowView {
        self.windows[self.window_index(id)]
    }

    /// No window has a tab.
    pub open spec fn is_empty(self) -> bool {
        forall|i: int| 0 <= i < self.windows.len() ==> (#[trigger] self.windows[i]).tabs.len() == 0
    }

    /// What holds of every registry: domain identifiers are distinct and
    /// the default domain is a registered local domain; window identifiers
    /// grow in creation order; every tab belongs to a registered domain,
    /// and no two tabs share an identifier.
    pub open spec fn wf(self) -> bool {
        &&& forall|i: int, j: int|
            0 <= i < j < self.domains.len() ==> (#[trigger] self.domains[i]).id != (
            #[trigger] self.domains[j]).id
        &&& self.has_domain(self.default_domain)
        &&& self.domain(self.default_domain).is_local()
        &&& forall|i: int, j: int|
            0 <= i < j < self.windows.len() ==> (#[trigger] self.windows[i]).id < (
            #[trigger] self.windows[j]).id
        &&& forall|i: int|
            0 <= i < self.windows.len() ==> (#[trigger] self.windows[i]).id < self.next_window
        &&& forall|w: int, t: int|
            0 <= w < self.windows.len() && 0 <= t < self.windows[w].tabs.len() ==> {
                &&& (#[trigger] self.windows[w].tabs[t]).id < self.next_tab
                &&& self.has_domain(self.windows[w].tabs[t].domain)
            }
        &&& forall|w1: int, t1: int, w2: int, t2: int|
            0 <= w1 < self.windows.len() && 0 <= t1 < self.windows[w1].tabs.len() && 0 <= w2
                < self.windows.len() && 0 <= t2 < self.windows[w2].tabs.len() && (w1 != w2 || t1
                != t2) ==> (#[trigger] self.windows[w1].tabs[t1]).id != (
            #[trigger] self.windows[w2].tabs[t2]).id
    }

    /// The registry with one more domain.
    pub open spec fn add_domain(self, d: DomainView) -> RegistryView {
        RegistryView { domains: self.domains.push(d), ..self }
    }

    /// The registry with a new window that has no tabs.
    pub open spec fn new_empty_window(self) -> RegistryView {
        RegistryView {
            windows: self.windows.push(
                WindowView { id: self.next_window, title: Seq::empty(), tabs: Seq::empty() },
            ),
            next_window: (self.next_window + 1) as WindowId,
            ..self
        }
    }

    /// The registry with `tab` as the last tab of the window `window_id`.
    pub open spec fn add_tab(self, window_id: WindowId, tab: TabView) -> RegistryView {
        RegistryView {
            windows: self.windows.map_values(
                |w: WindowView|
                    if w.id == window_id {
                        WindowView { tabs: w.tabs.push(tab), ..w }
                    } else {
                        w
                    },
            ),
            next_tab: (self.next_tab + 1) as TabId,
            ..self
        }
    }

    /// Why a tab of the domain `domain_id` cannot be put into the window
    /// `window_id`, if it cannot.
    pub open spec fn spawn_error(self, domain_id: DomainId, window_id: WindowId) -> Option<ErrorKind> {
        if !self.has_domain(domain_id) {
            Some(ErrorKind::UnknownDomain)
        } else if !self.has_window(window_id) {
            Some(ErrorKind::UnknownWindow)
        } else {
            None
        }
    }

    /// Where the tab `id` stands: the position of its window and its
    /// position among that window's tabs.
    pub open spec fn tab_position(self, id: TabId) -> (int, int) {
        choose|w: int, t: int|
            0 <= w < self.windows.len() && 0 <= t < self.windows[w].tabs.len() && (
            #[trigger] self.windows[w].tabs[t]).id == id
    }

    /// The registry without the tab `id`.  The window that held the tab
    /// stays, also where that was its last tab.
    pub open spec fn remove_tab(self, id: TabId) -> RegistryView {
        if self.has_tab(id) {
            let (w, t) = self.tab_position(id);
            RegistryView {
                windows: self.windows.update(
                    w,
                    WindowView { tabs: self.windows[w].tabs.remove(t), ..self.windows[w] },
                ),
                ..self
            }
        } else {
            self
        }
    }

    /// The registry without the window `id` and its tabs.
    pub open spec fn close_window(self, id: WindowId) -> RegistryView {
        if self.has_window(id) {
            RegistryView { windows: self.windows.remove(self.window_index(id)), ..self }
        } else {
            self
        }
    }

    /// The registry after the tabs of a remote server were mirrored into
    /// it for the client domain `domain`: each remote window becomes a new
    /// local window, in the order of `remote_windows`, and holds the mirrors
    /// of that remote window's tabs.
    pub open spec fn mirror(self, domain: DomainId, entries: Seq<TabEntryView>) -> RegistryView {
        let remote = remote_windows(entries);
        RegistryView {
            windows: self.windows + Seq::new(
                remote.len(),
                |k: int|
                    WindowView {
                        id: (self.next_window + k) as WindowId,
                        title: Seq::empty(),
                        tabs: mirrored_tabs(entries, remote[k], domain, self.next_tab),
                    },
            ),
            next_window: (self.next_window + remote.len()) as WindowId,
            next_tab: (self.next_tab + entries.len()) as TabId,
            ..self
        }
    }

    /// The registry with the domain at position `k` in another state.
    pub open spec fn set_domain_state(self, k: int, state: DomainState) -> RegistryView {
        RegistryView { domains: self.domains.update(k, self.domains[k].with_state(state)), ..self }
    }

    /// The registry after `attach` on the domain `id`.
    pub open spec fn attach(self, id: DomainId) -> RegistryView {
        if self.has_domain(id) {
            self.set_domain_state(self.domain_index(id), self.domain(id).attach().0.state)
        } else {
            self
        }
    }

    /// The registry after `detach` on the domain `id`.
    pub open spec fn detach(self, id: DomainId) -> RegistryView {
        if self.has_domain(id) {
            self.set_domain_state(self.domain_index(id), self.domain(id).detach().state)
        } else {
            self
        }
    }

    /// An attach attempt of the domain `id` is under way.
    pub open spec fn attaching(self, id: DomainId) -> bool {
        self.has_domain(id) && self.domain(id).state == DomainState::Attaching
    }

    /// The registry after the outcome of an attach attempt was applied.
    /// Where no attempt is under way the outcome is ignored.  A failure
    /// leaves the domain detached.  On success the domain is attached and
    /// the server's tabs are mirrored.
    pub open spec fn finish_attach(
        self,
        id: DomainId,
        outcome: Result<Seq<TabEntryView>, ErrorKind>,
    ) -> RegistryView {
        if self.attaching(id) {
            let k = self.domain_index(id);
            match outcome {
                Ok(entries) => self.set_domain_state(k, DomainState::Attached).mirror(id, entries),
                Err(_) => self.set_domain_state(k, DomainState::Detached),
            }
        } else {
            self
        }
    }
}

} // verus!
