//! The session registry: the single owner of domains, windows and tabs.
use crate::domain::{AttachStep, Domain, DomainState, DomainView, SpawnPlan};
use crate::entry::{entry_views, TabEntry, TabEntryView};
use crate::error::ErrorKind;
use crate::ids::{DomainId, TabId, WindowId};
use crate::laws::{
    lemma_add_domain_keeps_wf, lemma_add_tab, lemma_close_window, lemma_domain_index,
    lemma_empty_iff_no_entries, lemma_mirror_step, lemma_new_window_keeps_wf,
    lemma_remote_windows, lemma_remove_tab, lemma_set_domain_state,
};
use crate::model::{
    entry_of, remote_windows, tab_entries, window_entries, RegistryView, TabView, WindowView,
};
use crate::size::TerminalSize;
use vstd::prelude::*;

verus! {

/// One terminal session.
#[derive(Debug)]
pub struct Tab {
    id: TabId,
    domain: DomainId,
    size: TerminalSize,
    title: String,
}

impl View for Tab {
    type V = TabView;

    closed spec fn view(&self) -> TabView {
        TabView { id: self.id, domain: self.domain, size: self.size, title: self.title@ }
    }
}

impl Tab {
    pub fn id(&self) -> (id: TabId)
        ensures
            id == self@.id,
    {
        self.id
    }

    /// The domain that owns the tab.
    pub fn domain_id(&self) -> (id: DomainId)
        ensures
            id == self@.domain,
    {
        self.domain
    }

    pub fn size(&self) -> (size: TerminalSize)
        ensures
            size == self@.size,
    {
        self.size
    }

    pub fn title(&self) -> (title: &String)
        ensures
            title@ == self@.title,
    {
        &self.title
    }

    /// The snapshot of this tab as a member of the window `window_id`.
    pub fn entry(&self, window_id: WindowId) -> (e: TabEntry)
        ensures
            e@ == entry_of(window_id, self@),
    {
        TabEntry { window_id, tab_id: self.id, size: self.size, title: self.title.clone() }
    }
}

/// An ordered group of tabs.
#[derive(Debug)]
pub struct Window {
    id: WindowId,
    title: String,
    tabs: Vec<Tab>,
}

pub open spec fn tab_views(tabs: Seq<Tab>) -> Seq<TabView> {
    tabs.map_values(|t: Tab| t@)
}

impl View for Window {
    type V = WindowView;

    closed spec fn view(&self) -> WindowView {
        WindowView { id: self.id, title: self.title@, tabs: tab_views(self.tabs@) }
    }
}

impl Window {
    pub fn id(&self) -> (id: WindowId)
        ensures
            id == self@.id,
    {
        self.id
    }

    pub fn title(&self) -> (title: &String)
        ensures
            title@ == self@.title,
    {
        &self.title
    }

    /// The number of tabs in the window.
    pub fn len(&self) -> (n: usize)
        ensures
            n == self@.tabs.len(),
    {
        self.tabs.len()
    }

    pub fn is_empty(&self) -> (r: bool)
        ensures
            r == (self@.tabs.len() == 0),
    {
        self.tabs.len() == 0
    }

    /// The tab at position `index`, if the window has that many.
    pub fn tab(&self, index: usize) -> (t: Option<&Tab>)
        ensures
            match t {
                Some(t) => index < self@.tabs.len() && t@ == self@.tabs[index as int],
                None => index >= self@.tabs.len(),
            },
    {
        if index < self.tabs.len() {
            Some(&self.tabs[index])
        } else {
            None
        }
    }
}

/// How the outside work of a spawn has ended.
#[derive(Clone, Debug, PartialEq, Eq)]
pub enum SpawnOutcome {
    /// The session runs; `title` is its first title.
    Launched { title: String },
    /// The process could not be launched, or the server refused.
    Failed,
}

pub open spec fn domain_views(domains: Seq<Domain>) -> Seq<DomainView> {
    domains.map_values(|d: Domain| d@)
}

pub open spec fn window_views(windows: Seq<Window>) -> Seq<WindowView> {
    windows.map_values(|w: Window| w@)
}

/// How an attach attempt of a client domain has ended: the tabs that the
/// server listed, or why the server could not be reached.
pub open spec fn outcome_view(outcome: Result<Vec<TabEntry>, ErrorKind>) -> Result<
    Seq<TabEntryView>,
    ErrorKind,
> {
    match outcome {
        Ok(entries) => Ok(entry_views(entries@)),
        Err(e) => Err(e),
    }
}

/// The single owner of domains, windows and tabs.
///
/// All state is in memory.  Mutations take `&mut self`, so they are
/// serialized: one writer at a time.
#[derive(Debug)]
pub struct Registry {
    domains: Vec<Domain>,
    windows: Vec<Window>,
    default_domain: DomainId,
    next_window: WindowId,
    next_tab: TabId,
}

impl View for Registry {
    type V = RegistryView;

    closed spec fn view(&self) -> RegistryView {
        RegistryView {
            domains: domain_views(self.domains@),
            windows: window_views(self.windows@),
            default_domain: self.default_domain,
            next_window: self.next_window,
            next_tab: self.next_tab,
        }
    }
}

impl Registry {
    /// The registry is well formed.  Every constructor establishes this and
    /// every method keeps it.
    pub open spec fn wf(&self) -> bool {
        self@.wf()
    }

    /// A registry that holds `default_domain` and nothing else.
    pub fn new(default_domain: Domain) -> (r: Registry)
        requires
            default_domain@.is_local(),
        ensures
            r.wf(),
            r@ == (RegistryView {
                domains: seq![default_domain@],
                windows: Seq::empty(),
                default_domain: default_domain@.id,
                next_window: 0,
                next_tab: 0,
            }),
            r@.is_empty(),
    {
        let id = default_domain.id();
        let mut domains: Vec<Domain> = Vec::new();
        domains.push(default_domain);
        let r = Registry {
            domains,
            windows: Vec::new(),
            default_domain: id,
            next_window: 0,
            next_tab: 0,
        };
        proof {
            assert(r@.domains =~= seq![default_domain@]);
            assert(r@.windows =~= Seq::empty());
            assert(r@.domains[0].id == id);
        }
        r
    }

    /// The position of the domain `id`.
    fn find_domain(&self, id: DomainId) -> (r: Option<usize>)
        ensures
            match r {
                Some(i) => i < self@.domains.len() && self@.domains[i as int].id == id,
                None => !self@.has_domain(id),
            },
    {
        let mut i: usize = 0;
        while i < self.domains.len()
            invariant
                i <= self.domains.len(),
                forall|k: int| 0 <= k < i ==> (#[trigger] self@.domains[k]).id != id,
            decreases self.domains.len() - i,
        {
            if self.domains[i].id() == id {
                return Some(i);
            }
            i += 1;
        }
        None
    }

    /// The position of the window `id`.
    fn find_window(&self, id: WindowId) -> (r: Option<usize>)
        ensures
            match r {
                Some(i) => i < self@.windows.len() && self@.windows[i as int].id == id,
                None => !self@.has_window(id),
            },
    {
        let mut i: usize = 0;
        while i < self.windows.len()
            invariant
                i <= self.windows.len(),
                forall|k: int| 0 <= k < i ==> (#[trigger] self@.windows[k]).id != id,
            decreases self.windows.len() - i,
        {
            if self.windows[i].id() == id {
                return Some(i);
            }
            i += 1;
        }
        None
    }

    pub fn has_domain(&self, id: DomainId) -> (r: bool)
        ensures
            r == self@.has_domain(id),
    {
        self.find_domain(id).is_some()
    }

    pub fn has_window(&self, id: WindowId) -> (r: bool)
        ensures
            r == self@.has_window(id),
    {
        self.find_window(id).is_some()
    }

    /// The domain `id`, if it is registered.
    pub fn domain(&self, id: DomainId) -> (d: Option<&Domain>)
        requires
            self.wf(),
        ensures
            match d {
                Some(d) => self@.has_domain(id) && d@ == self@.domain(id),
                None => !self@.has_domain(id),
            },
    {
        match self.find_domain(id) {
            Some(i) => Some(&self.domains[i]),
            None => None,
        }
    }

    /// The window `id`, if it exists.
    pub fn window(&self, id: WindowId) -> (w: Option<&Window>)
        requires
            self.wf(),
        ensures
            match w {
                Some(w) => self@.has_window(id) && w@ == self@.window(id),
                None => !self@.has_window(id),
            },
    {
        match self.find_window(id) {
            Some(i) => Some(&self.windows[i]),
            None => None,
        }
    }

    /// The domain that was designated when the registry was made.
    pub fn default_domain(&self) -> (d: &Domain)
        requires
            self.wf(),
        ensures
            d@ == self@.domain(self@.default_domain),
            d@.id == self@.default_domain,
            d@.is_local(),
    {
        let i = self.find_domain(self.default_domain).unwrap();
        &self.domains[i]
    }

    /// Registers a domain.  Its identifier has to be new.
    pub fn add_domain(&mut self, domain: Domain) -> (r: Result<(), ErrorKind>)
        requires
            old(self).wf(),
        ensures
            final(self).wf(),
            match r {
                Ok(()) => !old(self)@.has_domain(domain@.id) && final(self)@ == old(self)@.add_domain(
                    domain@,
                ),
                Err(e) => e == ErrorKind::DuplicateDomain && old(self)@.has_domain(domain@.id)
                    && final(self)@ == old(self)@,
            },
    {
        if self.has_domain(domain.id()) {
            return Err(ErrorKind::DuplicateDomain);
        }
        proof {
            let before = self@;
            let after = before.add_domain(domain@);
            lemma_add_domain_keeps_wf(before, domain@);
            assert(domain_views(self.domains@.push(domain)) =~= before.domains.push(domain@));
        }
        self.domains.push(domain);
        Ok(())
    }

    /// The identifier that the next window gets.
    pub fn next_window_id(&self) -> (id: WindowId)
        ensures
            id == self@.next_window,
    {
        self.next_window
    }

    /// The identifier that the next tab gets.
    pub fn next_tab_id(&self) -> (id: TabId)
        ensures
            id == self@.next_tab,
    {
        self.next_tab
    }

    /// The number of windows.
    pub fn window_count(&self) -> (n: usize)
        ensures
            n == self@.windows.len(),
    {
        self.windows.len()
    }

    /// The number of domains.
    pub fn domain_count(&self) -> (n: usize)
        ensures
            n == self@.domains.len(),
    {
        self.domains.len()
    }

    /// Creates a window without tabs and returns its identifier.
    pub fn new_empty_window(&mut self) -> (id: WindowId)
        requires
            old(self).wf(),
            old(self)@.next_window < u64::MAX,
        ensures
            final(self).wf(),
            id == old(self)@.next_window,
            final(self)@ == old(self)@.new_empty_window(),
            final(self)@.has_window(id),
            final(self)@.window(id).tabs.len() == 0,
            final(self)@.is_empty() == old(self)@.is_empty(),
    {
        let id: WindowId = self.next_window;
        let w = Window { id, title: String::new(), tabs: Vec::new() };
        proof {
            let before = self@;
            lemma_new_window_keeps_wf(before);
            assert(w@.tabs =~= Seq::empty());
            assert(window_views(self.windows@.push(w)) =~= before.windows.push(w@));
        }
        self.windows.push(w);
        self.next_window = id + 1;
        id
    }

    /// Whether no window has a tab.
    pub fn is_empty(&self) -> (r: bool)
        ensures
            r == self@.is_empty(),
            r == (tab_entries(self@.windows).len() == 0),
    {
        let mut i: usize = 0;
        while i < self.windows.len()
            invariant
                i <= self.windows.len(),
                forall|k: int| 0 <= k < i ==> (#[trigger] self@.windows[k]).tabs.len() == 0,
            decreases self.windows.len() - i,
        {
            if !self.windows[i].is_empty() {
                proof {
                    lemma_empty_iff_no_entries(self@.windows);
                    assert(self@.windows[i as int].tabs.len() != 0);
                }
                return false;
            }
            i += 1;
        }
        proof {
            lemma_empty_iff_no_entries(self@.windows);
        }
        true
    }

    /// A snapshot of every tab: window by window in creation order, and
    /// within a window tab by tab in creation order.
    pub fn list_tabs(&self) -> (entries: Vec<TabEntry>)
        ensures
            entry_views(entries@) == tab_entries(self@.windows),
    {
        let mut out: Vec<TabEntry> = Vec::new();
        let mut i: usize = 0;
        assert(self@.windows.take(0) =~= Seq::empty());
        while i < self.windows.len()
            invariant
                i <= self.windows.len(),
                entry_views(out@) =~= tab_entries(self@.windows.take(i as int)),
            decreases self.windows.len() - i,
        {
            let w = &self.windows[i];
            let ghost prefix = entry_views(out@);
            let mut j: usize = 0;
            while j < w.tabs.len()
                invariant
                    j <= w.tabs.len(),
                    entry_views(out@) =~= prefix + window_entries(w@).take(j as int),
                decreases w.tabs.len() - j,
            {
                let e = w.tabs[j].entry(w.id);
                proof {
                    assert(window_entries(w@).take(j + 1) =~= window_entries(w@).take(j as int).push(
                        e@,
                    ));
                    assert(entry_views(out@.push(e)) =~= entry_views(out@).push(e@));
                }
                out.push(e);
                j += 1;
            }
            proof {
                assert(window_entries(w@).take(j as int) =~= window_entries(w@));
                let next = self@.windows.take(i + 1);
                assert(next.drop_last() =~= self@.windows.take(i as int));
                assert(next.last() == w@);
            }
            i += 1;
        }
        assert(self@.windows.take(i as int) =~= self@.windows);
        out
    }

    /// The first half of a spawn: checks that the domain and the window
    /// exist and says what the caller has to do.  Nothing is changed.
    pub fn prepare_spawn(&self, domain_id: DomainId, size: TerminalSize, window_id: WindowId) -> (r:
        Result<SpawnPlan, ErrorKind>)
        requires
            self.wf(),
        ensures
            match r {
                Ok(plan) => self@.spawn_error(domain_id, window_id) is None && plan@
                    == self@.domain(domain_id).spawn_plan(size, window_id),
                Err(e) => self@.spawn_error(domain_id, window_id) == Some(e),
            },
    {
        let d = match self.domain(domain_id) {
            Some(d) => d,
            None => { return Err(ErrorKind::UnknownDomain); },
        };
        if !self.has_window(window_id) {
            return Err(ErrorKind::UnknownWindow);
        }
        Ok(d.spawn_plan(size, window_id))
    }

    /// The second half of a spawn: given how the outside work ended,
    /// registers the new tab as the last tab of the window, owned by the
    /// domain.  A failed launch, an unknown domain or an unknown window is
    /// reported and leaves the registry as it was.  Where the session was
    /// launched and the domain or the window is gone, the session runs
    /// outside the registry's view; the error says so, and nothing is
    /// tried again.
    pub fn complete_spawn(
        &mut self,
        domain_id: DomainId,
        size: TerminalSize,
        window_id: WindowId,
        outcome: SpawnOutcome,
    ) -> (r: Result<TabId, ErrorKind>)
        requires
            old(self).wf(),
            old(self)@.next_tab < u64::MAX,
        ensures
            final(self).wf(),
            match r {
                Ok(id) => {
                    &&& outcome matches SpawnOutcome::Launched { title }
                    &&& old(self)@.spawn_error(domain_id, window_id) is None
                    &&& id == old(self)@.next_tab
                    &&& final(self)@ == old(self)@.add_tab(
                        window_id,
                        TabView { id, domain: domain_id, size, title: title@ },
                    )
                    &&& !final(self)@.is_empty()
                },
                Err(e) => {
                    &&& final(self)@ == old(self)@
                    &&& match outcome {
                        SpawnOutcome::Failed => e == ErrorKind::SpawnFailed,
                        SpawnOutcome::Launched { .. } => old(self)@.spawn_error(domain_id, window_id)
                            == Some(e),
                    }
                },
            },
    {
        let title = match outcome {
            SpawnOutcome::Launched { title } => title,
            SpawnOutcome::Failed => { return Err(ErrorKind::SpawnFailed); },
        };
        if !self.has_domain(domain_id) {
            return Err(ErrorKind::UnknownDomain);
        }
        let k = match self.find_window(window_id) {
            Some(k) => k,
            None => { return Err(ErrorKind::UnknownWindow); },
        };
        let id: TabId = self.next_tab;
        let tab = Tab { id, domain: domain_id, size, title };
        proof {
            lemma_add_tab(self@, window_id, tab@);
        }
        let ghost before = self@;
        let ghost old_windows = self.windows@;
        self.windows[k].tabs.push(tab);
        self.next_tab = id + 1;
        proof {
            let after = before.add_tab(window_id, tab@);
            assert(self@.windows =~= after.windows) by {
                assert forall|i: int| 0 <= i < self@.windows.len() implies self@.windows[i] == after.windows[i] by {
                    if i == k as int {
                        assert(self.windows@[i]@.tabs =~= old_windows[i]@.tabs.push(tab@));
                    } else {
                        assert(self.windows@[i] == old_windows[i]);
                        if i < k as int {
                            assert(before.windows[i].id != before.windows[k as int].id);
                        } else {
                            assert(before.windows[k as int].id != before.windows[i].id);
                        }
                    }
                }
            }
        }
        Ok(id)
    }

    /// The position of the tab `id`.
    fn find_tab(&self, id: TabId) -> (r: Option<(usize, usize)>)
        ensures
            match r {
                Some((w, t)) => w < self@.windows.len() && t < self@.windows[w as int].tabs.len()
                    && self@.windows[w as int].tabs[t as int].id == id,
                None => !self@.has_tab(id),
            },
    {
        let mut w: usize = 0;
        while w < self.windows.len()
            invariant
                w <= self.windows.len(),
                forall|i: int, j: int|
                    0 <= i < w && 0 <= j < self@.windows[i].tabs.len() ==> (
                    #[trigger] self@.windows[i].tabs[j]).id != id,
            decreases self.windows.len() - w,
        {
            let win = &self.windows[w];
            let mut t: usize = 0;
            while t < win.tabs.len()
                invariant
                    t <= win.tabs.len(),
                    w < self@.windows.len(),
                    win@ == self@.windows[w as int],
                    forall|j: int| 0 <= j < t ==> (#[trigger] win@.tabs[j]).id != id,
                decreases win.tabs.len() - t,
            {
                if win.tabs[t].id() == id {
                    return Some((w, t));
                }
                t += 1;
            }
            w += 1;
        }
        None
    }

    pub fn has_tab(&self, id: TabId) -> (r: bool)
        ensures
            r == self@.has_tab(id),
    {
        self.find_tab(id).is_some()
    }

    /// Removes the tab `id`, as when its session has ended, and returns it.
    /// The window that held it stays.
    pub fn remove_tab(&mut self, id: TabId) -> (r: Option<Tab>)
        requires
            old(self).wf(),
        ensures
            final(self).wf(),
            final(self)@ == old(self)@.remove_tab(id),
            final(self)@.windows.len() == old(self)@.windows.len(),
            forall|i: int|
                0 <= i < old(self)@.windows.len() ==> (#[trigger] final(self)@.windows[i]).id == old(
                    self,
                )@.windows[i].id,
            !final(self)@.has_tab(id),
            match r {
                Some(tab) => old(self)@.has_tab(id) && tab@.id == id && tab@ == old(self)@.windows[old(
                    self,
                )@.tab_position(id).0].tabs[old(self)@.tab_position(id).1],
                None => !old(self)@.has_tab(id),
            },
    {
        match self.find_tab(id) {
            None => None,
            Some((w, t)) => {
                let ghost before = self@;
                let ghost old_windows = self.windows@;
                proof {
                    lemma_remove_tab(before, id, w as int, t as int);
                }
                let tab = self.windows[w].tabs.remove(t);
                proof {
                    let after = before.remove_tab(id);
                    assert(self@.windows =~= after.windows) by {
                        assert forall|i: int| 0 <= i < self@.windows.len() implies self@.windows[i]
                            == after.windows[i] by {
                            if i == w as int {
                                assert(self.windows@[i]@.tabs =~= old_windows[i]@.tabs.remove(t as int));
                            } else {
                                assert(self.windows@[i] == old_windows[i]);
                            }
                        }
                    }
                    assert(tab@ == before.windows[w as int].tabs[t as int]);
                }
                Some(tab)
            },
        }
    }

    /// Closes the window `id`: the window and its tabs leave the registry.
    pub fn close_window(&mut self, id: WindowId) -> (r: Result<(), ErrorKind>)
        requires
            old(self).wf(),
        ensures
            final(self).wf(),
            final(self)@ == old(self)@.close_window(id),
            !final(self)@.has_window(id),
            match r {
                Ok(()) => old(self)@.has_window(id),
                Err(e) => e == ErrorKind::UnknownWindow && !old(self)@.has_window(id),
            },
    {
        match self.find_window(id) {
            None => Err(ErrorKind::UnknownWindow),
            Some(k) => {
                let ghost before = self@;
                proof {
                    lemma_close_window(before, id, k as int);
                    assert(window_views(self.windows@.remove(k as int)) =~= before.windows.remove(k as int));
                }
                let _ = self.windows.remove(k);
                Ok(())
            },
        }
    }

    /// Mirrors the tabs that a server listed into new local windows, owned
    /// by the client domain `domain_id`.
    fn mirror_entries(&mut self, domain_id: DomainId, entries: &Vec<TabEntry>)
        requires
            old(self).wf(),
            old(self)@.has_domain(domain_id),
            old(self)@.next_window + entries.len() <= u64::MAX,
            old(self)@.next_tab + entries.len() <= u64::MAX,
        ensures
            final(self).wf(),
            final(self)@ == old(self)@.mirror(domain_id, entry_views(entries@)),
    {
        let ghost before = self@;
        let ghost all = entry_views(entries@);
        let base: WindowId = self.next_window;
        let mut seen: Vec<WindowId> = Vec::new();
        let mut i: usize = 0;
        proof {
            assert(all.take(0) =~= Seq::empty());
            assert(before.mirror(domain_id, all.take(0)).windows =~= before.windows);
        }
        while i < entries.len()
            invariant
                i <= entries.len(),
                all == entry_views(entries@),
                before.wf(),
                before.has_domain(domain_id),
                before.next_window + entries.len() <= u64::MAX,
                before.next_tab + entries.len() <= u64::MAX,
                base == before.next_window,
                self.wf(),
                self@ == before.mirror(domain_id, all.take(i as int)),
                seen@ == remote_windows(all.take(i as int)),
            decreases entries.len() - i,
        {
            let e = &entries[i];
            let ghost prev = all.take(i as int);
            proof {
                lemma_remote_windows(prev);
                lemma_mirror_step(before, domain_id, all, i as int);
                assert(all[i as int] == e@);
                assert(all.take(i + 1).drop_last() =~= prev);
            }
            let mut k: usize = 0;
            while k < seen.len() && seen[k] != e.window_id
                invariant
                    k <= seen.len(),
                    forall|j: int| 0 <= j < k ==> seen@[j] != e.window_id,
                decreases seen.len() - k,
            {
                k += 1;
            }
            let window_id: WindowId = if k < seen.len() {
                proof {
                    let c = choose|c: int| 0 <= c < seen@.len() && seen@[c] == e.window_id;
                    if c != k as int {
                        assert(seen@[c] != seen@[k as int]);
                    }
                }
                base + k as u64
            } else {
                seen.push(e.window_id);
                self.new_empty_window()
            };
            let ghost mid = self@;
            proof {
                assert(mid.domains == before.domains);
                assert(mid.has_window(window_id)) by {
                    if k < seen@.len() && seen@ == remote_windows(prev) {
                        assert(mid.windows[before.windows.len() + k].id == window_id);
                    }
                }
            }
            let r = self.complete_spawn(
                domain_id,
                e.size,
                window_id,
                SpawnOutcome::Launched { title: e.title.clone() },
            );
            assert(r is Ok);
            i += 1;
        }
        proof {
            assert(all.take(i as int) =~= all);
        }
    }

    /// Starts attaching the domain `id`; see `Domain::attach`.  Where the
    /// answer is `Connect`, the caller connects off this thread of control
    /// and hands the outcome to `finish_attach`.
    pub fn attach(&mut self, id: DomainId) -> (r: Result<AttachStep, ErrorKind>)
        requires
            old(self).wf(),
        ensures
            final(self).wf(),
            final(self)@ == old(self)@.attach(id),
            match r {
                Ok(step) => old(self)@.has_domain(id) && step == old(self)@.domain(id).attach().1,
                Err(e) => e == ErrorKind::UnknownDomain && !old(self)@.has_domain(id),
            },
    {
        match self.find_domain(id) {
            None => Err(ErrorKind::UnknownDomain),
            Some(k) => {
                let ghost before = self@;
                let ghost old_domains = self.domains@;
                proof {
                    lemma_domain_index(before, id, k as int);
                    lemma_set_domain_state(before, k as int, before.domain(id).attach().0.state);
                }
                let step = self.domains[k].attach();
                proof {
                    assert(self@.domains =~= before.attach(id).domains) by {
                        assert forall|i: int| 0 <= i < self@.domains.len() implies self@.domains[i]
                            == before.attach(id).domains[i] by {
                            if i != k as int {
                                assert(self.domains@[i] == old_domains[i]);
                            }
                        }
                    }
                }
                Ok(step)
            },
        }
    }

    /// Detaches the domain `id`; see `Domain::detach`.  Returns whether the
    /// domain was attached.
    pub fn detach(&mut self, id: DomainId) -> (r: Result<bool, ErrorKind>)
        requires
            old(self).wf(),
        ensures
            final(self).wf(),
            final(self)@ == old(self)@.detach(id),
            match r {
                Ok(was) => old(self)@.has_domain(id) && was == (old(self)@.domain(id).state
                    == DomainState::Attached),
                Err(e) => e == ErrorKind::UnknownDomain && !old(self)@.has_domain(id),
            },
    {
        match self.find_domain(id) {
            None => Err(ErrorKind::UnknownDomain),
            Some(k) => {
                let ghost before = self@;
                let ghost old_domains = self.domains@;
                proof {
                    lemma_domain_index(before, id, k as int);
                    lemma_set_domain_state(before, k as int, before.domain(id).detach().state);
                }
                let was = self.domains[k].detach();
                proof {
                    assert(self@.domains =~= before.detach(id).domains) by {
                        assert forall|i: int| 0 <= i < self@.domains.len() implies self@.domains[i]
                            == before.detach(id).domains[i] by {
                            if i != k as int {
                                assert(self.domains@[i] == old_domains[i]);
                            }
                        }
                    }
                }
                Ok(was)
            },
        }
    }

    /// Applies the outcome of an attach attempt of the client domain `id`.
    ///
    /// This is the one place where the result of the connection work
    /// reaches the registry.  A failure leaves the domain detached, for a
    /// later retry, and is handed back as the error.  On success the
    /// server's tabs are mirrored into new local windows and the domain is
    /// attached.  Where no attempt is under way the outcome is ignored.
    pub fn finish_attach(&mut self, id: DomainId, outcome: Result<Vec<TabEntry>, ErrorKind>) -> (r:
        Result<DomainState, ErrorKind>)
        requires
            old(self).wf(),
            outcome matches Ok(entries) ==> old(self)@.next_window + entries.len() <= u64::MAX && old(
                self,
            )@.next_tab + entries.len() <= u64::MAX,
        ensures
            final(self).wf(),
            final(self)@ == old(self)@.finish_attach(id, outcome_view(outcome)),
            match r {
                Ok(state) => old(self)@.has_domain(id) && state == final(self)@.domain(id).state && (old(
                    self,
                )@.attaching(id) ==> outcome is Ok && state == DomainState::Attached),
                Err(e) => if old(self)@.has_domain(id) {
                    old(self)@.attaching(id) && outcome == Err::<Vec<TabEntry>, ErrorKind>(e)
                        && final(self)@.domain(id).state == DomainState::Detached
                } else {
                    e == ErrorKind::UnknownDomain
                },
            },
    {
        let k = match self.find_domain(id) {
            None => { return Err(ErrorKind::UnknownDomain); },
            Some(k) => k,
        };
        let ghost before = self@;
        let ghost old_domains = self.domains@;
        proof {
            lemma_domain_index(before, id, k as int);
        }
        if self.domains[k].state() != DomainState::Attaching {
            return Ok(self.domains[k].state());
        }
        let success = outcome.is_ok();
        let ghost state = if success {
            DomainState::Attached
        } else {
            DomainState::Detached
        };
        proof {
            lemma_set_domain_state(before, k as int, state);
        }
        let _ = self.domains[k].finish_attach(success);
        let ghost mid = self@;
        proof {
            assert(mid.domains =~= before.set_domain_state(k as int, state).domains) by {
                assert forall|i: int| 0 <= i < mid.domains.len() implies mid.domains[i]
                    == before.set_domain_state(k as int, state).domains[i] by {
                    if i != k as int {
                        assert(self.domains@[i] == old_domains[i]);
                    }
                }
            }
            assert(mid == before.set_domain_state(k as int, state));
            lemma_domain_index(mid, id, k as int);
        }
        match outcome {
            Ok(entries) => {
                self.mirror_entries(id, &entries);
                proof {
                    assert(self@.domains == mid.domains);
                    lemma_domain_index(self@, id, k as int);
                }
                Ok(DomainState::Attached)
            },
            Err(e) => Err(e),
        }
    }
}

} // verus!
