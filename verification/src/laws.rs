//! What holds of the registry model: its invariant is kept, and the
//! listing follows the operations.
use crate::domain::{DomainState, DomainView};
use crate::entry::TabEntryView;
use crate::ids::{DomainId, TabId, WindowId};
use crate::model::{
    entry_of, lists_tab, mirrored_tabs, remote_windows, tab_count, tab_entries, window_entries,
    RegistryView, TabView, WindowView,
};
use vstd::prelude::*;

verus! {

/// A domain with a new identifier can be added to a well-formed registry.
pub proof fn lemma_add_domain_keeps_wf(r: RegistryView, d: DomainView)
    requires
        r.wf(),
        !r.has_domain(d.id),
    ensures
        r.add_domain(d).wf(),
        forall|id: DomainId|
            r.has_domain(id) ==> r.add_domain(d).has_domain(id) && r.add_domain(d).domain(id)
                == r.domain(id),
{
    let a = r.add_domain(d);
    assert forall|id: DomainId| r.has_domain(id) implies a.has_domain(id) && a.domain(id) == r.domain(id) by {
        let i = r.domain_index(id);
        assert(a.domains[i].id == id);
        let j = a.domain_index(id);
        if j != i {
            if j < i {
                assert(a.domains[j].id != a.domains[i].id);
            } else {
                if j < r.domains.len() {
                    assert(a.domains[i].id != a.domains[j].id);
                }
            }
        }
    }
    assert forall|w: int, t: int|
        0 <= w < a.windows.len() && 0 <= t < a.windows[w].tabs.len() implies a.has_domain(
        (#[trigger] a.windows[w].tabs[t]).domain,
    ) by {
        assert(r.has_domain(r.windows[w].tabs[t].domain));
    }
}

/// A new window can be added to a well-formed registry.
pub proof fn lemma_new_window_keeps_wf(r: RegistryView)
    requires
        r.wf(),
        r.next_window < u64::MAX,
    ensures
        r.new_empty_window().wf(),
        r.new_empty_window().has_window(r.next_window),
        r.new_empty_window().window(r.next_window).tabs.len() == 0,
        r.new_empty_window().is_empty() == r.is_empty(),
{
    let a = r.new_empty_window();
    let n = r.windows.len() as int;
    assert(a.windows[n].id == r.next_window);
    assert(a.domains == r.domains);
    assert(a.domain(a.default_domain) == r.domain(r.default_domain));
    let k = a.window_index(r.next_window);
    if k != n {
        assert(a.windows[k].id == r.windows[k].id);
    }
    assert forall|w: int, t: int|
        0 <= w < a.windows.len() && 0 <= t < a.windows[w].tabs.len() implies {
        &&& (#[trigger] a.windows[w].tabs[t]).id < a.next_tab
        &&& a.has_domain(a.windows[w].tabs[t].domain)
    } by {
        assert(w < n);
        assert(a.windows[w].tabs[t] == r.windows[w].tabs[t]);
        assert(r.has_domain(r.windows[w].tabs[t].domain));
    }
    if r.is_empty() {
        assert forall|i: int| 0 <= i < a.windows.len() implies (#[trigger] a.windows[i]).tabs.len() == 0 by {
            if i < n {
                assert(r.windows[i].tabs.len() == 0);
            }
        }
    } else {
        let i = choose|i: int| 0 <= i < r.windows.len() && (#[trigger] r.windows[i]).tabs.len() != 0;
        assert(a.windows[i].tabs.len() != 0);
    }
}

/// The list of entries has one entry for each tab.
pub proof fn lemma_entries_len(windows: Seq<WindowView>)
    ensures
        tab_entries(windows).len() == tab_count(windows),
    decreases windows.len(),
{
    if windows.len() > 0 {
        lemma_entries_len(windows.drop_last());
    }
}

/// A registry is empty exactly when it lists no tab: every window has zero
/// tabs, or there are no windows.
pub proof fn lemma_empty_iff_no_entries(windows: Seq<WindowView>)
    ensures
        (forall|i: int| 0 <= i < windows.len() ==> (#[trigger] windows[i]).tabs.len() == 0) <==> tab_entries(
            windows,
        ).len() == 0,
    decreases windows.len(),
{
    if windows.len() > 0 {
        let init = windows.drop_last();
        lemma_empty_iff_no_entries(init);
        if tab_entries(windows).len() == 0 {
            assert forall|i: int| 0 <= i < windows.len() implies (#[trigger] windows[i]).tabs.len() == 0 by {
                if i < init.len() {
                    assert(init[i] == windows[i]);
                }
            }
        } else {
            if forall|i: int| 0 <= i < windows.len() ==> (#[trigger] windows[i]).tabs.len() == 0 {
                assert forall|i: int| 0 <= i < init.len() implies (#[trigger] init[i]).tabs.len() == 0 by {
                    assert(init[i] == windows[i]);
                }
                assert(windows.last().tabs.len() == 0);
                assert(false);
            }
        }
    }
}

/// A tab with the next identifier, of a registered domain, can be put into
/// an existing window; the registry then is not empty.
pub proof fn lemma_add_tab(r: RegistryView, window_id: WindowId, tab: TabView)
    requires
        r.wf(),
        r.next_tab < u64::MAX,
        r.has_window(window_id),
        r.has_domain(tab.domain),
        tab.id == r.next_tab,
    ensures
        r.add_tab(window_id, tab).wf(),
        !r.add_tab(window_id, tab).is_empty(),
{
    let a = r.add_tab(window_id, tab);
    let k = r.window_index(window_id);
    assert(a.domains == r.domains);
    assert(a.domain(a.default_domain) == r.domain(r.default_domain));
    assert forall|i: int| 0 <= i < a.windows.len() implies (#[trigger] a.windows[i]).id
        == r.windows[i].id by {}
    assert forall|i: int, j: int| 0 <= i < j < a.windows.len() implies (#[trigger] a.windows[i]).id < (
    #[trigger] a.windows[j]).id by {
        assert(r.windows[i].id < r.windows[j].id);
    }
    assert forall|w: int, t: int|
        0 <= w < a.windows.len() && 0 <= t < a.windows[w].tabs.len() implies {
        &&& (#[trigger] a.windows[w].tabs[t]).id <= r.next_tab
        &&& a.has_domain(a.windows[w].tabs[t].domain)
        &&& (a.windows[w].tabs[t].id == r.next_tab <==> (w == k && t == r.windows[k].tabs.len()))
    } by {
        if w < k {
            assert(r.windows[w].id != r.windows[k].id);
        } else if w > k {
            assert(r.windows[k].id != r.windows[w].id);
        }
        if t < r.windows[w].tabs.len() {
            assert(a.windows[w].tabs[t] == r.windows[w].tabs[t]);
            assert(r.has_domain(r.windows[w].tabs[t].domain));
        }
    }
    assert forall|w1: int, t1: int, w2: int, t2: int|
        0 <= w1 < a.windows.len() && 0 <= t1 < a.windows[w1].tabs.len() && 0 <= w2
            < a.windows.len() && 0 <= t2 < a.windows[w2].tabs.len() && (w1 != w2 || t1
            != t2) implies (#[trigger] a.windows[w1].tabs[t1]).id != (
    #[trigger] a.windows[w2].tabs[t2]).id by {
        let n = r.windows[k].tabs.len() as int;
        if w1 == k && t1 == n {
        } else if w2 == k && t2 == n {
        } else {
            assert(a.windows[w1].tabs[t1] == r.windows[w1].tabs[t1]);
            assert(a.windows[w2].tabs[t2] == r.windows[w2].tabs[t2]);
        }
    }
    assert(a.windows[k].tabs.len() != 0);
}

/// In a well-formed registry a tab identifier has one position.
pub proof fn lemma_tab_position(r: RegistryView, id: TabId, w: int, t: int)
    requires
        r.wf(),
        0 <= w < r.windows.len(),
        0 <= t < r.windows[w].tabs.len(),
        r.windows[w].tabs[t].id == id,
    ensures
        r.has_tab(id),
        r.tab_position(id) == (w, t),
{
    let (w2, t2) = r.tab_position(id);
    if w2 != w || t2 != t {
        assert(r.windows[w].tabs[t].id != r.windows[w2].tabs[t2].id);
    }
}

/// In a well-formed registry a window identifier has one position.
pub proof fn lemma_window_index(r: RegistryView, id: WindowId, k: int)
    requires
        r.wf(),
        0 <= k < r.windows.len(),
        r.windows[k].id == id,
    ensures
        r.has_window(id),
        r.window_index(id) == k,
{
    let k2 = r.window_index(id);
    if k2 < k {
        assert(r.windows[k2].id < r.windows[k].id);
    } else if k < k2 {
        assert(r.windows[k].id < r.windows[k2].id);
    }
}

/// The tab at a position can be removed: the registry stays well formed
/// and has no tab of that identifier left.
pub proof fn lemma_remove_tab(r: RegistryView, id: TabId, w: int, t: int)
    requires
        r.wf(),
        0 <= w < r.windows.len(),
        0 <= t < r.windows[w].tabs.len(),
        r.windows[w].tabs[t].id == id,
    ensures
        r.has_tab(id),
        r.tab_position(id) == (w, t),
        r.remove_tab(id).wf(),
        !r.remove_tab(id).has_tab(id),
{
    lemma_tab_position(r, id, w, t);
    let a = r.remove_tab(id);
    assert(a.domains == r.domains);
    assert(a.domain(a.default_domain) == r.domain(r.default_domain));
    // Every tab that is left was there before, at a position that only
    // depends on where it is now.
    let src = |w2: int, t2: int| if w2 == w && t2 >= t { t2 + 1 } else { t2 };
    assert forall|w2: int, t2: int|
        0 <= w2 < a.windows.len() && 0 <= t2 < a.windows[w2].tabs.len() implies {
        &&& 0 <= src(w2, t2) < r.windows[w2].tabs.len()
        &&& (#[trigger] a.windows[w2].tabs[t2]) == r.windows[w2].tabs[src(w2, t2)]
    } by {}
    assert forall|i: int, j: int| 0 <= i < j < a.windows.len() implies (#[trigger] a.windows[i]).id < (
    #[trigger] a.windows[j]).id by {
        assert(r.windows[i].id < r.windows[j].id);
    }
    assert forall|i: int| 0 <= i < a.windows.len() implies (#[trigger] a.windows[i]).id < a.next_window by {
        assert(r.windows[i].id < r.next_window);
    }
    assert forall|w2: int, t2: int|
        0 <= w2 < a.windows.len() && 0 <= t2 < a.windows[w2].tabs.len() implies {
        &&& (#[trigger] a.windows[w2].tabs[t2]).id < a.next_tab
        &&& a.has_domain(a.windows[w2].tabs[t2].domain)
        &&& a.windows[w2].tabs[t2].id != id
    } by {
        let s = src(w2, t2);
        assert(a.windows[w2].tabs[t2] == r.windows[w2].tabs[s]);
        assert(r.windows[w2].tabs[s].id < r.next_tab);
        assert(r.has_domain(r.windows[w2].tabs[s].domain));
        assert(r.windows[w2].tabs[s].id != r.windows[w].tabs[t].id);
    }
    assert forall|w1: int, t1: int, w2: int, t2: int|
        0 <= w1 < a.windows.len() && 0 <= t1 < a.windows[w1].tabs.len() && 0 <= w2
            < a.windows.len() && 0 <= t2 < a.windows[w2].tabs.len() && (w1 != w2 || t1
            != t2) implies (#[trigger] a.windows[w1].tabs[t1]).id != (
    #[trigger] a.windows[w2].tabs[t2]).id by {
        let s1 = src(w1, t1);
        let s2 = src(w2, t2);
        assert(a.windows[w1].tabs[t1] == r.windows[w1].tabs[s1]);
        assert(a.windows[w2].tabs[t2] == r.windows[w2].tabs[s2]);
        assert(r.windows[w1].tabs[s1].id != r.windows[w2].tabs[s2].id);
    }
}

/// The window at a position can be closed: the registry stays well formed
/// and has no window of that identifier left.
pub proof fn lemma_close_window(r: RegistryView, id: WindowId, k: int)
    requires
        r.wf(),
        0 <= k < r.windows.len(),
        r.windows[k].id == id,
    ensures
        r.has_window(id),
        r.window_index(id) == k,
        r.close_window(id).wf(),
        !r.close_window(id).has_window(id),
{
    lemma_window_index(r, id, k);
    let a = r.close_window(id);
    assert(a.domains == r.domains);
    assert(a.domain(a.default_domain) == r.domain(r.default_domain));
    let src = |i: int| if i >= k { i + 1 } else { i };
    assert forall|i: int| 0 <= i < a.windows.len() implies (#[trigger] a.windows[i])
        == r.windows[src(i)] by {}
    assert forall|i: int, j: int| 0 <= i < j < a.windows.len() implies (#[trigger] a.windows[i]).id < (
    #[trigger] a.windows[j]).id by {
        assert(r.windows[src(i)].id < r.windows[src(j)].id);
    }
    assert forall|i: int| 0 <= i < a.windows.len() implies (#[trigger] a.windows[i]).id < a.next_window
        && a.windows[i].id != id by {
        assert(r.windows[src(i)].id < r.next_window);
        if src(i) < k {
            assert(r.windows[src(i)].id < r.windows[k].id);
        } else {
            assert(r.windows[k].id < r.windows[src(i)].id);
        }
    }
    assert forall|w: int, t: int|
        0 <= w < a.windows.len() && 0 <= t < a.windows[w].tabs.len() implies {
        &&& (#[trigger] a.windows[w].tabs[t]).id < a.next_tab
        &&& a.has_domain(a.windows[w].tabs[t].domain)
    } by {
        assert(a.windows[w].tabs[t] == r.windows[src(w)].tabs[t]);
        assert(r.windows[src(w)].tabs[t].id < r.next_tab);
        assert(r.has_domain(r.windows[src(w)].tabs[t].domain));
    }
    assert forall|w1: int, t1: int, w2: int, t2: int|
        0 <= w1 < a.windows.len() && 0 <= t1 < a.windows[w1].tabs.len() && 0 <= w2
            < a.windows.len() && 0 <= t2 < a.windows[w2].tabs.len() && (w1 != w2 || t1
            != t2) implies (#[trigger] a.windows[w1].tabs[t1]).id != (
    #[trigger] a.windows[w2].tabs[t2]).id by {
        assert(a.windows[w1].tabs[t1] == r.windows[src(w1)].tabs[t1]);
        assert(a.windows[w2].tabs[t2] == r.windows[src(w2)].tabs[t2]);
        assert(r.windows[src(w1)].tabs[t1].id != r.windows[src(w2)].tabs[t2].id);
    }
}

/// `remote_windows` lists no identifier twice, lists exactly the window
/// identifiers of the entries, and is no longer than the entries.
pub proof fn lemma_remote_windows(entries: Seq<TabEntryView>)
    ensures
        remote_windows(entries).no_duplicates(),
        remote_windows(entries).len() <= entries.len(),
        forall|id: WindowId|
            remote_windows(entries).contains(id) <==> exists|i: int|
                0 <= i < entries.len() && (#[trigger] entries[i]).window_id == id,
    decreases entries.len(),
{
    if entries.len() > 0 {
        let init = entries.drop_last();
        lemma_remote_windows(init);
        let r0 = remote_windows(init);
        let r = remote_windows(entries);
        let last = entries.last().window_id;
        assert forall|id: WindowId| r.contains(id) implies exists|i: int|
            0 <= i < entries.len() && (#[trigger] entries[i]).window_id == id by {
            let k = choose|k: int| 0 <= k < r.len() && r[k] == id;
            if k < r0.len() {
                assert(r0[k] == id);
                assert(r0.contains(id));
                let i = choose|i: int| 0 <= i < init.len() && (#[trigger] init[i]).window_id == id;
                assert(entries[i].window_id == id);
            } else {
                assert(entries[entries.len() - 1].window_id == id);
            }
        }
        assert forall|id: WindowId|
            (exists|i: int| 0 <= i < entries.len() && (#[trigger] entries[i]).window_id == id) implies r.contains(
            id,
        ) by {
            let i = choose|i: int| 0 <= i < entries.len() && (#[trigger] entries[i]).window_id == id;
            if i < init.len() {
                assert(init[i].window_id == id);
                assert(r0.contains(id));
                let k = choose|k: int| 0 <= k < r0.len() && r0[k] == id;
                assert(r[k] == id);
            } else {
                if r0.contains(last) {
                } else {
                    assert(r[r0.len() as int] == id);
                }
            }
        }
    }
}

/// Mirroring one more entry: the entry's window is created if this is its
/// first entry, and the mirror of the entry becomes that window's last tab.
pub proof fn lemma_mirror_step(r: RegistryView, domain: DomainId, entries: Seq<TabEntryView>, i: int)
    requires
        r.wf(),
        0 <= i < entries.len(),
        r.next_window + entries.len() <= u64::MAX,
        r.next_tab + entries.len() <= u64::MAX,
    ensures
        ({
            let m = r.mirror(domain, entries.take(i));
            let e = entries[i];
            let seen = remote_windows(entries.take(i));
            let tab = TabView { id: (r.next_tab + i) as TabId, domain, size: e.size, title: e.title };
            &&& seen.contains(e.window_id) ==> {
                let k = choose|k: int| 0 <= k < seen.len() && seen[k] == e.window_id;
                r.mirror(domain, entries.take(i + 1)) == m.add_tab((r.next_window + k) as WindowId, tab)
            }
            &&& !seen.contains(e.window_id) ==> r.mirror(domain, entries.take(i + 1))
                == m.new_empty_window().add_tab(m.next_window, tab)
        }),
{
    let prev = entries.take(i);
    let next = entries.take(i + 1);
    assert(next.drop_last() =~= prev);
    assert(next.last() == entries[i]);
    lemma_remote_windows(prev);
    lemma_remote_windows(next);
    let m = r.mirror(domain, prev);
    let n = r.mirror(domain, next);
    let e = entries[i];
    let seen = remote_windows(prev);
    let seen2 = remote_windows(next);
    let tab = TabView { id: (r.next_tab + i) as TabId, domain, size: e.size, title: e.title };
    let base = r.windows.len() as int;
    assert forall|j: int| 0 <= j < base implies (#[trigger] m.windows[j]).id < r.next_window by {
        assert(r.windows[j].id < r.next_window);
    }
    if seen.contains(e.window_id) {
        let k = choose|k: int| 0 <= k < seen.len() && seen[k] == e.window_id;
        let target = (r.next_window + k) as WindowId;
        let a = m.add_tab(target, tab);
        assert(seen2 == seen);
        assert(a.windows =~= n.windows) by {
            assert forall|j: int| 0 <= j < n.windows.len() implies a.windows[j] == n.windows[j] by {
                if j >= base {
                    let kk = j - base;
                    assert(m.windows[j].id == r.next_window + kk);
                    if kk != k {
                        assert(seen[kk] != seen[k]);
                    }
                }
            }
        }
    } else {
        let w = m.new_empty_window();
        let a = w.add_tab(m.next_window, tab);
        assert(seen2 == seen.push(e.window_id));
        assert(a.windows =~= n.windows) by {
            assert forall|j: int| 0 <= j < n.windows.len() implies a.windows[j] == n.windows[j] by {
                if j >= base {
                    let kk = j - base;
                    if kk < seen.len() {
                        assert(m.windows[j].id == r.next_window + kk);
                        assert(seen.contains(seen[kk]));
                    } else {
                        lemma_no_mirrored_tabs(prev, e.window_id, domain, r.next_tab);
                        assert(a.windows[j].tabs =~= n.windows[j].tabs);
                    }
                }
            }
        }
    }
}

/// A remote window that no entry names has no mirrored tab.
pub proof fn lemma_no_mirrored_tabs(
    entries: Seq<TabEntryView>,
    remote: WindowId,
    domain: DomainId,
    first_tab: TabId,
)
    requires
        !remote_windows(entries).contains(remote),
    ensures
        mirrored_tabs(entries, remote, domain, first_tab).len() == 0,
    decreases entries.len(),
{
    if entries.len() > 0 {
        let init = remote_windows(entries.drop_last());
        let r = remote_windows(entries);
        let last = entries.last().window_id;
        if init.contains(remote) {
            let k = choose|k: int| 0 <= k < init.len() && init[k] == remote;
            assert(r[k] == remote);
        }
        if last == remote {
            if !init.contains(last) {
                assert(r[init.len() as int] == remote);
            }
        }
        lemma_no_mirrored_tabs(entries.drop_last(), remote, domain, first_tab);
    }
}

/// In a well-formed registry a domain identifier has one position.
pub proof fn lemma_domain_index(r: RegistryView, id: DomainId, k: int)
    requires
        r.wf(),
        0 <= k < r.domains.len(),
        r.domains[k].id == id,
    ensures
        r.has_domain(id),
        r.domain_index(id) == k,
{
    let k2 = r.domain_index(id);
    if k2 < k {
        assert(r.domains[k2].id != r.domains[k].id);
    } else if k < k2 {
        assert(r.domains[k].id != r.domains[k2].id);
    }
}

/// Changing the state of a domain keeps the registry well formed, and
/// keeps every domain where it is.
pub proof fn lemma_set_domain_state(r: RegistryView, k: int, state: DomainState)
    requires
        r.wf(),
        0 <= k < r.domains.len(),
    ensures
        r.set_domain_state(k, state).wf(),
        forall|id: DomainId| r.set_domain_state(k, state).has_domain(id) == r.has_domain(id),
        forall|id: DomainId|
            r.has_domain(id) ==> r.set_domain_state(k, state).domain_index(id) == r.domain_index(id),
{
    let a = r.set_domain_state(k, state);
    assert forall|i: int| 0 <= i < a.domains.len() implies (#[trigger] a.domains[i]).id == r.domains[i].id
        && a.domains[i].kind == r.domains[i].kind by {}
    assert forall|id: DomainId| a.has_domain(id) == r.has_domain(id) by {
        if r.has_domain(id) {
            let i = r.domain_index(id);
            assert(a.domains[i].id == id);
        }
        if a.has_domain(id) {
            let i = a.domain_index(id);
            assert(r.domains[i].id == id);
        }
    }
    assert forall|i: int, j: int| 0 <= i < j < a.domains.len() implies (#[trigger] a.domains[i]).id != (
    #[trigger] a.domains[j]).id by {
        assert(r.domains[i].id != r.domains[j].id);
    }
    assert forall|id: DomainId| r.has_domain(id) implies a.domain_index(id) == r.domain_index(id) by {
        let i = r.domain_index(id);
        let j = a.domain_index(id);
        assert(a.domains[i].id == id);
        lemma_domain_index(r, id, j);
    }
    assert forall|w: int, t: int|
        0 <= w < a.windows.len() && 0 <= t < a.windows[w].tabs.len() implies a.has_domain(
        (#[trigger] a.windows[w].tabs[t]).domain,
    ) by {
        assert(r.has_domain(r.windows[w].tabs[t].domain));
    }
}

/// Every listed entry is the snapshot of a tab of a window.
pub proof fn lemma_entries_are_tabs(windows: Seq<WindowView>)
    ensures
        forall|i: int|
            0 <= i < tab_entries(windows).len() ==> lists_tab(windows, #[trigger] tab_entries(windows)[i]),
    decreases windows.len(),
{
    if windows.len() > 0 {
        let init = windows.drop_last();
        lemma_entries_are_tabs(init);
        let all = tab_entries(windows);
        assert forall|i: int| 0 <= i < all.len() implies lists_tab(windows, #[trigger] all[i]) by {
            let n = tab_entries(init).len() as int;
            if i < n {
                assert(all[i] == tab_entries(init)[i]);
                assert(lists_tab(init, tab_entries(init)[i]));
                let (w, t) = choose|w: int, t: int|
                    0 <= w < init.len() && 0 <= t < init[w].tabs.len() && tab_entries(init)[i]
                        == entry_of(init[w].id, #[trigger] init[w].tabs[t]);
                assert(all[i] == entry_of(windows[w].id, windows[w].tabs[t]));
            } else {
                let w = windows.len() - 1;
                let t = i - n;
                assert(all[i] == entry_of(windows[w].id, windows[w].tabs[t]));
            }
        }
    }
}

/// Putting a tab at the end of the window at position `k` puts its entry
/// behind the entries of the windows up to and including that window.
pub proof fn lemma_entries_after_push(windows: Seq<WindowView>, k: int, tab: TabView)
    requires
        0 <= k < windows.len(),
    ensures
        ({
            let w = windows[k];
            let pushed = windows.update(k, WindowView { tabs: w.tabs.push(tab), ..w });
            let at = tab_count(windows.take(k + 1)) as int;
            &&& 0 <= at <= tab_entries(windows).len()
            &&& tab_entries(pushed) == tab_entries(windows).insert(at, entry_of(w.id, tab))
        }),
    decreases windows.len(),
{
    let w = windows[k];
    let w2 = WindowView { tabs: w.tabs.push(tab), ..w };
    let pushed = windows.update(k, w2);
    let at = tab_count(windows.take(k + 1)) as int;
    let init = windows.drop_last();
    lemma_entries_len(windows);
    lemma_entries_len(init);
    if k == windows.len() - 1 {
        assert(windows.take(k + 1) =~= windows);
        assert(pushed.drop_last() =~= init);
        assert(window_entries(w2) =~= window_entries(w).push(entry_of(w.id, tab)));
        assert(tab_entries(pushed) =~= tab_entries(windows).insert(at, entry_of(w.id, tab)));
    } else {
        lemma_entries_after_push(init, k, tab);
        assert(init.take(k + 1) =~= windows.take(k + 1));
        assert(pushed.drop_last() =~= init.update(k, w2));
        assert(pushed.last() == windows.last());
        lemma_entries_len(init.take(k + 1));
        assert(tab_entries(pushed) =~= tab_entries(windows).insert(at, entry_of(w.id, tab)));
    }
}

/// What a spawn does to the listing.  The new tab is listed once: its
/// entry carries the window's identifier, the new tab identifier and the
/// size that was asked for, and stands behind the entries of the windows
/// up to its own.  No entry that was listed before carries the new tab
/// identifier, and every such entry stays.  Into an empty registry, the
/// listing is that one entry.
pub proof fn lemma_spawn_round_trip(r: RegistryView, window_id: WindowId, tab: TabView)
    requires
        r.wf(),
        r.has_window(window_id),
        r.has_domain(tab.domain),
        tab.id == r.next_tab,
        r.next_tab < u64::MAX,
    ensures
        ({
            let before = tab_entries(r.windows);
            let after = tab_entries(r.add_tab(window_id, tab).windows);
            let at = tab_count(r.windows.take(r.window_index(window_id) + 1)) as int;
            &&& 0 <= at <= before.len()
            &&& after == before.insert(at, entry_of(window_id, tab))
            &&& forall|i: int| 0 <= i < before.len() ==> (#[trigger] before[i]).tab_id != tab.id
            &&& r.is_empty() ==> after == seq![entry_of(window_id, tab)]
        }),
{
    let k = r.window_index(window_id);
    let w = r.windows[k];
    let a = r.add_tab(window_id, tab);
    let before = tab_entries(r.windows);
    assert(a.windows =~= r.windows.update(k, WindowView { tabs: w.tabs.push(tab), ..w })) by {
        assert forall|i: int| 0 <= i < r.windows.len() && i != k implies (#[trigger] r.windows[i]).id
            != window_id by {
            if i < k {
                assert(r.windows[i].id < r.windows[k].id);
            } else {
                assert(r.windows[k].id < r.windows[i].id);
            }
        }
    }
    lemma_entries_after_push(r.windows, k, tab);
    lemma_entries_are_tabs(r.windows);
    assert forall|i: int| 0 <= i < before.len() implies (#[trigger] before[i]).tab_id != tab.id by {
        assert(lists_tab(r.windows, before[i]));
        let (w, t) = choose|w: int, t: int|
            0 <= w < r.windows.len() && 0 <= t < r.windows[w].tabs.len() && before[i] == entry_of(
                r.windows[w].id,
                #[trigger] r.windows[w].tabs[t],
            );
        assert(r.windows[w].tabs[t].id < r.next_tab);
    }
    if r.is_empty() {
        lemma_empty_iff_no_entries(r.windows);
        assert(before.insert(0, entry_of(window_id, tab)) =~= seq![entry_of(window_id, tab)]);
    }
}

/// The listing of windows behind others is the listing of the first
/// followed by the listing of the second.
pub proof fn lemma_entries_concat(first: Seq<WindowView>, second: Seq<WindowView>)
    ensures
        tab_entries(first + second) == tab_entries(first) + tab_entries(second),
    decreases second.len(),
{
    if second.len() == 0 {
        assert(first + second =~= first);
        assert(tab_entries(first) + tab_entries(second) =~= tab_entries(first));
    } else {
        lemma_entries_concat(first, second.drop_last());
        assert((first + second).drop_last() =~= first + second.drop_last());
        assert((first + second).last() == second.last());
        assert(tab_entries(first + second) =~= tab_entries(first) + tab_entries(second));
    }
}

/// What mirroring the first `i` entries of a server's list makes of a
/// registry: the registry stays well formed, keeps its domains, and lists
/// `i` tabs more.
proof fn lemma_mirror_prefix(r: RegistryView, domain: DomainId, entries: Seq<TabEntryView>, i: int)
    requires
        r.wf(),
        r.has_domain(domain),
        0 <= i <= entries.len(),
        r.next_window + entries.len() <= u64::MAX,
        r.next_tab + entries.len() <= u64::MAX,
    ensures
        r.mirror(domain, entries.take(i)).wf(),
        r.mirror(domain, entries.take(i)).domains == r.domains,
        tab_entries(r.mirror(domain, entries.take(i)).windows).len() == tab_entries(r.windows).len() + i,
    decreases i,
{
    if i == 0 {
        assert(entries.take(0) =~= Seq::empty());
        assert(r.mirror(domain, entries.take(0)).windows =~= r.windows);
        assert(r.mirror(domain, entries.take(0)) == r);
    } else {
        let prev = entries.take(i - 1);
        let m = r.mirror(domain, prev);
        let e = entries[i - 1];
        let seen = remote_windows(prev);
        let tab = TabView { id: (r.next_tab + i - 1) as TabId, domain, size: e.size, title: e.title };
        lemma_mirror_prefix(r, domain, entries, i - 1);
        lemma_mirror_step(r, domain, entries, i - 1);
        lemma_remote_windows(prev);
        assert(m.has_domain(domain));
        if seen.contains(e.window_id) {
            let k = choose|k: int| 0 <= k < seen.len() && seen[k] == e.window_id;
            let target = (r.next_window + k) as WindowId;
            assert(m.windows[r.windows.len() + k].id == target);
            lemma_add_tab(m, target, tab);
            lemma_spawn_round_trip(m, target, tab);
        } else {
            let w = m.new_empty_window();
            lemma_new_window_keeps_wf(m);
            assert(w.domains == m.domains);
            assert(w.has_domain(domain));
            lemma_add_tab(w, m.next_window, tab);
            lemma_spawn_round_trip(w, m.next_window, tab);
            assert(w.windows.drop_last() =~= m.windows);
            assert(tab_entries(w.windows) =~= tab_entries(m.windows)) by {
                assert(window_entries(w.windows.last()) =~= Seq::empty());
            }
        }
    }
}

/// What a successful attach makes of the listing.  The registry stays well
/// formed and keeps its domains.  Everything that was listed stays listed,
/// in place, and behind it come the mirrors of the server's tabs: one
/// for each tab that the server listed.  So the registry is empty
/// afterwards exactly where it was empty and the server listed nothing.
pub proof fn lemma_mirror_listing(r: RegistryView, domain: DomainId, entries: Seq<TabEntryView>)
    requires
        r.wf(),
        r.has_domain(domain),
        r.next_window + entries.len() <= u64::MAX,
        r.next_tab + entries.len() <= u64::MAX,
    ensures
        ({
            let m = r.mirror(domain, entries);
            let added = m.windows.skip(r.windows.len() as int);
            &&& m.wf()
            &&& m.domains == r.domains
            &&& tab_entries(m.windows) == tab_entries(r.windows) + tab_entries(added)
            &&& tab_entries(added).len() == entries.len()
            &&& forall|i: int|
                0 <= i < tab_entries(added).len() ==> r.next_window <= (#[trigger] tab_entries(
                    added,
                )[i]).window_id
            &&& m.is_empty() <==> r.is_empty() && entries.len() == 0
        }),
{
    let m = r.mirror(domain, entries);
    let added = m.windows.skip(r.windows.len() as int);
    lemma_mirror_prefix(r, domain, entries, entries.len() as int);
    assert(entries.take(entries.len() as int) =~= entries);
    assert(m.windows =~= r.windows + added);
    lemma_entries_concat(r.windows, added);
    lemma_empty_iff_no_entries(m.windows);
    lemma_empty_iff_no_entries(r.windows);
    lemma_entries_are_tabs(added);
    assert forall|i: int| 0 <= i < tab_entries(added).len() implies r.next_window <= (
    #[trigger] tab_entries(added)[i]).window_id by {
        assert(lists_tab(added, tab_entries(added)[i]));
        let (w, t) = choose|w: int, t: int|
            0 <= w < added.len() && 0 <= t < added[w].tabs.len() && tab_entries(added)[i] == entry_of(
                added[w].id,
                #[trigger] added[w].tabs[t],
            );
        lemma_remote_windows(entries);
        assert(added[w] == m.windows[r.windows.len() + w]);
        assert(added[w].id == r.next_window + w);
    }
}

} // verus!
