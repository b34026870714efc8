use vstd::prelude::*;

use crate::window_manager::{WindowError, WindowMetaData};

verus! {

/// One toplevel window held by the map.
pub struct Window<T> {
    id: u64,
    toplevel: T,
}

/// The toplevel windows of the compositor, each under the id it was given
/// when it was inserted. Ids are handed out in increasing order from 0 and
/// are never given twice.
pub struct WindowMap<T> {
    windows: Vec<Window<T>>,
    id_serial: u64,
}

/// The toplevel stored under `id` in a list of (id, toplevel) entries.
pub open spec fn lookup<T>(entries: Seq<(u64, T)>, id: u64) -> Option<T>
    decreases entries.len(),
{
    if entries.len() == 0 {
        None
    } else if entries.last().0 == id {
        Some(entries.last().1)
    } else {
        lookup(entries.drop_last(), id)
    }
}

/// The entries of `entries` whose flag in `keep` is set, in their order.
pub open spec fn select<T>(entries: Seq<(u64, T)>, keep: Seq<bool>) -> Seq<(u64, T)>
    decreases entries.len(),
{
    if entries.len() == 0 || keep.len() == 0 {
        Seq::empty()
    } else {
        let rest = select(entries.drop_last(), keep.drop_last());
        if keep.last() {
            rest.push(entries.last())
        } else {
            rest
        }
    }
}

/// The ids of the entries rise strictly, and all lie below `bound`.
pub open spec fn ids_increasing_below<T>(entries: Seq<(u64, T)>, bound: u64) -> bool {
    &&& forall|a: int, b: int| 0 <= a < b < entries.len() ==> #[trigger] entries[a].0 < #[trigger] entries[b].0
    &&& forall|a: int| 0 <= a < entries.len() ==> #[trigger] entries[a].0 < bound
}

proof fn lemma_lookup_absent<T>(entries: Seq<(u64, T)>, id: u64)
    requires
        forall|a: int| 0 <= a < entries.len() ==> #[trigger] entries[a].0 != id,
    ensures
        lookup(entries, id) is None,
    decreases entries.len(),
{
    if entries.len() > 0 {
        assert(entries[entries.len() - 1].0 != id);
        lemma_lookup_absent(entries.drop_last(), id);
    }
}

proof fn lemma_lookup_at<T>(entries: Seq<(u64, T)>, bound: u64, a: int)
    requires
        ids_increasing_below(entries, bound),
        0 <= a < entries.len(),
    ensures
        lookup(entries, entries[a].0) == Some(entries[a].1),
    decreases entries.len(),
{
    if a < entries.len() - 1 {
        assert(entries[a].0 < entries[entries.len() - 1].0);
        let rest = entries.drop_last();
        assert(rest[a] == entries[a]);
        assert(ids_increasing_below(rest, bound)) by {
            assert forall|x: int, y: int| 0 <= x < y < rest.len() implies #[trigger] rest[x].0 < #[trigger] rest[y].0 by {
                assert(rest[x] == entries[x] && rest[y] == entries[y]);
            }
            assert forall|x: int| 0 <= x < rest.len() implies #[trigger] rest[x].0 < bound by {
                assert(rest[x] == entries[x]);
            }
        }
        lemma_lookup_at(rest, bound, a);
    }
}

/// The (id, toplevel) pairs of a list of windows.
spec fn entries_of<T>(windows: Seq<Window<T>>) -> Seq<(u64, T)> {
    windows.map_values(|w: Window<T>| (w.id, w.toplevel))
}

impl<T> WindowMap<T> {
    /// The windows as (id, toplevel) pairs in increasing order of id.
    pub closed spec fn entries(&self) -> Seq<(u64, T)> {
        entries_of(self.windows@)
    }

    /// The id that the next inserted window will get.
    pub closed spec fn next_id(&self) -> u64 {
        self.id_serial
    }

    /// The ids rise strictly and all lie below the next id to hand out.
    /// Every map keeps this at all times.
    #[verifier::type_invariant]
    pub closed spec fn wf(&self) -> bool {
        ids_increasing_below(self.entries(), self.next_id())
    }

    /// The toplevel stored under `id`, if any.
    pub open spec fn spec_get(&self, id: u64) -> Option<T> {
        lookup(self.entries(), id)
    }

    /// An empty map; the first window inserted gets id 0.
    pub fn new() -> (map: Self)
        ensures
            map.wf(),
            map.entries() == Seq::<(u64, T)>::empty(),
            map.next_id() == 0,
    {
        let map = WindowMap { windows: Vec::new(), id_serial: 0 };
        assert(map.entries() =~= Seq::<(u64, T)>::empty());
        map
    }

    /// The id that the next inserted window will get.
    pub fn id_serial(&self) -> (n: u64)
        ensures
            n == self.next_id(),
    {
        self.id_serial
    }

    /// Stores a new toplevel under the next free id, and moves the next id on
    /// by one.
    pub fn insert(&mut self, toplevel: T)
        requires
            old(self).next_id() < u64::MAX,
        ensures
            final(self).wf(),
            final(self).entries() == old(self).entries().push((old(self).next_id(), toplevel)),
            final(self).next_id() == old(self).next_id() + 1,
    {
        proof {
            use_type_invariant(&*self);
        }
        let ghost before = self.entries();
        let id = self.id_serial;
        self.id_serial = id + 1;
        let window = Window { id: id, toplevel: toplevel };
        let mut windows: Vec<Window<T>> = Vec::new();
        std::mem::swap(&mut windows, &mut self.windows);
        windows.push(window);
        proof {
            assert(entries_of(windows@) =~= before.push((id, toplevel)));
        }
        self.windows = windows;
        assert(self.entries() =~= before.push((old(self).id_serial, toplevel)));
    }

    /// The toplevel of the window with this id.
    pub fn get(&self, id: u64) -> (result: Option<&T>)
        ensures
            match result {
                Some(t) => self.spec_get(id) == Some(*t),
                None => self.spec_get(id) is None,
            },
    {
        proof {
            use_type_invariant(self);
        }
        let n = self.windows.len();
        let mut i: usize = 0;
        while i < n
            invariant
                n == self.windows@.len(),
                i <= n,
                self.wf(),
                forall|a: int| 0 <= a < i ==> #[trigger] self.entries()[a].0 != id,
            decreases n - i,
        {
            if self.windows[i].id == id {
                proof {
                    assert(self.entries()[i as int] == (self.windows@[i as int].id, self.windows@[i as int].toplevel));
                    lemma_lookup_at(self.entries(), self.id_serial, i as int);
                }
                return Some(&self.windows[i].toplevel);
            }
            assert(self.entries()[i as int].0 == self.windows@[i as int].id);
            i = i + 1;
        }
        proof {
            lemma_lookup_absent(self.entries(), id);
        }
        None
    }

    /// The surface of the window with this id, where the window has one:
    /// `surface_of` reads it from the toplevel.
    pub fn get_surface<S, F: Fn(&T) -> Option<S>>(&self, id: u64, surface_of: F) -> (result: Option<S>)
        requires
            forall|t: &T| #[trigger] surface_of.requires((t,)),
        ensures
            match self.spec_get(id) {
                Some(t) => surface_of.ensures((&t,), result),
                None => result is None,
            },
    {
        match self.get(id) {
            Some(t) => surface_of(t),
            None => None,
        }
    }

    /// The surface of the window with this id, or `NoSurface` where there is
    /// no such window or it has no surface: the first step of every request
    /// that works on a window's surface.
    pub fn surface_for<S, F: Fn(&T) -> Option<S>>(&self, id: u64, surface_of: F) -> (result: Result<S, WindowError>)
        requires
            forall|t: &T| #[trigger] surface_of.requires((t,)),
        ensures
            match self.spec_get(id) {
                None => result == Err::<S, WindowError>(WindowError::NoSurface(id)),
                Some(t) => match result {
                    Ok(s) => surface_of.ensures((&t,), Some(s)),
                    Err(e) => e == WindowError::NoSurface(id) && surface_of.ensures((&t,), None::<S>),
                },
            },
    {
        match self.get_surface(id, surface_of) {
            Some(s) => Ok(s),
            None => Err(WindowError::NoSurface(id)),
        }
    }

    /// Drops the windows whose toplevel `alive` reports dead; the others keep
    /// their ids and order, and the next id to hand out stays as it was.
    pub fn refresh<F: Fn(&T) -> bool>(&mut self, alive: F)
        requires
            forall|t: &T| #[trigger] alive.requires((t,)),
        ensures
            final(self).wf(),
            final(self).next_id() == old(self).next_id(),
            exists|keep: Seq<bool>| {
                &&& keep.len() == old(self).entries().len()
                &&& forall|i: int| 0 <= i < keep.len() ==> #[trigger] alive.ensures((&old(self).entries()[i].1,), keep[i])
                &&& final(self).entries() == select(old(self).entries(), keep)
            },
    {
        proof {
            use_type_invariant(&*self);
        }
        let ghost orig = self.entries();
        let mut windows: Vec<Window<T>> = Vec::new();
        std::mem::swap(&mut windows, &mut self.windows);
        let ghost mut keep: Seq<bool> = Seq::empty();
        let mut i: usize = 0;
        while i < windows.len()
            invariant
                self.id_serial == old(self).id_serial,
                keep.len() <= orig.len(),
                orig == old(self).entries(),
                ids_increasing_below(orig, self.id_serial),
                entries_of(windows@) == select(orig.take(keep.len() as int), keep) + orig.skip(keep.len() as int),
                i == select(orig.take(keep.len() as int), keep).len(),
                forall|j: int| 0 <= j < keep.len() ==> #[trigger] alive.ensures((&orig[j].1,), keep[j]),
                forall|t: &T| #[trigger] alive.requires((t,)),
                ids_increasing_below(entries_of(windows@), self.id_serial),
            decreases orig.len() - keep.len(),
        {
            let ghost k = keep.len() as int;
            let ghost kept_before = select(orig.take(k), keep);
            proof {
                assert(entries_of(windows@).len() == kept_before.len() + orig.len() - k);
                assert(entries_of(windows@)[i as int] == orig.skip(k)[0]);
                assert(entries_of(windows@)[i as int] == (windows@[i as int].id, windows@[i as int].toplevel));
            }
            let is_alive = alive(&windows[i].toplevel);
            proof {
                assert(orig.take(k + 1).drop_last() =~= orig.take(k));
                assert(keep.push(is_alive).drop_last() =~= keep);
                assert(orig.take(k + 1).last() == orig[k]);
                assert(orig.skip(k) =~= seq![orig[k]] + orig.skip(k + 1));
                keep = keep.push(is_alive);
            }
            if is_alive {
                i = i + 1;
                proof {
                    assert(select(orig.take(k + 1), keep) == kept_before.push(orig[k]));
                    assert(entries_of(windows@) =~= select(orig.take(k + 1), keep) + orig.skip(k + 1));
                }
            } else {
                let ghost before_entries = entries_of(windows@);
                windows.remove(i);
                proof {
                    assert(select(orig.take(k + 1), keep) == kept_before);
                    assert(entries_of(windows@) =~= before_entries.remove(i as int));
                    assert(entries_of(windows@) =~= select(orig.take(k + 1), keep) + orig.skip(k + 1));
                    let e = entries_of(windows@);
                    assert forall|a: int, b: int| 0 <= a < b < e.len() implies #[trigger] e[a].0 < #[trigger] e[b].0 by {
                        let a0 = if a < i { a } else { a + 1 };
                        let b0 = if b < i { b } else { b + 1 };
                        assert(e[a] == before_entries[a0]);
                        assert(e[b] == before_entries[b0]);
                    }
                    assert forall|a: int| 0 <= a < e.len() implies #[trigger] e[a].0 < self.id_serial by {
                        let a0 = if a < i { a } else { a + 1 };
                        assert(e[a] == before_entries[a0]);
                    }
                }
            }
        }
        proof {
            assert(keep.len() == orig.len()) by {
                if keep.len() < orig.len() {
                    assert(entries_of(windows@).len() > i);
                }
            }
            assert(orig.take(orig.len() as int) =~= orig);
            assert(entries_of(windows@) =~= select(orig, keep));
        }
        self.windows = windows;
    }

    /// The metadata of the window with this id: its id, and the client's pid
    /// and the window's title as `probe` reads them from the toplevel.
    pub fn get_window_metadata<F: Fn(&T) -> (Option<i32>, Option<String>)>(&self, id: u64, probe: F) -> (result: Option<WindowMetaData>)
        requires
            forall|t: &T| #[trigger] probe.requires((t,)),
        ensures
            match (self.spec_get(id), result) {
                (Some(t), Some(m)) => m.id == id && probe.ensures((&t,), (m.pid, m.title)),
                (None, None) => true,
                _ => false,
            },
    {
        match self.get(id) {
            Some(t) => {
                let (pid, title) = probe(t);
                Some(WindowMetaData { id: id, pid: pid, title: title })
            },
            None => None,
        }
    }

    /// The metadata of every window, in increasing order of id.
    pub fn get_windows_metadata<F: Fn(&T) -> (Option<i32>, Option<String>)>(&self, probe: F) -> (result: Vec<WindowMetaData>)
        requires
            forall|t: &T| #[trigger] probe.requires((t,)),
        ensures
            result@.len() == self.entries().len(),
            forall|i: int| 0 <= i < result@.len() ==> {
                &&& #[trigger] result@[i].id == self.entries()[i].0
                &&& probe.ensures((&self.entries()[i].1,), (result@[i].pid, result@[i].title))
            },
    {
        let n = self.windows.len();
        let mut result: Vec<WindowMetaData> = Vec::with_capacity(n);
        let mut i: usize = 0;
        while i < n
            invariant
                n == self.windows@.len(),
                i <= n,
                result@.len() == i,
                forall|k: int| 0 <= k < i ==> {
                    &&& #[trigger] result@[k].id == self.entries()[k].0
                    &&& probe.ensures((&self.entries()[k].1,), (result@[k].pid, result@[k].title))
                },
                forall|t: &T| #[trigger] probe.requires((t,)),
            decreases n - i,
        {
            let (pid, title) = probe(&self.windows[i].toplevel);
            result.push(WindowMetaData { id: self.windows[i].id, pid: pid, title: title });
            i = i + 1;
        }
        result
    }
}

proof fn lemma_select_lookup<T>(entries: Seq<(u64, T)>, keep: Seq<bool>, bound: u64, id: u64)
    requires
        ids_increasing_below(entries, bound),
    ensures
        lookup(select(entries, keep), id) is Some ==> lookup(select(entries, keep), id) == lookup(entries, id),
    decreases entries.len(),
{
    if entries.len() > 0 && keep.len() > 0 {
        let rest = entries.drop_last();
        assert(ids_increasing_below(rest, bound)) by {
            assert forall|x: int, y: int| 0 <= x < y < rest.len() implies #[trigger] rest[x].0 < #[trigger] rest[y].0 by {
                assert(rest[x] == entries[x] && rest[y] == entries[y]);
            }
            assert forall|x: int| 0 <= x < rest.len() implies #[trigger] rest[x].0 < bound by {
                assert(rest[x] == entries[x]);
            }
        }
        lemma_select_lookup(rest, keep.drop_last(), bound, id);
        let last = entries.last();
        let rest_sel = select(rest, keep.drop_last());
        let sel = select(entries, keep);
        if keep.last() {
            assert(sel == rest_sel.push(last));
            assert(sel.drop_last() =~= rest_sel);
            assert(sel.last() == last);
        } else {
            assert(sel == rest_sel);
        }
        if id == last.0 && !keep.last() {
            assert forall|a: int| 0 <= a < rest.len() implies #[trigger] rest[a].0 != id by {
                assert(rest[a] == entries[a]);
                assert(entries[a].0 < entries[entries.len() - 1].0);
            }
            lemma_lookup_absent(rest, id);
        }
    }
}

/// Listing and looking up agree: every window that the listing shows under
/// an id is the window that a lookup of that id finds.
pub proof fn lemma_listing_matches_lookup<T>(map: WindowMap<T>, i: int)
    requires
        map.wf(),
        0 <= i < map.entries().len(),
    ensures
        map.spec_get(map.entries()[i].0) == Some(map.entries()[i].1),
{
    lemma_lookup_at(map.entries(), map.next_id(), i);
}

/// A window is found under the id that inserting it gave, that id was free
/// before, and every other id finds what it found before.
pub proof fn lemma_insert_then_get<T>(before: WindowMap<T>, after: WindowMap<T>, toplevel: T)
    requires
        before.wf(),
        after.entries() == before.entries().push((before.next_id(), toplevel)),
    ensures
        before.spec_get(before.next_id()) is None,
        after.spec_get(before.next_id()) == Some(toplevel),
        forall|id: u64| id != before.next_id() ==> #[trigger] after.spec_get(id) == before.spec_get(id),
{
    assert forall|a: int| 0 <= a < before.entries().len() implies #[trigger] before.entries()[a].0 != before.next_id() by {}
    lemma_lookup_absent(before.entries(), before.next_id());
    assert(after.entries().drop_last() =~= before.entries());
}

/// Refreshing only drops windows: every id that still finds a window after a
/// refresh finds the same window it found before.
pub proof fn lemma_refresh_keeps<T>(before: WindowMap<T>, after: WindowMap<T>, keep: Seq<bool>, id: u64)
    requires
        before.wf(),
        after.entries() == select(before.entries(), keep),
    ensures
        after.spec_get(id) is Some ==> after.spec_get(id) == before.spec_get(id),
        before.spec_get(id) is None ==> after.spec_get(id) is None,
{
    lemma_select_lookup(before.entries(), keep, before.next_id(), id);
}

} // verus!
