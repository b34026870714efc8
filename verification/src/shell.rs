use vstd::prelude::*;

verus! {

/// The states that an xdg toplevel can be configured with.
#[derive(Debug, PartialEq, Eq, Structural)]
pub enum ToplevelState {
    Maximized,
    Fullscreen,
    Resizing,
    Activated,
}

/// The wire value of each state in the xdg-shell protocol.
pub open spec fn toplevel_state_raw(state: ToplevelState) -> u32 {
    match state {
        ToplevelState::Maximized => 1,
        ToplevelState::Fullscreen => 2,
        ToplevelState::Resizing => 3,
        ToplevelState::Activated => 4,
    }
}

impl ToplevelState {
    /// The value that stands for this state on the wire.
    pub fn to_raw(&self) -> (raw: u32)
        ensures
            raw == toplevel_state_raw(*self),
    {
        match self {
            ToplevelState::Maximized => 1,
            ToplevelState::Fullscreen => 2,
            ToplevelState::Resizing => 3,
            ToplevelState::Activated => 4,
        }
    }
}

/// The configuration sent to a toplevel surface.
#[derive(Debug)]
pub struct ToplevelConfigure {
    pub size: Option<(i32, i32)>,
    pub states: Vec<ToplevelState>,
    pub serial: u32,
}

/// The configuration sent to a popup surface.
#[derive(Debug)]
pub struct PopupConfigure {
    pub size: (i32, i32),
    pub position: (i32, i32),
    pub serial: u32,
}

/// The counters that the shell keeps: the serial of the last configure sent
/// to a new toplevel, and the id that the next toplevel surface will get.
#[derive(Debug)]
pub struct ShellSerials {
    pub serial: u32,
    pub surface_id_serial: u64,
}

/// The shell's counters after a new toplevel: the configure serial moves on
/// by one, and the surface id counter by one where the toplevel has a surface.
pub open spec fn after_new_toplevel(s: ShellSerials, has_surface: bool) -> ShellSerials {
    ShellSerials {
        serial: (s.serial + 1) as u32,
        surface_id_serial: if has_surface { (s.surface_id_serial + 1) as u64 } else { s.surface_id_serial },
    }
}

/// Both counters can move on by one.
pub open spec fn can_take_toplevel(s: ShellSerials, has_surface: bool) -> bool {
    &&& s.serial < u32::MAX
    &&& has_surface ==> s.surface_id_serial < u64::MAX
}

impl ShellSerials {
    /// Counters of a shell that has seen no toplevel yet.
    pub fn new() -> (s: Self)
        ensures
            s.serial == 0,
            s.surface_id_serial == 0,
    {
        ShellSerials { serial: 0, surface_id_serial: 0 }
    }

    /// Handles a new toplevel: its surface, where it has one, gets the next
    /// surface id (returned), and the toplevel is configured activated, with
    /// no size and the next serial.
    pub fn new_toplevel(&mut self, has_surface: bool) -> (result: (Option<u64>, ToplevelConfigure))
        requires
            can_take_toplevel(*old(self), has_surface),
        ensures
            *final(self) == after_new_toplevel(*old(self), has_surface),
            result.0 == (if has_surface { Some(old(self).surface_id_serial) } else { None }),
            result.1.size is None,
            result.1.states@ == seq![ToplevelState::Activated],
            result.1.serial == final(self).serial,
    {
        let assigned = if has_surface {
            let id = self.surface_id_serial;
            self.surface_id_serial = self.surface_id_serial + 1;
            Some(id)
        } else {
            None
        };
        self.serial = self.serial + 1;
        let mut states: Vec<ToplevelState> = Vec::new();
        states.push(ToplevelState::Activated);
        (assigned, ToplevelConfigure { size: None, states: states, serial: self.serial })
    }
}

/// Configures a new popup: 10 by 10 at (10, 10), with serial 42.
pub fn new_popup() -> (c: PopupConfigure)
    ensures
        c.size == (10i32, 10i32),
        c.position == (10i32, 10i32),
        c.serial == 42,
{
    PopupConfigure { size: (10, 10), position: (10, 10), serial: 42 }
}

/// Answers a request to change the display state of a toplevel: no size, no
/// states, serial 42.
pub fn change_display_state() -> (c: ToplevelConfigure)
    ensures
        c.size is None,
        c.states@.len() == 0,
        c.serial == 42,
{
    ToplevelConfigure { size: None, states: Vec::new(), serial: 42 }
}

/// The surface ids given over a run of new toplevels, one entry per
/// toplevel (`None` for one without a surface), starting from counters `s`.
pub open spec fn assigned_ids(s: ShellSerials, has_surface: Seq<bool>) -> Seq<Option<u64>>
    decreases has_surface.len(),
{
    if has_surface.len() == 0 {
        Seq::empty()
    } else {
        let first = if has_surface[0] { Some(s.surface_id_serial) } else { None };
        seq![first] + assigned_ids(after_new_toplevel(s, has_surface[0]), has_surface.drop_first())
    }
}

/// The counters after a run of new toplevels.
pub open spec fn after_run(s: ShellSerials, has_surface: Seq<bool>) -> ShellSerials
    decreases has_surface.len(),
{
    if has_surface.len() == 0 {
        s
    } else {
        after_run(after_new_toplevel(s, has_surface[0]), has_surface.drop_first())
    }
}

/// The counters never overflow over the run.
pub open spec fn run_fits(s: ShellSerials, has_surface: Seq<bool>) -> bool
    decreases has_surface.len(),
{
    if has_surface.len() == 0 {
        true
    } else {
        can_take_toplevel(s, has_surface[0]) && run_fits(after_new_toplevel(s, has_surface[0]), has_surface.drop_first())
    }
}

/// Over a run of new toplevels (where the counters do not overflow), one
/// entry per toplevel is given, a surface id exactly to those with a
/// surface, each id lies between the surface counter before and after the
/// run, and the configure serial moves on by the number of toplevels.
pub proof fn lemma_run_counters(s: ShellSerials, has_surface: Seq<bool>)
    requires
        run_fits(s, has_surface),
    ensures
        assigned_ids(s, has_surface).len() == has_surface.len(),
        forall|i: int| 0 <= i < has_surface.len() ==> (#[trigger] assigned_ids(s, has_surface)[i] is Some <==> has_surface[i]),
        forall|i: int| 0 <= i < has_surface.len() && has_surface[i] ==> {
            &&& s.surface_id_serial <= #[trigger] assigned_ids(s, has_surface)[i]->0
            &&& assigned_ids(s, has_surface)[i]->0 < after_run(s, has_surface).surface_id_serial
        },
        s.surface_id_serial <= after_run(s, has_surface).surface_id_serial,
        s.serial + has_surface.len() == after_run(s, has_surface).serial,
    decreases has_surface.len(),
{
    if has_surface.len() > 0 {
        let next = after_new_toplevel(s, has_surface[0]);
        let rest = has_surface.drop_first();
        lemma_run_counters(next, rest);
        let ids = assigned_ids(s, has_surface);
        assert forall|i: int| 0 <= i < has_surface.len() implies (#[trigger] ids[i] is Some <==> has_surface[i]) by {
            if i > 0 {
                assert(ids[i] == assigned_ids(next, rest)[i - 1]);
                assert(rest[i - 1] == has_surface[i]);
            }
        }
        assert forall|i: int| 0 <= i < has_surface.len() && has_surface[i] implies {
            &&& s.surface_id_serial <= #[trigger] ids[i]->0
            &&& ids[i]->0 < after_run(s, has_surface).surface_id_serial
        } by {
            if i > 0 {
                assert(ids[i] == assigned_ids(next, rest)[i - 1]);
                assert(rest[i - 1] == has_surface[i]);
            }
        }
    }
}

/// Each toplevel surface gets an id of its own: over any run of new
/// toplevels from any counters (where the counters do not overflow), the
/// surface ids given are pairwise different, and each later one is larger.
pub proof fn lemma_surface_ids_unique(s: ShellSerials, has_surface: Seq<bool>, i: int, j: int)
    requires
        run_fits(s, has_surface),
        0 <= i < j < has_surface.len(),
        has_surface[i],
        has_surface[j],
    ensures
        assigned_ids(s, has_surface)[i]->0 < assigned_ids(s, has_surface)[j]->0,
    decreases has_surface.len(),
{
    let next = after_new_toplevel(s, has_surface[0]);
    let rest = has_surface.drop_first();
    lemma_run_counters(next, rest);
    assert(assigned_ids(s, has_surface)[j] == assigned_ids(next, rest)[j - 1]);
    assert(rest[j - 1] == has_surface[j]);
    if i == 0 {
        assert(assigned_ids(s, has_surface)[0] == Some(s.surface_id_serial));
    } else {
        assert(assigned_ids(s, has_surface)[i] == assigned_ids(next, rest)[i - 1]);
        assert(rest[i - 1] == has_surface[i]);
        lemma_surface_ids_unique(next, rest, i - 1, j - 1);
    }
}

/// How many of the flags are set.
pub open spec fn count_set(flags: Seq<bool>) -> nat
    decreases flags.len(),
{
    if flags.len() == 0 {
        0
    } else {
        (if flags[0] { 1nat } else { 0nat }) + count_set(flags.drop_first())
    }
}

/// The serials of the configures sent over a run of new toplevels, one per
/// toplevel, starting from counters `s`.
pub open spec fn configure_serials(s: ShellSerials, has_surface: Seq<bool>) -> Seq<u32>
    decreases has_surface.len(),
{
    if has_surface.len() == 0 {
        Seq::empty()
    } else {
        let next = after_new_toplevel(s, has_surface[0]);
        seq![next.serial] + configure_serials(next, has_surface.drop_first())
    }
}

/// Over a run of new toplevels (where the counters do not overflow), the
/// i-th toplevel (counting from 0) gets, where it has a surface, the surface
/// counter it started from plus the number of earlier toplevels with a
/// surface, and its configure carries the starting serial plus i + 1.
pub proof fn lemma_run_exact(s: ShellSerials, has_surface: Seq<bool>, i: int)
    requires
        run_fits(s, has_surface),
        0 <= i < has_surface.len(),
    ensures
        assigned_ids(s, has_surface)[i] == (if has_surface[i] {
            Some((s.surface_id_serial + count_set(has_surface.take(i))) as u64)
        } else {
            None
        }),
        configure_serials(s, has_surface)[i] == s.serial + i + 1,
    decreases has_surface.len(),
{
    let next = after_new_toplevel(s, has_surface[0]);
    let rest = has_surface.drop_first();
    assert(has_surface.take(0) =~= Seq::<bool>::empty());
    if i > 0 {
        lemma_run_exact(next, rest, i - 1);
        lemma_run_counters(next, rest);
        lemma_configure_serials_len(next, rest);
        assert(assigned_ids(s, has_surface)[i] == assigned_ids(next, rest)[i - 1]);
        assert(configure_serials(s, has_surface)[i] == configure_serials(next, rest)[i - 1]);
        assert(rest[i - 1] == has_surface[i]);
        assert(has_surface.take(i).drop_first() =~= rest.take(i - 1));
        assert(has_surface.take(i)[0] == has_surface[0]);
    }
}

proof fn lemma_configure_serials_len(s: ShellSerials, has_surface: Seq<bool>)
    ensures
        configure_serials(s, has_surface).len() == has_surface.len(),
    decreases has_surface.len(),
{
    if has_surface.len() > 0 {
        lemma_configure_serials_len(after_new_toplevel(s, has_surface[0]), has_surface.drop_first());
    }
}

/// The counters do not overflow over a run whose length leaves room in both.
pub proof fn lemma_run_fits(s: ShellSerials, has_surface: Seq<bool>)
    requires
        s.serial + has_surface.len() <= u32::MAX,
        s.surface_id_serial + has_surface.len() <= u64::MAX,
    ensures
        run_fits(s, has_surface),
    decreases has_surface.len(),
{
    if has_surface.len() > 0 {
        lemma_run_fits(after_new_toplevel(s, has_surface[0]), has_surface.drop_first());
    }
}

/// From a fresh shell, over any run of n < 2^32 new toplevels that all have
/// a surface (as every xdg toplevel does), the i-th toplevel (counting from
/// 1) gets surface id i - 1 and its configure carries serial i.
pub proof fn lemma_fresh_shell_run(has_surface: Seq<bool>, i: int)
    requires
        has_surface.len() <= u32::MAX,
        forall|k: int| 0 <= k < has_surface.len() ==> #[trigger] has_surface[k],
        1 <= i <= has_surface.len(),
    ensures
        assigned_ids(ShellSerials { serial: 0, surface_id_serial: 0 }, has_surface)[i - 1] == Some((i - 1) as u64),
        configure_serials(ShellSerials { serial: 0, surface_id_serial: 0 }, has_surface)[i - 1] == i,
{
    let s = ShellSerials { serial: 0, surface_id_serial: 0 };
    lemma_run_fits(s, has_surface);
    lemma_run_exact(s, has_surface, i - 1);
    lemma_count_all_set(has_surface.take(i - 1));
}

proof fn lemma_count_all_set(flags: Seq<bool>)
    requires
        forall|k: int| 0 <= k < flags.len() ==> #[trigger] flags[k],
    ensures
        count_set(flags) == flags.len(),
    decreases flags.len(),
{
    if flags.len() > 0 {
        let rest = flags.drop_first();
        assert forall|k: int| 0 <= k < rest.len() implies #[trigger] rest[k] by {
            assert(rest[k] == flags[k + 1]);
        }
        assert(flags[0]);
        lemma_count_all_set(rest);
    }
}

} // verus!
