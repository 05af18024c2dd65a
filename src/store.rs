//! The toast store: the pending FIFO, the active toasts in order of admission,
//! and the throttle clock that spaces admissions.

use vstd::prelude::*;
use queue::Queue;
use crate::options::{ToastError, ToastOptions, ToastPosition};
use crate::geometry::{
    dimensions, extent, fits_padded, heights, lemma_heights_bounds, lemma_stack_disjoint, padded,
    padded_fits, place_after, placement, saturate, stack_offset, stacked_y, MonitorGeometry, Point,
    Rect, Size,
};
use crate::pending::{dequeue, enqueue, new_queue, queue_bound, queued, queued_items};

verus! {

/// Shortest time, in milliseconds, between two admissions, however short the
/// enter animation of the earlier toast is.
pub const MIN_THROTTLE_INTERVAL: u64 = 100;

/// Longest time, in milliseconds, that an admission can hold back the next:
/// the largest enter animation an `i64` can hold.
pub const MAX_THROTTLE_INTERVAL: u64 = 0x7fff_ffff_ffff_ffff;

/// A request waiting for admission; `size` is the toast's padded size.
#[derive(Debug, Clone)]
pub struct ToastRequest {
    pub id: u64,
    pub message: String,
    pub options: ToastOptions,
    pub size: Size,
}

/// A toast on screen.
#[derive(Debug)]
pub struct ActiveToast {
    pub id: u64,
    pub message: String,
    pub options: ToastOptions,
    pub size: Size,
    pub monitor: MonitorGeometry,
    pub position: Point,
    pub admitted_at: u64,
}

/// Where a toast is in its life.
#[derive(Debug, Clone, Copy, PartialEq, Eq, Structural)]
pub enum ToastPhase {
    Queued,
    Entering,
    Visible,
    Exiting,
    Removed,
}

/// The throttle interval owed after admitting a toast with `options`.
pub open spec fn throttle_after(options: ToastOptions) -> u64 {
    if options.enter_animation_duration >= MIN_THROTTLE_INTERVAL {
        options.enter_animation_duration as u64
    } else {
        MIN_THROTTLE_INTERVAL
    }
}

impl ActiveToast {
    /// The phase at time `now`: entering during the enter animation, then
    /// visible for `duration`, then exiting during the exit animation, then
    /// removed.
    pub open spec fn phase_at(&self, now: int) -> ToastPhase {
        let elapsed = now - self.admitted_at;
        let enter = self.options.enter_animation_duration as int;
        let shown = enter + self.options.duration;
        if elapsed < enter {
            ToastPhase::Entering
        } else if elapsed < shown {
            ToastPhase::Visible
        } else if elapsed < shown + self.options.exit_animation_duration {
            ToastPhase::Exiting
        } else {
            ToastPhase::Removed
        }
    }

    pub fn phase(&self, now: u64) -> (r: ToastPhase)
        requires
            self.options.valid(),
        ensures
            r == self.phase_at(now as int),
    {
        if now < self.admitted_at {
            return ToastPhase::Entering;
        }
        let elapsed = (now - self.admitted_at) as u128;
        let enter = self.options.enter_animation_duration as u128;
        let shown = enter + self.options.duration as u128;
        let gone = shown + self.options.exit_animation_duration as u128;
        if elapsed < enter {
            ToastPhase::Entering
        } else if elapsed < shown {
            ToastPhase::Visible
        } else if elapsed < gone {
            ToastPhase::Exiting
        } else {
            ToastPhase::Removed
        }
    }

    pub fn frame(&self) -> (r: Rect)
        ensures
            r == (Rect { origin: self.position, size: self.size }),
    {
        Rect { origin: self.position, size: self.size }
    }
}

pub open spec fn sizes_of(s: Seq<ActiveToast>) -> Seq<Size> {
    s.map_values(|t: ActiveToast| t.size)
}

/// Where the toast at index `k` of `s` belongs, given those before it.
pub open spec fn placed_at(s: Seq<ActiveToast>, k: int) -> Point {
    placement(s[k].size, s[k].monitor, s[k].options, sizes_of(s.take(k)))
}

/// Every toast sits where the toasts admitted before it put it.
pub open spec fn stacked(s: Seq<ActiveToast>) -> bool {
    forall|k: int| 0 <= k < s.len() ==> #[trigger] s[k].position == placed_at(s, k)
}

/// The same toasts, each moved to where the others now put it.
pub open spec fn restack(s: Seq<ActiveToast>) -> Seq<ActiveToast> {
    Seq::new(
        s.len(),
        |k: int|
            ActiveToast {
                id: s[k].id,
                message: s[k].message,
                options: s[k].options,
                size: s[k].size,
                monitor: s[k].monitor,
                position: placed_at(s, k),
                admitted_at: s[k].admitted_at,
            },
    )
}

pub open spec fn admitted(
    request: ToastRequest,
    monitor: MonitorGeometry,
    now: u64,
    active: Seq<ActiveToast>,
) -> ActiveToast {
    ActiveToast {
        id: request.id,
        message: request.message,
        options: request.options,
        size: request.size,
        monitor,
        position: placement(request.size, monitor, request.options, sizes_of(active)),
        admitted_at: now,
    }
}

/// The mathematical state of a `Store`.
pub struct StoreView {
    pub active: Seq<ActiveToast>,
    pub pending: Seq<ToastRequest>,
    pub last_admitted_at: Option<u64>,
    pub throttle_interval: u64,
    pub next_id: u64,
}

impl StoreView {
    pub open spec fn has_active(&self, id: u64) -> bool {
        exists|i: int| 0 <= i < self.active.len() && #[trigger] self.active[i].id == id
    }

    pub open spec fn has_pending(&self, id: u64) -> bool {
        exists|i: int| 0 <= i < self.pending.len() && #[trigger] self.pending[i].id == id
    }

    /// The admission times of the toasts on screen: each is at least the
    /// throttle interval after the one before, none is later than the last
    /// admission, and the throttle interval owed is the one the last admitted
    /// toast set.
    pub open spec fn admissions_spaced(&self) -> bool {
        &&& forall|i: int, j: int|
            0 <= i < j < self.active.len() ==> #[trigger] self.active[i].admitted_at + throttle_after(
                self.active[i].options,
            ) <= #[trigger] self.active[j].admitted_at
        &&& self.last_admitted_at is Some ==> self.throttle_interval >= MIN_THROTTLE_INTERVAL
        &&& forall|i: int|
            0 <= i < self.active.len() ==> {
                let a = #[trigger] self.active[i];
                &&& self.last_admitted_at is Some
                &&& a.admitted_at <= self.last_admitted_at.unwrap()
                &&& a.admitted_at == self.last_admitted_at.unwrap() ==> self.throttle_interval
                    == throttle_after(a.options)
                &&& a.admitted_at < self.last_admitted_at.unwrap() ==> a.admitted_at
                    + throttle_after(a.options) <= self.last_admitted_at.unwrap()
            }
    }

    /// Well formed: admissions spaced, every toast where the stack puts it,
    /// options valid, identities unique, those waiting increasing and all of
    /// them greater than those on screen.
    pub open spec fn wf(&self) -> bool {
        &&& self.admissions_spaced()
        &&& stacked(self.active)
        &&& self.throttle_interval <= MAX_THROTTLE_INTERVAL
        &&& forall|i: int| 0 <= i < self.active.len() ==> (#[trigger] self.active[i]).options.valid()
        &&& forall|i: int| 0 <= i < self.active.len() ==> (#[trigger] self.active[i]).id < self.next_id
        &&& forall|i: int, j: int|
            0 <= i < j < self.active.len() ==> #[trigger] self.active[i].id
                != #[trigger] self.active[j].id
        &&& forall|i: int| 0 <= i < self.pending.len() ==> (#[trigger] self.pending[i]).options.valid()
        &&& forall|i: int| 0 <= i < self.pending.len() ==> (#[trigger] self.pending[i]).id < self.next_id
        &&& forall|i: int, j: int|
            0 <= i < j < self.pending.len() ==> #[trigger] self.pending[i].id
                < #[trigger] self.pending[j].id
        &&& forall|i: int, j: int|
            0 <= i < self.active.len() && 0 <= j < self.pending.len() ==> #[trigger] self.active[i].id
                < #[trigger] self.pending[j].id
    }

    /// Whether the throttle lets a request in at `now`.
    pub open spec fn admission_due(&self, now: u64) -> bool {
        match self.last_admitted_at {
            None => true,
            Some(t) => now >= t && now - t >= self.throttle_interval,
        }
    }

    /// The identity admitted by a tick at `now`, if any.
    pub open spec fn tick_result(&self, now: u64) -> Option<u64> {
        if self.pending.len() > 0 && self.admission_due(now) {
            Some(self.pending[0].id)
        } else {
            None
        }
    }

    /// A tick at `now`: the front request is admitted onto `monitor` when the
    /// throttle allows, and stacked after the toasts already shown.
    pub open spec fn after_tick(&self, now: u64, monitor: MonitorGeometry) -> StoreView {
        if self.pending.len() > 0 && self.admission_due(now) {
            StoreView {
                active: self.active.push(admitted(self.pending[0], monitor, now, self.active)),
                pending: self.pending.drop_first(),
                last_admitted_at: Some(now),
                throttle_interval: throttle_after(self.pending[0].options),
                next_id: self.next_id,
            }
        } else {
            *self
        }
    }

    /// Whether `submit` accepts `options` for a text of size `text`.
    pub open spec fn accepts(options: ToastOptions, text: Size) -> bool {
        options.valid() && padded_fits(options.padding_x as int, options.padding_y as int, text)
    }

    pub open spec fn after_submit(&self, message: String, options: ToastOptions, text: Size) -> StoreView {
        if Self::accepts(options, text) {
            StoreView {
                pending: self.pending.push(
                    ToastRequest {
                        id: self.next_id,
                        message,
                        options,
                        size: padded(options.padding_x as int, options.padding_y as int, text),
                    },
                ),
                next_id: (self.next_id + 1) as u64,
                ..*self
            }
        } else {
            *self
        }
    }

    /// Dismissal: the toast leaves, and the rest are stacked anew.
    pub open spec fn after_dismiss(&self, id: u64) -> StoreView {
        if self.has_active(id) {
            let i = choose|i: int| 0 <= i < self.active.len() && #[trigger] self.active[i].id == id;
            StoreView { active: restack(self.active.remove(i)), ..*self }
        } else {
            *self
        }
    }

    /// Ticks on `monitor` at each of `times` in turn.
    pub open spec fn drive(&self, times: Seq<u64>, monitor: MonitorGeometry) -> StoreView
        decreases times.len(),
    {
        if times.len() == 0 {
            *self
        } else {
            self.after_tick(times[0], monitor).drive(times.drop_first(), monitor)
        }
    }

    /// An identity that was handed out and is neither on screen nor waiting.
    pub open spec fn retired(&self, id: u64) -> bool {
        id < self.next_id && !self.has_active(id) && !self.has_pending(id)
    }

    pub open spec fn phase_of(&self, id: u64, now: int) -> ToastPhase {
        if self.has_active(id) {
            let i = choose|i: int| 0 <= i < self.active.len() && #[trigger] self.active[i].id == id;
            self.active[i].phase_at(now)
        } else if self.has_pending(id) {
            ToastPhase::Queued
        } else {
            ToastPhase::Removed
        }
    }
}

/// The state shared by every caller of the toast subsystem. The host keeps
/// one behind a lock and feeds it the clock and the monitor geometry.
pub struct Store {
    active: Vec<ActiveToast>,
    pending: Queue<ToastRequest>,
    last_admitted_at: Option<u64>,
    throttle_interval: u64,
    next_id: u64,
}

impl View for Store {
    type V = StoreView;

    closed spec fn view(&self) -> StoreView {
        StoreView {
            active: self.active@,
            pending: queued(self.pending),
            last_admitted_at: self.last_admitted_at,
            throttle_interval: self.throttle_interval,
            next_id: self.next_id,
        }
    }
}

proof fn lemma_sizes_take_step(s: Seq<ActiveToast>, k: int)
    requires
        0 <= k < s.len(),
    ensures
        sizes_of(s.take(k + 1)).len() == k + 1,
        sizes_of(s.take(k + 1)).drop_last() == sizes_of(s.take(k)),
        sizes_of(s.take(k + 1)).last() == s[k].size,
        heights(sizes_of(s.take(k + 1))) == heights(sizes_of(s.take(k))) + s[k].size.height,
{
    assert(sizes_of(s.take(k + 1)).drop_last() =~= sizes_of(s.take(k)));
}

proof fn lemma_push_stacked(s: Seq<ActiveToast>, a: ActiveToast)
    requires
        stacked(s),
        a.position == placement(a.size, a.monitor, a.options, sizes_of(s)),
    ensures
        stacked(s.push(a)),
{
    let t = s.push(a);
    assert forall|k: int| 0 <= k < t.len() implies #[trigger] t[k].position == placed_at(t, k) by {
        if k < s.len() {
            assert(t.take(k) =~= s.take(k));
            assert(s[k].position == placed_at(s, k));
        } else {
            assert(t.take(k) =~= s);
        }
    }
}

proof fn lemma_restack_stacked(s: Seq<ActiveToast>)
    ensures
        stacked(restack(s)),
{
    let r = restack(s);
    assert forall|k: int| 0 <= k < r.len() implies #[trigger] r[k].position == placed_at(r, k) by {
        assert(sizes_of(r.take(k)) =~= sizes_of(s.take(k)));
    }
}

/// The toast at index `i` of `v` is the one with identity `id`.
proof fn lemma_index_of(v: StoreView, id: u64, i: int)
    requires
        v.wf(),
        0 <= i < v.active.len(),
        v.active[i].id == id,
    ensures
        v.has_active(id),
        (choose|j: int| 0 <= j < v.active.len() && #[trigger] v.active[j].id == id) == i,
{
    assert(v.active[i].id == id);
    let j = choose|j: int| 0 <= j < v.active.len() && #[trigger] v.active[j].id == id;
    if j < i {
        assert(v.active[j].id != v.active[i].id);
    } else if j > i {
        assert(v.active[i].id != v.active[j].id);
    }
}

proof fn lemma_removed_valid(v: StoreView, i: int)
    requires
        v.wf(),
        0 <= i < v.active.len(),
    ensures
        forall|k: int|
            0 <= k < v.active.remove(i).len() ==> (#[trigger] v.active.remove(i)[k]).options.valid(),
{
    let r = v.active.remove(i);
    assert forall|k: int| 0 <= k < r.len() implies (#[trigger] r[k]).options.valid() by {
        if k < i {
            assert(r[k] == v.active[k]);
        } else {
            assert(r[k] == v.active[k + 1]);
        }
    }
}

proof fn lemma_after_tick_wf(v: StoreView, now: u64, monitor: MonitorGeometry)
    requires
        v.wf(),
    ensures
        v.after_tick(now, monitor).wf(),
{
    if v.pending.len() > 0 && v.admission_due(now) {
        let w = v.after_tick(now, monitor);
        let a = admitted(v.pending[0], monitor, now, v.active);
        assert(v.pending[0].options.valid());
        lemma_push_stacked(v.active, a);
        assert forall|i: int, j: int|
            0 <= i < j < w.active.len() implies #[trigger] w.active[i].id
                != #[trigger] w.active[j].id by {
            if j == v.active.len() {
                assert(v.active[i].id < v.pending[0].id);
            }
        }
        assert forall|i: int| 0 <= i < w.active.len() implies (#[trigger] w.active[i]).options.valid()
            && w.active[i].id < w.next_id by {
            if i == v.active.len() {
                assert(v.pending[0].id < v.next_id);
            }
        }
        assert forall|i: int, j: int|
            0 <= i < w.active.len() && 0 <= j < w.pending.len() implies #[trigger] w.active[i].id
                < #[trigger] w.pending[j].id by {
            assert(w.pending[j] == v.pending[j + 1]);
            if i == v.active.len() {
                assert(v.pending[0].id < v.pending[j + 1].id);
            } else {
                assert(v.active[i].id < v.pending[j + 1].id);
            }
        }
        assert forall|i: int, j: int|
            0 <= i < j < w.pending.len() implies #[trigger] w.pending[i].id
                < #[trigger] w.pending[j].id by {
            assert(v.pending[i + 1].id < v.pending[j + 1].id);
        }
        assert forall|i: int| 0 <= i < w.pending.len() implies (#[trigger] w.pending[i]).options.valid()
            && w.pending[i].id < w.next_id by {
            assert(w.pending[i] == v.pending[i + 1]);
        }
        assert forall|i: int| 0 <= i < v.active.len() implies #[trigger] v.active[i].admitted_at
            + throttle_after(v.active[i].options) <= now by {}
        assert forall|i: int, j: int|
            0 <= i < j < w.active.len() implies #[trigger] w.active[i].admitted_at + throttle_after(
                w.active[i].options,
            ) <= #[trigger] w.active[j].admitted_at by {
            if j == v.active.len() {
                assert(v.active[i].admitted_at + throttle_after(v.active[i].options) <= now);
            }
        }
        assert forall|i: int| 0 <= i < w.active.len() implies {
            let a = #[trigger] w.active[i];
            &&& w.last_admitted_at is Some
            &&& a.admitted_at <= w.last_admitted_at.unwrap()
            &&& a.admitted_at == w.last_admitted_at.unwrap() ==> w.throttle_interval
                == throttle_after(a.options)
            &&& a.admitted_at < w.last_admitted_at.unwrap() ==> a.admitted_at
                + throttle_after(a.options) <= w.last_admitted_at.unwrap()
        } by {
            if i < v.active.len() {
                assert(v.active[i].admitted_at + throttle_after(v.active[i].options) <= now);
                assert(v.active[i].admitted_at < now);
            }
        }
    }
}

proof fn lemma_after_dismiss_wf(v: StoreView, id: u64)
    requires
        v.wf(),
    ensures
        v.after_dismiss(id).wf(),
        !v.after_dismiss(id).has_active(id),
{
    if v.has_active(id) {
        let i = choose|i: int| 0 <= i < v.active.len() && #[trigger] v.active[i].id == id;
        let removed = v.active.remove(i);
        let w = v.after_dismiss(id);
        lemma_restack_stacked(removed);
        assert forall|a: int, b: int|
            0 <= a < b < w.active.len() implies #[trigger] w.active[a].id
                != #[trigger] w.active[b].id by {
            let a2 = if a < i { a } else { a + 1 };
            let b2 = if b < i { b } else { b + 1 };
            assert(removed[a] == v.active[a2]);
            assert(removed[b] == v.active[b2]);
            assert(v.active[a2].id != v.active[b2].id);
        }
        assert forall|a: int| 0 <= a < w.active.len() implies (#[trigger] w.active[a]).options.valid()
            && w.active[a].id < w.next_id && w.active[a].id != id by {
            let a2 = if a < i { a } else { a + 1 };
            assert(removed[a] == v.active[a2]);
            if a < i {
                assert(v.active[a2].id != v.active[i].id);
            } else {
                assert(v.active[i].id != v.active[a2].id);
            }
        }
        assert forall|a: int, b: int|
            0 <= a < w.active.len() && 0 <= b < w.pending.len() implies #[trigger] w.active[a].id
                < #[trigger] w.pending[b].id by {
            let a2 = if a < i { a } else { a + 1 };
            assert(removed[a] == v.active[a2]);
            assert(v.active[a2].id < v.pending[b].id);
        }
        assert forall|a: int, b: int|
            0 <= a < b < w.active.len() implies #[trigger] w.active[a].admitted_at + throttle_after(
                w.active[a].options,
            ) <= #[trigger] w.active[b].admitted_at by {
            let a2 = if a < i { a } else { a + 1 };
            let b2 = if b < i { b } else { b + 1 };
            assert(removed[a] == v.active[a2]);
            assert(removed[b] == v.active[b2]);
            assert(v.active[a2].admitted_at + throttle_after(v.active[a2].options)
                <= v.active[b2].admitted_at);
        }
        assert forall|a: int| 0 <= a < w.active.len() implies {
            let t = #[trigger] w.active[a];
            &&& w.last_admitted_at is Some
            &&& t.admitted_at <= w.last_admitted_at.unwrap()
            &&& t.admitted_at == w.last_admitted_at.unwrap() ==> w.throttle_interval
                == throttle_after(t.options)
            &&& t.admitted_at < w.last_admitted_at.unwrap() ==> t.admitted_at
                + throttle_after(t.options) <= w.last_admitted_at.unwrap()
        } by {
            let a2 = if a < i { a } else { a + 1 };
            assert(removed[a] == v.active[a2]);
        }
    }
}

fn stacked_height(v: &Vec<ActiveToast>) -> (r: u128)
    ensures
        r == heights(sizes_of(v@)),
{
    let mut stacked: u128 = 0;
    let mut i: usize = 0;
    while i < v.len()
        invariant
            i <= v@.len(),
            stacked == heights(sizes_of(v@.take(i as int))),
        decreases v@.len() - i,
    {
        proof {
            lemma_sizes_take_step(v@, i as int);
            lemma_heights_bounds(sizes_of(v@.take(i as int)));
            assert(i * u32::MAX <= 0x1_0000_0000_0000_0000 * 0x1_0000_0000) by (nonlinear_arith)
                requires
                    0 <= i <= usize::MAX,
            ;
        }
        stacked = stacked + v[i].size.height as u128;
        i = i + 1;
    }
    assert(v@.take(i as int) =~= v@);
    stacked
}

/// Moves every toast of `v` to where the toasts before it now put it.
fn restack_in_place(v: &mut Vec<ActiveToast>)
    requires
        forall|i: int| 0 <= i < old(v)@.len() ==> (#[trigger] old(v)@[i]).options.valid(),
    ensures
        final(v)@ == restack(old(v)@),
{
    let ghost orig = v@;
    let n = v.len();
    let mut stacked: u128 = 0;
    let mut k: usize = 0;
    while k < n
        invariant
            n == orig.len(),
            v@.len() == n,
            k <= n,
            forall|i: int| 0 <= i < n ==> (#[trigger] orig[i]).options.valid(),
            forall|j: int| 0 <= j < k ==> v@[j] == restack(orig)[j],
            forall|j: int| k <= j < n ==> v@[j] == orig[j],
            stacked == heights(sizes_of(orig.take(k as int))),
        decreases n - k,
    {
        proof {
            lemma_sizes_take_step(orig, k as int);
            lemma_heights_bounds(sizes_of(orig.take(k as int)));
            assert(k * u32::MAX <= 0x1_0000_0000_0000_0000 * 0x1_0000_0000) by (nonlinear_arith)
                requires
                    0 <= k <= usize::MAX,
            ;
        }
        let mut t = v.remove(k);
        t.position = place_after(
            t.size,
            t.monitor,
            &t.options,
            stacked,
            k,
            Ghost(sizes_of(orig.take(k as int))),
        );
        stacked = stacked + t.size.height as u128;
        v.insert(k, t);
        k = k + 1;
    }
    assert(v@ =~= restack(orig));
}

fn find_active(v: &Vec<ActiveToast>, id: u64) -> (r: Option<usize>)
    ensures
        match r {
            Some(i) => i < v@.len() && v@[i as int].id == id,
            None => forall|j: int| 0 <= j < v@.len() ==> (#[trigger] v@[j]).id != id,
        },
{
    let mut i: usize = 0;
    while i < v.len()
        invariant
            i <= v@.len(),
            forall|j: int| 0 <= j < i ==> (#[trigger] v@[j]).id != id,
        decreases v@.len() - i,
    {
        if v[i].id == id {
            return Some(i);
        }
        i = i + 1;
    }
    None
}

impl Store {
    /// The pending queue was made without a bound.
    pub closed spec fn unbounded(&self) -> bool {
        queue_bound(self.pending) is None
    }

    pub open spec fn wf(&self) -> bool {
        self@.wf() && self.unbounded()
    }

    pub fn new() -> (r: Store)
        ensures
            r.wf(),
            r@.active == Seq::<ActiveToast>::empty(),
            r@.pending == Seq::<ToastRequest>::empty(),
            r@.last_admitted_at == None::<u64>,
            r@.throttle_interval == 0,
            r@.next_id == 0,
    {
        Store {
            active: Vec::new(),
            pending: new_queue(),
            last_admitted_at: None,
            throttle_interval: 0,
            next_id: 0,
        }
    }

    /// Validates `options`, gives the request the next identity and appends
    /// it to the pending queue. `text_size` is the measured size of the
    /// message; the toast is that size plus its padding. A tick right after
    /// the submission admits the request at once when nothing is ahead of it
    /// and the throttle allows.
    pub fn submit(&mut self, message: String, options: ToastOptions, text_size: Size) -> (r:
        Result<u64, ToastError>)
        requires
            old(self).wf(),
            StoreView::accepts(options, text_size) ==> old(self)@.next_id < u64::MAX,
        ensures
            final(self).wf(),
            final(self)@ == old(self)@.after_submit(message, options, text_size),
            r == (if StoreView::accepts(options, text_size) {
                Ok::<u64, ToastError>(old(self)@.next_id)
            } else {
                Err::<u64, ToastError>(ToastError::InvalidOptions)
            }),
    {
        if !options.is_valid() || !fits_padded(options.padding_x, options.padding_y, text_size) {
            return Err(ToastError::InvalidOptions);
        }
        let size = dimensions(options.padding_x, options.padding_y, text_size);
        let id = self.next_id;
        let request = ToastRequest { id, message, options, size };
        let _ = enqueue(&mut self.pending, request);
        self.next_id = id + 1;
        proof {
            let v = self@;
            let o = old(self)@;
            assert(v.pending == o.pending.push(request));
            assert forall|i: int, j: int|
                0 <= i < j < v.pending.len() implies #[trigger] v.pending[i].id
                    < #[trigger] v.pending[j].id by {
                if j == o.pending.len() {
                    assert(o.pending[i].id < o.next_id);
                }
            }
            assert(v =~= o.after_submit(message, options, text_size));
        }
        Ok(id)
    }

    /// Admits the front request when the throttle allows it at `now`,
    /// placing it on `monitor` after the toasts already shown. Returns the
    /// identity admitted, if any.
    pub fn tick(&mut self, now: u64, monitor: MonitorGeometry) -> (r: Option<u64>)
        requires
            old(self).wf(),
        ensures
            final(self).wf(),
            final(self)@ == old(self)@.after_tick(now, monitor),
            r == old(self)@.tick_result(now),
    {
        let due = match self.last_admitted_at {
            None => true,
            Some(t) => now >= t && now - t >= self.throttle_interval,
        };
        if !due {
            return None;
        }
        let ghost o = self@;
        let head = dequeue(&mut self.pending);
        match head {
            None => None,
            Some(request) => {
                proof {
                    assert(o.pending[0].options.valid());
                }
                let stacked = stacked_height(&self.active);
                let count = self.active.len();
                let position = place_after(
                    request.size,
                    monitor,
                    &request.options,
                    stacked,
                    count,
                    Ghost(sizes_of(self.active@)),
                );
                let id = request.id;
                let enter = request.options.enter_animation_duration as u64;
                let interval = if enter >= MIN_THROTTLE_INTERVAL {
                    enter
                } else {
                    MIN_THROTTLE_INTERVAL
                };
                let toast = ActiveToast {
                    id,
                    message: request.message,
                    options: request.options,
                    size: request.size,
                    monitor,
                    position,
                    admitted_at: now,
                };
                proof {
                    lemma_push_stacked(self.active@, toast);
                }
                self.active.push(toast);
                self.last_admitted_at = Some(now);
                self.throttle_interval = interval;
                proof {
                    lemma_after_tick_wf(o, now, monitor);
                    assert(self@ =~= o.after_tick(now, monitor));
                }
                Some(id)
            },
        }
    }

    /// Removes the toast `id` if it is shown, and stacks the others anew.
    /// Dismissing an identity that is not shown changes nothing.
    pub fn dismiss(&mut self, id: u64) -> (r: bool)
        requires
            old(self).wf(),
        ensures
            final(self).wf(),
            final(self)@ == old(self)@.after_dismiss(id),
            r == old(self)@.has_active(id),
    {
        let ghost o = self@;
        match find_active(&self.active, id) {
            None => {
                proof {
                    assert(!o.has_active(id));
                }
                false
            },
            Some(i) => {
                proof {
                    lemma_index_of(o, id, i as int);
                }
                let _ = self.active.remove(i);
                assert(self.active@ == o.active.remove(i as int));
                proof {
                    lemma_removed_valid(o, i as int);
                }
                restack_in_place(&mut self.active);
                proof {
                    lemma_after_dismiss_wf(o, id);
                    assert(self@ =~= o.after_dismiss(id));
                }
                true
            },
        }
    }

    /// The toasts on screen, in order of admission.
    pub fn active(&self) -> (r: &Vec<ActiveToast>)
        ensures
            r@ == self@.active,
    {
        &self.active
    }

    /// The requests waiting for admission, front first.
    pub fn pending(&self) -> (r: &Vec<ToastRequest>)
        ensures
            r@ == self@.pending,
    {
        queued_items(&self.pending)
    }

    pub fn last_admitted_at(&self) -> (r: Option<u64>)
        ensures
            r == self@.last_admitted_at,
    {
        self.last_admitted_at
    }

    pub fn throttle_interval(&self) -> (r: u64)
        ensures
            r == self@.throttle_interval,
    {
        self.throttle_interval
    }

    /// The identity the next accepted request will get.
    pub fn next_identity(&self) -> (r: u64)
        ensures
            r == self@.next_id,
    {
        self.next_id
    }
}

impl Default for Store {
    fn default() -> (r: Store)
        ensures
            r.wf(),
            r@.active == Seq::<ActiveToast>::empty(),
            r@.pending == Seq::<ToastRequest>::empty(),
            r@.last_admitted_at == None::<u64>,
            r@.throttle_interval == 0,
            r@.next_id == 0,
    {
        Store::new()
    }
}

/// Identities are unique: no two toasts on screen share one, and no waiting
/// request has the identity of a toast on screen.
pub proof fn lemma_identities_unique(v: StoreView)
    requires
        v.wf(),
    ensures
        forall|i: int, j: int|
            0 <= i < j < v.active.len() ==> #[trigger] v.active[i].id != #[trigger] v.active[j].id,
        forall|i: int, j: int|
            0 <= i < v.active.len() && 0 <= j < v.pending.len() ==> #[trigger] v.active[i].id
                != #[trigger] v.pending[j].id,
{
}

/// No request waits forever. Whatever the schedule of ticks, as long as the
/// first comes when admission is due and each next one once the throttle
/// interval set by the admission before it has passed, the request at index
/// `k` of the queue is admitted by tick `k + 1`, right after the requests in
/// front of it, and the store stays well formed throughout.
pub proof fn lemma_no_starvation(
    v: StoreView,
    k: int,
    times: Seq<u64>,
    monitor: MonitorGeometry,
)
    requires
        v.wf(),
        0 <= k < v.pending.len(),
        times.len() == k + 1,
        v.admission_due(times[0]),
        forall|i: int|
            0 <= i < k ==> #[trigger] times[i] + throttle_after(v.pending[i].options) <= times[i
                + 1],
    ensures
        ({
            let w = v.drive(times, monitor);
            &&& w.wf()
            &&& w.active.len() > 0
            &&& w.active.last().id == v.pending[k].id
            &&& w.active.last().admitted_at == times[k]
            &&& w.pending == v.pending.skip(k + 1)
        }),
    decreases k,
{
    lemma_after_tick_wf(v, times[0], monitor);
    let v1 = v.after_tick(times[0], monitor);
    let rest = times.drop_first();
    assert(v1.pending =~= v.pending.skip(1));
    if k > 0 {
        assert(times[0] + throttle_after(v.pending[0].options) <= times[0int + 1]);
        assert(v1.admission_due(rest[0]));
        assert forall|i: int| 0 <= i < k - 1 implies #[trigger] rest[i] + throttle_after(
            v1.pending[i].options,
        ) <= rest[i + 1] by {
            assert(v1.pending[i] == v.pending[i + 1]);
            assert(times[i + 1] + throttle_after(v.pending[i + 1].options) <= times[i + 1 + 1]);
        }
        lemma_no_starvation(v1, k - 1, rest, monitor);
        assert(v1.pending[k - 1] == v.pending[k]);
        assert(v1.pending.skip(k) =~= v.pending.skip(k + 1));
    } else {
        assert(rest.len() == 0);
        assert(v1.drive(rest, monitor) == v1);
    }
}

/// Submitting and dismissing leave the throttle clock as it was, and never
/// move a waiting request: a submission only appends, a dismissal leaves the
/// queue alone.
pub proof fn lemma_queue_and_clock_kept(
    v: StoreView,
    message: String,
    options: ToastOptions,
    text: Size,
    id: u64,
)
    ensures
        v.after_submit(message, options, text).last_admitted_at == v.last_admitted_at,
        v.after_submit(message, options, text).throttle_interval == v.throttle_interval,
        v.after_dismiss(id).last_admitted_at == v.last_admitted_at,
        v.after_dismiss(id).throttle_interval == v.throttle_interval,
        v.after_submit(message, options, text).pending.take(v.pending.len() as int) == v.pending,
        v.after_dismiss(id).pending == v.pending,
{
    assert(v.after_submit(message, options, text).pending.take(v.pending.len() as int) =~= v.pending);
}

/// Two consecutive admissions, at `t1` and then at `t2`, are at least the
/// throttle interval apart: the longer of the first toast's enter animation
/// and `MIN_THROTTLE_INTERVAL`. `u` is the store at the second tick; only
/// its throttle clock matters, which submissions and dismissals keep.
pub proof fn lemma_admissions_spaced(
    v: StoreView,
    t1: u64,
    m1: MonitorGeometry,
    u: StoreView,
    t2: u64,
)
    requires
        v.wf(),
        v.tick_result(t1) is Some,
        u.last_admitted_at == v.after_tick(t1, m1).last_admitted_at,
        u.throttle_interval == v.after_tick(t1, m1).throttle_interval,
        u.tick_result(t2) is Some,
    ensures
        t2 >= t1 + throttle_after(v.pending[0].options),
        t2 >= t1 + MIN_THROTTLE_INTERVAL,
        t2 >= t1 + v.pending[0].options.enter_animation_duration,
{
}

/// Dismissing the same identity twice leaves the store as dismissing it once.
pub proof fn lemma_dismiss_idempotent(v: StoreView, id: u64)
    requires
        v.wf(),
    ensures
        v.after_dismiss(id).after_dismiss(id) == v.after_dismiss(id),
{
    lemma_after_dismiss_wf(v, id);
}

/// A toast admitted at `t` with enter animation N, duration D and exit
/// animation E is removed from `t + N + D + E` on and not before. Once
/// dismissed it is retired: off the screen and not waiting, which every
/// later call keeps it (`lemma_retired_stays_retired`).
pub proof fn lemma_removed_after_lifetime(
    v: StoreView,
    t: u64,
    monitor: MonitorGeometry,
    now: int,
)
    requires
        v.wf(),
        v.tick_result(t) is Some,
    ensures
        ({
            let w = v.after_tick(t, monitor);
            let a = w.active.last();
            let d = w.after_dismiss(a.id);
            &&& a.id == v.pending[0].id
            &&& a.admitted_at == t
            &&& (a.phase_at(now) == ToastPhase::Removed) <==> now >= t
                + a.options.enter_animation_duration + a.options.duration
                + a.options.exit_animation_duration
            &&& !d.has_active(a.id)
            &&& forall|j: int| 0 <= j < d.pending.len() ==> #[trigger] d.pending[j].id > a.id
            &&& d.phase_of(a.id, now) == ToastPhase::Removed
            &&& d.retired(a.id)
        }),
{
    let w = v.after_tick(t, monitor);
    let a = w.active.last();
    lemma_after_tick_wf(v, t, monitor);
    lemma_after_dismiss_wf(w, a.id);
    let d = w.after_dismiss(a.id);
    assert forall|j: int| 0 <= j < d.pending.len() implies #[trigger] d.pending[j].id > a.id by {
        assert(w.active[w.active.len() - 1].id < w.pending[j].id);
    }
    if d.has_pending(a.id) {
        let j = choose|j: int| 0 <= j < d.pending.len() && #[trigger] d.pending[j].id == a.id;
        assert(d.pending[j].id > a.id);
    }
}

fn find_pending(v: &Vec<ToastRequest>, id: u64) -> (r: bool)
    ensures
        r == exists|j: int| 0 <= j < v@.len() && #[trigger] v@[j].id == id,
{
    let mut i: usize = 0;
    while i < v.len()
        invariant
            i <= v@.len(),
            forall|j: int| 0 <= j < i ==> (#[trigger] v@[j]).id != id,
        decreases v@.len() - i,
    {
        if v[i].id == id {
            return true;
        }
        i = i + 1;
    }
    false
}

impl Store {
    /// The phase of the toast `id` at `now`: queued while it waits, then the
    /// phase of its lifetime while on screen, and removed once it is gone.
    pub fn phase_of(&self, id: u64, now: u64) -> (r: ToastPhase)
        requires
            self.wf(),
        ensures
            r == self@.phase_of(id, now as int),
    {
        match find_active(&self.active, id) {
            Some(i) => {
                proof {
                    lemma_index_of(self@, id, i as int);
                }
                self.active[i].phase(now)
            },
            None => {
                if find_pending(queued_items(&self.pending), id) {
                    ToastPhase::Queued
                } else {
                    ToastPhase::Removed
                }
            },
        }
    }
}

/// Toasts on screen never overlap: of two toasts shown on one monitor with
/// one set of options, the later one lies wholly beyond the earlier one, away
/// from the anchoring edge, with at least the margin between them. This
/// holds where neither position had to be held at the end of `i128`.
pub proof fn lemma_active_toasts_disjoint(v: StoreView, i: int, j: int)
    requires
        v.wf(),
        0 <= i < j < v.active.len(),
        v.active[i].monitor == v.active[j].monitor,
        v.active[i].options == v.active[j].options,
        ({
            let o = v.active[i].options;
            let margin = o.margin_between_toasts as int;
            let sizes = sizes_of(v.active);
            &&& saturate(stacked_y(v.active[i].monitor, o, stack_offset(sizes.take(i), margin)))
                == stacked_y(v.active[i].monitor, o, stack_offset(sizes.take(i), margin))
            &&& saturate(stacked_y(v.active[i].monitor, o, stack_offset(sizes.take(j), margin)))
                == stacked_y(v.active[i].monitor, o, stack_offset(sizes.take(j), margin))
        }),
    ensures
        ({
            let a = v.active[i];
            let b = v.active[j];
            let margin = a.options.margin_between_toasts as int;
            let ea = extent(a.options.position, a.position.y as int, a.size.height as int);
            let eb = extent(b.options.position, b.position.y as int, b.size.height as int);
            match a.options.position {
                ToastPosition::Bottom => eb.1 + margin <= ea.0,
                ToastPosition::Top => ea.1 + margin <= eb.0,
            }
        }),
{
    let sizes = sizes_of(v.active);
    let a = v.active[i];
    let b = v.active[j];
    let margin = a.options.margin_between_toasts as int;
    assert(sizes.take(i) =~= sizes_of(v.active.take(i)));
    assert(sizes.take(j) =~= sizes_of(v.active.take(j)));
    assert(v.active[i].position == placed_at(v.active, i));
    assert(v.active[j].position == placed_at(v.active, j));
    assert(a.options.valid());
    lemma_stack_disjoint(sizes, a.monitor, a.options, i, j);
}

/// Only one toast is entering at a time: while the clock has not gone back
/// past the last admission, at most one toast on screen is in its enter
/// animation, because each admission waits out the enter animation of the
/// one before.
pub proof fn lemma_single_entering(v: StoreView, now: int)
    requires
        v.wf(),
        match v.last_admitted_at {
            Some(l) => now >= l,
            None => true,
        },
    ensures
        forall|i: int, j: int|
            0 <= i < v.active.len() && 0 <= j < v.active.len() && #[trigger] v.active[i].phase_at(now)
                == ToastPhase::Entering && #[trigger] v.active[j].phase_at(now)
                == ToastPhase::Entering ==> i == j,
{
    assert forall|i: int, j: int|
        0 <= i < v.active.len() && 0 <= j < v.active.len() && #[trigger] v.active[i].phase_at(now)
            == ToastPhase::Entering && #[trigger] v.active[j].phase_at(now)
            == ToastPhase::Entering implies i == j by {
        if i < j {
            assert(v.active[i].admitted_at + throttle_after(v.active[i].options)
                <= v.active[j].admitted_at);
            assert(v.active[j].admitted_at <= v.last_admitted_at.unwrap());
        } else if j < i {
            assert(v.active[j].admitted_at + throttle_after(v.active[j].options)
                <= v.active[i].admitted_at);
            assert(v.active[i].admitted_at <= v.last_admitted_at.unwrap());
        }
    }
}

/// Once gone, a toast stays gone: an identity that is retired stays retired
/// through every tick, dismissal and submission that may follow.
pub proof fn lemma_retired_stays_retired(
    v: StoreView,
    id: u64,
    now: u64,
    monitor: MonitorGeometry,
    other: u64,
    message: String,
    options: ToastOptions,
    text: Size,
)
    requires
        v.wf(),
        v.retired(id),
        StoreView::accepts(options, text) ==> v.next_id < u64::MAX,
    ensures
        v.after_tick(now, monitor).retired(id),
        v.after_dismiss(other).retired(id),
        v.after_submit(message, options, text).retired(id),
{
    let t = v.after_tick(now, monitor);
    if t.has_active(id) {
        let j = choose|j: int| 0 <= j < t.active.len() && #[trigger] t.active[j].id == id;
        if j < v.active.len() {
            assert(v.active[j].id == id);
        } else {
            assert(v.pending[0].id == id);
        }
    }
    if t.has_pending(id) {
        let j = choose|j: int| 0 <= j < t.pending.len() && #[trigger] t.pending[j].id == id;
        if v.pending.len() > 0 && v.admission_due(now) {
            assert(v.pending[j + 1].id == id);
        } else {
            assert(v.pending[j].id == id);
        }
    }
    let d = v.after_dismiss(other);
    if d.has_active(id) {
        let i = choose|i: int| 0 <= i < v.active.len() && #[trigger] v.active[i].id == other;
        let j = choose|j: int| 0 <= j < d.active.len() && #[trigger] d.active[j].id == id;
        let removed = v.active.remove(i);
        assert(d.active[j].id == removed[j].id);
        if j < i {
            assert(v.active[j].id == id);
        } else {
            assert(v.active[j + 1].id == id);
        }
    }
    let u = v.after_submit(message, options, text);
    if u.has_pending(id) {
        let j = choose|j: int| 0 <= j < u.pending.len() && #[trigger] u.pending[j].id == id;
        if j < v.pending.len() {
            assert(v.pending[j].id == id);
        }
    }
}

/// The identities of the toasts in `s` whose time is up at `now`, in order.
pub open spec fn removal_due(s: Seq<ActiveToast>, now: int) -> Seq<u64>
    decreases s.len(),
{
    if s.len() == 0 {
        Seq::empty()
    } else if s.last().phase_at(now) == ToastPhase::Removed {
        removal_due(s.drop_last(), now).push(s.last().id)
    } else {
        removal_due(s.drop_last(), now)
    }
}

impl Store {
    /// The toasts on screen whose exit animation is over at `now`: the host
    /// dismisses each of them.
    pub fn due_for_removal(&self, now: u64) -> (r: Vec<u64>)
        requires
            self.wf(),
        ensures
            r@ == removal_due(self@.active, now as int),
    {
        let mut r: Vec<u64> = Vec::new();
        let mut i: usize = 0;
        while i < self.active.len()
            invariant
                self.wf(),
                i <= self@.active.len(),
                r@ == removal_due(self@.active.take(i as int), now as int),
            decreases self@.active.len() - i,
        {
            proof {
                assert(self@.active.take(i as int + 1).drop_last() =~= self@.active.take(i as int));
                assert(self@.active[i as int].options.valid());
            }
            if self.active[i].phase(now) == ToastPhase::Removed {
                r.push(self.active[i].id);
            }
            i = i + 1;
        }
        assert(self@.active.take(i as int) =~= self@.active);
        r
    }
}

} // verus!
