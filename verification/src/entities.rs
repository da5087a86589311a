use vstd::prelude::*;

verus! {

/// Bit pattern (IEEE-754 single precision) of the hue of an unused slot: zero degrees.
pub const DEFAULT_HUE_BITS: u32 = 0;

/// Bit pattern (IEEE-754 single precision) of the saturation of an unused slot: seven tenths.
pub const DEFAULT_SATURATION_BITS: u32 = 0x3f33_3333;

/// Bit pattern (IEEE-754 single precision) of the lightness of an unused slot: one half.
pub const DEFAULT_LIGHTNESS_BITS: u32 = 0x3f00_0000;

/// Number of `true` entries of `s`.
pub open spec fn count_alive(s: Seq<bool>) -> nat
    decreases s.len(),
{
    if s.len() == 0 {
        0
    } else {
        count_alive(s.drop_last()) + if s.last() {
            1nat
        } else {
            0nat
        }
    }
}

/// Flipping one entry of `s` to `b` changes the count by the difference.
pub proof fn lemma_count_alive_update(s: Seq<bool>, i: int, b: bool)
    requires
        0 <= i < s.len(),
    ensures
        count_alive(s.update(i, b)) == count_alive(s) - (if s[i] { 1int } else { 0int }) + (if b {
            1int
        } else {
            0int
        }),
    decreases s.len(),
{
    let t = s.update(i, b);
    if i == s.len() - 1 {
        assert(t.drop_last() =~= s.drop_last());
    } else {
        assert(t.drop_last() =~= s.drop_last().update(i, b));
        lemma_count_alive_update(s.drop_last(), i, b);
    }
}

/// Appending `b` to `s` adds one to the count exactly when `b` holds.
pub proof fn lemma_count_alive_push(s: Seq<bool>, b: bool)
    ensures
        count_alive(s.push(b)) == count_alive(s) + (if b { 1nat } else { 0nat }),
{
    assert(s.push(b).drop_last() =~= s);
}

/// A sequence has no `true` entry exactly when its count is zero.
pub proof fn lemma_count_alive_zero(s: Seq<bool>)
    ensures
        (forall|j: int| 0 <= j < s.len() ==> !s[j]) ==> count_alive(s) == 0,
        count_alive(s) <= s.len(),
    decreases s.len(),
{
    if s.len() > 0 {
        lemma_count_alive_zero(s.drop_last());
    }
}

/// Structure of Arrays (SoA) storage of the agents.
///
/// Slot `i` of every vector describes the same agent. The colour genes are
/// stored as the IEEE-754 single-precision bit patterns of the hue (degrees),
/// saturation and lightness; the library never reads them, it only keeps
/// them with their agent. `target_x`/`target_y` hold an agent's cell after
/// its last move; `pos_x`/`pos_y` hold the cell that move started from (for a
/// newborn, the cell it was placed in), which the renderer interpolates from.
pub struct Entities {
    pub pos_x: Vec<i32>,
    pub pos_y: Vec<i32>,
    pub target_x: Vec<i32>,
    pub target_y: Vec<i32>,
    pub hue: Vec<u32>,
    pub saturation: Vec<u32>,
    pub lightness: Vec<u32>,
    pub birth_tick: Vec<u32>,
    pub is_alive: Vec<bool>,
    /// Number of live agents.
    pub active_count: usize,
}

impl Entities {
    /// Number of slots, live or not.
    pub open spec fn slots(&self) -> nat {
        self.is_alive@.len()
    }

    /// All vectors have one entry per slot, and `active_count` is the number
    /// of live slots.
    pub open spec fn wf(&self) -> bool {
        &&& self.pos_x@.len() == self.slots()
        &&& self.pos_y@.len() == self.slots()
        &&& self.target_x@.len() == self.slots()
        &&& self.target_y@.len() == self.slots()
        &&& self.hue@.len() == self.slots()
        &&& self.saturation@.len() == self.slots()
        &&& self.lightness@.len() == self.slots()
        &&& self.birth_tick@.len() == self.slots()
        &&& self.active_count == count_alive(self.is_alive@)
    }

    /// The slot `add_agent` fills: the first unused slot, or a new one at the end.
    pub open spec fn is_first_free_slot(&self, idx: int) -> bool {
        &&& 0 <= idx <= self.slots()
        &&& forall|j: int| 0 <= j < idx ==> self.is_alive@[j]
        &&& idx < self.slots() ==> !self.is_alive@[idx]
    }

    /// There is exactly one slot `add_agent` can fill.
    pub proof fn lemma_first_free_slot_unique(&self, i: int, j: int)
        requires
            self.is_first_free_slot(i),
            self.is_first_free_slot(j),
        ensures
            i == j,
    {
        if i < j {
            assert(self.is_alive@[i]);
        } else if j < i {
            assert(self.is_alive@[j]);
        }
    }

    /// Some slot is the one `add_agent` fills.
    pub proof fn lemma_first_free_slot_exists(&self) -> (idx: int)
        ensures
            self.is_first_free_slot(idx),
    {
        self.first_free_slot_from(0)
    }

    proof fn first_free_slot_from(&self, k: int) -> (idx: int)
        requires
            0 <= k <= self.slots(),
            forall|j: int| 0 <= j < k ==> self.is_alive@[j],
        ensures
            self.is_first_free_slot(idx),
        decreases self.slots() - k,
    {
        if k == self.slots() || !self.is_alive@[k] {
            k
        } else {
            self.first_free_slot_from(k + 1)
        }
    }

    /// `f` is `self` with a live agent placed, with the given data, in the
    /// first unused slot, or in a new slot at the end when every slot is live.
    pub open spec fn spec_adds(
        self,
        f: Entities,
        x: i32,
        y: i32,
        hue: u32,
        saturation: u32,
        lightness: u32,
        birth_tick: u32,
    ) -> bool {
        &&& f.wf()
        &&& f.active_count == self.active_count + 1
        &&& forall|idx: int|
            #![trigger self.is_first_free_slot(idx)]
            self.is_first_free_slot(idx) ==> {
                let fresh = idx == self.slots();
                &&& f.pos_x@ == if fresh { self.pos_x@.push(x) } else { self.pos_x@.update(idx, x) }
                &&& f.pos_y@ == if fresh { self.pos_y@.push(y) } else { self.pos_y@.update(idx, y) }
                &&& f.target_x@ == if fresh {
                    self.target_x@.push(x)
                } else {
                    self.target_x@.update(idx, x)
                }
                &&& f.target_y@ == if fresh {
                    self.target_y@.push(y)
                } else {
                    self.target_y@.update(idx, y)
                }
                &&& f.hue@ == if fresh { self.hue@.push(hue) } else { self.hue@.update(idx, hue) }
                &&& f.saturation@ == if fresh {
                    self.saturation@.push(saturation)
                } else {
                    self.saturation@.update(idx, saturation)
                }
                &&& f.lightness@ == if fresh {
                    self.lightness@.push(lightness)
                } else {
                    self.lightness@.update(idx, lightness)
                }
                &&& f.birth_tick@ == if fresh {
                    self.birth_tick@.push(birth_tick)
                } else {
                    self.birth_tick@.update(idx, birth_tick)
                }
                &&& f.is_alive@ == if fresh {
                    self.is_alive@.push(true)
                } else {
                    self.is_alive@.update(idx, true)
                }
            }
    }

    /// `capacity` unused slots, with the default genes.
    pub fn new(capacity: usize) -> (e: Self)
        ensures
            e.wf(),
            e.slots() == capacity,
            e.active_count == 0,
            e.pos_x@ == Seq::new(capacity as nat, |i: int| 0i32),
            e.pos_y@ == Seq::new(capacity as nat, |i: int| 0i32),
            e.target_x@ == Seq::new(capacity as nat, |i: int| 0i32),
            e.target_y@ == Seq::new(capacity as nat, |i: int| 0i32),
            e.hue@ == Seq::new(capacity as nat, |i: int| DEFAULT_HUE_BITS),
            e.saturation@ == Seq::new(capacity as nat, |i: int| DEFAULT_SATURATION_BITS),
            e.lightness@ == Seq::new(capacity as nat, |i: int| DEFAULT_LIGHTNESS_BITS),
            e.birth_tick@ == Seq::new(capacity as nat, |i: int| 0u32),
            e.is_alive@ == Seq::new(capacity as nat, |i: int| false),
    {
        let mut e = Entities {
            pos_x: Vec::new(),
            pos_y: Vec::new(),
            target_x: Vec::new(),
            target_y: Vec::new(),
            hue: Vec::new(),
            saturation: Vec::new(),
            lightness: Vec::new(),
            birth_tick: Vec::new(),
            is_alive: Vec::new(),
            active_count: 0,
        };
        let mut i: usize = 0;
        while i < capacity
            invariant
                i <= capacity,
                e.active_count == 0,
                e.pos_x@ == Seq::new(i as nat, |k: int| 0i32),
                e.pos_y@ == Seq::new(i as nat, |k: int| 0i32),
                e.target_x@ == Seq::new(i as nat, |k: int| 0i32),
                e.target_y@ == Seq::new(i as nat, |k: int| 0i32),
                e.hue@ == Seq::new(i as nat, |k: int| DEFAULT_HUE_BITS),
                e.saturation@ == Seq::new(i as nat, |k: int| DEFAULT_SATURATION_BITS),
                e.lightness@ == Seq::new(i as nat, |k: int| DEFAULT_LIGHTNESS_BITS),
                e.birth_tick@ == Seq::new(i as nat, |k: int| 0u32),
                e.is_alive@ == Seq::new(i as nat, |k: int| false),
            decreases capacity - i,
        {
            e.pos_x.push(0);
            e.pos_y.push(0);
            e.target_x.push(0);
            e.target_y.push(0);
            e.hue.push(DEFAULT_HUE_BITS);
            e.saturation.push(DEFAULT_SATURATION_BITS);
            e.lightness.push(DEFAULT_LIGHTNESS_BITS);
            e.birth_tick.push(0);
            e.is_alive.push(false);
            i = i + 1;
            assert(e.pos_x@ =~= Seq::new(i as nat, |k: int| 0i32));
            assert(e.pos_y@ =~= Seq::new(i as nat, |k: int| 0i32));
            assert(e.target_x@ =~= Seq::new(i as nat, |k: int| 0i32));
            assert(e.target_y@ =~= Seq::new(i as nat, |k: int| 0i32));
            assert(e.hue@ =~= Seq::new(i as nat, |k: int| DEFAULT_HUE_BITS));
            assert(e.saturation@ =~= Seq::new(i as nat, |k: int| DEFAULT_SATURATION_BITS));
            assert(e.lightness@ =~= Seq::new(i as nat, |k: int| DEFAULT_LIGHTNESS_BITS));
            assert(e.birth_tick@ =~= Seq::new(i as nat, |k: int| 0u32));
            assert(e.is_alive@ =~= Seq::new(i as nat, |k: int| false));
        }
        proof {
            lemma_count_alive_zero(e.is_alive@);
        }
        e
    }

    /// Places a live agent in the first unused slot, or in a new slot at the
    /// end when every slot is live, and returns the slot.
    pub fn add_agent(
        &mut self,
        x: i32,
        y: i32,
        hue: u32,
        saturation: u32,
        lightness: u32,
        birth_tick: u32,
    ) -> (r: Option<usize>)
        requires
            old(self).wf(),
        ensures
            final(self).wf(),
            r is Some,
            old(self).is_first_free_slot(r->0 as int),
            old(self).spec_adds(*final(self), x, y, hue, saturation, lightness, birth_tick),
    {
        // Find first dead agent slot or extend if needed
        let mut index: Option<usize> = None;
        let n = self.pos_x.len();
        let mut i: usize = 0;
        while i < n
            invariant_except_break
                index is None,
            invariant
                self.wf(),
                n == self.slots(),
                i <= n,
                forall|j: int| 0 <= j < i ==> self.is_alive@[j],
            ensures
                index is None ==> forall|j: int| 0 <= j < n ==> self.is_alive@[j],
                index is Some ==> index->0 < n && !self.is_alive@[index->0 as int] && forall|j: int|
                    0 <= j < index->0 ==> self.is_alive@[j],
            decreases n - i,
        {
            if !self.is_alive[i] {
                index = Some(i);
                break;
            }
            i = i + 1;
        }
        let ghost o = *self;
        let idx = match index {
            Some(i) => i,
            None => {
                let i = self.pos_x.len();
                self.pos_x.push(0);
                self.pos_y.push(0);
                self.target_x.push(0);
                self.target_y.push(0);
                self.hue.push(DEFAULT_HUE_BITS);
                self.saturation.push(DEFAULT_SATURATION_BITS);
                self.lightness.push(DEFAULT_LIGHTNESS_BITS);
                self.birth_tick.push(0);
                self.is_alive.push(false);
                proof {
                    lemma_count_alive_push(o.is_alive@, false);
                }
                i
            },
        };
        assert(o.is_first_free_slot(idx as int));
        proof {
            lemma_count_alive_update(self.is_alive@, idx as int, true);
            lemma_count_alive_zero(self.is_alive@.update(idx as int, true));
        }
        self.pos_x.set(idx, x);
        self.pos_y.set(idx, y);
        self.target_x.set(idx, x);
        self.target_y.set(idx, y);
        self.hue.set(idx, hue);
        self.saturation.set(idx, saturation);
        self.lightness.set(idx, lightness);
        self.birth_tick.set(idx, birth_tick);
        self.is_alive.set(idx, true);
        proof {
            lemma_count_alive_zero(self.is_alive@);
            assert(self.is_alive@.len() == self.is_alive.len());
        }
        self.active_count = self.active_count + 1;
        proof {
            assert forall|j: int| o.is_first_free_slot(j) implies j == idx by {
                o.lemma_first_free_slot_unique(j, idx as int);
            }
            if idx == o.slots() {
                assert(self.pos_x@ =~= o.pos_x@.push(x));
                assert(self.pos_y@ =~= o.pos_y@.push(y));
                assert(self.target_x@ =~= o.target_x@.push(x));
                assert(self.target_y@ =~= o.target_y@.push(y));
                assert(self.hue@ =~= o.hue@.push(hue));
                assert(self.saturation@ =~= o.saturation@.push(saturation));
                assert(self.lightness@ =~= o.lightness@.push(lightness));
                assert(self.birth_tick@ =~= o.birth_tick@.push(birth_tick));
                assert(self.is_alive@ =~= o.is_alive@.push(true));
            }
        }
        Some(idx)
    }

    /// Marks the agent in slot `index` as dead, if that slot holds a live agent.
    pub fn kill_agent(&mut self, index: usize)
        requires
            old(self).wf(),
        ensures
            final(self).wf(),
            final(self).pos_x == old(self).pos_x,
            final(self).pos_y == old(self).pos_y,
            final(self).target_x == old(self).target_x,
            final(self).target_y == old(self).target_y,
            final(self).hue == old(self).hue,
            final(self).saturation == old(self).saturation,
            final(self).lightness == old(self).lightness,
            final(self).birth_tick == old(self).birth_tick,
            ({
                let live = index < old(self).slots() && old(self).is_alive@[index as int];
                &&& live ==> final(self).is_alive@ == old(self).is_alive@.update(index as int, false)
                &&& live ==> final(self).active_count == old(self).active_count - 1
                &&& !live ==> final(self).is_alive@ == old(self).is_alive@
                &&& !live ==> final(self).active_count == old(self).active_count
            }),
    {
        if index < self.is_alive.len() && self.is_alive[index] {
            proof {
                lemma_count_alive_update(self.is_alive@, index as int, false);
            }
            self.is_alive.set(index, false);
            self.active_count = self.active_count.saturating_sub(1);
        }
    }

    /// Marks every agent as dead.
    pub fn reset(&mut self)
        requires
            old(self).wf(),
        ensures
            final(self).wf(),
            final(self).active_count == 0,
            final(self).is_alive@ == Seq::new(old(self).slots(), |i: int| false),
            final(self).pos_x == old(self).pos_x,
            final(self).pos_y == old(self).pos_y,
            final(self).target_x == old(self).target_x,
            final(self).target_y == old(self).target_y,
            final(self).hue == old(self).hue,
            final(self).saturation == old(self).saturation,
            final(self).lightness == old(self).lightness,
            final(self).birth_tick == old(self).birth_tick,
    {
        let ghost o = *self;
        let n = self.is_alive.len();
        let mut i: usize = 0;
        while i < n
            invariant
                i <= n,
                self.pos_x == o.pos_x,
                self.pos_y == o.pos_y,
                self.target_x == o.target_x,
                self.target_y == o.target_y,
                self.hue == o.hue,
                self.saturation == o.saturation,
                self.lightness == o.lightness,
                self.birth_tick == o.birth_tick,
                o.wf(),
                n == self.is_alive@.len(),
                forall|j: int| 0 <= j < i ==> !self.is_alive@[j],
            decreases n - i,
        {
            self.is_alive.set(i, false);
            i = i + 1;
        }
        self.active_count = 0;
        proof {
            lemma_count_alive_zero(self.is_alive@);
            assert(self.is_alive@ =~= Seq::new(n as nat, |i: int| false));
        }
    }

    /// The live slots, in increasing order.
    pub fn live_slots(&self) -> (r: Vec<usize>)
        ensures
            forall|k: int| 0 <= k < r.len() ==> r@[k] < self.slots() && self.is_alive@[r@[k] as int],
            forall|k1: int, k2: int| 0 <= k1 < k2 < r.len() ==> r@[k1] < r@[k2],
            forall|i: int|
                0 <= i < self.slots() && #[trigger] self.is_alive@[i] ==> exists|k: int|
                    0 <= k < r.len() && r@[k] == i,
    {
        let n = self.is_alive.len();
        let mut r: Vec<usize> = Vec::new();
        let mut i: usize = 0;
        while i < n
            invariant
                n == self.slots(),
                i <= n,
                forall|k: int| 0 <= k < r.len() ==> r@[k] < i && self.is_alive@[r@[k] as int],
                forall|k1: int, k2: int| 0 <= k1 < k2 < r.len() ==> r@[k1] < r@[k2],
                forall|j: int|
                    0 <= j < i && #[trigger] self.is_alive@[j] ==> exists|k: int|
                        0 <= k < r.len() && r@[k] == j,
            decreases n - i,
        {
            if self.is_alive[i] {
                let ghost before = r@;
                r.push(i);
                assert forall|j: int| 0 <= j < i && #[trigger] self.is_alive@[j] implies exists|k: int|
                    0 <= k < r.len() && r@[k] == j by {
                    let k = choose|k: int| 0 <= k < before.len() && before[k] == j;
                    assert(r@[k] == j);
                }
                assert(r@[r.len() - 1] == i);
            }
            i = i + 1;
        }
        r
    }
}

/// Killing the agent that `add_agent` just placed undoes the placement:
/// the same agents are live as before (with one more unused slot when the
/// store grew), and the count is back to what it was.
pub proof fn lemma_kill_undoes_add(
    e0: Entities,
    e1: Entities,
    idx: int,
    x: i32,
    y: i32,
    hue: u32,
    saturation: u32,
    lightness: u32,
    birth_tick: u32,
)
    requires
        e0.wf(),
        e0.is_first_free_slot(idx),
        e0.spec_adds(e1, x, y, hue, saturation, lightness, birth_tick),
    ensures
        idx < e1.slots() && e1.is_alive@[idx],
        e1.is_alive@.update(idx, false) == if idx == e0.slots() {
            e0.is_alive@.push(false)
        } else {
            e0.is_alive@
        },
        e1.active_count - 1 == e0.active_count,
{
    if idx == e0.slots() {
        assert(e1.is_alive@.update(idx, false) =~= e0.is_alive@.push(false));
    } else {
        assert(e1.is_alive@.update(idx, false) =~= e0.is_alive@);
    }
}

} // verus!
