use vstd::prelude::*;
use crate::config::MAX_GRID_SIZE;
use crate::entities::Entities;

verus! {

/// The grid cell of agent `i`, given the target coordinates of all agents.
pub open spec fn spec_agent_cell(tx: Seq<i32>, ty: Seq<i32>, g: int, i: int) -> int {
    ty[i] * g + tx[i]
}

/// Agent `i` comes before agent `j` in the spatial order: by cell, and by
/// slot within a cell (the order a stable sort of the slots by cell gives).
pub open spec fn spec_precedes(tx: Seq<i32>, ty: Seq<i32>, g: int, i: int, j: int) -> bool {
    ||| spec_agent_cell(tx, ty, g, i) < spec_agent_cell(tx, ty, g, j)
    ||| spec_agent_cell(tx, ty, g, i) == spec_agent_cell(tx, ty, g, j) && i < j
}

/// `order` lists exactly the live slots of `alive`, each once, in the spatial order.
pub open spec fn spec_is_spatial_order(
    order: Seq<usize>,
    alive: Seq<bool>,
    tx: Seq<i32>,
    ty: Seq<i32>,
    g: int,
) -> bool {
    &&& forall|k: int| 0 <= k < order.len() ==> (order[k] as int) < alive.len() && alive[order[k] as int]
    &&& forall|j: int| 0 <= j < alive.len() && alive[j] ==> order.contains(j as usize)
    &&& forall|a: int, b: int|
        0 <= a < b < order.len() ==> spec_precedes(tx, ty, g, order[a] as int, order[b] as int)
}

/// `a` comes before `b` in the lexicographic order of `(cell, slot)` pairs.
pub open spec fn spec_pair_less(a: (usize, usize), b: (usize, usize)) -> bool {
    a.0 < b.0 || (a.0 == b.0 && a.1 < b.1)
}

/// `s` is in strictly increasing lexicographic order.
pub open spec fn spec_strictly_sorted(s: Seq<(usize, usize)>) -> bool {
    forall|i: int, j: int| 0 <= i < j < s.len() ==> spec_pair_less(#[trigger] s[i], #[trigger] s[j])
}

proof fn lemma_push_contains<T>(s: Seq<T>, v: T, x: T)
    ensures
        s.push(v).contains(x) <==> (s.contains(x) || x == v),
{
    if s.push(v).contains(x) {
        let k = choose|k: int| 0 <= k < s.push(v).len() && s.push(v)[k] == x;
        if k < s.len() {
            assert(s[k] == x);
        }
    }
    if s.contains(x) {
        let k = choose|k: int| 0 <= k < s.len() && s[k] == x;
        assert(s.push(v)[k] == x);
    }
    if x == v {
        assert(s.push(v)[s.len() as int] == x);
    }
}

proof fn lemma_take_one_more_contains<T>(s: Seq<T>, i: int, x: T)
    requires
        0 <= i < s.len(),
    ensures
        s.take(i + 1).contains(x) <==> (s.take(i).contains(x) || x == s[i]),
{
    assert(s.take(i + 1) =~= s.take(i).push(s[i]));
    lemma_push_contains(s.take(i), s[i], x);
}

proof fn lemma_subrange_split_contains<T>(s: Seq<T>, lo: int, mid: int, hi: int, x: T)
    requires
        0 <= lo <= mid <= hi <= s.len(),
    ensures
        s.subrange(lo, hi).contains(x) <==> (s.subrange(lo, mid).contains(x) || s.subrange(
            mid,
            hi,
        ).contains(x)),
{
    let whole = s.subrange(lo, hi);
    let left = s.subrange(lo, mid);
    let right = s.subrange(mid, hi);
    if whole.contains(x) {
        let k = choose|k: int| 0 <= k < whole.len() && whole[k] == x;
        if k < mid - lo {
            assert(left[k] == x);
        } else {
            assert(right[k - (mid - lo)] == x);
        }
    }
    if left.contains(x) {
        let k = choose|k: int| 0 <= k < left.len() && left[k] == x;
        assert(whole[k] == x);
    }
    if right.contains(x) {
        let k = choose|k: int| 0 <= k < right.len() && right[k] == x;
        assert(whole[k + (mid - lo)] == x);
    }
}

/// Lexicographic comparison of `(cell, slot)` pairs.
fn pair_less(a: (usize, usize), b: (usize, usize)) -> (r: bool)
    ensures
        r == spec_pair_less(a, b),
{
    a.0 < b.0 || (a.0 == b.0 && a.1 < b.1)
}

/// Merges two strictly increasing lists into one, keeping one copy of a
/// pair both hold.
fn merge(a: &Vec<(usize, usize)>, b: &Vec<(usize, usize)>) -> (r: Vec<(usize, usize)>)
    requires
        spec_strictly_sorted(a@),
        spec_strictly_sorted(b@),
    ensures
        spec_strictly_sorted(r@),
        forall|x: (usize, usize)| r@.contains(x) <==> (a@.contains(x) || b@.contains(x)),
{
    let mut r: Vec<(usize, usize)> = Vec::new();
    let mut i: usize = 0;
    let mut j: usize = 0;
    while i < a.len() || j < b.len()
        invariant
            i <= a@.len(),
            j <= b@.len(),
            spec_strictly_sorted(a@),
            spec_strictly_sorted(b@),
            spec_strictly_sorted(r@),
            forall|k: int|
                0 <= k < r@.len() ==> (i < a@.len() ==> spec_pair_less(#[trigger] r@[k], a@[i as int]))
                    && (j < b@.len() ==> spec_pair_less(r@[k], b@[j as int])),
            forall|x: (usize, usize)|
                r@.contains(x) <==> (a@.take(i as int).contains(x) || b@.take(j as int).contains(x)),
        decreases a@.len() - i + b@.len() - j,
    {
        let ghost old_r = r@;
        if j >= b.len() || (i < a.len() && pair_less(a[i], b[j])) {
            let v = a[i];
            r.push(v);
            proof {
                assert forall|x: (usize, usize)| r@.contains(x) <==> (a@.take(i + 1).contains(x)
                    || b@.take(j as int).contains(x)) by {
                    lemma_push_contains(old_r, v, x);
                    lemma_take_one_more_contains(a@, i as int, x);
                }
                if i + 1 < a@.len() {
                    assert(spec_pair_less(a@[i as int], a@[i + 1]));
                }
            }
            i = i + 1;
        } else if i >= a.len() || pair_less(b[j], a[i]) {
            let v = b[j];
            r.push(v);
            proof {
                assert forall|x: (usize, usize)| r@.contains(x) <==> (a@.take(i as int).contains(x)
                    || b@.take(j + 1).contains(x)) by {
                    lemma_push_contains(old_r, v, x);
                    lemma_take_one_more_contains(b@, j as int, x);
                }
                if j + 1 < b@.len() {
                    assert(spec_pair_less(b@[j as int], b@[j + 1]));
                }
            }
            j = j + 1;
        } else {
            // the same pair heads both lists
            let v = a[i];
            r.push(v);
            proof {
                assert(a@[i as int] == b@[j as int]);
                assert forall|x: (usize, usize)| r@.contains(x) <==> (a@.take(i + 1).contains(x)
                    || b@.take(j + 1).contains(x)) by {
                    lemma_push_contains(old_r, v, x);
                    lemma_take_one_more_contains(a@, i as int, x);
                    lemma_take_one_more_contains(b@, j as int, x);
                }
                if i + 1 < a@.len() {
                    assert(spec_pair_less(a@[i as int], a@[i + 1]));
                }
                if j + 1 < b@.len() {
                    assert(spec_pair_less(b@[j as int], b@[j + 1]));
                }
            }
            i = i + 1;
            j = j + 1;
        }
    }
    proof {
        assert(a@.take(a@.len() as int) =~= a@);
        assert(b@.take(b@.len() as int) =~= b@);
    }
    r
}

/// Merge sort of `v[lo..hi]` into strictly increasing order (one copy of
/// each pair).
fn sort_pairs(v: &Vec<(usize, usize)>, lo: usize, hi: usize) -> (r: Vec<(usize, usize)>)
    requires
        lo <= hi <= v@.len(),
    ensures
        spec_strictly_sorted(r@),
        forall|x: (usize, usize)| r@.contains(x) <==> v@.subrange(lo as int, hi as int).contains(x),
    decreases hi - lo,
{
    if hi - lo == 0 {
        let r: Vec<(usize, usize)> = Vec::new();
        proof {
            assert forall|x: (usize, usize)| !v@.subrange(lo as int, hi as int).contains(x) by {}
        }
        r
    } else if hi - lo == 1 {
        let mut r: Vec<(usize, usize)> = Vec::new();
        r.push(v[lo]);
        proof {
            assert(v@.subrange(lo as int, hi as int) =~= r@);
        }
        r
    } else {
        let mid = lo + (hi - lo) / 2;
        let a = sort_pairs(v, lo, mid);
        let b = sort_pairs(v, mid, hi);
        let r = merge(&a, &b);
        proof {
            assert forall|x: (usize, usize)| r@.contains(x) <==> v@.subrange(
                lo as int,
                hi as int,
            ).contains(x) by {
                lemma_subrange_split_contains(v@, lo as int, mid as int, hi as int, x);
            }
        }
        r
    }
}

/// The live slots sorted by grid cell; slots that share a cell keep their
/// relative order (the result of a stable sort of the live slots by cell).
pub fn sort_by_cell(alive: &Vec<bool>, tx: &Vec<i32>, ty: &Vec<i32>, grid_size: usize) -> (order:
    Vec<usize>)
    requires
        tx@.len() == alive@.len(),
        ty@.len() == alive@.len(),
        grid_size * grid_size <= usize::MAX,
        forall|i: int|
            0 <= i < alive@.len() && alive@[i] ==> 0 <= tx@[i] < grid_size && 0 <= ty@[i]
                < grid_size,
    ensures
        spec_is_spatial_order(order@, alive@, tx@, ty@, grid_size as int),
{
    let ghost g = grid_size as int;
    let n = alive.len();
    // (cell, slot) of every live agent
    let mut pairs: Vec<(usize, usize)> = Vec::new();
    let mut i: usize = 0;
    while i < n
        invariant
            n == alive@.len(),
            tx@.len() == n,
            ty@.len() == n,
            g == grid_size as int,
            grid_size * grid_size <= usize::MAX,
            forall|j: int|
                0 <= j < n && alive@[j] ==> 0 <= tx@[j] < grid_size && 0 <= ty@[j] < grid_size,
            i <= n,
            forall|p: (usize, usize)|
                pairs@.contains(p) <==> ((p.1 as int) < i && alive@[p.1 as int] && p.0 as int
                    == spec_agent_cell(tx@, ty@, g, p.1 as int)),
        decreases n - i,
    {
        let ghost old_pairs = pairs@;
        if alive[i] {
            let x = tx[i] as usize;
            let y = ty[i] as usize;
            assert(y * grid_size + x <= grid_size * grid_size) by (nonlinear_arith)
                requires
                    y < grid_size,
                    x < grid_size,
            ;
            let cell = y * grid_size + x;
            pairs.push((cell, i));
            proof {
                assert(cell as int == spec_agent_cell(tx@, ty@, g, i as int)) by (nonlinear_arith)
                    requires
                        cell == y * grid_size + x,
                        x as int == tx@[i as int],
                        y as int == ty@[i as int],
                        g == grid_size as int,
                ;
                assert forall|p: (usize, usize)| pairs@.contains(p) <==> ((p.1 as int) < i + 1
                    && alive@[p.1 as int] && p.0 as int == spec_agent_cell(tx@, ty@, g, p.1 as int)) by {
                    lemma_push_contains(old_pairs, (cell, i), p);
                }
            }
        }
        i = i + 1;
    }
    let sorted = sort_pairs(&pairs, 0, pairs.len());
    proof {
        assert(pairs@.subrange(0, pairs@.len() as int) =~= pairs@);
    }
    let mut order: Vec<usize> = Vec::new();
    let m = sorted.len();
    let mut k: usize = 0;
    while k < m
        invariant
            m == sorted@.len(),
            k <= m,
            spec_strictly_sorted(sorted@),
            forall|p: (usize, usize)| sorted@.contains(p) <==> pairs@.contains(p),
            forall|p: (usize, usize)|
                pairs@.contains(p) <==> ((p.1 as int) < n && alive@[p.1 as int] && p.0 as int
                    == spec_agent_cell(tx@, ty@, g, p.1 as int)),
            order@.len() == k,
            forall|j: int| 0 <= j < k ==> #[trigger] order@[j] == sorted@[j].1,
        decreases m - k,
    {
        order.push(sorted[k].1);
        k = k + 1;
    }
    proof {
        assert forall|j: int| 0 <= j < order@.len() implies (order@[j] as int) < alive@.len()
            && alive@[order@[j] as int] by {
            assert(sorted@.contains(sorted@[j]));
        }
        assert forall|j: int| 0 <= j < alive@.len() && alive@[j] implies order@.contains(
            j as usize,
        ) by {
            let c = spec_agent_cell(tx@, ty@, g, j);
            assert(0 <= c < g * g) by (nonlinear_arith)
                requires
                    0 <= tx@[j] < g,
                    0 <= ty@[j] < g,
                    c == ty@[j] * g + tx@[j],
            ;
            let p = (c as usize, j as usize);
            assert(p.0 as int == c);
            assert(pairs@.contains(p));
            let q = choose|q: int| 0 <= q < sorted@.len() && sorted@[q] == p;
            assert(order@[q] == j as usize);
        }
        assert forall|a: int, b: int| 0 <= a < b < order@.len() implies spec_precedes(
            tx@,
            ty@,
            g,
            order@[a] as int,
            order@[b] as int,
        ) by {
            assert(spec_pair_less(sorted@[a], sorted@[b]));
            assert(sorted@.contains(sorted@[a]));
            assert(sorted@.contains(sorted@[b]));
        }
    }
    order
}

/// The live agents in spatial order, with copies of the data the collision
/// phase reads: slot `indices[k]` holds the `k`-th agent of the order.
pub struct SortedAgents {
    pub indices: Vec<usize>,
    pub x: Vec<i32>,
    pub y: Vec<i32>,
    pub hue: Vec<u32>,
    pub saturation: Vec<u32>,
    pub lightness: Vec<u32>,
    pub birth: Vec<u32>,
    pub pos_x: Vec<i32>,
    pub pos_y: Vec<i32>,
}

impl SortedAgents {
    /// Number of agents in the order.
    pub open spec fn len(&self) -> nat {
        self.indices@.len()
    }

    /// No agents.
    pub fn empty() -> (s: Self)
        ensures
            s.indices@ == Seq::<usize>::empty(),
            s.x@ == Seq::<i32>::empty(),
            s.y@ == Seq::<i32>::empty(),
            s.hue@ == Seq::<u32>::empty(),
            s.saturation@ == Seq::<u32>::empty(),
            s.lightness@ == Seq::<u32>::empty(),
            s.birth@ == Seq::<u32>::empty(),
            s.pos_x@ == Seq::<i32>::empty(),
            s.pos_y@ == Seq::<i32>::empty(),
    {
        SortedAgents {
            indices: Vec::new(),
            x: Vec::new(),
            y: Vec::new(),
            hue: Vec::new(),
            saturation: Vec::new(),
            lightness: Vec::new(),
            birth: Vec::new(),
            pos_x: Vec::new(),
            pos_y: Vec::new(),
        }
    }

    /// Every copy agrees with the live agent of its slot in `e`.
    pub open spec fn mirrors(&self, e: &Entities) -> bool {
        &&& self.x@.len() == self.len()
        &&& self.y@.len() == self.len()
        &&& self.hue@.len() == self.len()
        &&& self.saturation@.len() == self.len()
        &&& self.lightness@.len() == self.len()
        &&& self.birth@.len() == self.len()
        &&& self.pos_x@.len() == self.len()
        &&& self.pos_y@.len() == self.len()
        &&& forall|k: int|
            #![trigger self.indices@[k]]
            0 <= k < self.len() ==> {
                let i = self.indices@[k] as int;
                &&& i < e.slots()
                &&& e.is_alive@[i]
                &&& e.target_x@[i] == self.x@[k]
                &&& e.target_y@[i] == self.y@[k]
                &&& e.hue@[i] == self.hue@[k]
                &&& e.saturation@[i] == self.saturation@[k]
                &&& e.lightness@[i] == self.lightness@[k]
                &&& e.birth_tick@[i] == self.birth@[k]
                &&& e.pos_x@[i] == self.pos_x@[k]
                &&& e.pos_y@[i] == self.pos_y@[k]
            }
    }

    /// The cell of the `k`-th agent of the order.
    pub open spec fn cell(&self, k: int, g: int) -> int {
        self.y@[k] * g + self.x@[k]
    }

    /// Spatial sorting: the live agents of `e` sorted by the cell they
    /// target, slots that share a cell in slot order.
    pub fn snapshot(e: &Entities, grid_size: usize) -> (s: Self)
        requires
            e.wf(),
            grid_size <= MAX_GRID_SIZE,
            forall|i: int|
                0 <= i < e.slots() && e.is_alive@[i] ==> 0 <= e.target_x@[i] < grid_size && 0
                    <= e.target_y@[i] < grid_size,
        ensures
            s.mirrors(e),
            spec_is_spatial_order(s.indices@, e.is_alive@, e.target_x@, e.target_y@, grid_size as int),
    {
        assert(grid_size * grid_size <= usize::MAX) by (nonlinear_arith)
            requires
                grid_size <= MAX_GRID_SIZE,
        ;
        let indices = sort_by_cell(&e.is_alive, &e.target_x, &e.target_y, grid_size);
        let mut s = SortedAgents {
            indices: Vec::new(),
            x: Vec::new(),
            y: Vec::new(),
            hue: Vec::new(),
            saturation: Vec::new(),
            lightness: Vec::new(),
            birth: Vec::new(),
            pos_x: Vec::new(),
            pos_y: Vec::new(),
        };
        let n = indices.len();
        let mut k: usize = 0;
        while k < n
            invariant
                e.wf(),
                n == indices@.len(),
                k <= n,
                forall|j: int|
                    0 <= j < n ==> (indices@[j] as int) < e.slots() && e.is_alive@[indices@[j] as int],
                s.indices@ == indices@.take(k as int),
                s.mirrors(e),
            decreases n - k,
        {
            let idx = indices[k];
            s.indices.push(idx);
            s.x.push(e.target_x[idx]);
            s.y.push(e.target_y[idx]);
            s.hue.push(e.hue[idx]);
            s.saturation.push(e.saturation[idx]);
            s.lightness.push(e.lightness[idx]);
            s.birth.push(e.birth_tick[idx]);
            s.pos_x.push(e.pos_x[idx]);
            s.pos_y.push(e.pos_y[idx]);
            k = k + 1;
            assert(s.indices@ =~= indices@.take(k as int));
        }
        assert(indices@.take(n as int) =~= indices@);
        s
    }
}

/// Greedy pairing of neighbours in the order: the first position `p >= pos`
/// whose agent shares its cell with the agent at `p + 1`, if any.
pub open spec fn spec_next_pair(cells: Seq<int>, pos: int) -> Option<int>
    decreases cells.len() - pos,
{
    if pos < 0 || pos + 1 >= cells.len() {
        None
    } else if cells[pos] == cells[pos + 1] {
        Some(pos)
    } else {
        spec_next_pair(cells, pos + 1)
    }
}

/// The cells of the agents of `s`, in order.
pub open spec fn spec_cells(s: &SortedAgents, g: int) -> Seq<int> {
    Seq::new(s.len(), |k: int| s.cell(k, g))
}

/// Each strictly ordered listing of the same agents is the same listing.
proof fn lemma_sorted_listing_unique(a: Seq<usize>, b: Seq<usize>, tx: Seq<i32>, ty: Seq<i32>, g: int)
    requires
        forall|i: int, j: int| 0 <= i < j < a.len() ==> spec_precedes(tx, ty, g, a[i] as int, a[j] as int),
        forall|i: int, j: int| 0 <= i < j < b.len() ==> spec_precedes(tx, ty, g, b[i] as int, b[j] as int),
        forall|x: usize| a.contains(x) <==> b.contains(x),
    ensures
        a == b,
    decreases a.len() + b.len(),
{
    if a.len() == 0 {
        if b.len() > 0 {
            assert(b.contains(b[0]));
        }
        assert(a =~= b);
    } else if b.len() == 0 {
        assert(a.contains(a[0]));
    } else {
        // the first entries are the least agents of the same set
        assert(a.contains(b[0]));
        assert(b.contains(a[0]));
        let ia = choose|k: int| 0 <= k < a.len() && a[k] == b[0];
        let ib = choose|k: int| 0 <= k < b.len() && b[k] == a[0];
        if a[0] != b[0] {
            assert(ia > 0 && ib > 0);
            assert(spec_precedes(tx, ty, g, a[0] as int, b[0] as int));
            assert(spec_precedes(tx, ty, g, b[0] as int, a[0] as int));
        }
        let a1 = a.drop_first();
        let b1 = b.drop_first();
        assert forall|x: usize| a1.contains(x) <==> b1.contains(x) by {
            if a1.contains(x) {
                let k = choose|k: int| 0 <= k < a1.len() && a1[k] == x;
                assert(a[k + 1] == x);
                assert(spec_precedes(tx, ty, g, a[0] as int, a[k + 1] as int));
                assert(x != a[0]);
                assert(a.contains(x));
                let j = choose|j: int| 0 <= j < b.len() && b[j] == x;
                assert(j != 0);
                assert(b1[j - 1] == x);
            }
            if b1.contains(x) {
                let k = choose|k: int| 0 <= k < b1.len() && b1[k] == x;
                assert(b[k + 1] == x);
                assert(spec_precedes(tx, ty, g, b[0] as int, b[k + 1] as int));
                assert(x != b[0]);
                assert(b.contains(x));
                let j = choose|j: int| 0 <= j < a.len() && a[j] == x;
                assert(j != 0);
                assert(a1[j - 1] == x);
            }
        }
        assert forall|i: int, j: int| 0 <= i < j < a1.len() implies spec_precedes(
            tx,
            ty,
            g,
            a1[i] as int,
            a1[j] as int,
        ) by {
            assert(a1[i] == a[i + 1] && a1[j] == a[j + 1]);
        }
        assert forall|i: int, j: int| 0 <= i < j < b1.len() implies spec_precedes(
            tx,
            ty,
            g,
            b1[i] as int,
            b1[j] as int,
        ) by {
            assert(b1[i] == b[i + 1] && b1[j] == b[j + 1]);
        }
        lemma_sorted_listing_unique(a1, b1, tx, ty, g);
        assert(a =~= b) by {
            assert forall|k: int| 0 <= k < a.len() implies a[k] == b[k] by {
                if k > 0 {
                    assert(a[k] == a1[k - 1] && b[k] == b1[k - 1]);
                }
            }
        }
    }
}

/// The spatial order of the live agents is unique: sorting them by cell,
/// slots that share a cell in slot order (a stable sort of the slots by
/// cell), leaves no choice.
pub proof fn lemma_spatial_order_unique(
    a: Seq<usize>,
    b: Seq<usize>,
    alive: Seq<bool>,
    tx: Seq<i32>,
    ty: Seq<i32>,
    g: int,
)
    requires
        spec_is_spatial_order(a, alive, tx, ty, g),
        spec_is_spatial_order(b, alive, tx, ty, g),
    ensures
        a == b,
{
    assert forall|x: usize| a.contains(x) <==> b.contains(x) by {
        if a.contains(x) {
            let k = choose|k: int| 0 <= k < a.len() && a[k] == x;
            assert(alive[a[k] as int]);
        }
        if b.contains(x) {
            let k = choose|k: int| 0 <= k < b.len() && b[k] == x;
            assert(alive[b[k] as int]);
        }
    }
    lemma_sorted_listing_unique(a, b, tx, ty, g);
}

/// In the spatial order the cells never decrease.
pub proof fn lemma_spatial_order_by_cell(
    order: Seq<usize>,
    alive: Seq<bool>,
    tx: Seq<i32>,
    ty: Seq<i32>,
    g: int,
    i: int,
    j: int,
)
    requires
        spec_is_spatial_order(order, alive, tx, ty, g),
        0 <= i <= j < order.len(),
    ensures
        spec_agent_cell(tx, ty, g, order[i] as int) <= spec_agent_cell(tx, ty, g, order[j] as int),
{
    if i < j {
        assert(spec_precedes(tx, ty, g, order[i] as int, order[j] as int));
    }
}

/// Greedy pairing finds the first pair of neighbours in the order that share
/// a cell, at or after `pos`.
pub proof fn lemma_next_pair_is_first(cells: Seq<int>, pos: int)
    requires
        0 <= pos,
    ensures
        spec_next_pair(cells, pos) matches Some(p) ==> pos <= p && p + 1 < cells.len() && cells[p]
            == cells[p + 1] && forall|q: int| pos <= q < p ==> #[trigger] cells[q] != cells[q + 1],
        spec_next_pair(cells, pos) is None ==> forall|q: int|
            pos <= q && q + 1 < cells.len() ==> #[trigger] cells[q] != cells[q + 1],
    decreases cells.len() - pos,
{
    if pos + 1 < cells.len() && cells[pos] != cells[pos + 1] {
        lemma_next_pair_is_first(cells, pos + 1);
    }
}

} // verus!
