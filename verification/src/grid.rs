use vstd::prelude::*;
use vstd::arithmetic::div_mod::{
    lemma_fundamental_div_mod,
    lemma_mod_add_multiples_vanish,
    lemma_mod_multiples_vanish,
    lemma_small_mod,
};

verus! {

/// Coordinate `n` wrapped onto a ring of `g` cells: the representative of
/// `n` modulo `g` in `[0, g)`.
pub open spec fn spec_wrap(n: int, g: int) -> int {
    n % g
}

/// A wrapped coordinate lies on the ring and differs from the unwrapped one by
/// whole turns.
pub proof fn lemma_wrap_on_ring(n: int, g: int)
    requires
        0 < g,
    ensures
        0 <= spec_wrap(n, g) < g,
        (n - spec_wrap(n, g)) % g == 0,
        0 <= n < g ==> spec_wrap(n, g) == n,
{
    lemma_fundamental_div_mod(n, g);
    lemma_mod_multiples_vanish(n / g, 0, g);
    assert(n - spec_wrap(n, g) == g * (n / g) + 0);
    if 0 <= n < g {
        lemma_small_mod(n as nat, g as nat);
    }
}

/// Index of the cell `(x, y)` on a grid of side `g`, row by row.
pub open spec fn spec_cell(x: int, y: int, g: int) -> int {
    y * g + x
}

/// The step of the Moore neighbourhood that direction `dir` selects:
/// N, NE, E, SE, S, SW, W, then NW for every other value.
pub open spec fn spec_move_delta(dir: u32) -> (int, int) {
    if dir == 0 {
        (0, -1)
    } else if dir == 1 {
        (1, -1)
    } else if dir == 2 {
        (1, 0)
    } else if dir == 3 {
        (1, 1)
    } else if dir == 4 {
        (0, 1)
    } else if dir == 5 {
        (-1, 1)
    } else if dir == 6 {
        (-1, 0)
    } else {
        (-1, -1)
    }
}

/// Toroidal wrapping of a coordinate: the world loops at its edges.
pub fn wrap_coordinate(n: i64, grid_size: i32) -> (r: i32)
    requires
        0 < grid_size,
    ensures
        r == spec_wrap(n as int, grid_size as int),
        0 <= r < grid_size,
{
    let g = grid_size as i64;
    let a = n % g;
    proof {
        let gi = g as int;
        if n >= 0 {
            assert(a == (n as int) % gi);
            lemma_small_mod(a as nat, gi as nat);
        } else {
            let m = -(n as int);
            assert(a == -(m % gi));
            lemma_fundamental_div_mod(m, gi);
            assert(n as int == gi * (-(m / gi)) + a) by (nonlinear_arith)
                requires
                    m == gi * (m / gi) + m % gi,
                    a == -(m % gi),
                    n as int == -m,
            ;
            lemma_mod_multiples_vanish(-(m / gi), a as int, gi);
        }
        lemma_mod_add_multiples_vanish(a as int, gi);
    }
    let b = a + g;
    let c = b % g;
    proof {
        assert(0 <= b);
        assert(c == (b as int) % (g as int));
    }
    c as i32
}

/// The step that direction `dir` selects.
pub fn move_delta(dir: u32) -> (d: (i32, i32))
    ensures
        d.0 == spec_move_delta(dir).0,
        d.1 == spec_move_delta(dir).1,
{
    match dir {
        0 => (0, -1),  // N
        1 => (1, -1),  // NE
        2 => (1, 0),  // E
        3 => (1, 1),  // SE
        4 => (0, 1),  // S
        5 => (-1, 1),  // SW
        6 => (-1, 0),  // W
        _ => (-1, -1),  // NW
    }
}

} // verus!
