//! Hexagonal grid arithmetic: conversion between offset (rectangular,
//! wrapped) and cube coordinates, directional stepping, and wrapping into
//! the grid bounds. Pure and stateless.
//!
//! The grid uses the odd-row offset layout: a position `(col, row)`
//! corresponds to the cube coordinate `(q, r, s)` with
//! `q = col - (row - (row & 1)) / 2`, `r = row` and `s = -q - r`.

use vstd::prelude::*;

verus! {

/// Width of the grid: columns are wrapped into `[0, MAX_X)`.
pub const MAX_X: i32 = 10000;

/// Height of the grid: rows are wrapped into `[0, MAX_Y)`.
pub const MAX_Y: i32 = 10000;

/// The six movement directions on the hex grid.
#[derive(Debug, PartialEq, Eq, Structural, Clone, Copy)]
pub enum Direction {
    NorthWest,
    NorthEast,
    East,
    SouthEast,
    SouthWest,
    West,
}

/// 1 for an odd row, 0 for an even one; the low bit of `r` in two's
/// complement, written over the Euclidean remainder.
pub open spec fn parity(r: int) -> int {
    if r % 2 == 0 {
        0
    } else {
        1
    }
}

/// The cube coordinate `(q, r, s)` of an offset position `(col, row)`.
pub open spec fn cube_from_offset(col: int, row: int) -> (int, int, int) {
    let q = col - (row - parity(row)) / 2;
    (q, row, -q - row)
}

/// The offset position `(col, row)` of a cube coordinate; the third cube
/// component is redundant and ignored.
pub open spec fn offset_from_cube(q: int, r: int) -> (int, int) {
    (q + (r - parity(r)) / 2, r)
}

/// Converting an offset position to cube coordinates and back returns the
/// original position, for every position.
pub proof fn lemma_offset_cube_round_trip(col: int, row: int)
    ensures
        ({
            let (q, r, s) = cube_from_offset(col, row);
            offset_from_cube(q, r) == (col, row)
        }),
{
}

/// The unit step of a direction, as the change of the `q` cube component.
pub open spec fn direction_dq(d: Direction) -> int {
    match d {
        Direction::NorthWest => 0,
        Direction::NorthEast => 1,
        Direction::East => 1,
        Direction::SouthEast => 0,
        Direction::SouthWest => -1,
        Direction::West => -1,
    }
}

/// The unit step of a direction, as the change of the `r` cube component.
pub open spec fn direction_dr(d: Direction) -> int {
    match d {
        Direction::NorthWest => -1,
        Direction::NorthEast => -1,
        Direction::East => 0,
        Direction::SouthEast => 1,
        Direction::SouthWest => 1,
        Direction::West => 0,
    }
}

/// The cube coordinate reached from `(q, r, s)` by taking `n` unit steps in
/// direction `d`. Each unit vector sums to zero, so the invariant
/// `q + r + s == 0` is preserved.
pub open spec fn stepped_cube(c: (int, int, int), d: Direction, n: int) -> (int, int, int) {
    (c.0 + n * direction_dq(d), c.1 + n * direction_dr(d), c.2 - n * (direction_dq(d)
        + direction_dr(d)))
}

/// Rust's truncating remainder `a % m` for `m > 0`, written over the
/// Euclidean remainder: it agrees for `a >= 0` and is negated for `a < 0`.
pub open spec fn rem_trunc(a: int, m: int) -> int {
    if a >= 0 {
        a % m
    } else {
        -((-a) % m)
    }
}

/// A coordinate wrapped towards the grid range `[0, m)`: `m` is added once
/// if the value is negative, then the truncating remainder is taken. The
/// result lies in `(-m, m)`, and in `[0, m)` whenever the input did not
/// underflow by more than one full wrap (`x >= -m`).
pub open spec fn wrap_coord(x: int, m: int) -> int {
    rem_trunc(
        if x < 0 {
            m + x
        } else {
            x
        },
        m,
    )
}

/// The wrapped coordinate stays within one grid length of the range.
pub proof fn lemma_wrap_coord_bounds(x: int, m: int)
    requires
        m > 0,
    ensures
        -m < wrap_coord(x, m) < m,
        x >= -m ==> 0 <= wrap_coord(x, m) < m,
{
    let x1 = if x < 0 {
        m + x
    } else {
        x
    };
    if x1 >= 0 {
        assert(0 <= x1 % m < m);
    } else {
        assert(0 <= (-x1) % m < m);
    }
    if x >= -m {
        if 0 <= x1 < m {
            assert(x1 % m == x1) by {
                vstd::arithmetic::div_mod::lemma_small_mod(x1 as nat, m as nat);
            };
        }
    }
}

/// Converts an offset position to cube coordinates, `(q, r, s)` with
/// `q + r + s == 0`.
pub fn offset_coordinates_to_cube_coordinates(c: (i32, i32)) -> (res: (i32, i32, i32))
    requires
        -100_000_000 <= c.0 <= 100_000_000,
        -100_000_000 <= c.1 <= 100_000_000,
    ensures
        (res.0 as int, res.1 as int, res.2 as int) == cube_from_offset(c.0 as int, c.1 as int),
{
    let (col, row) = c;
    let half = half_floor(row as i64);
    let q: i64 = col as i64 - half;
    (q as i32, row, (-q - row as i64) as i32)
}

/// Converts a cube coordinate back to an offset position; the third cube
/// component is redundant and ignored.
pub fn cube_coordinates_to_offset_coordinates(c: (i32, i32, i32)) -> (res: (i32, i32))
    requires
        -100_000_000 <= c.0 <= 100_000_000,
        -100_000_000 <= c.1 <= 100_000_000,
    ensures
        (res.0 as int, res.1 as int) == offset_from_cube(c.0 as int, c.1 as int),
{
    let (q, r, _) = c;
    let half = half_floor(r as i64);
    ((q as i64 + half) as i32, r)
}

/// `(row - parity(row)) / 2`, the exact half of the even number below or at
/// `row`.
fn half_floor(row: i64) -> (res: i64)
    requires
        -4_000_000_000 <= row <= 4_000_000_000,
    ensures
        res as int == (row - parity(row as int)) / 2,
{
    let par: i64 = if row % 2 == 0 {
        0
    } else {
        1
    };
    assert(par == parity(row as int)) by {
        lemma_parity_trunc(row as int);
    };
    let res = (row - par) / 2;
    assert(res as int == (row - parity(row as int)) / 2) by {
        lemma_half_of_even(row as int, par as int);
    };
    res
}

/// The position reached from `p` by stepping `tiles` times in direction
/// `dir` on the hex grid, converted back to offset form and wrapped
/// towards the grid bounds.
pub open spec fn moved_position(p: (i32, i32), dir: Direction, tiles: int) -> (i32, i32) {
    let c = cube_from_offset(p.0 as int, p.1 as int);
    let c2 = stepped_cube(c, dir, tiles);
    let o = offset_from_cube(c2.0, c2.1);
    (wrap_coord(o.0, MAX_X as int) as i32, wrap_coord(o.1, MAX_Y as int) as i32)
}

/// Executable form of [`moved_position`]; the result stays within one grid
/// length of the canonical range.
pub fn step_and_wrap(p: (i32, i32), dir: Direction, tiles: u64) -> (res: (i32, i32))
    requires
        -MAX_X < p.0 < MAX_X,
        -MAX_Y < p.1 < MAX_Y,
        tiles <= 0x7fff_ffff,
    ensures
        res == moved_position(p, dir, tiles as int),
        -MAX_X < res.0 < MAX_X,
        -MAX_Y < res.1 < MAX_Y,
{
    let (col, row) = p;
    let q: i64 = col as i64 - half_floor(row as i64);
    let r: i64 = row as i64;
    let t: i64 = tiles as i64;
    let (q2, r2): (i64, i64) = match dir {
        Direction::NorthWest => (q, r - t),
        Direction::NorthEast => (q + t, r - t),
        Direction::East => (q + t, r),
        Direction::SouthEast => (q, r + t),
        Direction::SouthWest => (q - t, r + t),
        Direction::West => (q - t, r),
    };
    let col2: i64 = q2 + half_floor(r2);
    let x = wrap_to(col2, MAX_X);
    let y = wrap_to(r2, MAX_Y);
    proof {
        let o = offset_from_cube(
            stepped_cube(cube_from_offset(p.0 as int, p.1 as int), dir, tiles as int).0,
            stepped_cube(cube_from_offset(p.0 as int, p.1 as int), dir, tiles as int).1,
        );
        assert(col2 as int == o.0);
        assert(r2 as int == o.1);
    }
    (x, y)
}

/// Wraps a coordinate towards `[0, m)` exactly as the engine does: add `m`
/// once if negative, then take the truncating remainder.
fn wrap_to(x: i64, m: i32) -> (res: i32)
    requires
        m >= 1,
        -5_000_000_000 <= x <= 5_000_000_000,
    ensures
        res as int == wrap_coord(x as int, m as int),
        -m < res < m,
{
    let m64: i64 = m as i64;
    let x1: i64 = if x < 0 {
        m64 + x
    } else {
        x
    };
    let w: i64 = if x1 >= 0 {
        x1 % m64
    } else {
        -((-x1) % m64)
    };
    proof {
        lemma_wrap_coord_bounds(x as int, m as int);
    }
    w as i32
}

/// The truncating remainder by 2 is zero exactly when the Euclidean one is.
proof fn lemma_parity_trunc(r: int)
    ensures
        rem_trunc(r, 2) == 0 <==> r % 2 == 0,
        r % 2 == 0 || r % 2 == 1,
{
    if r < 0 {
        assert((-r) % 2 == r % 2) by {
            vstd::arithmetic::div_mod::lemma_mod_multiples_vanish(r, -r, 2);
        };
    }
}

/// Truncating division of the even number `r - par` by 2 agrees with the
/// Euclidean one.
proof fn lemma_half_of_even(r: int, par: int)
    requires
        par == parity(r),
    ensures
        rem_trunc_div(r - par, 2) == (r - par) / 2,
        (r - par) % 2 == 0,
{
    vstd::arithmetic::div_mod::lemma_fundamental_div_mod(r, 2);
    let e = r - par;
    assert(e % 2 == 0);
    vstd::arithmetic::div_mod::lemma_fundamental_div_mod(e, 2);
    if e < 0 {
        let k = e / 2;
        assert(e == 2 * k);
        assert((-e) == 2 * (-k));
        assert((-e) / 2 == -k) by {
            vstd::arithmetic::div_mod::lemma_div_multiples_vanish(-k, 2);
        };
    }
}

/// Rust's truncating division `a / m` for `m > 0`, written over the
/// Euclidean quotient: it agrees for `a >= 0` and mirrors for `a < 0`.
pub open spec fn rem_trunc_div(a: int, m: int) -> int {
    if a >= 0 {
        a / m
    } else {
        -((-a) / m)
    }
}

} // verus!
