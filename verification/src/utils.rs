//! Numeric kernels on 3 by 3 matrices, the gradient magnitudes of an image,
//! and the insertion of a key into a map that is filled on first use.
use vstd::prelude::*;
use std::collections::HashMap;
use crate::raster::Image;

verus! {

/// The product of two 32-bit integers, which fits in 63 bits.
fn product(x: i32, y: i32) -> (p: i128)
    ensures
        p == x * y,
        -0x4000_0000_0000_0000 <= p <= 0x4000_0000_0000_0000,
{
    assert(-0x4000_0000_0000_0000 <= x * y <= 0x4000_0000_0000_0000) by (nonlinear_arith)
        requires
            -0x8000_0000 <= x <= 0x7fff_ffff,
            -0x8000_0000 <= y <= 0x7fff_ffff,
    ;
    (x as i128) * (y as i128)
}

/// The entry of row `i` and column `j` of the matrix product of `a` and `b`.
pub open spec fn dot3(a: [[i32; 3]; 3], b: [[i32; 3]; 3], i: int, j: int) -> int {
    a[i][0] * b[0][j] + a[i][1] * b[1][j] + a[i][2] * b[2][j]
}

/// The sum of the products of the entries of `a` and `b` that stand in the
/// same place.
pub open spec fn conv3x3_sum(a: [[i32; 3]; 3], b: [[i32; 3]; 3]) -> int {
    a[0][0] * b[0][0] + a[0][1] * b[0][1] + a[0][2] * b[0][2]
        + a[1][0] * b[1][0] + a[1][1] * b[1][1] + a[1][2] * b[1][2]
        + a[2][0] * b[2][0] + a[2][1] * b[2][1] + a[2][2] * b[2][2]
}

fn dot(a: &[[i32; 3]; 3], b: &[[i32; 3]; 3], i: usize, j: usize) -> (d: i128)
    requires
        i < 3,
        j < 3,
    ensures
        d == dot3(*a, *b, i as int, j as int),
{
    product(a[i][0], b[0][j]) + product(a[i][1], b[1][j]) + product(a[i][2], b[2][j])
}

/// The matrix product of two 3 by 3 matrices.
pub fn multiply3x3(a: &[[i32; 3]; 3], b: &[[i32; 3]; 3]) -> (c: [[i128; 3]; 3])
    ensures
        c[0][0] == dot3(*a, *b, 0, 0),
        c[0][1] == dot3(*a, *b, 0, 1),
        c[0][2] == dot3(*a, *b, 0, 2),
        c[1][0] == dot3(*a, *b, 1, 0),
        c[1][1] == dot3(*a, *b, 1, 1),
        c[1][2] == dot3(*a, *b, 1, 2),
        c[2][0] == dot3(*a, *b, 2, 0),
        c[2][1] == dot3(*a, *b, 2, 1),
        c[2][2] == dot3(*a, *b, 2, 2),
{
    [
        [dot(a, b, 0, 0), dot(a, b, 0, 1), dot(a, b, 0, 2)],
        [dot(a, b, 1, 0), dot(a, b, 1, 1), dot(a, b, 1, 2)],
        [dot(a, b, 2, 0), dot(a, b, 2, 1), dot(a, b, 2, 2)],
    ]
}

/// The response of a 3 by 3 operator `b` on a 3 by 3 neighbourhood `a`: the
/// sum of the products of their entries, place by place.
pub fn conv3x3(a: &[[i32; 3]; 3], b: &[[i32; 3]; 3]) -> (s: i128)
    ensures
        s == conv3x3_sum(*a, *b),
{
    product(a[0][0], b[0][0]) + product(a[0][1], b[0][1]) + product(a[0][2], b[0][2])
        + product(a[1][0], b[1][0]) + product(a[1][1], b[1][1]) + product(a[1][2], b[1][2])
        + product(a[2][0], b[2][0]) + product(a[2][1], b[2][1]) + product(a[2][2], b[2][2])
}


/// The luma of the pixel of column `x` and row `y` in an image `width` wide.
pub open spec fn luma_at(luma: Seq<u16>, width: int, x: int, y: int) -> int {
    luma[y * width + x] as int
}

/// Three times the horizontal gradient at a pixel: the left column of its
/// neighbourhood less the right column.
pub open spec fn gradient_x(luma: Seq<u16>, width: int, x: int, y: int) -> int {
    luma_at(luma, width, x - 1, y - 1) + luma_at(luma, width, x - 1, y) + luma_at(luma, width, x - 1, y + 1)
        - luma_at(luma, width, x + 1, y - 1) - luma_at(luma, width, x + 1, y) - luma_at(luma, width, x + 1, y + 1)
}

/// Three times the vertical gradient at a pixel: the top row of its
/// neighbourhood less the bottom row.
pub open spec fn gradient_y(luma: Seq<u16>, width: int, x: int, y: int) -> int {
    luma_at(luma, width, x - 1, y - 1) + luma_at(luma, width, x, y - 1) + luma_at(luma, width, x + 1, y - 1)
        - luma_at(luma, width, x - 1, y + 1) - luma_at(luma, width, x, y + 1) - luma_at(luma, width, x + 1, y + 1)
}

/// Nine times the gradient magnitude at a pixel, the magnitude being the sum
/// of the squares of the two gradients taken with operators of entries one
/// third, zero and minus one third.
pub open spec fn gradient_energy(luma: Seq<u16>, width: int, x: int, y: int) -> int {
    gradient_x(luma, width, x, y) * gradient_x(luma, width, x, y) + gradient_y(luma, width, x, y) * gradient_y(
        luma,
        width,
        x,
        y,
    )
}

proof fn lemma_energy_bounds(luma: Seq<u16>, width: int, x: int, y: int)
    ensures
        0 <= gradient_x(luma, width, x, y) * gradient_x(luma, width, x, y) <= 196605 * 196605,
        0 <= gradient_y(luma, width, x, y) * gradient_y(luma, width, x, y) <= 196605 * 196605,
        0 <= gradient_energy(luma, width, x, y) <= 2 * (196605 * 196605),
{
    let gx = gradient_x(luma, width, x, y);
    let gy = gradient_y(luma, width, x, y);
    assert(0 <= gx * gx <= 196605 * 196605 && 0 <= gy * gy <= 196605 * 196605) by (nonlinear_arith)
        requires
            -196605 <= gx <= 196605,
            -196605 <= gy <= 196605,
    ;
}

/// For each pixel that is not on the border of an image `width` by `height`,
/// row by row, the gradient energy of the first image and that of the second.
pub open spec fn gradient_map(a: Seq<u16>, b: Seq<u16>, width: int, height: int) -> Seq<(u64, u64)> {
    Seq::new(
        ((width - 2) * (height - 2)) as nat,
        |k: int|
            (
                gradient_energy(a, width, 1 + k % (width - 2), 1 + k / (width - 2)) as u64,
                gradient_energy(b, width, 1 + k % (width - 2), 1 + k / (width - 2)) as u64,
            ),
    )
}

pub(crate) proof fn lemma_pixel_index(width: int, height: int, x: int, y: int)
    requires
        0 <= x < width,
        0 <= y < height,
    ensures
        0 <= y * width + x < width * height,
{
    assert(y * width + x < width * height) by (nonlinear_arith)
        requires
            0 <= x < width,
            0 <= y < height,
    ;
    assert(0 <= y * width) by (nonlinear_arith)
        requires
            0 <= y,
            0 < width,
    ;
}

pub(crate) proof fn lemma_interior(k: int, inner_width: int, inner_height: int)
    requires
        0 <= k < inner_width * inner_height,
        0 < inner_width,
    ensures
        0 <= k % inner_width < inner_width,
        0 <= k / inner_width < inner_height,
{
    vstd::arithmetic::div_mod::lemma_fundamental_div_mod(k, inner_width);
    vstd::arithmetic::div_mod::lemma_mod_bound(k, inner_width);
    let q = k / inner_width;
    let r = k % inner_width;
    assert(q < inner_height) by (nonlinear_arith)
        requires
            k == inner_width * q + r,
            0 <= r < inner_width,
            k < inner_width * inner_height,
            0 < inner_width,
    ;
    assert(0 <= q) by (nonlinear_arith)
        requires
            k == inner_width * q + r,
            0 <= r < inner_width,
            0 <= k,
            0 < inner_width,
    ;
}

proof fn lemma_times_sign(a: int, s: int)
    ensures
        s == 1 ==> a * s == a,
        s == 0 ==> a * s == 0,
        s == -1 ==> a * s == -a,
{
    assert(s == 1 ==> a * s == a) by (nonlinear_arith);
    assert(s == 0 ==> a * s == 0) by (nonlinear_arith);
    assert(s == -1 ==> a * s == -a) by (nonlinear_arith);
}

/// The luma of a pixel, as a signed integer.
fn pixel(luma: &Vec<u16>, width: usize, height: usize, x: usize, y: usize) -> (p: i32)
    requires
        luma.len() == width * height,
        x < width,
        y < height,
    ensures
        p == luma_at(luma@, width as int, x as int, y as int),
{
    proof {
        lemma_pixel_index(width as int, height as int, x as int, y as int);
    }
    luma[y * width + x] as i32
}

/// The gradient energy at a pixel that is not on the border.
fn energy(luma: &Vec<u16>, width: usize, height: usize, x: usize, y: usize) -> (e: u64)
    requires
        luma.len() == width * height,
        0 < x < width - 1,
        0 < y < height - 1,
    ensures
        e == gradient_energy(luma@, width as int, x as int, y as int),
{
    let r: [[i32; 3]; 3] = [
        [
            pixel(luma, width, height, x - 1, y - 1),
            pixel(luma, width, height, x, y - 1),
            pixel(luma, width, height, x + 1, y - 1),
        ],
        [
            pixel(luma, width, height, x - 1, y),
            pixel(luma, width, height, x, y),
            pixel(luma, width, height, x + 1, y),
        ],
        [
            pixel(luma, width, height, x - 1, y + 1),
            pixel(luma, width, height, x, y + 1),
            pixel(luma, width, height, x + 1, y + 1),
        ],
    ];
    let across: [[i32; 3]; 3] = [[1, 0, -1], [1, 0, -1], [1, 0, -1]];
    let down: [[i32; 3]; 3] = [[1, 1, 1], [0, 0, 0], [-1, -1, -1]];
    let gx = conv3x3(&r, &across);
    let gy = conv3x3(&r, &down);
    assert(across[0][0] == 1 && across[0][1] == 0 && across[0][2] == -1);
    assert(across[1][0] == 1 && across[1][1] == 0 && across[1][2] == -1);
    assert(across[2][0] == 1 && across[2][1] == 0 && across[2][2] == -1);
    assert(down[0][0] == 1 && down[0][1] == 1 && down[0][2] == 1);
    assert(down[1][0] == 0 && down[1][1] == 0 && down[1][2] == 0);
    assert(down[2][0] == -1 && down[2][1] == -1 && down[2][2] == -1);
    assert(r[0][0] == luma_at(luma@, width as int, x - 1, y - 1));
    assert(r[0][1] == luma_at(luma@, width as int, x as int, y - 1));
    assert(r[0][2] == luma_at(luma@, width as int, x + 1, y - 1));
    assert(r[1][0] == luma_at(luma@, width as int, x - 1, y as int));
    assert(r[1][2] == luma_at(luma@, width as int, x + 1, y as int));
    assert(r[2][0] == luma_at(luma@, width as int, x - 1, y + 1));
    assert(r[2][1] == luma_at(luma@, width as int, x as int, y + 1));
    assert(r[2][2] == luma_at(luma@, width as int, x + 1, y + 1));
    proof {
        lemma_times_sign(r[0][0] as int, across[0][0] as int);
        lemma_times_sign(r[0][0] as int, down[0][0] as int);
        lemma_times_sign(r[0][1] as int, across[0][1] as int);
        lemma_times_sign(r[0][1] as int, down[0][1] as int);
        lemma_times_sign(r[0][2] as int, across[0][2] as int);
        lemma_times_sign(r[0][2] as int, down[0][2] as int);
        lemma_times_sign(r[1][0] as int, across[1][0] as int);
        lemma_times_sign(r[1][0] as int, down[1][0] as int);
        lemma_times_sign(r[1][1] as int, across[1][1] as int);
        lemma_times_sign(r[1][1] as int, down[1][1] as int);
        lemma_times_sign(r[1][2] as int, across[1][2] as int);
        lemma_times_sign(r[1][2] as int, down[1][2] as int);
        lemma_times_sign(r[2][0] as int, across[2][0] as int);
        lemma_times_sign(r[2][0] as int, down[2][0] as int);
        lemma_times_sign(r[2][1] as int, across[2][1] as int);
        lemma_times_sign(r[2][1] as int, down[2][1] as int);
        lemma_times_sign(r[2][2] as int, across[2][2] as int);
        lemma_times_sign(r[2][2] as int, down[2][2] as int);
    }
    assert(gx == gradient_x(luma@, width as int, x as int, y as int));
    assert(gy == gradient_y(luma@, width as int, x as int, y as int));
    proof {
        lemma_energy_bounds(luma@, width as int, x as int, y as int);
    }
    (gx * gx + gy * gy) as u64
}

/// The gradient magnitudes from which the gradient similarity of two images
/// of equal dimensions is taken.
///
/// Both images are reduced to half their width and height with the triangle
/// filter and to 16-bit luma. For each pixel of the reduced images that is
/// not on their border, row by row, the result holds the gradient energy of
/// the first image and that of the second: nine times the magnitudes `m` of
/// which the similarity at that pixel is `(2 * sqrt(m1 * m2) + c) / (m1 + m2 + c)`.
pub fn gradient_magnitude_similarity(original: &Image, other: &Image) -> (gms: Vec<(u64, u64)>)
    requires
        original@.width == other@.width,
        original@.height == other@.height,
        original@.width >= 4,
        original@.height >= 4,
    ensures
        gms@ == gradient_map(
            original@.triangle_luma16(original@.width / 2, original@.height / 2),
            other@.triangle_luma16(original@.width / 2, original@.height / 2),
            original@.width as int / 2,
            original@.height as int / 2,
        ),
        gms@.len() == (original@.width / 2 - 2) * (original@.height / 2 - 2),
{
    proof {
        use_type_invariant(original);
        use_type_invariant(other);
    }
    let nwidth = original.width() / 2;
    let nheight = original.height() / 2;
    let a = original.triangle_luma16(nwidth, nheight);
    let b = other.triangle_luma16(nwidth, nheight);
    let width = nwidth as usize;
    let height = nheight as usize;
    let inner = width - 2;
    let rows = height - 2;
    assert(a.len() == nwidth * nheight);
    assert(0 <= inner * rows <= nwidth * nheight && width * height == nwidth * nheight) by (nonlinear_arith)
        requires
            inner == width - 2,
            rows == height - 2,
            width == nwidth,
            height == nheight,
            width >= 2,
            height >= 2,
    ;
    let len = inner * rows;
    let mut gms: Vec<(u64, u64)> = Vec::with_capacity(len);
    let mut k: usize = 0;
    while k < len
        invariant
            k <= len,
            len == inner * rows,
            inner == width - 2,
            rows == height - 2,
            width >= 2,
            height >= 2,
            a.len() == width * height,
            b.len() == width * height,
            gms.len() == k,
            forall|m: int|
                0 <= m < k ==> gms@[m] == #[trigger] gradient_map(a@, b@, width as int, height as int)[m],
        decreases len - k,
    {
        proof {
            lemma_interior(k as int, inner as int, rows as int);
        }
        let x = 1 + k % inner;
        let y = 1 + k / inner;
        let pair = (energy(&a, width, height, x, y), energy(&b, width, height, x, y));
        gms.push(pair);
        k += 1;
    }
    assert(gms@ =~= gradient_map(a@, b@, width as int, height as int));
    gms
}


/// At every pixel an image has, against itself, the same gradient energy on
/// both sides, so the gradient similarity is one everywhere and does not
/// deviate from its mean.
pub proof fn lemma_gradient_self(a: Seq<u16>, width: int, height: int, k: int)
    requires
        0 <= k < gradient_map(a, a, width, height).len(),
    ensures
        gradient_map(a, a, width, height)[k].0 == gradient_map(a, a, width, height)[k].1,
{
}

/// Puts `value` under `key` unless the map holds the key already, in which
/// case the map stays as it is.
pub fn ensure_key<V>(map: &mut HashMap<u64, V>, key: u64, value: V)
    ensures
        old(map)@.contains_key(key) ==> final(map)@ == old(map)@,
        !old(map)@.contains_key(key) ==> final(map)@ == old(map)@.insert(key, value),
        final(map)@.dom() == old(map)@.dom().insert(key),
        old(map)@.len() <= final(map)@.len() <= old(map)@.len() + 1,
{
    broadcast use vstd::std_specs::hash::group_hash_axioms;

    if map.contains_key(&key) {
        return ;
    }
    map.insert(key, value);
}

/// Puts under `key` what `func` makes, unless the map holds the key already,
/// in which case `func` is not called and the map stays as it is.
pub fn ensure_key_with<V, F: Fn() -> V>(map: &mut HashMap<u64, V>, key: u64, func: &F)
    requires
        func.requires(()),
    ensures
        old(map)@.contains_key(key) ==> final(map)@ == old(map)@,
        !old(map)@.contains_key(key) ==> exists|value: V|
            func.ensures((), value) && final(map)@ == old(map)@.insert(key, value),
        final(map)@.dom() == old(map)@.dom().insert(key),
        old(map)@.len() <= final(map)@.len() <= old(map)@.len() + 1,
{
    broadcast use vstd::std_specs::hash::group_hash_axioms;

    if map.contains_key(&key) {
        return ;
    }
    let value = func();
    map.insert(key, value);
}

} // verus!
