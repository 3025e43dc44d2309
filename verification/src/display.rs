//! The display compositor: XOR-blit of a sprite into the 32x64 frame buffer
//! with toroidal wraparound and pixel-collision detection.
//!
//! The frame buffer is a row-major grid of single-bit pixels: pixel
//! (row, col) lives at index `row * 64 + col`. Drawing XORs each set sprite
//! bit into the pixel at row `(y + r) % 32`, column `(x + b) % 64`, and
//! reports whether any XOR turned a previously-set pixel off.

use vstd::prelude::*;
use vstd::arithmetic::div_mod::lemma_fundamental_div_mod;
use vstd::arithmetic::div_mod::lemma_fundamental_div_mod_converse;

verus! {

/// Bit `b` of a sprite row byte, most significant bit first.
pub open spec fn sprite_bit(byte: u8, b: u8) -> bool
    recommends
        b < 8,
{
    (byte >> ((7 - b) as u8)) & 1 == 1
}

/// Whether bit `b` of sprite row `r` is set and lands on the target pixel
/// (rt, ct) under toroidal addressing.
pub open spec fn hits_pixel(mem: Seq<u8>, i: int, x: int, y: int, r: int, b: u8, rt: int, ct: int) -> bool {
    &&& (y + r) % 32 == rt
    &&& (x + b) % 64 == ct
    &&& sprite_bit(mem[i + r], b)
}

/// Whether drawing an `n`-row sprite flips the target pixel (rt, ct): some
/// set bit of some sprite row lands there.
pub open spec fn draw_hit(mem: Seq<u8>, i: int, x: int, y: int, n: int, rt: int, ct: int) -> bool {
    exists|r: int, b: u8| 0 <= r < n && b < 8 && #[trigger] hits_pixel(mem, i, x, y, r, b, rt, ct)
}

/// The frame buffer after drawing: each pixel is XORed with whether the
/// sprite hits it.
pub open spec fn spec_draw_fb(fb: Seq<bool>, mem: Seq<u8>, i: int, x: int, y: int, n: int) -> Seq<bool> {
    Seq::new(fb.len(), |p: int| fb[p] != draw_hit(mem, i, x, y, n, p / 64, p % 64))
}

/// Whether drawing turns some previously-set pixel off.
pub open spec fn spec_draw_collision(fb: Seq<bool>, mem: Seq<u8>, i: int, x: int, y: int, n: int) -> bool {
    exists|p: int| 0 <= p < fb.len() && fb[p] && #[trigger] draw_hit(mem, i, x, y, n, p / 64, p % 64)
}

/// Hits processed so far mid-draw: all of the first `row` sprite rows, plus
/// the first `bits` bits of row `row`.
spec fn draw_hit_upto(mem: Seq<u8>, i: int, x: int, y: int, row: int, bits: u8, rt: int, ct: int) -> bool {
    ||| draw_hit(mem, i, x, y, row, rt, ct)
    ||| exists|b: u8| b < bits && #[trigger] hits_pixel(mem, i, x, y, row, b, rt, ct)
}

/// Whether bit `b` of sprite row `r` is set and lands on a pixel that `fb`
/// has on.
spec fn bit_collides(fb: Seq<bool>, mem: Seq<u8>, i: int, x: int, y: int, r: int, b: u8) -> bool {
    sprite_bit(mem[i + r], b) && fb[((y + r) % 32) * 64 + ((x + b) % 64)]
}

/// Collisions among the hits processed so far mid-draw.
spec fn collide_upto(fb: Seq<bool>, mem: Seq<u8>, i: int, x: int, y: int, row: int, bits: u8) -> bool {
    ||| exists|r: int, b: u8| 0 <= r < row && b < 8 && #[trigger] bit_collides(fb, mem, i, x, y, r, b)
    ||| exists|b: u8| b < bits && #[trigger] bit_collides(fb, mem, i, x, y, row, b)
}

proof fn lemma_mod32(a: int)
    requires
        0 <= a < 64,
    ensures
        a % 32 == if a < 32 { a } else { a - 32 },
{
    if a < 32 {
        lemma_fundamental_div_mod_converse(a, 32, 0, a);
    } else {
        lemma_fundamental_div_mod_converse(a, 32, 1, a - 32);
    }
}

proof fn lemma_mod64(a: int)
    requires
        0 <= a < 128,
    ensures
        a % 64 == if a < 64 { a } else { a - 64 },
{
    if a < 64 {
        lemma_fundamental_div_mod_converse(a, 64, 0, a);
    } else {
        lemma_fundamental_div_mod_converse(a, 64, 1, a - 64);
    }
}

/// Distinct rows of a short sprite land on distinct frame-buffer rows.
proof fn lemma_row_unique(y: int, r1: int, r2: int)
    requires
        0 <= y < 32,
        0 <= r1 < 16,
        0 <= r2 < 16,
        (y + r1) % 32 == (y + r2) % 32,
    ensures
        r1 == r2,
{
    lemma_mod32(y + r1);
    lemma_mod32(y + r2);
}

/// Distinct bits of one sprite row land on distinct frame-buffer columns.
proof fn lemma_col_unique(x: int, b1: int, b2: int)
    requires
        0 <= x < 64,
        0 <= b1 < 8,
        0 <= b2 < 8,
        (x + b1) % 64 == (x + b2) % 64,
    ensures
        b1 == b2,
{
    lemma_mod64(x + b1);
    lemma_mod64(x + b2);
}

proof fn lemma_pixel_index(rt: int, ct: int)
    requires
        0 <= rt < 32,
        0 <= ct < 64,
    ensures
        (rt * 64 + ct) / 64 == rt,
        (rt * 64 + ct) % 64 == ct,
        0 <= rt * 64 + ct < 2048,
{
    lemma_fundamental_div_mod_converse(rt * 64 + ct, 64, rt, ct);
}

proof fn lemma_pixel_decompose(p: int)
    requires
        0 <= p < 2048,
    ensures
        p == 64 * (p / 64) + p % 64,
        0 <= p % 64 < 64,
        0 <= p / 64 < 32,
{
    lemma_fundamental_div_mod(p, 64);
}

/// Extending the processed range by one bit adds exactly that bit's hit.
proof fn lemma_upto_step(mem: Seq<u8>, i: int, x: int, y: int, row: int, b: u8, rt: int, ct: int)
    requires
        b < 8,
    ensures
        draw_hit_upto(mem, i, x, y, row, (b + 1) as u8, rt, ct) == (draw_hit_upto(
            mem,
            i,
            x,
            y,
            row,
            b,
            rt,
            ct,
        ) || hits_pixel(mem, i, x, y, row, b, rt, ct)),
{
    if draw_hit_upto(mem, i, x, y, row, (b + 1) as u8, rt, ct) {
        if !draw_hit(mem, i, x, y, row, rt, ct) {
            let b2 = choose|b2: u8| b2 < b + 1 && #[trigger] hits_pixel(mem, i, x, y, row, b2, rt, ct);
            if b2 < b {
                assert(hits_pixel(mem, i, x, y, row, b2, rt, ct));
            } else {
                assert(hits_pixel(mem, i, x, y, row, b, rt, ct));
            }
        }
    }
    if draw_hit_upto(mem, i, x, y, row, b, rt, ct) && !draw_hit(mem, i, x, y, row, rt, ct) {
        let b2 = choose|b2: u8| b2 < b && #[trigger] hits_pixel(mem, i, x, y, row, b2, rt, ct);
        assert(b2 < b + 1 && hits_pixel(mem, i, x, y, row, b2, rt, ct));
    }
    if hits_pixel(mem, i, x, y, row, b, rt, ct) {
        assert(b < b + 1 && hits_pixel(mem, i, x, y, row, b, rt, ct));
    }
}

/// A fully processed row is the same set of hits as one more whole row.
proof fn lemma_upto_full_row(mem: Seq<u8>, i: int, x: int, y: int, row: int, rt: int, ct: int)
    requires
        0 <= row,
    ensures
        draw_hit_upto(mem, i, x, y, row, 8, rt, ct) == draw_hit(mem, i, x, y, row + 1, rt, ct),
{
    if draw_hit_upto(mem, i, x, y, row, 8, rt, ct) {
        if draw_hit(mem, i, x, y, row, rt, ct) {
            let (r2, b2) = choose|r2: int, b2: u8|
                0 <= r2 < row && b2 < 8 && #[trigger] hits_pixel(mem, i, x, y, r2, b2, rt, ct);
            assert(0 <= r2 < row + 1 && hits_pixel(mem, i, x, y, r2, b2, rt, ct));
        } else {
            let b2 = choose|b2: u8| b2 < 8 && #[trigger] hits_pixel(mem, i, x, y, row, b2, rt, ct);
            assert(0 <= row < row + 1 && hits_pixel(mem, i, x, y, row, b2, rt, ct));
        }
    }
    if draw_hit(mem, i, x, y, row + 1, rt, ct) {
        let (r2, b2) = choose|r2: int, b2: u8|
            0 <= r2 < row + 1 && b2 < 8 && #[trigger] hits_pixel(mem, i, x, y, r2, b2, rt, ct);
        if r2 < row {
            assert(draw_hit(mem, i, x, y, row, rt, ct));
        } else {
            assert(b2 < 8 && hits_pixel(mem, i, x, y, row, b2, rt, ct));
        }
    }
}

/// Extending the processed range by one bit adds exactly that bit's
/// collision.
proof fn lemma_collide_step(fb: Seq<bool>, mem: Seq<u8>, i: int, x: int, y: int, row: int, b: u8)
    requires
        b < 8,
    ensures
        collide_upto(fb, mem, i, x, y, row, (b + 1) as u8) == (collide_upto(
            fb,
            mem,
            i,
            x,
            y,
            row,
            b,
        ) || bit_collides(fb, mem, i, x, y, row, b)),
{
    if collide_upto(fb, mem, i, x, y, row, (b + 1) as u8) {
        if !(exists|r2: int, b2: u8|
            0 <= r2 < row && b2 < 8 && #[trigger] bit_collides(fb, mem, i, x, y, r2, b2)) {
            let b2 = choose|b2: u8| b2 < b + 1 && #[trigger] bit_collides(fb, mem, i, x, y, row, b2);
            if b2 < b {
                assert(bit_collides(fb, mem, i, x, y, row, b2));
            } else {
                assert(bit_collides(fb, mem, i, x, y, row, b));
            }
        }
    }
    if collide_upto(fb, mem, i, x, y, row, b) {
        if !(exists|r2: int, b2: u8|
            0 <= r2 < row && b2 < 8 && #[trigger] bit_collides(fb, mem, i, x, y, r2, b2)) {
            let b2 = choose|b2: u8| b2 < b && #[trigger] bit_collides(fb, mem, i, x, y, row, b2);
            assert(b2 < b + 1 && bit_collides(fb, mem, i, x, y, row, b2));
        }
    }
    if bit_collides(fb, mem, i, x, y, row, b) {
        assert(b < b + 1 && bit_collides(fb, mem, i, x, y, row, b));
    }
}

/// A fully processed row collides exactly as one more whole row does.
proof fn lemma_collide_full_row(fb: Seq<bool>, mem: Seq<u8>, i: int, x: int, y: int, row: int)
    requires
        0 <= row,
    ensures
        collide_upto(fb, mem, i, x, y, row, 8) == collide_upto(fb, mem, i, x, y, row + 1, 0),
{
    if collide_upto(fb, mem, i, x, y, row, 8) {
        if exists|r2: int, b2: u8|
            0 <= r2 < row && b2 < 8 && #[trigger] bit_collides(fb, mem, i, x, y, r2, b2) {
            let (r2, b2) = choose|r2: int, b2: u8|
                0 <= r2 < row && b2 < 8 && #[trigger] bit_collides(fb, mem, i, x, y, r2, b2);
            assert(0 <= r2 < row + 1 && b2 < 8 && bit_collides(fb, mem, i, x, y, r2, b2));
        } else {
            let b2 = choose|b2: u8| b2 < 8 && #[trigger] bit_collides(fb, mem, i, x, y, row, b2);
            assert(0 <= row < row + 1 && b2 < 8 && bit_collides(fb, mem, i, x, y, row, b2));
        }
    }
    if collide_upto(fb, mem, i, x, y, row + 1, 0) {
        let (r2, b2) = choose|r2: int, b2: u8|
            0 <= r2 < row + 1 && b2 < 8 && #[trigger] bit_collides(fb, mem, i, x, y, r2, b2);
        if r2 < row {
            assert(0 <= r2 < row && b2 < 8 && bit_collides(fb, mem, i, x, y, r2, b2));
        } else {
            assert(b2 < 8 && bit_collides(fb, mem, i, x, y, row, b2));
        }
    }
}

/// The pixel-based and bit-based statements of collision agree.
proof fn lemma_collision_equiv(fb: Seq<bool>, mem: Seq<u8>, i: int, x: int, y: int, n: int)
    requires
        fb.len() == 2048,
        0 <= x < 64,
        0 <= y < 32,
        0 <= n <= 15,
    ensures
        spec_draw_collision(fb, mem, i, x, y, n) == (exists|r: int, b: u8|
            0 <= r < n && b < 8 && #[trigger] bit_collides(fb, mem, i, x, y, r, b)),
{
    if spec_draw_collision(fb, mem, i, x, y, n) {
        let p = choose|p: int|
            0 <= p < fb.len() && fb[p] && #[trigger] draw_hit(mem, i, x, y, n, p / 64, p % 64);
        lemma_pixel_decompose(p);
        let (r, b) = choose|r: int, b: u8|
            0 <= r < n && b < 8 && #[trigger] hits_pixel(mem, i, x, y, r, b, p / 64, p % 64);
        assert(bit_collides(fb, mem, i, x, y, r, b));
    }
    if exists|r: int, b: u8| 0 <= r < n && b < 8 && #[trigger] bit_collides(fb, mem, i, x, y, r, b) {
        let (r, b) = choose|r: int, b: u8|
            0 <= r < n && b < 8 && #[trigger] bit_collides(fb, mem, i, x, y, r, b);
        let rt = (y + r) % 32;
        let ct = (x + b) % 64;
        lemma_mod32(y + r);
        lemma_mod64(x + b);
        let p = rt * 64 + ct;
        lemma_pixel_index(rt, ct);
        assert(hits_pixel(mem, i, x, y, r, b, p / 64, p % 64));
        assert(0 <= p < fb.len() && fb[p] && draw_hit(mem, i, x, y, n, p / 64, p % 64));
    }
}

/// Draw an `n`-row sprite read from `mem` starting at address `i` into the
/// frame buffer at (x_cor, y_cor), with toroidal wraparound. Returns 1 when
/// some XOR turned a previously-set pixel off, else 0.
pub fn display(pixels: &mut Vec<bool>, mem: &Vec<u8>, i: u16, x_cor: u8, y_cor: u8, n: u8) -> (r: u8)
    requires
        old(pixels).len() == 2048,
        mem.len() == 4096,
        x_cor < 64,
        y_cor < 32,
        n <= 15,
        i + n <= 4096,
    ensures
        final(pixels)@ == spec_draw_fb(
            old(pixels)@,
            mem@,
            i as int,
            x_cor as int,
            y_cor as int,
            n as int,
        ),
        r == 1 <==> spec_draw_collision(
            old(pixels)@,
            mem@,
            i as int,
            x_cor as int,
            y_cor as int,
            n as int,
        ),
        r == 0 || r == 1,
{
    let ghost fb0 = pixels@;
    let ghost xi = x_cor as int;
    let ghost yi = y_cor as int;
    let ghost ii = i as int;
    let mut ret: u8 = 0;
    let mut row: u8 = 0;
    while row < n
        invariant
            row <= n,
            n <= 15,
            x_cor < 64,
            y_cor < 32,
            i + n <= 4096,
            mem@.len() == 4096,
            pixels@.len() == 2048,
            fb0.len() == 2048,
            fb0 == old(pixels)@,
            xi == x_cor as int,
            yi == y_cor as int,
            ii == i as int,
            forall|p: int|
                0 <= p < 2048 ==> pixels@[p] == (fb0[p] != draw_hit(
                    mem@,
                    ii,
                    xi,
                    yi,
                    row as int,
                    #[trigger] (p / 64),
                    p % 64,
                )),
            ret == 1 <==> collide_upto(fb0, mem@, ii, xi, yi, row as int, 0),
            ret == 0 || ret == 1,
        decreases n - row,
    {
        let sprite = mem[(i + row as u16) as usize];
        let mut b: u8 = 0;
        while b < 8
            invariant
                b <= 8,
                row < n,
                n <= 15,
                x_cor < 64,
                y_cor < 32,
                i + n <= 4096,
                mem@.len() == 4096,
                pixels@.len() == 2048,
                fb0.len() == 2048,
                fb0 == old(pixels)@,
                xi == x_cor as int,
                yi == y_cor as int,
                ii == i as int,
                sprite == mem@[ii + row as int],
                forall|p: int|
                    0 <= p < 2048 ==> pixels@[p] == (fb0[p] != draw_hit_upto(
                        mem@,
                        ii,
                        xi,
                        yi,
                        row as int,
                        b,
                        #[trigger] (p / 64),
                        p % 64,
                    )),
                ret == 1 <==> collide_upto(fb0, mem@, ii, xi, yi, row as int, b),
                ret == 0 || ret == 1,
            decreases 8 - b,
        {
            let shift: u8 = 7 - b;
            if (sprite >> shift) & 1 == 1 {
                assert(sprite_bit(mem@[ii + row as int], b));
                let to_y = (y_cor + row) & 31;
                let to_x = (x_cor + b) & 63;
                proof {
                    let vy: u8 = (y_cor + row) as u8;
                    assert(vy & 31 == vy % 32 && vy & 31 < 32) by (bit_vector);
                    let vx: u8 = (x_cor + b) as u8;
                    assert(vx & 63 == vx % 64 && vx & 63 < 64) by (bit_vector);
                    lemma_mod32(yi + row as int);
                    lemma_mod64(xi + b as int);
                    lemma_pixel_index(to_y as int, to_x as int);
                }
                let idx: usize = (to_y as usize) * 64 + (to_x as usize);
                let ghost pi = idx as int;
                assert(hits_pixel(mem@, ii, xi, yi, row as int, b, pi / 64, pi % 64));
                let old_pix = pixels[idx];
                pixels.set(idx, !old_pix);
                proof {
                    // The bit just drawn cannot have been hit earlier in this
                    // draw, so the pixel it lands on still held its original
                    // state.
                    assert(!draw_hit_upto(mem@, ii, xi, yi, row as int, b, pi / 64, pi % 64)) by {
                        if draw_hit(mem@, ii, xi, yi, row as int, pi / 64, pi % 64) {
                            let (r2, b2) = choose|r2: int, b2: u8|
                                0 <= r2 < row as int && b2 < 8 && #[trigger] hits_pixel(
                                    mem@,
                                    ii,
                                    xi,
                                    yi,
                                    r2,
                                    b2,
                                    pi / 64,
                                    pi % 64,
                                );
                            lemma_row_unique(yi, r2, row as int);
                            assert(false);
                        }
                        if exists|b2: u8|
                            b2 < b && #[trigger] hits_pixel(mem@, ii, xi, yi, row as int, b2, pi / 64, pi % 64) {
                            let b2 = choose|b2: u8|
                                b2 < b && #[trigger] hits_pixel(mem@, ii, xi, yi, row as int, b2, pi / 64, pi % 64);
                            lemma_col_unique(xi, b2 as int, b as int);
                            assert(false);
                        }
                    }
                    assert(old_pix == fb0[pi]);
                    if old_pix {
                        assert(bit_collides(fb0, mem@, ii, xi, yi, row as int, b));
                    }
                    assert forall|p: int| 0 <= p < 2048 implies pixels@[p] == (fb0[p]
                        != draw_hit_upto(
                        mem@,
                        ii,
                        xi,
                        yi,
                        row as int,
                        (b + 1) as u8,
                        #[trigger] (p / 64),
                        p % 64,
                    )) by {
                        lemma_upto_step(mem@, ii, xi, yi, row as int, b, p / 64, p % 64);
                        if p != pi {
                            lemma_pixel_decompose(p);
                            assert(!hits_pixel(mem@, ii, xi, yi, row as int, b, p / 64, p % 64));
                        }
                    }
                    lemma_collide_step(fb0, mem@, ii, xi, yi, row as int, b);
                    if !old_pix {
                        assert(!bit_collides(fb0, mem@, ii, xi, yi, row as int, b));
                    }
                }
                if old_pix {
                    ret = 1;
                }
            } else {
                proof {
                    assert(!sprite_bit(mem@[ii + row as int], b));
                    assert forall|p: int| 0 <= p < 2048 implies pixels@[p] == (fb0[p]
                        != draw_hit_upto(
                        mem@,
                        ii,
                        xi,
                        yi,
                        row as int,
                        (b + 1) as u8,
                        #[trigger] (p / 64),
                        p % 64,
                    )) by {
                        lemma_upto_step(mem@, ii, xi, yi, row as int, b, p / 64, p % 64);
                    }
                    lemma_collide_step(fb0, mem@, ii, xi, yi, row as int, b);
                }
            }
            b = b + 1;
        }
        proof {
            assert forall|p: int| 0 <= p < 2048 implies pixels@[p] == (fb0[p] != draw_hit(
                mem@,
                ii,
                xi,
                yi,
                row as int + 1,
                #[trigger] (p / 64),
                p % 64,
            )) by {
                lemma_upto_full_row(mem@, ii, xi, yi, row as int, p / 64, p % 64);
            }
            lemma_collide_full_row(fb0, mem@, ii, xi, yi, row as int);
        }
        row = row + 1;
    }
    proof {
        assert(pixels@ =~= spec_draw_fb(fb0, mem@, ii, xi, yi, n as int));
        lemma_collision_equiv(fb0, mem@, ii, xi, yi, n as int);
    }
    ret
}

/// Double-XOR law: drawing the identical sprite twice at the same
/// coordinates restores the pre-draw pixel state.
pub proof fn lemma_draw_twice_restores(fb: Seq<bool>, mem: Seq<u8>, i: int, x: int, y: int, n: int)
    ensures
        spec_draw_fb(spec_draw_fb(fb, mem, i, x, y, n), mem, i, x, y, n) == fb,
{
    let fb1 = spec_draw_fb(fb, mem, i, x, y, n);
    assert(spec_draw_fb(fb1, mem, i, x, y, n) =~= fb);
}

/// When every pixel the sprite hits was set before the first draw, drawing
/// the identical sprite a second time reports no collision: the first draw
/// turned each hit pixel off, so the second finds none of them on.
pub proof fn lemma_second_draw_no_collision(
    fb: Seq<bool>,
    mem: Seq<u8>,
    i: int,
    x: int,
    y: int,
    n: int,
)
    requires
        forall|p: int|
            0 <= p < fb.len() && #[trigger] draw_hit(mem, i, x, y, n, p / 64, p % 64) ==> fb[p],
    ensures
        !spec_draw_collision(spec_draw_fb(fb, mem, i, x, y, n), mem, i, x, y, n),
{
    let fb1 = spec_draw_fb(fb, mem, i, x, y, n);
    if spec_draw_collision(fb1, mem, i, x, y, n) {
        let p = choose|p: int|
            0 <= p < fb1.len() && fb1[p] && #[trigger] draw_hit(mem, i, x, y, n, p / 64, p % 64);
        assert(fb[p]);
        assert(false);
    }
}

/// Toroidal wraparound: a sprite drawn at column 63 wraps, landing bit
/// `b >= 1` of each row at column `b - 1`.
pub proof fn lemma_draw_wraps_column(mem: Seq<u8>, i: int, y: int, n: int, r: int, b: u8)
    requires
        0 <= y < 32,
        0 <= r < n,
        n <= 15,
        1 <= b < 8,
        sprite_bit(mem[i + r], b),
    ensures
        draw_hit(mem, i, 63, y, n, (y + r) % 32, b - 1),
{
    lemma_mod64(63 + b);
    assert(hits_pixel(mem, i, 63, y, r, b, (y + r) % 32, b - 1));
}

} // verus!
