use vstd::prelude::*;
use vstd::arithmetic::div_mod::{
    lemma_add_mod_noop, lemma_fundamental_div_mod, lemma_fundamental_div_mod_converse_div,
    lemma_fundamental_div_mod_converse_mod, lemma_mod_division_less_than_divisor,
    lemma_small_mod, lemma_sub_mod_noop, lemma_sub_mod_noop_right,
};

verus! {

/// Bit `j` (0 = leftmost / most significant) of one sprite row byte.
pub open spec fn sprite_bit(b: u8, j: int) -> u8 {
    (b >> ((7 - j) as u8)) & 1
}

/// A well-formed framebuffer: 64 x 32 pixels, row-major, each 0 or 1.
pub open spec fn wf_gfx(gfx: Seq<u8>) -> bool {
    &&& gfx.len() == 2048
    &&& forall|p: int| 0 <= p < 2048 ==> gfx[p] == 0 || gfx[p] == 1
}

/// The all-black framebuffer.
pub open spec fn cleared_gfx() -> Seq<u8> {
    Seq::new(2048, |p: int| 0u8)
}

/// Buffer index written by sprite row `i`, bit `j`, for a sprite drawn at
/// (x, y): both axes wrap modulo the screen dimensions independently per
/// pixel.
pub open spec fn target_index(x: int, y: int, i: int, j: int) -> int {
    ((y + i) % 32) * 64 + ((x + j) % 64)
}

/// Pixel `p` of the buffer after drawing `sprite` at (x, y): XOR-composited
/// with the unique sprite bit that lands on `p`, if any.
pub open spec fn draw_pixel(gfx: Seq<u8>, x: int, y: int, sprite: Seq<u8>, p: int) -> u8 {
    let i = (p / 64 - y) % 32;
    let j = (p % 64 - x) % 64;
    if i < sprite.len() && j < 8 {
        gfx[p] ^ sprite_bit(sprite[i], j)
    } else {
        gfx[p]
    }
}

/// The whole buffer after drawing `sprite` at (x, y).
pub open spec fn draw_gfx(gfx: Seq<u8>, x: int, y: int, sprite: Seq<u8>) -> Seq<u8> {
    Seq::new(gfx.len(), |p: int| draw_pixel(gfx, x, y, sprite, p))
}

/// Whether drawing `sprite` at (x, y) erases some previously set pixel:
/// a set sprite bit lands on a pixel that was already 1.
pub open spec fn draw_collides(gfx: Seq<u8>, x: int, y: int, sprite: Seq<u8>) -> bool {
    exists|i: int, j: int|
        0 <= i < sprite.len() && 0 <= j < 8 && #[trigger] sprite_bit(sprite[i], j) == 1
            && gfx[target_index(x, y, i, j)] == 1
}

/// Sprite bits strictly before row `ci`, or in row `ci` before column `cj`,
/// have been composited; the rest of the draw is still to come.
spec fn processed(i: int, j: int, ci: int, cj: int) -> bool {
    i < ci || (i == ci && j < cj)
}

spec fn draw_pixel_upto(
    gfx: Seq<u8>,
    x: int,
    y: int,
    sprite: Seq<u8>,
    p: int,
    ci: int,
    cj: int,
) -> u8 {
    let i = (p / 64 - y) % 32;
    let j = (p % 64 - x) % 64;
    if i < sprite.len() && j < 8 && processed(i, j, ci, cj) {
        gfx[p] ^ sprite_bit(sprite[i], j)
    } else {
        gfx[p]
    }
}

spec fn draw_gfx_upto(gfx: Seq<u8>, x: int, y: int, sprite: Seq<u8>, ci: int, cj: int) -> Seq<
    u8,
> {
    Seq::new(gfx.len(), |p: int| draw_pixel_upto(gfx, x, y, sprite, p, ci, cj))
}

spec fn collides_upto(gfx: Seq<u8>, x: int, y: int, sprite: Seq<u8>, ci: int, cj: int) -> bool {
    exists|i: int, j: int|
        0 <= i < sprite.len() && 0 <= j < 8 && processed(i, j, ci, cj) && #[trigger] sprite_bit(
            sprite[i],
            j,
        ) == 1 && gfx[target_index(x, y, i, j)] == 1
}

/// Adding an offset smaller than the modulus to an already reduced base
/// wraps the same way as adding it to the base itself.
proof fn lemma_wrap_add(base: int, off: int, m: int)
    requires
        0 < m,
        0 <= base,
        0 <= off < m,
    ensures
        ((base % m) + off) % m == (base + off) % m,
{
    lemma_add_mod_noop(base, off, m);
    lemma_small_mod(off as nat, m as nat);
}

/// A reduced value `a` is recovered from its offset `(a - y) % m` to `y`.
proof fn lemma_mod_decode(a: int, y: int, m: int)
    requires
        0 < m,
        0 <= a < m,
    ensures
        0 <= (a - y) % m < m,
        (y + ((a - y) % m)) % m == a,
{
    lemma_mod_division_less_than_divisor(a - y, m);
    vstd::arithmetic::div_mod::lemma_add_mod_noop_right(y, a - y, m);
    lemma_small_mod(a as nat, m as nat);
}

/// The index written by sprite bit (i, j) lies in the buffer, and decoding
/// it recovers exactly (i, j).
proof fn lemma_target_decode(x: int, y: int, i: int, j: int)
    requires
        0 <= i < 32,
        0 <= j < 64,
    ensures
        ({
            let t = target_index(x, y, i, j);
            &&& 0 <= t < 2048
            &&& t / 64 == (y + i) % 32
            &&& t % 64 == (x + j) % 64
            &&& (t / 64 - y) % 32 == i
            &&& (t % 64 - x) % 64 == j
        }),
{
    let r = (y + i) % 32;
    let c = (x + j) % 64;
    let t = r * 64 + c;
    lemma_mod_division_less_than_divisor(y + i, 32);
    lemma_mod_division_less_than_divisor(x + j, 64);
    lemma_fundamental_div_mod_converse_div(t, 64, r, c);
    lemma_fundamental_div_mod_converse_mod(t, 64, r, c);
    // (r - y) % 32 == ((y + i) - y) % 32 == i
    lemma_sub_mod_noop(y + i, y, 32);
    lemma_sub_mod_noop_right(r, y, 32);
    lemma_small_mod(i as nat, 32nat);
    // (c - x) % 64 == ((x + j) - x) % 64 == j
    lemma_sub_mod_noop(x + j, x, 64);
    lemma_sub_mod_noop_right(c, x, 64);
    lemma_small_mod(j as nat, 64nat);
}

/// Every buffer index is the target of exactly the sprite bit it decodes to.
proof fn lemma_pixel_target(x: int, y: int, p: int)
    requires
        0 <= p < 2048,
    ensures
        ({
            let i = (p / 64 - y) % 32;
            let j = (p % 64 - x) % 64;
            &&& 0 <= i < 32
            &&& 0 <= j < 64
            &&& target_index(x, y, i, j) == p
        }),
{
    lemma_fundamental_div_mod(p, 64);
    lemma_mod_division_less_than_divisor(p, 64);
    assert(0 <= p / 64 < 32) by (nonlinear_arith)
        requires
            0 <= p < 2048,
            p == 64 * (p / 64) + (p % 64),
            0 <= p % 64 < 64,
    ;
    lemma_mod_decode(p / 64, y, 32);
    lemma_mod_decode(p % 64, x, 64);
}

/// XOR facts on single-bit pixel values.
proof fn lemma_bit_facts(a: u8, b: u8)
    requires
        a == 0 || a == 1,
        b == 0 || b == 1,
    ensures
        (a ^ b) == (if a == b { 0u8 } else { 1u8 }),
        ((a ^ b) ^ b) == a,
        (a == 1 && (a ^ b) == 0) <==> (a == 1 && b == 1),
{
    assert((a ^ b) == (if a == b { 0u8 } else { 1u8 }) && ((a ^ b) ^ b) == a && ((a == 1 && (a
        ^ b) == 0) <==> (a == 1 && b == 1))) by (bit_vector)
        requires
            (a == 0 || a == 1) && (b == 0 || b == 1),
    ;
}

/// A sprite row bit is itself a single-bit value.
proof fn lemma_sprite_bit_range(b: u8, j: int)
    ensures
        sprite_bit(b, j) == 0 || sprite_bit(b, j) == 1,
{
    let s = (7 - j) as u8;
    assert((b >> s) & 1 == 0 || (b >> s) & 1 == 1) by (bit_vector);
}

/// The 64 x 32 monochrome framebuffer with XOR sprite compositing.
pub struct Display {
    gfx: Vec<u8>,
}

impl View for Display {
    type V = Seq<u8>;

    closed spec fn view(&self) -> Seq<u8> {
        self.gfx@
    }
}

impl Display {
    pub open spec fn wf(&self) -> bool {
        wf_gfx(self@)
    }

    /// A screen with every pixel off.
    pub fn new() -> (d: Display)
        ensures
            d.wf(),
            d@ == cleared_gfx(),
            forall|p: int| 0 <= p < 2048 ==> d@[p] == 0,
    {
        let mut gfx: Vec<u8> = Vec::new();
        let mut i: usize = 0;
        while i < 2048
            invariant
                gfx@.len() == i,
                i <= 2048,
                forall|p: int| 0 <= p < i ==> gfx@[p] == 0,
            decreases 2048 - i,
        {
            gfx.push(0);
            i = i + 1;
        }
        let d = Display { gfx };
        proof {
            assert(d@ =~= cleared_gfx());
        }
        d
    }

    /// Clear the screen: zero-fill the whole buffer, so that afterwards
    /// every pixel reads 0, whatever was drawn before.
    pub fn cls(&mut self)
        requires
            old(self).wf(),
        ensures
            final(self).wf(),
            final(self)@ == cleared_gfx(),
            forall|p: int| 0 <= p < 2048 ==> final(self)@[p] == 0,
    {
        let mut i: usize = 0;
        while i < 2048
            invariant
                self@.len() == 2048,
                wf_gfx(self@),
                i <= 2048,
                forall|p: int| 0 <= p < i ==> self@[p] == 0,
            decreases 2048 - i,
        {
            self.gfx.set(i, 0);
            i = i + 1;
        }
        proof {
            assert(self@ =~= cleared_gfx());
        }
    }

    /// Read one pixel; `x` in 0..64, `y` in 0..32.
    pub fn get_pixel(&mut self, x: usize, y: usize) -> (bit: u8)
        requires
            old(self).wf(),
            x < 64,
            y < 32,
        ensures
            *final(self) == *old(self),
            bit == old(self)@[x + y * 64],
    {
        self.gfx[x + y * 64]
    }

    /// A copy of the whole buffer, row-major, one byte (0 or 1) per pixel.
    pub fn snapshot(&self) -> (pixels: Vec<u8>)
        requires
            self.wf(),
        ensures
            pixels@ == self@,
    {
        let mut pixels: Vec<u8> = Vec::new();
        let mut i: usize = 0;
        while i < 2048
            invariant
                self.wf(),
                pixels@.len() == i,
                i <= 2048,
                forall|p: int| 0 <= p < i ==> pixels@[p] == self@[p],
            decreases 2048 - i,
        {
            pixels.push(self.gfx[i]);
            i = i + 1;
        }
        proof {
            assert(pixels@ =~= self@);
        }
        pixels
    }

    /// Composite an N-row, 8-column sprite onto the buffer at origin (x, y)
    /// by XOR, wrapping each pixel's coordinates modulo 64 and 32
    /// independently. Rows are scanned top to bottom and bits most
    /// significant first. Returns true exactly when some pixel that was 1
    /// went to 0.
    pub fn draw(&mut self, x: usize, y: usize, sprite: &Vec<u8>) -> (collided: bool)
        requires
            old(self).wf(),
            sprite@.len() <= 15,
        ensures
            final(self).wf(),
            final(self)@ == draw_gfx(old(self)@, x as int, y as int, sprite@),
            collided == draw_collides(old(self)@, x as int, y as int, sprite@),
    {
        let ghost gfx0 = self@;
        let ghost xi = x as int;
        let ghost yi = y as int;
        let ghost s = sprite@;
        let xb = x % 64;
        let yb = y % 32;
        let n = sprite.len();
        let mut collided = false;
        let mut i: usize = 0;
        proof {
            assert(self@ =~= draw_gfx_upto(gfx0, xi, yi, s, 0, 0));
        }
        while i < n
            invariant
                wf_gfx(gfx0),
                wf_gfx(self@),
                s == sprite@,
                n == s.len(),
                n <= 15,
                0 <= xi,
                0 <= yi,
                xb == xi % 64,
                yb == yi % 32,
                0 <= xb < 64,
                0 <= yb < 32,
                i <= n,
                self@ == draw_gfx_upto(gfx0, xi, yi, s, i as int, 0),
                collided == collides_upto(gfx0, xi, yi, s, i as int, 0),
            decreases n - i,
        {
            let row: u8 = sprite[i];
            let tr = (yb + i) % 32;
            proof {
                lemma_wrap_add(yi, i as int, 32);
            }
            let mut j: usize = 0;
            while j < 8
                invariant
                    wf_gfx(gfx0),
                    wf_gfx(self@),
                    s == sprite@,
                    n == s.len(),
                    n <= 15,
                    i < n,
                    row == s[i as int],
                    0 <= xi,
                    0 <= yi,
                    xb == xi % 64,
                    0 <= xb < 64,
                    tr == (yi + i) % 32,
                    0 <= tr < 32,
                    j <= 8,
                    self@ == draw_gfx_upto(gfx0, xi, yi, s, i as int, j as int),
                    collided == collides_upto(gfx0, xi, yi, s, i as int, j as int),
                decreases 8 - j,
            {
                let ghost ii = i as int;
                let ghost jj = j as int;
                let sh: u8 = (7 - j) as u8;
                let bit: u8 = (row >> sh) & 1;
                let tc = (xb + j) % 64;
                let idx = tr * 64 + tc;
                proof {
                    lemma_wrap_add(xi, jj, 64);
                    lemma_target_decode(xi, yi, ii, jj);
                    assert(bit == sprite_bit(s[ii], jj));
                    lemma_sprite_bit_range(s[ii], jj);
                }
                let ghost t = target_index(xi, yi, ii, jj);
                proof {
                    assert(idx == t);
                    // bit (i, j) has not been composited yet, so the buffer
                    // still holds the original pixel at its target
                    assert(self@[t] == gfx0[t]);
                }
                let prev = self.gfx[idx];
                self.gfx.set(idx, prev ^ bit);
                if prev == 1 && bit == 1 {
                    collided = true;
                }
                proof {
                    lemma_bit_facts(prev, bit);
                    let before = draw_gfx_upto(gfx0, xi, yi, s, ii, jj);
                    let after = draw_gfx_upto(gfx0, xi, yi, s, ii, jj + 1);
                    assert forall|p: int| 0 <= p < 2048 implies before.update(t, (prev ^ bit))[p]
                        == after[p] by {
                        if p == t {
                            assert(after[p] == gfx0[p] ^ sprite_bit(s[ii], jj));
                        } else {
                            lemma_pixel_target(xi, yi, p);
                            let pi = (p / 64 - yi) % 32;
                            let pj = (p % 64 - xi) % 64;
                            // a different index decodes to a different bit,
                            // so its processed-status is unchanged
                            assert(!(pi == ii && pj == jj));
                            assert(processed(pi, pj, ii, jj + 1) == processed(pi, pj, ii, jj));
                        }
                    }
                    assert(self@ =~= after);
                    // collision bookkeeping
                    let c_old = collides_upto(gfx0, xi, yi, s, ii, jj);
                    let c_new = collides_upto(gfx0, xi, yi, s, ii, jj + 1);
                    let hit = sprite_bit(s[ii], jj) == 1 && gfx0[t] == 1;
                    if c_old {
                        let (a, b) = choose|a: int, b: int|
                            0 <= a < s.len() && 0 <= b < 8 && processed(a, b, ii, jj)
                                && #[trigger] sprite_bit(s[a], b) == 1 && gfx0[target_index(
                                xi,
                                yi,
                                a,
                                b,
                            )] == 1;
                        assert(processed(a, b, ii, jj + 1));
                        assert(c_new);
                    }
                    if hit {
                        assert(processed(ii, jj, ii, jj + 1));
                        assert(c_new);
                    }
                    if c_new && !c_old && !hit {
                        let (a, b) = choose|a: int, b: int|
                            0 <= a < s.len() && 0 <= b < 8 && processed(a, b, ii, jj + 1)
                                && #[trigger] sprite_bit(s[a], b) == 1 && gfx0[target_index(
                                xi,
                                yi,
                                a,
                                b,
                            )] == 1;
                        if a == ii && b == jj {
                            assert(hit);
                        } else {
                            assert(processed(a, b, ii, jj));
                            assert(c_old);
                        }
                        assert(false);
                    }
                    assert((c_old || hit) == c_new);
                    assert(collided == c_new);
                }
                j = j + 1;
            }
            proof {
                let ii = i as int;
                assert forall|p: int| 0 <= p < 2048 implies draw_gfx_upto(gfx0, xi, yi, s, ii, 8)[p]
                    == draw_gfx_upto(gfx0, xi, yi, s, ii + 1, 0)[p] by {
                    lemma_pixel_target(xi, yi, p);
                }
                assert(draw_gfx_upto(gfx0, xi, yi, s, ii, 8) =~= draw_gfx_upto(
                    gfx0,
                    xi,
                    yi,
                    s,
                    ii + 1,
                    0,
                ));
                assert(collides_upto(gfx0, xi, yi, s, ii, 8) == collides_upto(
                    gfx0,
                    xi,
                    yi,
                    s,
                    ii + 1,
                    0,
                )) by {
                    if collides_upto(gfx0, xi, yi, s, ii, 8) {
                        let (a, b) = choose|a: int, b: int|
                            0 <= a < s.len() && 0 <= b < 8 && processed(a, b, ii, 8)
                                && #[trigger] sprite_bit(s[a], b) == 1 && gfx0[target_index(
                                xi,
                                yi,
                                a,
                                b,
                            )] == 1;
                        assert(processed(a, b, ii + 1, 0));
                    }
                    if collides_upto(gfx0, xi, yi, s, ii + 1, 0) {
                        let (a, b) = choose|a: int, b: int|
                            0 <= a < s.len() && 0 <= b < 8 && processed(a, b, ii + 1, 0)
                                && #[trigger] sprite_bit(s[a], b) == 1 && gfx0[target_index(
                                xi,
                                yi,
                                a,
                                b,
                            )] == 1;
                        assert(processed(a, b, ii, 8));
                    }
                }
            }
            i = i + 1;
        }
        proof {
            let ni = n as int;
            assert(self@ =~= draw_gfx(gfx0, xi, yi, s));
            assert(draw_collides(gfx0, xi, yi, s) == collides_upto(gfx0, xi, yi, s, ni, 0)) by {
                if collides_upto(gfx0, xi, yi, s, ni, 0) {
                    let (a, b) = choose|a: int, b: int|
                        0 <= a < s.len() && 0 <= b < 8 && processed(a, b, ni, 0)
                            && #[trigger] sprite_bit(s[a], b) == 1 && gfx0[target_index(
                            xi,
                            yi,
                            a,
                            b,
                        )] == 1;
                    assert(sprite_bit(s[a], b) == 1 && gfx0[target_index(xi, yi, a, b)] == 1);
                }
                if draw_collides(gfx0, xi, yi, s) {
                    let (a, b) = choose|a: int, b: int|
                        0 <= a < s.len() && 0 <= b < 8 && #[trigger] sprite_bit(s[a], b) == 1
                            && gfx0[target_index(xi, yi, a, b)] == 1;
                    assert(processed(a, b, ni, 0));
                }
            }
        }
        collided
    }
}

/// Drawing a sprite and drawing it again at the same origin cancels out:
/// XOR compositing is an involution, so the buffer returns to its prior
/// contents.
pub proof fn lemma_draw_involution(gfx: Seq<u8>, x: int, y: int, sprite: Seq<u8>)
    requires
        wf_gfx(gfx),
        sprite.len() <= 15,
    ensures
        draw_gfx(draw_gfx(gfx, x, y, sprite), x, y, sprite) == gfx,
{
    let g1 = draw_gfx(gfx, x, y, sprite);
    let g2 = draw_gfx(g1, x, y, sprite);
    assert forall|p: int| 0 <= p < 2048 implies g2[p] == gfx[p] by {
        let i = (p / 64 - y) % 32;
        let j = (p % 64 - x) % 64;
        if i < sprite.len() && j < 8 {
            lemma_sprite_bit_range(sprite[i], j);
            lemma_bit_facts(gfx[p], sprite_bit(sprite[i], j));
        }
    }
    assert(g2 =~= gfx);
}

/// Drawing the same non-empty sprite twice onto pixels that started clear:
/// the second draw reports a collision and leaves the touched pixels 0.
pub proof fn lemma_second_draw_collides(gfx: Seq<u8>, x: int, y: int, sprite: Seq<u8>)
    requires
        wf_gfx(gfx),
        sprite.len() <= 15,
        // the sprite's footprint starts clear
        forall|i: int, j: int|
            0 <= i < sprite.len() && 0 <= j < 8 && #[trigger] sprite_bit(sprite[i], j) == 1
                ==> gfx[target_index(x, y, i, j)] == 0,
        // the sprite has at least one set bit
        exists|i: int, j: int|
            0 <= i < sprite.len() && 0 <= j < 8 && #[trigger] sprite_bit(sprite[i], j) == 1,
    ensures
        draw_collides(draw_gfx(gfx, x, y, sprite), x, y, sprite),
        forall|i: int, j: int|
            0 <= i < sprite.len() && 0 <= j < 8 && #[trigger] sprite_bit(sprite[i], j) == 1
                ==> draw_gfx(draw_gfx(gfx, x, y, sprite), x, y, sprite)[target_index(x, y, i, j)]
                == 0,
{
    let g1 = draw_gfx(gfx, x, y, sprite);
    let (i, j) = choose|i: int, j: int|
        0 <= i < sprite.len() && 0 <= j < 8 && #[trigger] sprite_bit(sprite[i], j) == 1;
    lemma_target_decode(x, y, i, j);
    let t = target_index(x, y, i, j);
    lemma_sprite_bit_range(sprite[i], j);
    lemma_bit_facts(gfx[t], sprite_bit(sprite[i], j));
    assert(g1[t] == gfx[t] ^ sprite_bit(sprite[i], j));
    assert(g1[t] == 1);
    assert(draw_collides(g1, x, y, sprite));
    lemma_draw_involution(gfx, x, y, sprite);
}

} // verus!
