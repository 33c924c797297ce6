use vstd::prelude::*;
use vstd::arithmetic::div_mod::{
    lemma_fundamental_div_mod, lemma_fundamental_div_mod_converse, lemma_mod_bound,
    lemma_mod_multiples_vanish, lemma_small_mod,
};

verus! {

// The monochrome 64x32 display buffer. The pixel grid is stored in a
// `bit_vec::BitVec`; its contents are modelled by the uninterpreted
// sequence `bits_of`, and every access goes through a small trusted
// wrapper whose contract states what the crate's source shows.

/// Number of pixel columns of the grid.
pub const GRID_WIDTH: usize = 64;
/// Number of pixel rows of the grid.
pub const GRID_HEIGHT: usize = 32;
/// Total number of pixels of the grid.
pub const GRID_PIXELS: usize = 2048;

#[verifier::external_type_specification]
#[verifier::external_body]
#[verifier::reject_recursive_types(B)]
pub struct ExBitVec<B>(bit_vec::BitVec<B>);

/// The bits held by a `bit_vec::BitVec`; entry `i` of the sequence is bit `i`.
pub uninterp spec fn bits_of(b: bit_vec::BitVec) -> Seq<bool>;

/// Relies on bit_vec::BitVec::from_elem: a vector of `len` bits, each `bit`.
#[verifier::external_body]
fn bitvec_filled(len: usize, bit: bool) -> (r: bit_vec::BitVec)
    ensures
        bits_of(r) == Seq::new(len as nat, |i: int| bit),
{
    bit_vec::BitVec::from_elem(len, bit)
}

/// Relies on bit_vec::BitVec::get: `Some` of bit `i`, or `None` past the end.
#[verifier::external_body]
fn bitvec_get(b: &bit_vec::BitVec, i: usize) -> (r: Option<bool>)
    ensures
        r == (if i < bits_of(*b).len() {
            Some(bits_of(*b)[i as int])
        } else {
            None::<bool>
        }),
{
    b.get(i)
}

/// Relies on bit_vec::BitVec::set: writes bit `i`; it panics past the end.
#[verifier::external_body]
fn bitvec_set(b: &mut bit_vec::BitVec, i: usize, bit: bool)
    requires
        i < bits_of(*old(b)).len(),
    ensures
        bits_of(*final(b)) == bits_of(*old(b)).update(i as int, bit),
{
    b.set(i, bit)
}

/// Relies on bit_vec::BitVec::fill: assigns every bit; the length stays.
#[verifier::external_body]
fn bitvec_fill(b: &mut bit_vec::BitVec, bit: bool)
    ensures
        bits_of(*final(b)) == Seq::new(bits_of(*old(b)).len(), |i: int| bit),
{
    b.fill(bit)
}

/// A grid with every pixel clear.
pub open spec fn blank_grid() -> Seq<bool> {
    Seq::new(GRID_PIXELS as nat, |i: int| false)
}

/// The grid index of the pixel at column `px`, row `py`.
pub open spec fn pixel_index(px: int, py: int) -> int {
    py * 64 + px
}

/// Bit `c` of a sprite byte, most significant bit first.
pub open spec fn sprite_bit(b: u8, c: int) -> bool {
    (b >> ((7 - c) as u8)) & 1 == 1
}

/// The column at which bit `c` of a sprite drawn at column `x` lands.
pub open spec fn wrap_col(x: u8, c: int) -> int {
    (x + c) % 64
}

/// The row at which byte `r` of a sprite drawn at row `y` lands.
pub open spec fn wrap_row(y: u8, r: int) -> int {
    (y + r) % 32
}

/// The sprite column whose bit lands on absolute column `px`: the distance
/// from the sprite's wrapped origin, measured around the 64-column ring.
pub open spec fn col_offset(x: u8, px: int) -> int {
    (px - (x as int % 64) + 64) % 64
}

/// The sprite row whose byte lands on absolute row `py`.
pub open spec fn row_offset(y: u8, py: int) -> int {
    (py - (y as int % 32) + 32) % 32
}

/// Whether a sprite of `n` rows drawn at (`x`, `y`) covers grid index `i`.
pub open spec fn covers(x: u8, y: u8, n: int, i: int) -> bool {
    row_offset(y, i / 64) < n && col_offset(x, i % 64) < 8
}

/// Pixel `i` after compositing `sprite` at (`x`, `y`): a covered pixel is
/// XORed with its sprite bit, every other pixel keeps its value.
pub open spec fn drawn_pixel(g: Seq<bool>, x: u8, y: u8, sprite: Seq<u8>, i: int) -> bool {
    if covers(x, y, sprite.len() as int, i) {
        g[i] != sprite_bit(sprite[row_offset(y, i / 64)], col_offset(x, i % 64))
    } else {
        g[i]
    }
}

/// The whole grid after compositing `sprite` at (`x`, `y`).
pub open spec fn drawn_grid(g: Seq<bool>, x: u8, y: u8, sprite: Seq<u8>) -> Seq<bool> {
    Seq::new(GRID_PIXELS as nat, |i: int| drawn_pixel(g, x, y, sprite, i))
}

/// Whether compositing `sprite` at (`x`, `y`) erases a set pixel of `g`.
pub open spec fn draw_collides(g: Seq<bool>, x: u8, y: u8, sprite: Seq<u8>) -> bool {
    exists|r: int, c: int|
        0 <= r < sprite.len() && 0 <= c < 8
            && g[pixel_index(wrap_col(x, c), wrap_row(y, r))]
            && sprite_bit(sprite[r], c)
}

// The loop that composites a sprite walks its bits in row-major order;
// these prefix forms describe the grid and the collision flag after the
// first `k` bits (those with `row * 8 + col < k`) have been applied.

spec fn drawn_pixel_upto(g: Seq<bool>, x: u8, y: u8, sprite: Seq<u8>, k: int, i: int) -> bool {
    let r = row_offset(y, i / 64);
    let c = col_offset(x, i % 64);
    if r < sprite.len() && c < 8 && r * 8 + c < k {
        g[i] != sprite_bit(sprite[r], c)
    } else {
        g[i]
    }
}

spec fn drawn_grid_upto(g: Seq<bool>, x: u8, y: u8, sprite: Seq<u8>, k: int) -> Seq<bool> {
    Seq::new(GRID_PIXELS as nat, |i: int| drawn_pixel_upto(g, x, y, sprite, k, i))
}

spec fn collides_upto(g: Seq<bool>, x: u8, y: u8, sprite: Seq<u8>, k: int) -> bool {
    exists|r: int, c: int|
        0 <= r < sprite.len() && 0 <= c < 8 && r * 8 + c < k
            && g[pixel_index(wrap_col(x, c), wrap_row(y, r))]
            && sprite_bit(sprite[r], c)
}

proof fn lemma_offsets_roundtrip(x: u8, y: u8, r: int, c: int)
    requires
        0 <= r < 32,
        0 <= c < 64,
    ensures
        0 <= wrap_col(x, c) < 64,
        0 <= wrap_row(y, r) < 32,
        col_offset(x, wrap_col(x, c)) == c,
        row_offset(y, wrap_row(y, r)) == r,
{
    let mx = x as int % 64;
    lemma_mod_bound(x as int, 64);
    lemma_fundamental_div_mod(x as int, 64);
    lemma_mod_multiples_vanish(x as int / 64, mx + c, 64);
    assert(wrap_col(x, c) == (mx + c) % 64);
    if mx + c < 64 {
        lemma_small_mod((mx + c) as nat, 64);
        assert(wrap_col(x, c) == mx + c);
        lemma_mod_multiples_vanish(1, c, 64);
        lemma_small_mod(c as nat, 64);
        assert(col_offset(x, wrap_col(x, c)) == c);
    } else {
        lemma_mod_multiples_vanish(1, mx + c - 64, 64);
        lemma_small_mod((mx + c - 64) as nat, 64);
        assert(wrap_col(x, c) == mx + c - 64);
        lemma_small_mod(c as nat, 64);
        assert(col_offset(x, wrap_col(x, c)) == c);
    }
    lemma_mod_bound((x + c) as int, 64);

    let my = y as int % 32;
    lemma_mod_bound(y as int, 32);
    lemma_fundamental_div_mod(y as int, 32);
    lemma_mod_multiples_vanish(y as int / 32, my + r, 32);
    assert(wrap_row(y, r) == (my + r) % 32);
    if my + r < 32 {
        lemma_small_mod((my + r) as nat, 32);
        lemma_mod_multiples_vanish(1, r, 32);
        lemma_small_mod(r as nat, 32);
        assert(row_offset(y, wrap_row(y, r)) == r);
    } else {
        lemma_mod_multiples_vanish(1, my + r - 32, 32);
        lemma_small_mod((my + r - 32) as nat, 32);
        lemma_small_mod(r as nat, 32);
        assert(row_offset(y, wrap_row(y, r)) == r);
    }
    lemma_mod_bound((y + r) as int, 32);
}

proof fn lemma_offsets_forward(x: u8, y: u8, px: int, py: int)
    requires
        0 <= px < 64,
        0 <= py < 32,
    ensures
        0 <= col_offset(x, px) < 64,
        0 <= row_offset(y, py) < 32,
        wrap_col(x, col_offset(x, px)) == px,
        wrap_row(y, row_offset(y, py)) == py,
{
    let mx = x as int % 64;
    lemma_mod_bound(x as int, 64);
    let c = col_offset(x, px);
    lemma_mod_bound(px - mx + 64, 64);
    if px - mx >= 0 {
        lemma_mod_multiples_vanish(1, px - mx, 64);
        lemma_small_mod((px - mx) as nat, 64);
        assert(c == px - mx);
    } else {
        lemma_small_mod((px - mx + 64) as nat, 64);
        assert(c == px - mx + 64);
    }
    lemma_fundamental_div_mod(x as int, 64);
    lemma_mod_multiples_vanish(x as int / 64, mx + c, 64);
    assert(wrap_col(x, c) == (mx + c) % 64);
    if px - mx >= 0 {
        lemma_small_mod(px as nat, 64);
        assert(wrap_col(x, c) == px);
    } else {
        lemma_mod_multiples_vanish(1, px, 64);
        lemma_small_mod(px as nat, 64);
        assert(wrap_col(x, c) == px);
    }

    let my = y as int % 32;
    lemma_mod_bound(y as int, 32);
    let r = row_offset(y, py);
    lemma_mod_bound(py - my + 32, 32);
    if py - my >= 0 {
        lemma_mod_multiples_vanish(1, py - my, 32);
        lemma_small_mod((py - my) as nat, 32);
    } else {
        lemma_small_mod((py - my + 32) as nat, 32);
    }
    lemma_fundamental_div_mod(y as int, 32);
    lemma_mod_multiples_vanish(y as int / 32, my + r, 32);
    assert(wrap_row(y, r) == (my + r) % 32);
    if py - my >= 0 {
        lemma_small_mod(py as nat, 32);
    } else {
        lemma_mod_multiples_vanish(1, py, 32);
        lemma_small_mod(py as nat, 32);
    }
}

proof fn lemma_pixel_decompose(px: int, py: int)
    requires
        0 <= px < 64,
        0 <= py < 32,
    ensures
        0 <= pixel_index(px, py) < 2048,
        pixel_index(px, py) / 64 == py,
        pixel_index(px, py) % 64 == px,
{
    lemma_fundamental_div_mod_converse(py * 64 + px, 64, py, px);
}

proof fn lemma_draw_step(g: Seq<bool>, x: u8, y: u8, sprite: Seq<u8>, r: int, c: int)
    requires
        g.len() == 2048,
        sprite.len() <= 32,
        0 <= r < sprite.len(),
        0 <= c < 8,
    ensures
        ({
            let i = pixel_index(wrap_col(x, c), wrap_row(y, r));
            let k = r * 8 + c;
            &&& 0 <= i < 2048
            &&& drawn_grid_upto(g, x, y, sprite, k)[i] == g[i]
            &&& drawn_grid_upto(g, x, y, sprite, k + 1) == drawn_grid_upto(g, x, y, sprite, k)
                .update(i, g[i] != sprite_bit(sprite[r], c))
            &&& collides_upto(g, x, y, sprite, k + 1) == (collides_upto(g, x, y, sprite, k) || (
            g[i] && sprite_bit(sprite[r], c)))
        }),
{
    let i = pixel_index(wrap_col(x, c), wrap_row(y, r));
    let k = r * 8 + c;
    lemma_offsets_roundtrip(x, y, r, c);
    lemma_pixel_decompose(wrap_col(x, c), wrap_row(y, r));
    assert(row_offset(y, i / 64) == r);
    assert(col_offset(x, i % 64) == c);
    assert(drawn_pixel_upto(g, x, y, sprite, k, i) == g[i]);

    assert forall|j: int| 0 <= j < 2048 && j != i implies drawn_pixel_upto(
        g,
        x,
        y,
        sprite,
        k + 1,
        j,
    ) == drawn_pixel_upto(g, x, y, sprite, k, j) by {
        lemma_fundamental_div_mod(j, 64);
        lemma_mod_bound(j, 64);
        let pxj = j % 64;
        let pyj = j / 64;
        assert(0 <= pyj < 32);
        let rj = row_offset(y, pyj);
        let cj = col_offset(x, pxj);
        if rj < sprite.len() && cj < 8 && rj * 8 + cj == k {
            lemma_fundamental_div_mod_converse(k, 8, r, c);
            lemma_fundamental_div_mod_converse(k, 8, rj, cj);
            assert(rj == r && cj == c);
            lemma_offsets_forward(x, y, pxj, pyj);
            assert(wrap_col(x, c) == pxj && wrap_row(y, r) == pyj);
            assert(j == i);
        }
    }
    assert(drawn_grid_upto(g, x, y, sprite, k + 1) =~= drawn_grid_upto(g, x, y, sprite, k).update(
        i,
        g[i] != sprite_bit(sprite[r], c),
    ));

    if collides_upto(g, x, y, sprite, k) {
        let (r2, c2) = choose|r2: int, c2: int|
            0 <= r2 < sprite.len() && 0 <= c2 < 8 && r2 * 8 + c2 < k
                && g[pixel_index(wrap_col(x, c2), wrap_row(y, r2))] && sprite_bit(sprite[r2], c2);
        assert(0 <= r2 < sprite.len() && 0 <= c2 < 8 && r2 * 8 + c2 < k + 1
            && g[pixel_index(wrap_col(x, c2), wrap_row(y, r2))] && sprite_bit(sprite[r2], c2));
    }
    if g[i] && sprite_bit(sprite[r], c) {
        assert(0 <= r < sprite.len() && 0 <= c < 8 && r * 8 + c < k + 1
            && g[pixel_index(wrap_col(x, c), wrap_row(y, r))] && sprite_bit(sprite[r], c));
    }
    if collides_upto(g, x, y, sprite, k + 1) {
        let (r2, c2) = choose|r2: int, c2: int|
            0 <= r2 < sprite.len() && 0 <= c2 < 8 && r2 * 8 + c2 < k + 1
                && g[pixel_index(wrap_col(x, c2), wrap_row(y, r2))] && sprite_bit(sprite[r2], c2);
        if r2 * 8 + c2 == k {
            lemma_fundamental_div_mod_converse(k, 8, r, c);
            lemma_fundamental_div_mod_converse(k, 8, r2, c2);
            assert(r2 == r && c2 == c);
            assert(g[i] && sprite_bit(sprite[r], c));
        } else {
            assert(collides_upto(g, x, y, sprite, k));
        }
    }
}

proof fn lemma_draw_complete(g: Seq<bool>, x: u8, y: u8, sprite: Seq<u8>)
    requires
        g.len() == 2048,
        sprite.len() <= 32,
    ensures
        drawn_grid_upto(g, x, y, sprite, sprite.len() as int * 8) == drawn_grid(g, x, y, sprite),
        collides_upto(g, x, y, sprite, sprite.len() as int * 8) == draw_collides(g, x, y, sprite),
{
    let n = sprite.len() as int;
    assert forall|i: int| 0 <= i < 2048 implies drawn_pixel_upto(g, x, y, sprite, n * 8, i)
        == drawn_pixel(g, x, y, sprite, i) by {
        lemma_fundamental_div_mod(i, 64);
        lemma_mod_bound(i, 64);
        let r = row_offset(y, i / 64);
        let c = col_offset(x, i % 64);
        if r < n && c < 8 {
            assert(r * 8 + c < n * 8) by (nonlinear_arith)
                requires
                    r < n,
                    c < 8,
            ;
        }
    }
    assert(drawn_grid_upto(g, x, y, sprite, n * 8) =~= drawn_grid(g, x, y, sprite));

    if collides_upto(g, x, y, sprite, n * 8) {
        assert(draw_collides(g, x, y, sprite));
    }
    if draw_collides(g, x, y, sprite) {
        let (r2, c2) = choose|r2: int, c2: int|
            0 <= r2 < sprite.len() && 0 <= c2 < 8
                && g[pixel_index(wrap_col(x, c2), wrap_row(y, r2))] && sprite_bit(sprite[r2], c2);
        assert(r2 * 8 + c2 < n * 8) by (nonlinear_arith)
            requires
                r2 < n,
                c2 < 8,
                0 <= r2,
                0 <= c2,
        ;
        assert(collides_upto(g, x, y, sprite, n * 8));
    }
}

/// Law: compositing is an involution. Drawing the same sprite twice at the
/// same position restores every pixel of the grid.
pub proof fn lemma_draw_twice_restores(g: Seq<bool>, x: u8, y: u8, sprite: Seq<u8>)
    requires
        g.len() == 2048,
    ensures
        drawn_grid(drawn_grid(g, x, y, sprite), x, y, sprite) == g,
{
    assert(drawn_grid(drawn_grid(g, x, y, sprite), x, y, sprite) =~= g);
}

/// Law: a draw on a blank grid never reports a collision.
pub proof fn lemma_draw_blank_no_collision(x: u8, y: u8, sprite: Seq<u8>)
    requires
        sprite.len() <= 32,
    ensures
        !draw_collides(blank_grid(), x, y, sprite),
{
    if draw_collides(blank_grid(), x, y, sprite) {
        let (r, c) = choose|r: int, c: int|
            0 <= r < sprite.len() && 0 <= c < 8
                && blank_grid()[pixel_index(wrap_col(x, c), wrap_row(y, r))] && sprite_bit(
                sprite[r],
                c,
            );
        lemma_offsets_roundtrip(x, y, r, c);
        lemma_pixel_decompose(wrap_col(x, c), wrap_row(y, r));
        assert(!blank_grid()[pixel_index(wrap_col(x, c), wrap_row(y, r))]);
    }
}

/// Law: after drawing a sprite on a blank grid, drawing it again at the same
/// position reports a collision exactly when the sprite has some set bit.
pub proof fn lemma_redraw_collides(x: u8, y: u8, sprite: Seq<u8>)
    requires
        sprite.len() <= 32,
    ensures
        draw_collides(drawn_grid(blank_grid(), x, y, sprite), x, y, sprite) == (exists|
            r: int,
            c: int,
        |
            0 <= r < sprite.len() && 0 <= c < 8 && sprite_bit(sprite[r], c)),
{
    let g1 = drawn_grid(blank_grid(), x, y, sprite);
    assert forall|r: int, c: int| 0 <= r < sprite.len() && 0 <= c < 8 implies g1[pixel_index(
        wrap_col(x, c),
        wrap_row(y, r),
    )] == sprite_bit(sprite[r], c) by {
        lemma_offsets_roundtrip(x, y, r, c);
        lemma_pixel_decompose(wrap_col(x, c), wrap_row(y, r));
        let i = pixel_index(wrap_col(x, c), wrap_row(y, r));
        assert(row_offset(y, i / 64) == r && col_offset(x, i % 64) == c);
    }
    if draw_collides(g1, x, y, sprite) {
        let (r, c) = choose|r: int, c: int|
            0 <= r < sprite.len() && 0 <= c < 8
                && g1[pixel_index(wrap_col(x, c), wrap_row(y, r))] && sprite_bit(sprite[r], c);
        assert(sprite_bit(sprite[r], c));
    }
    if exists|r: int, c: int| 0 <= r < sprite.len() && 0 <= c < 8 && sprite_bit(sprite[r], c) {
        let (r, c) = choose|r: int, c: int|
            0 <= r < sprite.len() && 0 <= c < 8 && sprite_bit(sprite[r], c);
        assert(g1[pixel_index(wrap_col(x, c), wrap_row(y, r))] && sprite_bit(sprite[r], c));
        assert(draw_collides(g1, x, y, sprite));
    }
}

/// The pixel grid, 64 columns by 32 rows, one bit per pixel.
pub struct Display {
    bits: bit_vec::BitVec,
}

impl View for Display {
    type V = Seq<bool>;

    closed spec fn view(&self) -> Seq<bool> {
        bits_of(self.bits)
    }
}

impl Display {
    /// The grid holds exactly one bit per pixel.
    pub open spec fn wf(&self) -> bool {
        self@.len() == GRID_PIXELS
    }

    /// A blank display.
    pub fn new() -> (d: Display)
        ensures
            d.wf(),
            d@ == blank_grid(),
    {
        let d = Display { bits: bitvec_filled(GRID_PIXELS, false) };
        proof {
            assert(d@ =~= blank_grid());
        }
        d
    }

    /// Clears every pixel.
    pub fn clear(&mut self)
        requires
            old(self).wf(),
        ensures
            final(self).wf(),
            final(self)@ == blank_grid(),
    {
        bitvec_fill(&mut self.bits, false);
        proof {
            assert(self@ =~= blank_grid());
        }
    }

    /// Reads the pixel at column `x`, row `y`.
    pub fn pixel(&self, x: usize, y: usize) -> (r: bool)
        requires
            self.wf(),
            x < GRID_WIDTH,
            y < GRID_HEIGHT,
        ensures
            r == self@[pixel_index(x as int, y as int)],
    {
        proof {
            lemma_pixel_decompose(x as int, y as int);
        }
        let got = bitvec_get(&self.bits, y * 64 + x);
        match got {
            Some(b) => b,
            None => false,
        }
    }

    /// A copy of the grid in row-major order, for a renderer to present.
    pub fn snapshot(&self) -> (r: Vec<bool>)
        requires
            self.wf(),
        ensures
            r@ == self@,
    {
        let mut out: Vec<bool> = Vec::new();
        let mut i: usize = 0;
        while i < GRID_PIXELS
            invariant
                self.wf(),
                i <= GRID_PIXELS,
                out@ == self@.take(i as int),
            decreases GRID_PIXELS - i,
        {
            let got = bitvec_get(&self.bits, i);
            let b = match got {
                Some(b) => b,
                None => false,
            };
            out.push(b);
            proof {
                assert(out@ =~= self@.take(i + 1));
            }
            i = i + 1;
        }
        proof {
            assert(out@ =~= self@);
        }
        out
    }

    /// Composites `sprite` at (`x`, `y`) with XOR, wrapping both coordinates,
    /// and reports whether some set pixel was erased.
    pub fn draw(&mut self, x: u8, y: u8, sprite: &Vec<u8>) -> (collision: bool)
        requires
            old(self).wf(),
            sprite@.len() <= 32,
        ensures
            final(self).wf(),
            final(self)@ == drawn_grid(old(self)@, x, y, sprite@),
            collision == draw_collides(old(self)@, x, y, sprite@),
    {
        let ghost g0 = self@;
        let mut collision = false;
        let mut r: usize = 0;
        while r < sprite.len()
            invariant
                self.wf(),
                g0.len() == 2048,
                sprite@.len() <= 32,
                r <= sprite@.len(),
                self@ == drawn_grid_upto(g0, x, y, sprite@, r * 8),
                collision == collides_upto(g0, x, y, sprite@, r * 8),
            decreases sprite@.len() - r,
        {
            let row_byte = sprite[r];
            let mut c: usize = 0;
            while c < 8
                invariant
                    self.wf(),
                    g0.len() == 2048,
                    sprite@.len() <= 32,
                    r < sprite@.len(),
                    c <= 8,
                    row_byte == sprite@[r as int],
                    self@ == drawn_grid_upto(g0, x, y, sprite@, r * 8 + c),
                    collision == collides_upto(g0, x, y, sprite@, r * 8 + c),
                decreases 8 - c,
            {
                proof {
                    lemma_draw_step(g0, x, y, sprite@, r as int, c as int);
                    lemma_offsets_roundtrip(x, y, r as int, c as int);
                }
                let px = (x as usize + c) % 64;
                let py = (y as usize + r) % 32;
                let i = py * 64 + px;
                proof {
                    assert(px == wrap_col(x, c as int) && py == wrap_row(y, r as int));
                    lemma_pixel_decompose(px as int, py as int);
                }
                let sh: u8 = (7 - c) as u8;
                let bit = (row_byte >> sh) & 1 == 1;
                proof {
                    assert(bit == sprite_bit(sprite@[r as int], c as int));
                }
                let got = bitvec_get(&self.bits, i);
                let prev = match got {
                    Some(b) => b,
                    None => false,
                };
                proof {
                    assert(prev == g0[i as int]);
                }
                if prev && bit {
                    collision = true;
                }
                bitvec_set(&mut self.bits, i, prev != bit);
                c = c + 1;
            }
            r = r + 1;
        }
        proof {
            lemma_draw_complete(g0, x, y, sprite@);
        }
        collision
    }
}

} // verus!
