use vstd::prelude::*;
use vstd::arithmetic::div_mod::{
    lemma_add_mod_noop, lemma_fundamental_div_mod, lemma_fundamental_div_mod_converse,
    lemma_mod_bound, lemma_mod_mod, lemma_small_mod,
};
use vstd::arithmetic::mul::lemma_mul_is_commutative;

verus! {

/// Side of the square tile in which every supported pattern repeats exactly.
pub const PATTERN_TILE: usize = 48;

/// Number of distinct filter colours a pattern may name (R, G, B, C, M, Y).
pub const NAMED_COLORS: u8 = 6;

/// Mathematical model of a colour filter array: a `width` x `height`
/// rectangle of colour indices, stored row by row, repeated over the sensor.
pub struct CfaModel {
    pub width: nat,
    pub height: nat,
    pub pattern: Seq<u8>,
}

impl CfaModel {
    /// The pattern is empty, or a rectangle whose sides divide the 48 x 48 tile.
    pub open spec fn wf(self) -> bool {
        ||| (self.width == 0 && self.height == 0 && self.pattern.len() == 0)
        ||| (0 < self.width && 0 < self.height && PATTERN_TILE as int % self.width as int == 0
            && PATTERN_TILE as int % self.height as int == 0 && self.pattern.len() == self.width
            * self.height)
    }

    /// Every cell names one of the six filter colours.
    pub open spec fn named(self) -> bool {
        forall|i: int| 0 <= i < self.pattern.len() ==> #[trigger] self.pattern[i] < NAMED_COLORS
    }

    /// Colour index of the sensor site at (`row`, `col`); an empty pattern reads 0 everywhere.
    pub open spec fn color(self, row: int, col: int) -> int {
        if self.width == 0 || self.height == 0 {
            0
        } else {
            self.pattern[(row % (self.height as int)) * (self.width as int) + col % (
            self.width as int)] as int
        }
    }

    /// The pattern seen from an origin moved `x` columns right and `y` rows down.
    pub open spec fn shifted(self, x: int, y: int) -> CfaModel {
        CfaModel {
            width: self.width,
            height: self.height,
            pattern: Seq::new(
                self.pattern.len(),
                |i: int| self.color(i / (self.width as int) + y, i % (self.width as int) + x) as u8,
            ),
        }
    }
}

/// Cell `(a, b)` of a `h` x `w` rectangle stored row by row sits at `a * w + b`,
/// inside the rectangle, and that position gives back `a` and `b`.
pub proof fn lemma_cell_position(a: int, b: int, h: int, w: int)
    requires
        0 <= a < h,
        0 <= b < w,
    ensures
        0 <= a * w + b < h * w,
        (a * w + b) / w == a,
        (a * w + b) % w == b,
{
    assert(0 <= a * w + b < h * w) by (nonlinear_arith)
        requires
            0 <= a < h,
            0 <= b < w,
    ;
    lemma_fundamental_div_mod_converse(a * w + b, w, a, b);
}

/// A positive divisor of the tile side is at most the tile side.
proof fn lemma_tile_divisor_small(d: int)
    requires
        0 < d,
        PATTERN_TILE as int % d == 0,
    ensures
        d <= PATTERN_TILE,
{
    if d > PATTERN_TILE {
        lemma_small_mod(PATTERN_TILE as nat, d as nat);
    }
}

/// A colour filter array whose pattern repeats with a period dividing 48.
pub struct Cfa {
    width: usize,
    height: usize,
    pattern: Vec<u8>,
}

impl View for Cfa {
    type V = CfaModel;

    closed spec fn view(&self) -> CfaModel {
        CfaModel { width: self.width as nat, height: self.height as nat, pattern: self.pattern@ }
    }
}

impl Cfa {
    #[verifier::type_invariant]
    closed spec fn inv(self) -> bool {
        self@.wf()
    }

    /// The empty pattern, which reads colour 0 everywhere.
    pub fn empty() -> (r: Cfa)
        ensures
            r@.width == 0,
            r@.height == 0,
            r@.pattern.len() == 0,
    {
        Cfa { width: 0, height: 0, pattern: Vec::new() }
    }

    /// Builds a pattern from its rows, concatenated; `None` when the shape is
    /// not empty and not a rectangle whose sides divide 48.
    pub fn new(width: usize, height: usize, pattern: Vec<u8>) -> (r: Option<Cfa>)
        ensures
            r is Some <==> (CfaModel { width: width as nat, height: height as nat, pattern: pattern@ }).wf(),
            r matches Some(c) ==> c@ == (CfaModel {
                width: width as nat,
                height: height as nat,
                pattern: pattern@,
            }),
    {
        let ok = if width == 0 && height == 0 {
            pattern.len() == 0
        } else if 0 < width && 0 < height && PATTERN_TILE % width == 0 && PATTERN_TILE % height == 0 {
            proof {
                lemma_tile_divisor_small(width as int);
                lemma_tile_divisor_small(height as int);
                assert(width * height <= 48 * 48) by (nonlinear_arith)
                    requires
                        width <= 48,
                        height <= 48,
                ;
            }
            pattern.len() == width * height
        } else {
            false
        };
        if ok {
            Some(Cfa { width, height, pattern })
        } else {
            None
        }
    }

    pub fn width(&self) -> (r: usize)
        ensures
            r == self@.width,
    {
        self.width
    }

    pub fn height(&self) -> (r: usize)
        ensures
            r == self@.height,
    {
        self.height
    }

    /// Colour index at a sensor site, read from the repeating pattern.
    pub fn color_at(&self, row: usize, col: usize) -> (r: usize)
        ensures
            r == self@.color(row as int, col as int),
            self@.width > 0 ==> r == self@.pattern[(row as int % self@.height as int)
                * self@.width + col as int % self@.width as int],
            row < self@.height && col < self@.width ==> r == self@.pattern[row * self@.width + col],
            self@.width == 0 ==> r == 0,
    {
        proof {
            use_type_invariant(self);
        }
        if self.width == 0 || self.height == 0 {
            0
        } else {
            let n = self.pattern.len();
            let a = row % self.height;
            let b = col % self.width;
            proof {
                lemma_cell_position(a as int, b as int, self.height as int, self.width as int);
                lemma_mul_is_commutative(self.height as int, self.width as int);
                lemma_color_row_major(self@, row as int, col as int);
            }
            self.pattern[a * self.width + b] as usize
        }
    }

    /// Every cell of the pattern names one of the six filter colours.
    pub fn is_named(&self) -> (r: bool)
        ensures
            r == self@.named(),
    {
        let mut i: usize = 0;
        while i < self.pattern.len()
            invariant
                i <= self.pattern@.len(),
                forall|j: int| 0 <= j < i ==> #[trigger] self.pattern@[j] < NAMED_COLORS,
            decreases self.pattern@.len() - i,
        {
            if self.pattern[i] >= NAMED_COLORS {
                assert(!self@.named()) by {
                    assert(self@.pattern[i as int] >= NAMED_COLORS);
                }
                return false;
            }
            i = i + 1;
        }
        true
    }

    /// The pattern of the image cropped `x` columns from the left and `y` rows
    /// from the top: the site at (`r`, `c`) of the crop has the colour of the
    /// site at (`r + y`, `c + x`) of the uncropped image.
    pub fn shift(&self, x: usize, y: usize) -> (r: Cfa)
        requires
            self@.named(),
        ensures
            r@ == self@.shifted(x as int, y as int),
            r@.named(),
            forall|row: int, col: int| #[trigger] r@.color(row, col) == self@.color(row + y, col + x),
            self@.width > 0 ==> forall|i: int|
                0 <= i < r@.pattern.len() ==> #[trigger] r@.pattern[i] == self@.pattern[((i
                    / (self@.width as int) + y) % (self@.height as int)) * self@.width + (i % (
                self@.width as int) + x) % (self@.width as int)],
    {
        proof {
            use_type_invariant(self);
        }
        let w = self.width;
        let h = self.height;
        let n = self.pattern.len();
        let mut out: Vec<u8> = Vec::with_capacity(n);
        let ghost target = self@.shifted(x as int, y as int);
        if w > 0 && h > 0 {
            proof {
                lemma_tile_divisor_small(w as int);
                lemma_tile_divisor_small(h as int);
            }
            let xs = x % w;
            let ys = y % h;
            let mut i: usize = 0;
            while i < n
                invariant
                    self@.wf(),
                    w == self@.width,
                    h == self@.height,
                    0 < w <= PATTERN_TILE,
                    0 < h <= PATTERN_TILE,
                    n == self@.pattern.len(),
                    n == w * h,
                    xs == x % w,
                    ys == y % h,
                    target == self@.shifted(x as int, y as int),
                    i <= n,
                    out@.len() == i,
                    forall|j: int| 0 <= j < i ==> #[trigger] out@[j] == target.pattern[j],
                decreases n - i,
            {
                let r0 = i / w;
                let c0 = i % w;
                proof {
                    lemma_fundamental_div_mod(i as int, w as int);
                    assert(r0 < h) by (nonlinear_arith)
                        requires
                            i < w * h,
                            i == w * r0 + c0,
                            c0 >= 0,
                            w > 0,
                    ;
                }
                let rr = (r0 + ys) % h;
                let cc = (c0 + xs) % w;
                proof {
                    lemma_mod_bound(rr as int, h as int);
                    lemma_add_mod_noop(r0 as int, y as int, h as int);
                    lemma_small_mod(r0 as nat, h as nat);
                    lemma_add_mod_noop(c0 as int, x as int, w as int);
                    lemma_small_mod(c0 as nat, w as nat);
                    lemma_mod_mod(ys as int, h as int, 1);
                    lemma_mod_mod(xs as int, w as int, 1);
                    assert((r0 + ys) % (h as int) == (r0 + y) % (h as int)) by {
                        lemma_add_mod_noop(r0 as int, ys as int, h as int);
                        lemma_small_mod(ys as nat, h as nat);
                    }
                    assert((c0 + xs) % (w as int) == (c0 + x) % (w as int)) by {
                        lemma_add_mod_noop(c0 as int, xs as int, w as int);
                        lemma_small_mod(xs as nat, w as nat);
                    }
                    lemma_cell_position(rr as int, cc as int, h as int, w as int);
                    lemma_mul_is_commutative(h as int, w as int);
                }
                let v = self.pattern[rr * w + cc];
                out.push(v);
                i = i + 1;
            }
        }
        proof {
            assert(out@ =~= target.pattern);
        }
        let r = Cfa { width: w, height: h, pattern: out };
        proof {
            assert forall|k: int| 0 <= k < r@.pattern.len() implies #[trigger] r@.pattern[k]
                < NAMED_COLORS by {
                let a = k / (w as int);
                let b = k % (w as int);
                lemma_fundamental_div_mod(k, w as int);
                lemma_mod_bound(a + y, h as int);
                lemma_mod_bound(b + x, w as int);
                lemma_cell_position((a + y) % (h as int), (b + x) % (w as int), h as int, w as int);
                lemma_mul_is_commutative(h as int, w as int);
            }
            if w > 0 {
                lemma_shift_pattern(self@, x as int, y as int);
            }
            assert forall|row: int, col: int| #[trigger] r@.color(row, col) == self@.color(
                row + y,
                col + x,
            ) by {
                lemma_shift_color(self@, x as int, y as int, row, col);
            }
        }
        r
    }
}

/// A pattern is stored row by row: inside the rectangle, the site at (`row`,
/// `col`) has the colour at position `row * width + col`, and elsewhere the
/// colour of the site at the same place in its repetition.
pub proof fn lemma_color_row_major(m: CfaModel, row: int, col: int)
    requires
        m.wf(),
        m.width > 0,
    ensures
        0 <= row < m.height && 0 <= col < m.width ==> m.color(row, col) == m.pattern[row * m.width
            + col],
        m.color(row, col) == m.pattern[(row % (m.height as int)) * m.width + col % (m.width as int)],
        0 <= (row % (m.height as int)) * m.width + col % (m.width as int) < m.pattern.len(),
{
    let w = m.width as int;
    let h = m.height as int;
    lemma_mod_bound(row, h);
    lemma_mod_bound(col, w);
    lemma_cell_position(row % h, col % w, h, w);
    lemma_mul_is_commutative(h, w);
    if 0 <= row < h && 0 <= col < w {
        lemma_small_mod(row as nat, h as nat);
        lemma_small_mod(col as nat, w as nat);
    }
}

/// Reading a shifted pattern at (`row`, `col`) reads the unshifted one at
/// (`row + y`, `col + x`).
pub proof fn lemma_shift_color(m: CfaModel, x: int, y: int, row: int, col: int)
    requires
        m.wf(),
    ensures
        m.shifted(x, y).color(row, col) == m.color(row + y, col + x),
{
    if m.width > 0 && m.height > 0 {
        let w = m.width as int;
        let h = m.height as int;
        let a = row % h;
        let b = col % w;
        lemma_mod_bound(row, h);
        lemma_mod_bound(col, w);
        lemma_cell_position(a, b, h, w);
        lemma_mul_is_commutative(h, w);
        assert(((a + y) % h) == ((row + y) % h)) by {
            lemma_add_mod_noop(row, y, h);
            lemma_add_mod_noop(a, y, h);
            lemma_mod_mod(row, h, 1);
            lemma_mod_mod(y, h, 1);
        }
        assert(((b + x) % w) == ((col + x) % w)) by {
            lemma_add_mod_noop(col, x, w);
            lemma_add_mod_noop(b, x, w);
            lemma_mod_mod(col, w, 1);
            lemma_mod_mod(x, w, 1);
        }
    }
}

/// Cell `i` of a shifted pattern, at row `i / width` and column `i % width`,
/// holds the cell of the unshifted pattern `y` rows down and `x` columns right,
/// wrapping around the rectangle.
pub proof fn lemma_shift_pattern(m: CfaModel, x: int, y: int)
    requires
        m.wf(),
        m.width > 0,
    ensures
        m.shifted(x, y).pattern.len() == m.pattern.len(),
        forall|i: int|
            0 <= i < m.pattern.len() ==> #[trigger] m.shifted(x, y).pattern[i] == m.pattern[((i
                / (m.width as int) + y) % (m.height as int)) * m.width + (i % (m.width as int) + x)
                % (m.width as int)],
{
    let w = m.width as int;
    assert forall|i: int| 0 <= i < m.pattern.len() implies #[trigger] m.shifted(x, y).pattern[i]
        == m.pattern[((i / w + y) % (m.height as int)) * m.width + (i % w + x) % w] by {
        lemma_color_row_major(m, i / w + y, i % w + x);
    }
}

/// Shifting keeps the shape of the pattern and the colours it names.
pub proof fn lemma_shift_wf(m: CfaModel, x: int, y: int)
    requires
        m.wf(),
    ensures
        m.shifted(x, y).wf(),
{
}

/// Shifting twice is shifting once by the sum of the offsets.
pub proof fn lemma_shift_compose(m: CfaModel, x1: int, y1: int, x2: int, y2: int)
    requires
        m.wf(),
    ensures
        m.shifted(x1, y1).shifted(x2, y2) == m.shifted(x1 + x2, y1 + y2),
{
    let s1 = m.shifted(x1, y1);
    let s2 = s1.shifted(x2, y2);
    let t = m.shifted(x1 + x2, y1 + y2);
    assert forall|i: int| 0 <= i < s2.pattern.len() implies #[trigger] s2.pattern[i]
        == t.pattern[i] by {
        let w = m.width as int;
        lemma_shift_color(m, x1, y1, i / w + y2, i % w + x2);
        assert(i / w + y2 + y1 == i / w + (y1 + y2));
        assert(i % w + x2 + x1 == i % w + (x1 + x2));
    }
    assert(s2.pattern =~= t.pattern);
}

/// The pattern repeats: moving by a whole period in either direction reads the same colour.
pub proof fn lemma_color_periodic(m: CfaModel, row: int, col: int)
    requires
        m.wf(),
    ensures
        m.color(row + m.height, col) == m.color(row, col),
        m.color(row, col + m.width) == m.color(row, col),
{
    if m.width > 0 && m.height > 0 {
        vstd::arithmetic::div_mod::lemma_mod_add_multiples_vanish(row, m.height as int);
        vstd::arithmetic::div_mod::lemma_mod_add_multiples_vanish(col, m.width as int);
    }
}

} // verus!
