use vstd::prelude::*;

verus! {

/// Index of each icon in the icon atlas.
pub const CIRCLE: u32 = 1;
pub const DOT: u32 = 2;
pub const SQUARE: u32 = 3;
pub const SWORD: u32 = 4;
pub const HEART: u32 = 5;
pub const SHIELD: u32 = 6;
pub const FIGHTER: u32 = 7;
pub const BEHOLDER: u32 = 8;
pub const CARD: u32 = 9;
pub const PLAY: u32 = 10;
pub const CARD_BACK: u32 = 11;
pub const COIN: u32 = 12;
pub const CROSS: u32 = 13;
pub const BANG: u32 = 14;
pub const RED_CIRCLE: u32 = 15;
pub const BLUE_BEHOLDER: u32 = 16;
pub const GREEN_HEART: u32 = 17;
pub const BROKEN: u32 = 18;
pub const DECK: u32 = 19;
pub const TRAP_DECK: u32 = 20;
pub const BLACK: u32 = 21;
pub const DISARM: u32 = 22;
pub const RED_SWORD: u32 = 23;
pub const BOW: u32 = 24;
pub const FIGHTER_2: u32 = 25;
pub const CHICKEN: u32 = 26;

#[derive(PartialEq, Eq, Debug, Copy, Clone)]
pub enum WindowMode {
    Windowed,
    Borderless,
}

/// A cell of the icon atlas, named by its index.
#[derive(PartialEq, Eq, Structural, Debug, Copy, Clone)]
pub struct Icon {
    pub index: u32,
}

impl Icon {
    pub fn new(index: u32) -> (r: Icon)
        ensures
            r.index == index,
    {
        Icon { index }
    }
}

/// A handle to a texture owned by the renderer.
#[derive(PartialEq, Eq, Structural, Debug, Copy, Clone)]
pub struct Texture {
    pub index: u32,
}

impl Texture {
    pub fn new(index: u32) -> (r: Texture)
        ensures
            r.index == index,
    {
        Texture { index }
    }
}

/// The textures that every screen may draw.
#[derive(PartialEq, Eq, Structural, Debug, Copy, Clone)]
pub struct Textures {
    pub button: Texture,
    pub button_hover: Texture,
    pub button_selected: Texture,
    pub card_back: Texture,
}


/// The images a renderer draws from; each is known by its `Texture` index.
#[derive(Debug)]
pub struct TextureSet<I> {
    pub textures: Vec<I>,
}

impl<I> TextureSet<I> {
    pub fn new() -> (r: TextureSet<I>)
        ensures
            r.textures@.len() == 0,
    {
        TextureSet { textures: Vec::new() }
    }

    /// Stores `texture` and returns its handle: its place in the set.
    pub fn add(&mut self, texture: I) -> (r: Texture)
        requires
            old(self).textures@.len() < u32::MAX,
        ensures
            final(self).textures@ == old(self).textures@.push(texture),
            r.index == old(self).textures@.len(),
    {
        self.textures.push(texture);
        Texture::new((self.textures.len() - 1) as u32)
    }
}

/// The two colours that the icon atlas uses for its background.
pub open spec fn is_key_color(p: Seq<u8>) -> bool {
    p == seq![163u8, 73u8, 164u8, 255u8] || p == seq![200u8, 191u8, 231u8, 255u8]
}

/// Byte `i` of an RGBA image belongs to a whole pixel of a key colour.
pub open spec fn in_key_pixel(pixels: Seq<u8>, i: int) -> bool {
    let start = i - i % 4;
    start + 4 <= pixels.len() && is_key_color(pixels.subrange(start, start + 4))
}

/// Makes every pixel of a key colour fully transparent black; a trailing partial pixel
/// stays as it is.
pub fn make_transparent(pixels: &mut Vec<u8>)
    ensures
        final(pixels)@.len() == old(pixels)@.len(),
        forall|i: int|
            0 <= i < old(pixels)@.len() ==> #[trigger] final(pixels)@[i] == if in_key_pixel(old(pixels)@, i) {
                0u8
            } else {
                old(pixels)@[i]
            },
{
    let ghost before = pixels@;
    let len = pixels.len();
    let mut i: usize = 0;
    while 4 <= len - i
        invariant
            len == before.len(),
            pixels@.len() == len,
            i % 4 == 0,
            i <= len,
            forall|j: int|
                0 <= j < i ==> #[trigger] pixels@[j] == if in_key_pixel(before, j) {
                    0u8
                } else {
                    before[j]
                },
            forall|j: int| i <= j < len ==> #[trigger] pixels@[j] == before[j],
        decreases len - i,
    {
        let red = pixels[i];
        let green = pixels[i + 1];
        let blue = pixels[i + 2];
        let alpha = pixels[i + 3];
        let key = (red == 163 && green == 73 && blue == 164 && alpha == 255) || (red == 200 && green == 191
            && blue == 231 && alpha == 255);
        proof {
            assert forall|j: int| i <= j < i + 4 implies #[trigger] in_key_pixel(before, j) == is_key_color(
                before.subrange(i as int, i + 4),
            ) by {
                assert(j - j % 4 == i);
            }
            assert(key == is_key_color(before.subrange(i as int, i + 4))) by {
                if is_key_color(before.subrange(i as int, i + 4)) {
                    assert(before.subrange(i as int, i + 4)[0] == red);
                }
                if key {
                    if red == 163 {
                        assert(before.subrange(i as int, i + 4) =~= seq![163u8, 73u8, 164u8, 255u8]);
                    } else {
                        assert(before.subrange(i as int, i + 4) =~= seq![200u8, 191u8, 231u8, 255u8]);
                    }
                }
            }
        }
        if key {
            pixels.set(i, 0);
            pixels.set(i + 1, 0);
            pixels.set(i + 2, 0);
            pixels.set(i + 3, 0);
        }
        i += 4;
    }
    proof {
        assert forall|j: int| i <= j < len implies !#[trigger] in_key_pixel(before, j) by {
            assert(j - j % 4 >= i);
        }
    }
}


/// Offset of byte `col` of row `row` in an image whose rows are `row_len` bytes long.
pub open spec fn at(row_len: int, row: int, col: int) -> int {
    row * row_len + col
}

proof fn lemma_at_bounds(row_len: int, rows: int, row: int, col: int)
    requires
        0 <= row < rows,
        0 <= col < row_len,
    ensures
        0 <= at(row_len, row, col) < rows * row_len,
        row * row_len + row_len <= rows * row_len,
{
    assert(0 <= row * row_len + col) by (nonlinear_arith)
        requires
            0 <= row,
            0 <= col < row_len,
    ;
    assert(row * row_len + row_len <= rows * row_len) by (nonlinear_arith)
        requires
            0 <= row < rows,
            0 <= row_len,
    ;
}

proof fn lemma_at_distinct(row_len: int, r1: int, c1: int, r2: int, c2: int)
    requires
        0 <= c1 < row_len,
        0 <= c2 < row_len,
    ensures
        (at(row_len, r1, c1) == at(row_len, r2, c2)) == (r1 == r2 && c1 == c2),
{
    if r1 < r2 {
        assert(r1 * row_len + row_len <= r2 * row_len) by (nonlinear_arith)
            requires
                r1 < r2,
                0 <= row_len,
        ;
    } else if r2 < r1 {
        assert(r2 * row_len + row_len <= r1 * row_len) by (nonlinear_arith)
            requires
                r2 < r1,
                0 <= row_len,
        ;
    }
}

/// Turns an image upside down: row `r` of `rows` rows of `row_len` bytes takes the place
/// of row `rows - 1 - r`.
pub fn flip_rows(data: &mut Vec<u8>, row_len: usize, rows: usize)
    requires
        old(data)@.len() == row_len * rows,
    ensures
        final(data)@.len() == old(data)@.len(),
        forall|r: int, c: int|
            0 <= r < rows && 0 <= c < row_len ==> final(data)@[#[trigger] at(row_len as int, r, c)]
                == old(data)@[at(row_len as int, rows - 1 - r, c)],
{
    let ghost before = data@;
    let ghost n = row_len as int;
    let ghost h = rows as int;
    let mut r: usize = 0;
    while r < rows / 2
        invariant
            n == row_len,
            h == rows,
            before.len() == n * h,
            data@.len() == before.len(),
            r <= h / 2,
            forall|rr: int, c: int|
                0 <= rr < h && 0 <= c < n ==> data@[#[trigger] at(n, rr, c)] == if rr < r || rr >= h
                    - r {
                    before[at(n, h - 1 - rr, c)]
                } else {
                    before[at(n, rr, c)]
                },
        decreases h / 2 - r,
    {
        let other = rows - 1 - r;
        let mut c: usize = 0;
        while c < row_len
            invariant
                n == row_len,
                h == rows,
                before.len() == n * h,
                data@.len() == before.len(),
                r < h / 2,
                other == h - 1 - r,
                c <= n,
                forall|rr: int, cc: int|
                    0 <= rr < h && 0 <= cc < n ==> data@[#[trigger] at(n, rr, cc)] == if rr < r || rr
                        >= h - r || ((rr == r || rr == other) && cc < c) {
                        before[at(n, h - 1 - rr, cc)]
                    } else {
                        before[at(n, rr, cc)]
                    },
            decreases n - c,
        {
            proof {
                lemma_at_bounds(n, h, r as int, c as int);
                lemma_at_bounds(n, h, other as int, c as int);
                assert(data.len() == data@.len());
            }
            let a = r * row_len + c;
            let b = other * row_len + c;
            let ghost cur = data@;
            let x = data[a];
            let y = data[b];
            data.set(a, y);
            data.set(b, x);
            proof {
                assert forall|rr: int, cc: int| 0 <= rr < h && 0 <= cc < n implies data@[#[trigger] at(
                    n,
                    rr,
                    cc,
                )] == if rr < r || rr >= h - r || ((rr == r || rr == other) && cc < c + 1) {
                    before[at(n, h - 1 - rr, cc)]
                } else {
                    before[at(n, rr, cc)]
                } by {
                    lemma_at_bounds(n, h, rr, cc);
                    lemma_at_distinct(n, rr, cc, r as int, c as int);
                    lemma_at_distinct(n, rr, cc, other as int, c as int);
                    assert(cur[at(n, rr, cc)] == if rr < r || rr >= h - r || ((rr == r || rr == other)
                        && cc < c) {
                        before[at(n, h - 1 - rr, cc)]
                    } else {
                        before[at(n, rr, cc)]
                    });
                    assert(cur[at(n, r as int, c as int)] == before[at(n, r as int, c as int)]);
                    assert(cur[at(n, other as int, c as int)] == before[at(n, other as int, c as int)]);
                }
            }
            c += 1;
        }
        r += 1;
    }
}

} // verus!
