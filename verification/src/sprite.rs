//! Sprite assets: fixed-size grids of glyph/colour cells.

use vstd::prelude::*;

verus! {

/// Why a binary sprite blob was rejected.
#[derive(Clone, Copy, PartialEq, Eq, Structural, Debug)]
pub enum DecodeError {
    /// The blob is shorter than its header and declared dimensions demand.
    Truncated,
    /// A glyph code unit is not a Unicode scalar value.
    InvalidGlyph,
}

/// Mathematical contents of a sprite: its dimensions and the row-major
/// glyph and colour grids.
pub ghost struct SpriteView {
    pub width: nat,
    pub height: nat,
    pub glyphs: Seq<char>,
    pub colors: Seq<u16>,
}

impl SpriteView {
    /// Both grids hold exactly `width * height` entries.
    pub open spec fn wf(self) -> bool {
        &&& self.glyphs.len() == self.width * self.height
        &&& self.colors.len() == self.width * self.height
    }
}

/// A fixed-size 2D grid of (glyph, colour) cells, usable as a drawable
/// asset.  The dimensions are set at construction; cells change only
/// through the explicit per-cell setters.
pub struct RustConsoleSprite {
    width: usize,
    height: usize,
    glyphs: Vec<char>,
    colors: Vec<u16>,
}

impl View for RustConsoleSprite {
    type V = SpriteView;

    closed spec fn view(&self) -> SpriteView {
        SpriteView {
            width: self.width as nat,
            height: self.height as nat,
            glyphs: self.glyphs@,
            colors: self.colors@,
        }
    }
}

/// The little-endian 16-bit value stored at offset `off` of `b`.
pub open spec fn le16_at(b: Seq<u8>, off: int) -> int {
    b[off] + 256 * b[off + 1]
}

/// The little-endian 32-bit value stored at offset `off` of `b`.
pub open spec fn le32_at(b: Seq<u8>, off: int) -> int {
    b[off] + 256 * b[off + 1] + 65536 * b[off + 2] + 16777216 * b[off + 3]
}

/// The two little-endian bytes of the low 16 bits of `n`.
pub open spec fn le16_bytes(n: int) -> Seq<u8> {
    seq![(n % 256) as u8, (n / 256 % 256) as u8]
}

/// The four little-endian bytes of the low 32 bits of `n`.
pub open spec fn le32_bytes(n: int) -> Seq<u8> {
    seq![
        (n % 256) as u8,
        (n / 256 % 256) as u8,
        (n / 65536 % 256) as u8,
        (n / 16777216 % 256) as u8,
    ]
}

/// Every word of a colour grid as a little-endian byte pair, row-major.
pub open spec fn color_bytes(s: Seq<u16>) -> Seq<u8>
    decreases s.len(),
{
    if s.len() == 0 {
        Seq::empty()
    } else {
        color_bytes(s.drop_last()) + le16_bytes(s.last() as int)
    }
}

/// Every glyph of a glyph grid as a little-endian byte pair of its low
/// 16 code-point bits, row-major.
pub open spec fn glyph_bytes(s: Seq<char>) -> Seq<u8>
    decreases s.len(),
{
    if s.len() == 0 {
        Seq::empty()
    } else {
        glyph_bytes(s.drop_last()) + le16_bytes(s.last() as int)
    }
}

/// The binary image of a sprite: 32-bit width, 32-bit height, the colour
/// words, then the glyph code units, all little-endian and row-major.
pub open spec fn sprite_bytes(v: SpriteView) -> Seq<u8> {
    le32_bytes(v.width as int) + le32_bytes(v.height as int) + color_bytes(v.colors) + glyph_bytes(
        v.glyphs,
    )
}

/// Whether a 16-bit code unit is a Unicode scalar value, hence a glyph
/// the decoder accepts.
pub open spec fn valid_unit(u: int) -> bool {
    !(0xD800 <= u <= 0xDFFF)
}

/// Whether a glyph's code point fits the format's 16-bit code units.
pub open spec fn glyph_fits(c: char) -> bool {
    (c as int) < 0x10000
}

/// The width a blob of at least 8 bytes declares.
pub open spec fn decoded_width(b: Seq<u8>) -> int {
    le32_at(b, 0)
}

/// The height a blob of at least 8 bytes declares.
pub open spec fn decoded_height(b: Seq<u8>) -> int {
    le32_at(b, 4)
}

/// Whether the blob holds the full 8 + 4 * width * height bytes its
/// declared dimensions demand.
pub open spec fn decode_len_ok(b: Seq<u8>) -> bool {
    b.len() >= 8 + 4 * (decoded_width(b) * decoded_height(b))
}

/// The i-th colour word a blob stores.
pub open spec fn decoded_color(b: Seq<u8>, i: int) -> int {
    le16_at(b, 8 + 2 * i)
}

/// The i-th glyph code unit a blob stores.
pub open spec fn decoded_unit(b: Seq<u8>, i: int) -> int {
    le16_at(b, 8 + 2 * (decoded_width(b) * decoded_height(b)) + 2 * i)
}

/// Whether every glyph code unit of the blob is a Unicode scalar value.
pub open spec fn decode_glyphs_ok(b: Seq<u8>) -> bool {
    forall|i: int|
        0 <= i < decoded_width(b) * decoded_height(b) ==> valid_unit(#[trigger] decoded_unit(b, i))
}

/// The sprite a well-formed blob decodes to.
pub open spec fn decoded_sprite(b: Seq<u8>) -> SpriteView {
    SpriteView {
        width: decoded_width(b) as nat,
        height: decoded_height(b) as nat,
        colors: Seq::new(
            (decoded_width(b) * decoded_height(b)) as nat,
            |i: int| decoded_color(b, i) as u16,
        ),
        glyphs: Seq::new(
            (decoded_width(b) * decoded_height(b)) as nat,
            |i: int| decoded_unit(b, i) as char,
        ),
    }
}

/// The facts Verus carries for any `char` value: its code point is a
/// Unicode scalar value, and casting it through `u32` loses nothing.
proof fn lemma_char_bounds(c: char)
    ensures
        0 <= (c as int) && (c as int) <= 0x10FFFF,
        !(0xD800 <= (c as int) && (c as int) <= 0xDFFF),
        c as int == (c as u32) as int,
{
    vstd::utf8::char_is_scalar(c);
    assert(c as u32 <= 0x10FFFF);
}

/// Reading back the two bytes of a 16-bit value gives the value.
proof fn lemma_le16_value(n: int)
    requires
        0 <= n < 0x10000,
    ensures
        le16_at(le16_bytes(n), 0) == n,
{
    vstd::arithmetic::div_mod::lemma_div_is_ordered(n, 0xffff, 256);
    vstd::arithmetic::div_mod::lemma_small_mod((n / 256) as nat, 256nat);
    vstd::arithmetic::div_mod::lemma_fundamental_div_mod(n, 256);
}

/// Reading back the four bytes of a 32-bit value gives the value.
proof fn lemma_le32_value(n: int)
    requires
        0 <= n < 0x1_0000_0000,
    ensures
        le32_at(le32_bytes(n), 0) == n,
{
    vstd::arithmetic::div_mod::lemma_div_is_ordered(n, 0xffff_ffff, 0x100_0000);
    vstd::arithmetic::div_mod::lemma_small_mod((n / 0x100_0000) as nat, 256nat);
    vstd::arithmetic::div_mod::lemma_fundamental_div_mod(n, 256);
    vstd::arithmetic::div_mod::lemma_fundamental_div_mod(n / 256, 256);
    vstd::arithmetic::div_mod::lemma_fundamental_div_mod(n / 65536, 256);
    vstd::arithmetic::div_mod::lemma_div_denominator(n, 256, 256);
    vstd::arithmetic::div_mod::lemma_div_denominator(n, 65536, 256);
    assert(n / 256 / 256 == n / 65536);
    assert(n / 65536 / 256 == n / 0x100_0000);
}

/// A colour grid of m words encodes to exactly 2 * m bytes.
proof fn lemma_color_bytes_len(s: Seq<u16>)
    ensures
        color_bytes(s).len() == 2 * s.len(),
    decreases s.len(),
{
    if s.len() > 0 {
        lemma_color_bytes_len(s.drop_last());
    }
}

/// A glyph grid of m glyphs encodes to exactly 2 * m bytes.
proof fn lemma_glyph_bytes_len(s: Seq<char>)
    ensures
        glyph_bytes(s).len() == 2 * s.len(),
    decreases s.len(),
{
    if s.len() > 0 {
        lemma_glyph_bytes_len(s.drop_last());
    }
}

/// The byte pair at position i of an encoded colour grid is the
/// little-endian encoding of word i.
proof fn lemma_color_bytes_at(s: Seq<u16>, i: int)
    requires
        0 <= i < s.len(),
    ensures
        color_bytes(s)[2 * i] == le16_bytes(s[i] as int)[0],
        color_bytes(s)[2 * i + 1] == le16_bytes(s[i] as int)[1],
    decreases s.len(),
{
    lemma_color_bytes_len(s.drop_last());
    if i < s.len() - 1 {
        lemma_color_bytes_at(s.drop_last(), i);
    }
}

/// The byte pair at position i of an encoded glyph grid is the
/// little-endian encoding of the low 16 bits of glyph i.
proof fn lemma_glyph_bytes_at(s: Seq<char>, i: int)
    requires
        0 <= i < s.len(),
    ensures
        glyph_bytes(s)[2 * i] == le16_bytes(s[i] as int)[0],
        glyph_bytes(s)[2 * i + 1] == le16_bytes(s[i] as int)[1],
    decreases s.len(),
{
    lemma_glyph_bytes_len(s.drop_last());
    if i < s.len() - 1 {
        lemma_glyph_bytes_at(s.drop_last(), i);
    }
}

/// Encoding a sprite to the binary format and decoding the bytes again
/// yields a sprite with the same width, height, and every glyph/colour
/// pair, provided the dimensions fit the 32-bit header fields and every
/// glyph fits the format's 16-bit code units.
pub proof fn lemma_sprite_round_trip(v: SpriteView)
    requires
        v.wf(),
        v.width < 0x1_0000_0000,
        v.height < 0x1_0000_0000,
        forall|i: int| 0 <= i < v.glyphs.len() ==> glyph_fits(#[trigger] v.glyphs[i]),
    ensures
        sprite_bytes(v).len() >= 8,
        decode_len_ok(sprite_bytes(v)),
        decode_glyphs_ok(sprite_bytes(v)),
        decoded_sprite(sprite_bytes(v)) == v,
{
    let b = sprite_bytes(v);
    let wh = v.width * v.height;
    lemma_color_bytes_len(v.colors);
    lemma_glyph_bytes_len(v.glyphs);
    assert(b.len() == 8 + 4 * wh);
    assert forall|k: int| 0 <= k < 4 implies b[k] == le32_bytes(v.width as int)[k] by {}
    assert forall|k: int| 0 <= k < 4 implies b[4 + k] == le32_bytes(v.height as int)[k] by {}
    lemma_le32_value(v.width as int);
    lemma_le32_value(v.height as int);
    assert(decoded_width(b) == v.width);
    assert(decoded_height(b) == v.height);
    assert(decode_len_ok(b));
    assert forall|i: int| 0 <= i < wh implies decoded_color(b, i) == v.colors[i] as int by {
        lemma_color_bytes_at(v.colors, i);
        assert(b[8 + 2 * i] == color_bytes(v.colors)[2 * i]);
        assert(b[8 + 2 * i + 1] == color_bytes(v.colors)[2 * i + 1]);
        lemma_le16_value(v.colors[i] as int);
    }
    assert forall|i: int| 0 <= i < wh implies decoded_unit(b, i) == v.glyphs[i] as int by {
        lemma_glyph_bytes_at(v.glyphs, i);
        assert(b[8 + 2 * wh + 2 * i] == glyph_bytes(v.glyphs)[2 * i]);
        assert(b[8 + 2 * wh + 2 * i + 1] == glyph_bytes(v.glyphs)[2 * i + 1]);
        assert(glyph_fits(v.glyphs[i]));
        lemma_char_bounds(v.glyphs[i]);
        lemma_le16_value(v.glyphs[i] as int);
    }
    assert forall|i: int| 0 <= i < wh implies valid_unit(#[trigger] decoded_unit(b, i)) by {
        assert(decoded_unit(b, i) == v.glyphs[i] as int);
        lemma_char_bounds(v.glyphs[i]);
    }
    assert(decode_glyphs_ok(b));
    assert(decoded_sprite(b).colors =~= v.colors);
    assert forall|i: int| 0 <= i < wh implies decoded_sprite(b).glyphs[i] == v.glyphs[i] by {
        assert(decoded_unit(b, i) == v.glyphs[i] as int);
    }
    assert(decoded_sprite(b).glyphs =~= v.glyphs);
}

/// Relies on `char::from_u32` of std: it returns `Some` of the char with
/// code point `v` exactly when `v` is a Unicode scalar value (at most
/// 0x10FFFF and not a surrogate), and `None` otherwise.
#[verifier::external_body]
fn char_from_u32(v: u32) -> (r: Option<char>)
    ensures
        r == (if v <= 0x10FFFF && !(0xD800 <= v <= 0xDFFF) {
            Some(v as char)
        } else {
            Option::<char>::None
        }),
{
    char::from_u32(v)
}

/// A row-major index stays inside a `w`-by-`h` grid.
proof fn lemma_cell_index_bounds(w: int, h: int, x: int, y: int)
    requires
        0 <= x < w,
        0 <= y < h,
    ensures
        0 <= y * w + x < w * h,
{
    assert(0 <= y * w + x < w * h) by (nonlinear_arith)
        requires
            0 <= x < w,
            0 <= y < h,
    ;
}

impl RustConsoleSprite {
    /// A `w`-by-`h` sprite with every cell a blank glyph in black.
    /// Construction itself cannot fail; the `Result` shape is kept for
    /// the asset-loading call sites that substitute on error.
    pub fn new(w: usize, h: usize) -> (r: Result<RustConsoleSprite, DecodeError>)
        requires
            w * h <= usize::MAX,
        ensures
            r is Ok,
            r matches Ok(s) ==> {
                &&& s@.wf()
                &&& s@.width == w
                &&& s@.height == h
                &&& forall|i: int| 0 <= i < s@.glyphs.len() ==> s@.glyphs[i] == ' '
                &&& forall|i: int| 0 <= i < s@.colors.len() ==> s@.colors[i] == 0
            },
    {
        let n = w * h;
        let mut glyphs: Vec<char> = Vec::new();
        let mut colors: Vec<u16> = Vec::new();
        let mut i: usize = 0;
        while i < n
            invariant
                i <= n,
                glyphs@.len() == i,
                colors@.len() == i,
                forall|j: int| 0 <= j < i ==> glyphs@[j] == ' ',
                forall|j: int| 0 <= j < i ==> colors@[j] == 0,
            decreases n - i,
        {
            glyphs.push(' ');
            colors.push(0);
            i = i + 1;
        }
        Ok(RustConsoleSprite { width: w, height: h, glyphs, colors })
    }

    /// Parses the binary sprite format: a 32-bit width and height, then
    /// the colour words, then the glyph code units, all little-endian.
    /// A blob shorter than its declared dimensions demand is rejected as
    /// `Truncated`; a glyph code unit that is no Unicode scalar value is
    /// rejected as `InvalidGlyph`.
    pub fn from_bytes(b: &Vec<u8>) -> (r: Result<RustConsoleSprite, DecodeError>)
        ensures
            b@.len() < 8 ==> r == Err::<RustConsoleSprite, DecodeError>(DecodeError::Truncated),
            b@.len() >= 8 && !decode_len_ok(b@) ==> r == Err::<RustConsoleSprite, DecodeError>(
                DecodeError::Truncated,
            ),
            b@.len() >= 8 && decode_len_ok(b@) && !decode_glyphs_ok(b@) ==> r == Err::<
                RustConsoleSprite,
                DecodeError,
            >(DecodeError::InvalidGlyph),
            b@.len() >= 8 && decode_len_ok(b@) && decode_glyphs_ok(b@) ==> (r matches Ok(s)
                && s@ == decoded_sprite(b@)),
    {
        if b.len() < 8 {
            return Err(DecodeError::Truncated);
        }
        let w = b[0] as u32 + 256 * (b[1] as u32) + 65536 * (b[2] as u32) + 16777216 * (
        b[3] as u32);
        let h = b[4] as u32 + 256 * (b[5] as u32) + 65536 * (b[6] as u32) + 16777216 * (
        b[7] as u32);
        assert(w == decoded_width(b@));
        assert(h == decoded_height(b@));
        proof {
            assert((w as int) * (h as int) < 0x1_0000_0000_0000_0000) by (nonlinear_arith)
                requires
                    w < 0x1_0000_0000,
                    h < 0x1_0000_0000,
            ;
        }
        let wh64 = (w as u64) * (h as u64);
        let len = b.len();
        proof {
            vstd::arithmetic::div_mod::lemma_fundamental_div_mod((len - 8) as int, 4);
        }
        if (((len - 8) / 4) as u64) < wh64 {
            return Err(DecodeError::Truncated);
        }
        let wh = (w as usize) * (h as usize);
        let mut colors: Vec<u16> = Vec::new();
        let mut i: usize = 0;
        while i < wh
            invariant
                len == b@.len(),
                b@.len() >= 8 + 4 * (wh as int),
                wh == decoded_width(b@) * decoded_height(b@),
                i <= wh,
                colors@.len() == i,
                forall|j: int| 0 <= j < i ==> (#[trigger] colors@[j]) as int == decoded_color(b@, j),
            decreases wh - i,
        {
            let off = 8 + 2 * i;
            let lo = b[off] as u16;
            let hi = b[off + 1] as u16;
            colors.push(lo + 256 * hi);
            i = i + 1;
        }
        let base = 8 + 2 * wh;
        let mut glyphs: Vec<char> = Vec::new();
        let mut j: usize = 0;
        while j < wh
            invariant
                len == b@.len(),
                b@.len() >= 8 + 4 * (wh as int),
                wh == decoded_width(b@) * decoded_height(b@),
                base == 8 + 2 * wh,
                j <= wh,
                glyphs@.len() == j,
                forall|k: int|
                    0 <= k < j ==> valid_unit(#[trigger] decoded_unit(b@, k)) && glyphs@[k]
                        == decoded_unit(b@, k) as char,
            decreases wh - j,
        {
            let off = base + 2 * j;
            let lo = b[off] as u16;
            let hi = b[off + 1] as u16;
            let unit = lo + 256 * hi;
            assert(unit as int == decoded_unit(b@, j as int));
            if 0xD800 <= unit && unit <= 0xDFFF {
                assert(!decode_glyphs_ok(b@));
                return Err(DecodeError::InvalidGlyph);
            }
            match char_from_u32(unit as u32) {
                Some(ch) => {
                    glyphs.push(ch);
                },
                None => {
                    return Err(DecodeError::InvalidGlyph);
                },
            }
            j = j + 1;
        }
        assert(decode_glyphs_ok(b@));
        let s = RustConsoleSprite { width: w as usize, height: h as usize, glyphs, colors };
        proof {
            assert(s@.colors =~= decoded_sprite(b@).colors);
            assert(s@.glyphs =~= decoded_sprite(b@).glyphs);
        }
        Ok(s)
    }

    /// The binary image of this sprite, in the format `from_bytes`
    /// parses.  The header stores the dimensions as 32-bit values, so
    /// they must fit; a glyph above 0xFFFF is stored as its low 16
    /// code-point bits.
    pub fn to_bytes(&self) -> (r: Vec<u8>)
        requires
            self@.wf(),
            self@.width < 0x1_0000_0000,
            self@.height < 0x1_0000_0000,
        ensures
            r@ == sprite_bytes(self@),
    {
        let mut r: Vec<u8> = Vec::new();
        let w32 = self.width as u32;
        let h32 = self.height as u32;
        r.push((w32 % 256) as u8);
        r.push((w32 / 256 % 256) as u8);
        r.push((w32 / 65536 % 256) as u8);
        r.push((w32 / 16777216 % 256) as u8);
        r.push((h32 % 256) as u8);
        r.push((h32 / 256 % 256) as u8);
        r.push((h32 / 65536 % 256) as u8);
        r.push((h32 / 16777216 % 256) as u8);
        let ghost header = le32_bytes(self@.width as int) + le32_bytes(self@.height as int);
        proof {
            assert(r@ =~= header);
        }
        let m = self.colors.len();
        let mut i: usize = 0;
        while i < m
            invariant
                self@.wf(),
                m == self@.colors.len(),
                i <= m,
                header == le32_bytes(self@.width as int) + le32_bytes(self@.height as int),
                r@ == header + color_bytes(self@.colors.take(i as int)),
            decreases m - i,
        {
            let cword = self.colors[i];
            r.push((cword % 256) as u8);
            r.push((cword / 256 % 256) as u8);
            proof {
                let t1 = self@.colors.take(i as int);
                let t2 = self@.colors.take(i + 1);
                assert(t2.drop_last() =~= t1);
                assert(t2.last() == self@.colors[i as int]);
                assert(color_bytes(t2) == color_bytes(t1) + le16_bytes(cword as int));
                assert(r@ =~= header + color_bytes(t2));
            }
            i = i + 1;
        }
        proof {
            assert(self@.colors.take(m as int) =~= self@.colors);
        }
        let ghost mid = header + color_bytes(self@.colors);
        let g = self.glyphs.len();
        let mut j: usize = 0;
        while j < g
            invariant
                self@.wf(),
                g == self@.glyphs.len(),
                j <= g,
                mid == le32_bytes(self@.width as int) + le32_bytes(self@.height as int)
                    + color_bytes(self@.colors),
                r@ == mid + glyph_bytes(self@.glyphs.take(j as int)),
            decreases g - j,
        {
            let u = self.glyphs[j] as u32;
            r.push((u % 256) as u8);
            r.push((u / 256 % 256) as u8);
            proof {
                lemma_char_bounds(self@.glyphs[j as int]);
                let t1 = self@.glyphs.take(j as int);
                let t2 = self@.glyphs.take(j + 1);
                assert(t2.drop_last() =~= t1);
                assert(t2.last() == self@.glyphs[j as int]);
                assert(glyph_bytes(t2) == glyph_bytes(t1) + le16_bytes(
                    self@.glyphs[j as int] as int,
                ));
                assert(r@ =~= mid + glyph_bytes(t2));
            }
            j = j + 1;
        }
        proof {
            assert(self@.glyphs.take(g as int) =~= self@.glyphs);
            assert(r@ == sprite_bytes(self@));
        }
        r
    }

    /// The sprite's width in cells.
    pub fn width(&self) -> (w: usize)
        ensures
            w == self@.width,
    {
        self.width
    }

    /// The sprite's height in cells.
    pub fn height(&self) -> (h: usize)
        ensures
            h == self@.height,
    {
        self.height
    }

    /// Overwrites the glyph at (x, y); out-of-range writes are no-ops.
    pub fn set_glyph(&mut self, x: usize, y: usize, c: char)
        requires
            old(self)@.wf(),
        ensures
            final(self)@.wf(),
            final(self)@.width == old(self)@.width,
            final(self)@.height == old(self)@.height,
            final(self)@.colors == old(self)@.colors,
            x < old(self)@.width && y < old(self)@.height ==> final(self)@.glyphs == old(
                self,
            )@.glyphs.update(y * old(self)@.width + x, c),
            !(x < old(self)@.width && y < old(self)@.height) ==> final(self)@.glyphs == old(
                self,
            )@.glyphs,
    {
        if !(x >= self.width || y >= self.height) {
            proof {
                lemma_cell_index_bounds(self.width as int, self.height as int, x as int, y as int);
            }
            let n = self.glyphs.len();
            assert(y * self.width + x < n);
            self.glyphs.set(y * self.width + x, c);
        }
    }

    /// Overwrites the colour at (x, y); out-of-range writes are no-ops.
    pub fn set_color(&mut self, x: usize, y: usize, col: u16)
        requires
            old(self)@.wf(),
        ensures
            final(self)@.wf(),
            final(self)@.width == old(self)@.width,
            final(self)@.height == old(self)@.height,
            final(self)@.glyphs == old(self)@.glyphs,
            x < old(self)@.width && y < old(self)@.height ==> final(self)@.colors == old(
                self,
            )@.colors.update(y * old(self)@.width + x, col),
            !(x < old(self)@.width && y < old(self)@.height) ==> final(self)@.colors == old(
                self,
            )@.colors,
    {
        if !(x >= self.width || y >= self.height) {
            proof {
                lemma_cell_index_bounds(self.width as int, self.height as int, x as int, y as int);
            }
            let n = self.colors.len();
            assert(y * self.width + x < n);
            self.colors.set(y * self.width + x, col);
        }
    }

    /// The glyph at (x, y); out-of-range reads yield the blank glyph.
    pub fn get_glyph(&self, x: usize, y: usize) -> (c: char)
        requires
            self@.wf(),
        ensures
            c == (if x < self@.width && y < self@.height {
                self@.glyphs[y * self@.width + x]
            } else {
                ' '
            }),
    {
        if !(x >= self.width || y >= self.height) {
            proof {
                lemma_cell_index_bounds(self.width as int, self.height as int, x as int, y as int);
            }
            let n = self.glyphs.len();
            assert(y * self.width + x < n);
            self.glyphs[y * self.width + x]
        } else {
            ' '
        }
    }

    /// The colour at (x, y); out-of-range reads yield black.
    pub fn get_color(&self, x: usize, y: usize) -> (col: u16)
        requires
            self@.wf(),
        ensures
            col == (if x < self@.width && y < self@.height {
                self@.colors[y * self@.width + x]
            } else {
                0
            }),
    {
        if !(x >= self.width || y >= self.height) {
            proof {
                lemma_cell_index_bounds(self.width as int, self.height as int, x as int, y as int);
            }
            let n = self.colors.len();
            assert(y * self.width + x < n);
            self.colors[y * self.width + x]
        } else {
            0
        }
    }
}

} // verus!
