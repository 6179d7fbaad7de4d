//! Desktop capture: turning a mapped staging texture into an RGBA frame, with
//! the mouse pointer drawn in.
use vstd::prelude::*;
use vstd::arithmetic::div_mod::{lemma_fundamental_div_mod, lemma_fundamental_div_mod_converse, lemma_mod_pos_bound};
use crate::frame::{bgra_as_rgba, bgra_to_rgba};
use crate::release::{contains_chars, contains_text, lowercase, to_lowercase};
use crate::version::chars_of;

verus! {

// ---------------------------------------------------------------------------
// The arrow pointer.
// ---------------------------------------------------------------------------

/// The black outline of the arrow pointer, one 12-bit row mask per row (bit
/// `c` is column `c`):
///
/// ```text
/// X             X.....X         X........X      XX   X..X
/// XX            X......X        X.....XXXXX     X     X..X
/// X.X           X.......X       X..X..X                X..X
/// X..X                          X.X X..X                XX
/// X...X
/// X....X
/// ```
pub open spec fn outline_mask(row: int) -> u16 {
    if row == 0 { 0x1 }
    else if row == 1 { 0x3 }
    else if row == 2 { 0x5 }
    else if row == 3 { 0x9 }
    else if row == 4 { 0x11 }
    else if row == 5 { 0x21 }
    else if row == 6 { 0x41 }
    else if row == 7 { 0x81 }
    else if row == 8 { 0x101 }
    else if row == 9 { 0x201 }
    else if row == 10 { 0x7c1 }
    else if row == 11 { 0x49 }
    else if row == 12 { 0x95 }
    else if row == 13 { 0x123 }
    else if row == 14 { 0x241 }
    else if row == 15 { 0x480 }
    else if row == 16 { 0x300 }
    else { 0 }
}

/// The white body of the arrow pointer, one row mask per row.
pub open spec fn fill_mask(row: int) -> u16 {
    if row == 2 { 0x2 }
    else if row == 3 { 0x6 }
    else if row == 4 { 0xe }
    else if row == 5 { 0x1e }
    else if row == 6 { 0x3e }
    else if row == 7 { 0x7e }
    else if row == 8 { 0xfe }
    else if row == 9 { 0x1fe }
    else if row == 10 { 0x3e }
    else if row == 11 { 0x36 }
    else if row == 12 { 0x62 }
    else if row == 13 { 0xc0 }
    else if row == 14 { 0x180 }
    else if row == 15 { 0x300 }
    else { 0 }
}

/// The pointer is 12 columns by 19 rows.
pub const ARROW_COLUMNS: usize = 12;
pub const ARROW_ROWS: usize = 19;

/// What the pointer paints at (`row`, `col`) of its bitmap: 1 for black
/// outline, 2 for white body, 0 for nothing.
pub open spec fn arrow_cell(row: int, col: int) -> u8 {
    if 0 <= row < 19 && 0 <= col < 12 {
        if (outline_mask(row) >> (col as u16)) & 1u16 == 1u16 {
            1
        } else if (fill_mask(row) >> (col as u16)) & 1u16 == 1u16 {
            2
        } else {
            0
        }
    } else {
        0
    }
}

/// What the pointer drawn at (`cx`, `cy`) paints on the pixel that byte `j`
/// of a `w` by `h` RGBA frame of `len` bytes belongs to (0: nothing). Only
/// whole pixels inside the frame are painted.
pub open spec fn cursor_paint(len: int, w: int, h: int, cx: int, cy: int, j: int) -> u8 {
    if w <= 0 || j < 0 {
        0
    } else {
        let p = j / 4;
        if p / w < h && p * 4 + 3 < len {
            arrow_cell(p / w - cy, p % w - cx)
        } else {
            0
        }
    }
}

/// The colour byte that an arrow cell paints at byte `j`: black or white,
/// fully opaque.
pub open spec fn paint_byte(code: u8, j: int) -> u8 {
    if j % 4 == 3 || code == 2 { 255 } else { 0 }
}

/// Byte `j` of the frame after the pointer is drawn at (`cx`, `cy`).
pub open spec fn cursor_byte(frame: Seq<u8>, w: int, h: int, cx: int, cy: int, j: int) -> u8 {
    let code = cursor_paint(frame.len() as int, w, h, cx, cy, j);
    if code != 0 { paint_byte(code, j) } else { frame[j] }
}

/// The frame with the pointer drawn at (`cx`, `cy`).
pub open spec fn with_cursor(frame: Seq<u8>, w: int, h: int, cx: int, cy: int) -> Seq<u8> {
    Seq::new(frame.len(), |j: int| cursor_byte(frame, w, h, cx, cy, j))
}

/// The position of the pointer cell that byte `j` falls under, counted row
/// by row.
spec fn cell_index(w: int, cx: int, cy: int, j: int) -> int {
    (j / 4 / w - cy) * 12 + (j / 4 % w - cx)
}

/// Byte `j` once the cells before `limit` (row by row) are drawn.
spec fn cursor_byte_upto(frame: Seq<u8>, w: int, h: int, cx: int, cy: int, j: int, limit: int) -> u8 {
    let code = cursor_paint(frame.len() as int, w, h, cx, cy, j);
    if code != 0 && cell_index(w, cx, cy, j) < limit { paint_byte(code, j) } else { frame[j] }
}

fn arrow_masks(row: usize) -> (m: (u16, u16))
    requires
        row < 19,
    ensures
        m.0 == outline_mask(row as int),
        m.1 == fill_mask(row as int),
{
    match row {
        0 => (0x1, 0x0),
        1 => (0x3, 0x0),
        2 => (0x5, 0x2),
        3 => (0x9, 0x6),
        4 => (0x11, 0xe),
        5 => (0x21, 0x1e),
        6 => (0x41, 0x3e),
        7 => (0x81, 0x7e),
        8 => (0x101, 0xfe),
        9 => (0x201, 0x1fe),
        10 => (0x7c1, 0x3e),
        11 => (0x49, 0x36),
        12 => (0x95, 0x62),
        13 => (0x123, 0xc0),
        14 => (0x241, 0x180),
        15 => (0x480, 0x300),
        16 => (0x300, 0x0),
        _ => (0x0, 0x0),
    }
}

/// A byte lies in the pixel `y * w + x` exactly when it is one of its four.
proof fn lemma_pixel_of_byte(j: int, w: int, x: int, y: int)
    requires
        w > 0,
        0 <= x < w,
        0 <= y,
        4 * (y * w + x) <= j < 4 * (y * w + x) + 4,
    ensures
        j / 4 == y * w + x,
        (j / 4) % w == x,
        (j / 4) / w == y,
{
    lemma_fundamental_div_mod_converse(j, 4, y * w + x, j - 4 * (y * w + x));
    lemma_fundamental_div_mod_converse(y * w + x, w, y, x);
}

/// Every byte lies in the pixel given by its row and column.
proof fn lemma_byte_position(j: int, w: int)
    requires
        j >= 0,
        w > 0,
    ensures
        j / 4 == (j / 4 / w) * w + j / 4 % w,
        0 <= j / 4 % w < w,
        0 <= j / 4 / w,
        4 * (j / 4) <= j < 4 * (j / 4) + 4,
{
    lemma_fundamental_div_mod(j, 4);
    lemma_fundamental_div_mod(j / 4, w);
    lemma_mod_pos_bound(j / 4, w);
    assert((j / 4 / w) * w == w * (j / 4 / w)) by (nonlinear_arith);
    assert(0 <= j / 4 / w) by (nonlinear_arith)
        requires
            j / 4 >= 0,
            w > 0,
    ;
}

/// Draws the arrow pointer with its tip at (`cx`, `cy`) onto an RGBA frame
/// of `width` by `height` pixels. Cells off the frame are clipped; painted
/// pixels become opaque.
pub fn composite_cursor(out_rgba: &mut Vec<u8>, width: u32, height: u32, cx: i32, cy: i32)
    ensures
        final(out_rgba)@ == with_cursor(old(out_rgba)@, width as int, height as int, cx as int, cy as int),
{
    let ghost orig = out_rgba@;
    let ghost w = width as int;
    let ghost h = height as int;
    let len = out_rgba.len();
    let mut row: usize = 0;
    while row < ARROW_ROWS
        invariant
            row <= 19,
            len == orig.len(),
            out_rgba@.len() == len,
            w == width as int,
            h == height as int,
            forall|j: int| 0 <= j < len ==> #[trigger] out_rgba@[j] == cursor_byte_upto(orig, w, h, cx as int, cy as int, j, row * 12),
        decreases 19 - row,
    {
        let y: i64 = cy as i64 + row as i64;
        if y >= 0 && y < height as i64 {
            let (outline, fill) = arrow_masks(row);
            let mut col: usize = 0;
            while col < ARROW_COLUMNS
                invariant
                    row < 19,
                    col <= 12,
                    0 <= y < h,
                    y == cy + row,
                    outline == outline_mask(row as int),
                    fill == fill_mask(row as int),
                    len == orig.len(),
                    out_rgba@.len() == len,
                    w == width as int,
                    h == height as int,
                    forall|j: int| 0 <= j < len ==> #[trigger] out_rgba@[j] == cursor_byte_upto(orig, w, h, cx as int, cy as int, j, row * 12 + col),
                decreases 12 - col,
            {
                let x: i64 = cx as i64 + col as i64;
                let ghost before = out_rgba@;
                let ghost limit = row * 12 + col;
                if x >= 0 && x < width as i64 {
                    let code: u8 = if (outline >> (col as u16)) & 1u16 == 1u16 {
                        1
                    } else if (fill >> (col as u16)) & 1u16 == 1u16 {
                        2
                    } else {
                        0
                    };
                    assert(code == arrow_cell(row as int, col as int));
                    proof {
                        assert((y as int) * w + x >= 0) by (nonlinear_arith)
                            requires
                                y >= 0,
                                w >= 0,
                                x >= 0,
                        ;
                        assert((y as int) * w <= 0xffff_ffffint * 0xffff_ffffint) by (nonlinear_arith)
                            requires
                                0 <= y < 0x1_0000_0000int,
                                0 <= w < 0x1_0000_0000int,
                        ;
                    }
                    let pixel: u128 = (y as u128) * (width as u128) + (x as u128);
                    let idx: u128 = pixel * 4;
                    if code != 0 && idx + 3 < len as u128 {
                        let base = idx as usize;
                        let a: u8 = if code == 1 { 0 } else { 255 };
                        out_rgba.set(base, a);
                        out_rgba.set(base + 1, a);
                        out_rgba.set(base + 2, a);
                        out_rgba.set(base + 3, 255u8);
                        proof {
                            assert forall|j: int| 0 <= j < len implies #[trigger] out_rgba@[j] == cursor_byte_upto(
                                orig, w, h, cx as int, cy as int, j, limit + 1) by {
                                lemma_byte_position(j, w);
                                if base <= j < base + 4 {
                                    lemma_pixel_of_byte(j, w, x as int, y as int);
                                    assert(j % 4 == j - base);
                                } else {
                                    if cursor_paint(len as int, w, h, cx as int, cy as int, j) != 0
                                        && cell_index(w, cx as int, cy as int, j) == limit {
                                        assert(j / 4 % w - cx == col);
                                        assert(j / 4 / w - cy == row);
                                        assert(j / 4 == pixel);
                                        assert(false);
                                    }
                                }
                            }
                        }
                    } else {
                        proof {
                            assert forall|j: int| 0 <= j < len implies #[trigger] out_rgba@[j] == cursor_byte_upto(
                                orig, w, h, cx as int, cy as int, j, limit + 1) by {
                                lemma_byte_position(j, w);
                                if cursor_paint(len as int, w, h, cx as int, cy as int, j) != 0
                                    && cell_index(w, cx as int, cy as int, j) == limit {
                                    assert(j / 4 % w - cx == col);
                                    assert(j / 4 / w - cy == row);
                                    assert(j / 4 == pixel);
                                    assert(false);
                                }
                            }
                        }
                    }
                } else {
                    proof {
                        assert forall|j: int| 0 <= j < len implies #[trigger] out_rgba@[j] == cursor_byte_upto(
                            orig, w, h, cx as int, cy as int, j, limit + 1) by {
                            if w > 0 {
                                lemma_byte_position(j, w);
                            }
                            if cursor_paint(len as int, w, h, cx as int, cy as int, j) != 0
                                && cell_index(w, cx as int, cy as int, j) == limit {
                                assert(j / 4 % w - cx == col);
                                assert(false);
                            }
                        }
                    }
                }
                col += 1;
            }
        } else {
            proof {
                assert forall|j: int| 0 <= j < len implies #[trigger] out_rgba@[j] == cursor_byte_upto(
                    orig, w, h, cx as int, cy as int, j, (row + 1) * 12) by {
                    if w > 0 {
                        lemma_byte_position(j, w);
                    }
                    let ci = cell_index(w, cx as int, cy as int, j);
                    if cursor_paint(len as int, w, h, cx as int, cy as int, j) != 0 && row * 12 <= ci < (row + 1) * 12 {
                        assert(j / 4 / w - cy == row);
                        assert(false);
                    }
                }
            }
        }
        row += 1;
    }
    proof {
        assert forall|j: int| 0 <= j < len implies #[trigger] out_rgba@[j] == cursor_byte(
            orig, w, h, cx as int, cy as int, j) by {
            if cursor_paint(len as int, w, h, cx as int, cy as int, j) != 0 {
                lemma_byte_position(j, w);
            }
        }
        assert(out_rgba@ =~= with_cursor(orig, w, h, cx as int, cy as int));
    }
}

// ---------------------------------------------------------------------------
// From the mapped staging texture to an RGBA frame.
// ---------------------------------------------------------------------------

/// The rows of a mapped texture laid end to end: `height` rows of
/// `row_bytes` bytes each, row `y` starting at `y * pitch` in `mapped`.
pub open spec fn packed_rows(mapped: Seq<u8>, pitch: int, row_bytes: int, height: int) -> Seq<u8> {
    Seq::new((row_bytes * height) as nat, |i: int| mapped[(i / row_bytes) * pitch + i % row_bytes])
}

/// Copies the `height` rows of a mapped BGRA texture, `row_pitch` bytes
/// apart, into `out` without the row padding.
pub fn pack_rows(mapped: &[u8], row_pitch: usize, width: u32, height: u32, out: &mut Vec<u8>)
    requires
        (width as int) * (height as int) * 4 <= u32::MAX,
        height > 0 ==> (height - 1) * row_pitch + width * 4 <= mapped@.len(),
    ensures
        final(out)@ == packed_rows(mapped@, row_pitch as int, width * 4, height as int),
{
    out.clear();
    let mlen = mapped.len();
    if width == 0 || height == 0 {
        proof {
            assert((width * 4) * height == 0) by (nonlinear_arith)
                requires
                    width == 0 || height == 0,
            ;
            assert(out@ =~= packed_rows(mapped@, row_pitch as int, width * 4, height as int));
        }
        return;
    }
    proof {
        assert((width as int) * 4 <= (width as int) * (height as int) * 4) by (nonlinear_arith)
            requires
                height >= 1,
                width >= 0,
        ;
    }
    let row_bytes: usize = (width as usize) * 4;
    let ghost rb = row_bytes as int;
    let ghost pitch = row_pitch as int;
    let mut y: usize = 0;
    while y < height as usize
        invariant
            rb == width * 4,
            rb == row_bytes,
            rb > 0,
            pitch == row_pitch,
            mlen == mapped@.len(),
            y <= height,
            height > 0,
            (height - 1) * pitch + rb <= mlen,
            out@.len() == y * rb,
            forall|i: int| 0 <= i < out@.len() ==> #[trigger] out@[i] == mapped@[(i / rb) * pitch + i % rb],
        decreases height - y,
    {
        proof {
            assert(y * pitch <= (height - 1) * pitch) by (nonlinear_arith)
                requires
                    y < height,
                    pitch >= 0,
            ;
        }
        let start: usize = y * row_pitch;
        let mut b: usize = 0;
        while b < row_bytes
            invariant
                rb == row_bytes,
                rb > 0,
                pitch == row_pitch,
                mlen == mapped@.len(),
                y < height,
                start == y * pitch,
                start + rb <= mlen,
                b <= rb,
                out@.len() == y * rb + b,
                forall|i: int| 0 <= i < out@.len() ==> #[trigger] out@[i] == mapped@[(i / rb) * pitch + i % rb],
            decreases rb - b,
        {
            out.push(mapped[start + b]);
            proof {
                lemma_fundamental_div_mod_converse(y * rb + b, rb, y as int, b as int);
                assert(y * rb == rb * y) by (nonlinear_arith);
            }
            b += 1;
        }
        proof {
            assert((y + 1) * rb == y * rb + rb) by (nonlinear_arith);
        }
        y += 1;
    }
    proof {
        assert(height * rb == rb * height) by (nonlinear_arith);
        assert(out@ =~= packed_rows(mapped@, row_pitch as int, width * 4, height as int));
    }
}

/// Where the mouse pointer was last reported on the captured display.
pub struct CursorState {
    pub visible: bool,
    pub position: Option<(i32, i32)>,
}

impl CursorState {
    /// Nothing reported yet: hidden, position unknown.
    pub fn new() -> (c: Self)
        ensures
            !c.visible,
            c.position is None,
    {
        CursorState { visible: false, position: None }
    }

    /// Takes in the pointer report of a captured frame. A visible pointer is
    /// remembered with its position; a report of a hidden pointer hides it
    /// only when the mouse has moved at all (`last_mouse_update_time > 0`),
    /// and keeps the last position.
    pub fn observe(&mut self, pointer_visible: bool, x: i32, y: i32, last_mouse_update_time: i64)
        ensures
            pointer_visible ==> final(self).visible && final(self).position == Some((x, y)),
            !pointer_visible && last_mouse_update_time > 0 ==> !final(self).visible
                && final(self).position == old(self).position,
            !pointer_visible && last_mouse_update_time <= 0 ==> final(self).visible == old(self).visible
                && final(self).position == old(self).position,
    {
        if pointer_visible {
            self.visible = true;
            self.position = Some((x, y));
        } else if last_mouse_update_time > 0 {
            self.visible = false;
        }
    }
}

/// Where the pointer is to be drawn, if at all: only when drawing is on, the
/// pointer is visible and its position is known.
pub open spec fn pointer_tip(cursor: CursorState, draw_cursor: bool) -> Option<(i32, i32)> {
    if draw_cursor && cursor.visible { cursor.position } else { None }
}

/// The captured frame as RGBA: rows packed, BGRA reordered to opaque RGBA,
/// and the pointer drawn in where [`pointer_tip`] says.
pub open spec fn captured_frame(
    mapped: Seq<u8>,
    pitch: int,
    width: u32,
    height: u32,
    cursor: CursorState,
    draw_cursor: bool,
) -> Seq<u8> {
    let rgba = bgra_as_rgba(packed_rows(mapped, pitch, width * 4, height as int));
    match pointer_tip(cursor, draw_cursor) {
        Some((cx, cy)) => with_cursor(rgba, width as int, height as int, cx as int, cy as int),
        None => rgba,
    }
}

/// Turns a mapped BGRA staging texture into the RGBA frame handed to the
/// encoder.
pub fn prepare_frame(
    mapped: &[u8],
    row_pitch: usize,
    width: u32,
    height: u32,
    cursor: &CursorState,
    draw_cursor: bool,
    out_rgba: &mut Vec<u8>,
)
    requires
        (width as int) * (height as int) * 4 <= u32::MAX,
        height > 0 ==> (height - 1) * row_pitch + width * 4 <= mapped@.len(),
    ensures
        final(out_rgba)@ == captured_frame(mapped@, row_pitch as int, width, height, *cursor, draw_cursor),
{
    pack_rows(mapped, row_pitch, width, height, out_rgba);
    bgra_to_rgba(out_rgba);
    if draw_cursor && cursor.visible {
        match cursor.position {
            Some((cx, cy)) => composite_cursor(out_rgba, width, height, cx, cy),
            None => {},
        }
    }
}

// ---------------------------------------------------------------------------
// Displays and adapters.
// ---------------------------------------------------------------------------

/// The display numbered `index` when displays are counted adapter by
/// adapter, each adapter's outputs in order: the adapter (counted from
/// `adapter`) and the output within it.
pub open spec fn display_position(outputs_per_adapter: Seq<u32>, adapter: int, index: int) -> Option<(int, int)>
    decreases outputs_per_adapter.len() - adapter,
{
    if adapter < 0 || adapter >= outputs_per_adapter.len() {
        None
    } else if index < outputs_per_adapter[adapter] {
        Some((adapter, index))
    } else {
        display_position(outputs_per_adapter, adapter + 1, index - outputs_per_adapter[adapter])
    }
}

/// Finds the adapter and output of the display numbered `display_index`,
/// given how many outputs each adapter has.
pub fn locate_display(outputs_per_adapter: &[u32], display_index: u32) -> (r: Option<(usize, u32)>)
    ensures
        match r {
            Some((a, o)) => display_position(outputs_per_adapter@, 0, display_index as int) == Some(
                (a as int, o as int),
            ),
            None => display_position(outputs_per_adapter@, 0, display_index as int) is None,
        },
{
    let mut remaining: u32 = display_index;
    let mut a: usize = 0;
    while a < outputs_per_adapter.len()
        invariant
            a <= outputs_per_adapter@.len(),
            display_position(outputs_per_adapter@, a as int, remaining as int) == display_position(
                outputs_per_adapter@,
                0,
                display_index as int,
            ),
        decreases outputs_per_adapter@.len() - a,
    {
        if remaining < outputs_per_adapter[a] {
            return Some((a, remaining));
        }
        remaining = remaining - outputs_per_adapter[a];
        a += 1;
    }
    None
}

/// The extent of a desktop rectangle along one axis.
pub fn desktop_extent(low: i32, high: i32) -> (e: u32)
    requires
        i32::MIN < high - low <= i32::MAX,
    ensures
        e == if high >= low { high - low } else { low - high },
{
    let d: i32 = high - low;
    if d >= 0 {
        d as u32
    } else {
        (-d) as u32
    }
}

pub open spec fn virtual_words() -> Seq<Seq<char>> {
    seq![
        seq!['v', 'i', 'r', 't', 'u', 'a', 'l'],
        seq!['p', 'a', 'r', 's', 'e', 'c'],
        seq!['i', 'd', 'd'],
        seq!['b', 'a', 's', 'i', 'c'],
    ]
}

/// An adapter that drives no physical screen: its name mentions, in any
/// case, a virtual, Parsec, indirect-display or basic display driver, or it
/// carries the software adapter flag (bit 1).
pub open spec fn is_virtual_adapter_spec(name: Seq<char>, flags: u32) -> bool {
    (exists|k: int| 0 <= k < 4 && contains_text(lowercase(name), #[trigger] virtual_words()[k]))
        || flags & 2 != 0
}

/// Tells virtual and software display adapters from physical ones.
pub fn is_virtual_adapter(name: &str, flags: u32) -> (v: bool)
    ensures
        v == is_virtual_adapter_spec(name@, flags),
{
    let lower = to_lowercase(name);
    let lower_chars = chars_of(lower.as_str());
    let words = [chars_of("virtual"), chars_of("parsec"), chars_of("idd"), chars_of("basic")];
    proof {
        reveal_strlit("virtual");
        reveal_strlit("parsec");
        reveal_strlit("idd");
        reveal_strlit("basic");
        assert(words@[0]@ =~= virtual_words()[0]);
        assert(words@[1]@ =~= virtual_words()[1]);
        assert(words@[2]@ =~= virtual_words()[2]);
        assert(words@[3]@ =~= virtual_words()[3]);
    }
    let mut k: usize = 0;
    while k < 4
        invariant
            k <= 4,
            lower_chars@ == lowercase(name@),
            forall|i: int| 0 <= i < 4 ==> (#[trigger] words@[i])@ == virtual_words()[i],
            forall|i: int| 0 <= i < k ==> !contains_text(lowercase(name@), #[trigger] virtual_words()[i]),
        decreases 4 - k,
    {
        if contains_chars(&lower_chars, &words[k]) {
            return true;
        }
        k += 1;
    }
    flags & 2 != 0
}

/// An adapter is virtual exactly when its lowercase name contains
/// "virtual", "parsec", "idd" or "basic", or it carries the software flag
/// (bit 1).
pub proof fn law_virtual_adapter_names(name: Seq<char>, flags: u32)
    ensures
        is_virtual_adapter_spec(name, flags) <==> (contains_text(lowercase(name), "virtual"@) || contains_text(
            lowercase(name),
            "parsec"@,
        ) || contains_text(lowercase(name), "idd"@) || contains_text(lowercase(name), "basic"@) || flags & 2 != 0),
{
    reveal_strlit("virtual");
    reveal_strlit("parsec");
    reveal_strlit("idd");
    reveal_strlit("basic");
    assert(virtual_words()[0] =~= "virtual"@);
    assert(virtual_words()[1] =~= "parsec"@);
    assert(virtual_words()[2] =~= "idd"@);
    assert(virtual_words()[3] =~= "basic"@);
    let l = lowercase(name);
    if contains_text(l, "virtual"@) {
        assert(contains_text(l, virtual_words()[0]));
    }
    if contains_text(l, "parsec"@) {
        assert(contains_text(l, virtual_words()[1]));
    }
    if contains_text(l, "idd"@) {
        assert(contains_text(l, virtual_words()[2]));
    }
    if contains_text(l, "basic"@) {
        assert(contains_text(l, virtual_words()[3]));
    }
}

} // verus!