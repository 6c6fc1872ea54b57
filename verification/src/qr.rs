//! QR payment code generation: ISO/IEC 18004 at error correction level M,
//! with a quiet zone, rendered for terminals and as SVG or a pixel raster.

use qrcode::{Color, EcLevel, QrCode};
use vstd::prelude::*;

use crate::strings::{decimal, decimal_chars, from_chars, push_all, push_str};

verus! {

/// Modules of white margin around the symbol, as required by ISO/IEC 18004.
pub const QUIET_ZONE: usize = 4;

#[verifier::external_type_specification]
#[verifier::external_body]
pub struct ExQrError(qrcode::types::QrError);

/// The symbol the `qrcode` crate builds for some bytes at error correction
/// level M: its width in modules and its modules row by row, `true` for dark.
/// `None` where the data does not fit into any QR code version.
pub uninterp spec fn qr_symbol_m(data: Seq<u8>) -> Option<(nat, Seq<bool>)>;

/// `QrCode::with_error_correction_level(data, EcLevel::M)`, read out as its
/// width and its colours. As the crate's source shows, the code is always a
/// normal QR code of version 1 to 40, so its width is `4 * version + 17`,
/// and it has one colour per module. Which modules are dark is the crate's
/// encoding; the contract names it.
#[verifier::external_body]
fn qr_modules_level_m(data: &[u8]) -> (r: Result<(usize, Vec<bool>), qrcode::types::QrError>)
    ensures
        match r {
            Ok((w, m)) => {
                &&& qr_symbol_m(data@) == Some((w as nat, m@))
                &&& 21 <= w <= 177
                &&& (w - 17) % 4 == 0
                &&& m@.len() == w * w
            },
            Err(_) => qr_symbol_m(data@) is None,
        },
{
    match QrCode::with_error_correction_level(data, EcLevel::M) {
        Ok(code) => Ok((code.width(), code.to_colors().iter().map(|c| *c == Color::Dark).collect())),
        Err(e) => Err(e),
    }
}

/// The payment link does not fit into a QR code.
#[derive(Debug, Clone, Copy, PartialEq, Eq)]
pub struct EncodeError;

impl EncodeError {
    pub fn message(&self) -> (r: String)
        ensures
            r@ == "the payment link does not fit into a QR code"@,
    {
        crate::strings::owned("the payment link does not fit into a QR code")
    }
}

/// A rendered QR symbol including its quiet zone.
#[derive(Debug, Clone, PartialEq, Eq)]
pub struct Matrix {
    /// Side length in modules, quiet zone included.
    pub size: usize,
    dark: Vec<bool>,
}

impl Matrix {
    /// One colour per module.
    pub closed spec fn wf(&self) -> bool {
        &&& self.dark@.len() == self.size * self.size
        &&& self.size <= 185
    }

    /// Side length in modules.
    pub closed spec fn side(&self) -> int {
        self.size as int
    }

    /// Whether the module at column `x`, row `y` is dark.
    pub closed spec fn module(&self, x: int, y: int) -> bool {
        self.dark@[y * self.size + x]
    }

    pub closed spec fn cells(&self) -> Seq<bool> {
        self.dark@
    }

    pub fn is_dark(&self, x: usize, y: usize) -> (r: bool)
        requires
            self.wf(),
            x < self.side(),
            y < self.side(),
        ensures
            r == self.module(x as int, y as int),
    {
        let n = self.dark.len();
        proof {
            lemma_flat(x as int, y as int, self.size as int);
        }
        assert(y * self.size + x < n);
        self.dark[y * self.size + x]
    }
}

/// `y * s + x` is the flat index of `(x, y)` in an `s` by `s` grid.
proof fn lemma_flat(x: int, y: int, s: int)
    requires
        0 <= x < s,
        0 <= y < s,
    ensures
        y * s + x < s * s,
        (y * s + x) / s == y,
        (y * s + x) % s == x,
        0 <= y * s,
{
    assert(y * s + x < s * s) by (nonlinear_arith)
        requires
            0 <= x < s,
            0 <= y < s,
    ;
    assert(0 <= y * s) by (nonlinear_arith)
        requires
            0 <= y,
            0 <= s,
    ;
    vstd::arithmetic::div_mod::lemma_fundamental_div_mod_converse(y * s + x, s, y, x);
}

/// The colour of a module of the symbol with its quiet zone, given the width
/// and the modules of the bare symbol.
pub open spec fn quiet_zoned(w: int, inner: Seq<bool>, x: int, y: int) -> bool {
    &&& QUIET_ZONE <= x < QUIET_ZONE + w
    &&& QUIET_ZONE <= y < QUIET_ZONE + w
    &&& inner[(y - QUIET_ZONE) * w + (x - QUIET_ZONE)]
}

/// The matrix for `data`: the symbol the `qrcode` crate builds at level M,
/// surrounded by the quiet zone.
pub open spec fn encodes(m: Matrix, data: Seq<u8>) -> bool {
    match qr_symbol_m(data) {
        Some((w, inner)) => {
            &&& m.wf()
            &&& m.side() == w + 2 * QUIET_ZONE
            &&& forall|x: int, y: int|
                0 <= x < m.side() && 0 <= y < m.side() ==> #[trigger] m.module(x, y) == quiet_zoned(
                    w as int,
                    inner,
                    x,
                    y,
                )
        },
        None => false,
    }
}

/// Encode `data` at error correction level M, as the standard prescribes.
pub fn encode(data: &str) -> (r: Result<Matrix, EncodeError>)
    ensures
        match r {
            Ok(m) => encodes(m, vstd::utf8::encode_utf8(data@)),
            Err(_) => qr_symbol_m(vstd::utf8::encode_utf8(data@)) is None,
        },
{
    let bytes = data.as_bytes();
    let (w, inner) = match qr_modules_level_m(bytes) {
        Ok(pair) => pair,
        Err(_) => return Err(EncodeError),
    };
    let size = w + 2 * QUIET_ZONE;
    let mut dark: Vec<bool> = Vec::new();
    let mut y: usize = 0;
    while y < size
        invariant
            21 <= w <= 177,
            size == w + 8,
            inner@.len() == w * w,
            y <= size,
            dark@.len() == y * size,
            forall|k: int|
                0 <= k < dark@.len() ==> #[trigger] dark@[k] == quiet_zoned(
                    w as int,
                    inner@,
                    k % size as int,
                    k / size as int,
                ),
        decreases size - y,
    {
        let mut x: usize = 0;
        while x < size
            invariant
                21 <= w <= 177,
                size == w + 8,
                inner@.len() == w * w,
                y < size,
                x <= size,
                dark@.len() == y * size + x,
                forall|k: int|
                    0 <= k < dark@.len() ==> #[trigger] dark@[k] == quiet_zoned(
                        w as int,
                        inner@,
                        k % size as int,
                        k / size as int,
                    ),
            decreases size - x,
        {
            let cell = if QUIET_ZONE <= x && x < QUIET_ZONE + w && QUIET_ZONE <= y && y
                < QUIET_ZONE + w {
                let inner_len = inner.len();
                proof {
                    lemma_flat((x - 4) as int, (y - 4) as int, w as int);
                }
                assert((y - QUIET_ZONE) * w + (x - QUIET_ZONE) < inner_len);
                inner[(y - QUIET_ZONE) * w + (x - QUIET_ZONE)]
            } else {
                false
            };
            proof {
                lemma_flat(x as int, y as int, size as int);
            }
            dark.push(cell);
            x += 1;
        }
        proof {
            assert((y + 1) * size == y * size + size) by (nonlinear_arith);
        }
        y += 1;
    }
    let m = Matrix { size, dark };
    proof {
        assert forall|x: int, y: int| 0 <= x < m.size && 0 <= y < m.size implies #[trigger] m.module(
            x,
            y,
        ) == quiet_zoned(w as int, inner@, x, y) by {
            lemma_flat(x, y, size as int);
        }
    }
    Ok(m)
}

/// How a symbol is drawn in a terminal.
#[derive(Debug, Clone, Copy, PartialEq, Eq, Structural)]
pub enum TerminalStyle {
    /// One character per two module rows, using the upper half block.
    HalfBlocks,
    /// Two characters per module: taller, but correct in terminals that
    /// render half blocks with gaps.
    FullBlocks,
}

/// Terminal cells a symbol of side `size` needs: (columns, rows).
pub open spec fn cells_for(style: TerminalStyle, size: int) -> (int, int) {
    match style {
        TerminalStyle::HalfBlocks => (size, (size + 1) / 2),
        TerminalStyle::FullBlocks => (size * 2, size),
    }
}

impl TerminalStyle {
    /// Terminal cells the symbol needs: (columns, rows).
    /// Full blocks need twice the side in columns, which must fit in `usize`.
    pub fn cell_size(self, matrix: &Matrix) -> (r: (usize, usize))
        requires
            self is FullBlocks ==> matrix.side() <= usize::MAX / 2,
        ensures
            (r.0 as int, r.1 as int) == cells_for(self, matrix.side()),
    {
        match self {
            TerminalStyle::HalfBlocks => (matrix.size, matrix.size / 2 + matrix.size % 2),
            TerminalStyle::FullBlocks => (matrix.size * 2, matrix.size),
        }
    }

    pub fn toggled(self) -> (r: TerminalStyle)
        ensures
            r == match self {
                TerminalStyle::HalfBlocks => TerminalStyle::FullBlocks,
                TerminalStyle::FullBlocks => TerminalStyle::HalfBlocks,
            },
    {
        match self {
            TerminalStyle::HalfBlocks => TerminalStyle::FullBlocks,
            TerminalStyle::FullBlocks => TerminalStyle::HalfBlocks,
        }
    }
}

/// The pair of modules drawn in one half-block cell: row `2j` on top, row
/// `2j + 1` below (light when the symbol has no such row).
pub open spec fn half_pair(m: Matrix, x: int, j: int) -> (bool, bool) {
    (m.module(x, 2 * j), 2 * j + 1 < m.side() && m.module(x, 2 * j + 1))
}

/// The colour of a module pair in one terminal cell: (top, bottom), true = dark.
/// Rows are produced two module rows at a time for half-block drawing.
pub fn half_block_rows(matrix: &Matrix) -> (r: Vec<Vec<(bool, bool)>>)
    requires
        matrix.wf(),
    ensures
        r@.len() == (matrix.side() + 1) / 2,
        forall|j: int| 0 <= j < r@.len() ==> (#[trigger] r@[j])@.len() == matrix.side(),
        forall|j: int, x: int|
            0 <= j < r@.len() && 0 <= x < matrix.side() ==> #[trigger] r@[j]@[x] == half_pair(
                *matrix,
                x,
                j,
            ),
{
    let size = matrix.size;
    let mut rows: Vec<Vec<(bool, bool)>> = Vec::new();
    let mut y: usize = 0;
    while y < size
        invariant
            matrix.wf(),
            size == matrix.side(),
            y <= size + 1,
            y % 2 == 0,
            rows@.len() == y / 2,
            y >= size ==> rows@.len() == (size + 1) / 2,
            forall|j: int| 0 <= j < rows@.len() ==> (#[trigger] rows@[j])@.len() == size,
            forall|j: int, x: int|
                0 <= j < rows@.len() && 0 <= x < size ==> #[trigger] rows@[j]@[x] == half_pair(
                    *matrix,
                    x,
                    j,
                ),
        decreases size + 1 - y,
    {
        let mut row: Vec<(bool, bool)> = Vec::new();
        let mut x: usize = 0;
        while x < size
            invariant
                matrix.wf(),
                size == matrix.side(),
                y < size,
                y % 2 == 0,
                2 * ((y / 2) as int) == y,
                x <= size,
                row@.len() == x,
                forall|i: int| 0 <= i < x ==> #[trigger] row@[i] == half_pair(*matrix, i, (y / 2) as int),
            decreases size - x,
        {
            let top = matrix.is_dark(x, y);
            let bottom = y + 1 < size && matrix.is_dark(x, y + 1);
            row.push((top, bottom));
            x += 1;
        }
        rows.push(row);
        y += 2;
    }
    rows
}

/// An SGR escape sequence with a two-digit parameter: `ESC [ a b m`.
pub open spec fn sgr(a: char, b: char) -> Seq<char> {
    seq!['\u{1b}', '[', a, b, 'm']
}

/// `ESC [ 0 m`: back to the terminal's own colours.
pub open spec fn reset() -> Seq<char> {
    seq!['\u{1b}', '[', '0', 'm']
}

/// Black (`40`) or white (`47`) background.
pub open spec fn background(dark: bool) -> Seq<char> {
    if dark {
        sgr('4', '0')
    } else {
        sgr('4', '7')
    }
}

/// Black (`30`) or white (`37`) foreground.
pub open spec fn foreground(dark: bool) -> Seq<char> {
    if dark {
        sgr('3', '0')
    } else {
        sgr('3', '7')
    }
}

/// One module drawn as two spaces on its colour.
pub open spec fn full_cell(dark: bool) -> Seq<char> {
    background(dark) + seq![' ', ' ']
}

/// The first `n` modules of row `y`, full-block style.
pub open spec fn full_line(m: Matrix, y: int, n: int) -> Seq<char>
    decreases n,
{
    if n <= 0 {
        seq![]
    } else {
        full_line(m, y, n - 1) + full_cell(m.module(n - 1, y))
    }
}

/// The first `n` rows, full-block style, each ending with a reset and a newline.
pub open spec fn full_lines(m: Matrix, n: int) -> Seq<char>
    decreases n,
{
    if n <= 0 {
        seq![]
    } else {
        full_lines(m, n - 1) + full_line(m, n - 1, m.side()) + reset() + seq!['\n']
    }
}

/// One cell of two modules: the upper half block, its foreground painting the
/// top module and its background the bottom one.
pub open spec fn half_cell(p: (bool, bool)) -> Seq<char> {
    foreground(p.0) + background(p.1) + seq!['\u{2580}']
}

pub open spec fn half_line(m: Matrix, j: int, n: int) -> Seq<char>
    decreases n,
{
    if n <= 0 {
        seq![]
    } else {
        half_line(m, j, n - 1) + half_cell(half_pair(m, n - 1, j))
    }
}

pub open spec fn half_lines(m: Matrix, n: int) -> Seq<char>
    decreases n,
{
    if n <= 0 {
        seq![]
    } else {
        half_lines(m, n - 1) + half_line(m, n - 1, m.side()) + reset() + seq!['\n']
    }
}

/// The symbol as ANSI text in the given style.
pub open spec fn ansi_of(m: Matrix, style: TerminalStyle) -> Seq<char> {
    match style {
        TerminalStyle::FullBlocks => full_lines(m, m.side()),
        TerminalStyle::HalfBlocks => half_lines(m, (m.side() + 1) / 2),
    }
}

fn push_sgr(out: &mut Vec<char>, a: char, b: char)
    ensures
        final(out)@ == old(out)@ + sgr(a, b),
{
    out.push('\u{1b}');
    out.push('[');
    out.push(a);
    out.push(b);
    out.push('m');
    assert(out@ =~= old(out)@ + sgr(a, b));
}

fn push_reset_newline(out: &mut Vec<char>)
    ensures
        final(out)@ == old(out)@ + reset() + seq!['\n'],
{
    out.push('\u{1b}');
    out.push('[');
    out.push('0');
    out.push('m');
    out.push('\n');
    assert(out@ =~= old(out)@ + reset() + seq!['\n']);
}

/// The symbol as a self-contained ANSI string, dark modules on a white ground.
///
/// Explicit background colours are used rather than glyph colours so the
/// symbol keeps the right polarity in both light and dark terminals.
pub fn to_ansi(matrix: &Matrix, style: TerminalStyle) -> (r: String)
    requires
        matrix.wf(),
    ensures
        r@ == ansi_of(*matrix, style),
{
    let size = matrix.size;
    let mut out: Vec<char> = Vec::new();
    match style {
        TerminalStyle::FullBlocks => {
            let mut y: usize = 0;
            while y < size
                invariant
                    matrix.wf(),
                    size == matrix.side(),
                    y <= size,
                    out@ == full_lines(*matrix, y as int),
                decreases size - y,
            {
                let ghost start = out@;
                let mut x: usize = 0;
                while x < size
                    invariant
                        matrix.wf(),
                        size == matrix.side(),
                        y < size,
                        x <= size,
                        out@ == start + full_line(*matrix, y as int, x as int),
                    decreases size - x,
                {
                    let ghost before = out@;
                    if matrix.is_dark(x, y) {
                        push_sgr(&mut out, '4', '0');
                    } else {
                        push_sgr(&mut out, '4', '7');
                    }
                    out.push(' ');
                    out.push(' ');
                    assert(out@ =~= before + full_cell(matrix.module(x as int, y as int)));
                    x += 1;
                }
                push_reset_newline(&mut out);
                assert(out@ =~= full_lines(*matrix, y + 1));
                y += 1;
            }
        },
        TerminalStyle::HalfBlocks => {
            let rows = half_block_rows(matrix);
            let n = rows.len();
            let mut j: usize = 0;
            while j < n
                invariant
                    matrix.wf(),
                    size == matrix.side(),
                    n == rows@.len(),
                    n == (size + 1) / 2,
                    forall|k: int| 0 <= k < rows@.len() ==> (#[trigger] rows@[k])@.len() == size,
                    forall|k: int, x: int|
                        0 <= k < rows@.len() && 0 <= x < size ==> #[trigger] rows@[k]@[x]
                            == half_pair(*matrix, x, k),
                    j <= n,
                    out@ == half_lines(*matrix, j as int),
                decreases n - j,
            {
                let ghost start = out@;
                let row = &rows[j];
                let mut x: usize = 0;
                while x < size
                    invariant
                        matrix.wf(),
                        size == matrix.side(),
                        j < n,
                        row@ == rows@[j as int]@,
                        row@.len() == size,
                        forall|i: int| 0 <= i < size ==> #[trigger] row@[i] == half_pair(*matrix, i, j as int),
                        x <= size,
                        out@ == start + half_line(*matrix, j as int, x as int),
                    decreases size - x,
                {
                    let ghost before = out@;
                    let (top, bottom) = row[x];
                    if top {
                        push_sgr(&mut out, '3', '0');
                    } else {
                        push_sgr(&mut out, '3', '7');
                    }
                    if bottom {
                        push_sgr(&mut out, '4', '0');
                    } else {
                        push_sgr(&mut out, '4', '7');
                    }
                    out.push('\u{2580}');
                    assert(out@ =~= before + half_cell(half_pair(*matrix, x as int, j as int)));
                    x += 1;
                }
                push_reset_newline(&mut out);
                assert(out@ =~= half_lines(*matrix, j + 1));
                j += 1;
            }
        },
    }
    from_chars(out.as_slice())
}

/// Number of occurrences of `c` in `s`.
pub open spec fn count_of(s: Seq<char>, c: char) -> nat
    decreases s.len(),
{
    if s.len() == 0 {
        0
    } else {
        count_of(s.drop_last(), c) + if s.last() == c {
            1nat
        } else {
            0nat
        }
    }
}

proof fn lemma_count_concat(a: Seq<char>, b: Seq<char>, c: char)
    ensures
        count_of(a + b, c) == count_of(a, c) + count_of(b, c),
    decreases b.len(),
{
    if b.len() > 0 {
        lemma_count_concat(a, b.drop_last(), c);
        assert((a + b).drop_last() =~= a + b.drop_last());
    } else {
        assert(a + b =~= a);
    }
}

proof fn lemma_count_none(s: Seq<char>, c: char)
    requires
        forall|i: int| 0 <= i < s.len() ==> s[i] != c,
    ensures
        count_of(s, c) == 0,
    decreases s.len(),
{
    if s.len() > 0 {
        lemma_count_none(s.drop_last(), c);
    }
}

proof fn lemma_full_line_no_newline(m: Matrix, y: int, n: int)
    ensures
        count_of(full_line(m, y, n), '\n') == 0,
    decreases n,
{
    if n > 0 {
        lemma_full_line_no_newline(m, y, n - 1);
        let cell = full_cell(m.module(n - 1, y));
        lemma_count_none(cell, '\n');
        lemma_count_concat(full_line(m, y, n - 1), cell, '\n');
    }
}

proof fn lemma_half_line_no_newline(m: Matrix, j: int, n: int)
    ensures
        count_of(half_line(m, j, n), '\n') == 0,
    decreases n,
{
    if n > 0 {
        lemma_half_line_no_newline(m, j, n - 1);
        let cell = half_cell(half_pair(m, n - 1, j));
        lemma_count_none(cell, '\n');
        lemma_count_concat(half_line(m, j, n - 1), cell, '\n');
    }
}

proof fn lemma_full_lines_count(m: Matrix, n: int)
    requires
        n >= 0,
    ensures
        count_of(full_lines(m, n), '\n') == n,
    decreases n,
{
    if n > 0 {
        lemma_full_lines_count(m, n - 1);
        lemma_full_line_no_newline(m, n - 1, m.side());
        let a = full_lines(m, n - 1);
        let b = full_line(m, n - 1, m.side());
        let t = reset() + seq!['\n'];
        assert(count_of(t, '\n') == 1) by {
            assert(t.drop_last() =~= reset());
            lemma_count_none(reset(), '\n');
        }
        lemma_count_concat(a, b, '\n');
        lemma_count_concat(a + b, t, '\n');
        assert(full_lines(m, n) =~= a + b + t);
    }
}

proof fn lemma_half_lines_count(m: Matrix, n: int)
    requires
        n >= 0,
    ensures
        count_of(half_lines(m, n), '\n') == n,
    decreases n,
{
    if n > 0 {
        lemma_half_lines_count(m, n - 1);
        lemma_half_line_no_newline(m, n - 1, m.side());
        let a = half_lines(m, n - 1);
        let b = half_line(m, n - 1, m.side());
        let t = reset() + seq!['\n'];
        assert(count_of(t, '\n') == 1) by {
            assert(t.drop_last() =~= reset());
            lemma_count_none(reset(), '\n');
        }
        lemma_count_concat(a, b, '\n');
        lemma_count_concat(a + b, t, '\n');
        assert(half_lines(m, n) =~= a + b + t);
    }
}

/// The ANSI rendering has exactly as many lines as `cell_size` reports rows:
/// one newline per terminal row.
pub proof fn lemma_ansi_rows(m: Matrix, style: TerminalStyle)
    requires
        m.wf(),
    ensures
        count_of(ansi_of(m, style), '\n') == cells_for(style, m.side()).1,
{
    match style {
        TerminalStyle::FullBlocks => lemma_full_lines_count(m, m.side()),
        TerminalStyle::HalfBlocks => lemma_half_lines_count(m, (m.side() + 1) / 2),
    }
}

// ---------------------------------------------------------------------------
// SVG
// ---------------------------------------------------------------------------

/// The scale actually used: at least one unit per module.
pub open spec fn effective_scale(scale: u32) -> nat {
    if scale < 1 {
        1
    } else {
        scale as nat
    }
}

/// `<rect x=".." y=".." width=".." height=".."/>`.
pub open spec fn svg_rect(x: nat, y: nat, w: nat, h: nat) -> Seq<char> {
    "<rect x=\""@ + decimal(x) + "\" y=\""@ + decimal(y) + "\" width=\""@ + decimal(w)
        + "\" height=\""@ + decimal(h) + "\"/>"@
}

/// The rectangles for the dark runs of row `y` from column `x` on; `open` is
/// the start of the run being scanned, if any. Each maximal horizontal run of
/// dark modules becomes one rectangle.
pub open spec fn runs_from(m: Matrix, y: int, x: int, open: Option<int>, s: nat) -> Seq<char>
    decreases m.side() - x,
{
    if x >= m.side() {
        match open {
            Some(st) => svg_rect((st * s) as nat, (y * s) as nat, ((x - st) * s) as nat, s),
            None => seq![],
        }
    } else if m.module(x, y) {
        match open {
            Some(st) => runs_from(m, y, x + 1, Some(st), s),
            None => runs_from(m, y, x + 1, Some(x), s),
        }
    } else {
        match open {
            Some(st) => svg_rect((st * s) as nat, (y * s) as nat, ((x - st) * s) as nat, s)
                + runs_from(m, y, x + 1, None, s),
            None => runs_from(m, y, x + 1, None, s),
        }
    }
}

/// The rectangles of the first `n` rows.
pub open spec fn svg_rects(m: Matrix, n: int, s: nat) -> Seq<char>
    decreases n,
{
    if n <= 0 {
        seq![]
    } else {
        svg_rects(m, n - 1, s) + runs_from(m, n - 1, 0, None, s)
    }
}

pub open spec fn svg_head(side: nat) -> Seq<char> {
    "<?xml version=\"1.0\" encoding=\"UTF-8\"?>\n<svg xmlns=\"http://www.w3.org/2000/svg\" width=\""@
        + decimal(side) + "\" height=\""@ + decimal(side) + "\" viewBox=\"0 0 "@ + decimal(side)
        + " "@ + decimal(side) + "\" shape-rendering=\"crispEdges\"><rect width=\""@ + decimal(side)
        + "\" height=\""@ + decimal(side) + "\" fill=\"#ffffff\"/><g fill=\"#000000\">"@
}

pub open spec fn svg_of(m: Matrix, scale: u32) -> Seq<char> {
    let s = effective_scale(scale);
    svg_head((m.side() * s) as nat) + svg_rects(m, m.side(), s) + "</g></svg>\n"@
}

/// `needle` occurs somewhere in `hay`.
pub open spec fn occurs_in(hay: Seq<char>, needle: Seq<char>) -> bool {
    exists|i: int| crate::strings::occurs_at(hay, needle, i)
}

proof fn lemma_occurs_left(a: Seq<char>, b: Seq<char>, t: Seq<char>)
    requires
        occurs_in(a, t),
    ensures
        occurs_in(a + b, t),
{
    let i = choose|i: int| crate::strings::occurs_at(a, t, i);
    assert((a + b).subrange(i, i + t.len()) =~= a.subrange(i, i + t.len()));
    assert(crate::strings::occurs_at(a + b, t, i));
}

proof fn lemma_occurs_right(a: Seq<char>, b: Seq<char>, t: Seq<char>)
    requires
        occurs_in(b, t),
    ensures
        occurs_in(a + b, t),
{
    let i = choose|i: int| crate::strings::occurs_at(b, t, i);
    let j = i + a.len();
    assert((a + b).subrange(j, j + t.len()) =~= b.subrange(i, i + t.len()));
    assert(crate::strings::occurs_at(a + b, t, j));
}

proof fn lemma_occurs_self(t: Seq<char>)
    ensures
        occurs_in(t, t),
{
    assert(t.subrange(0, t.len() as int) =~= t);
    assert(crate::strings::occurs_at(t, t, 0));
}

/// Columns `a` up to `b` of row `y` are a maximal run of dark modules.
pub open spec fn dark_run(m: Matrix, y: int, a: int, b: int) -> bool {
    &&& 0 <= a < b <= m.side()
    &&& forall|x: int| a <= x < b ==> #[trigger] m.module(x, y)
    &&& a == 0 || !m.module(a - 1, y)
    &&& b == m.side() || !m.module(b, y)
}

/// The rectangle drawn from the open run at `a`, once the scan is past it.
proof fn lemma_run_closes(m: Matrix, y: int, a: int, b: int, x: int, s: nat)
    requires
        dark_run(m, y, a, b),
        a < x <= b,
    ensures
        occurs_in(runs_from(m, y, x, Some(a), s), svg_rect((a * s) as nat, (y * s) as nat, ((b - a) * s) as nat, s)),
    decreases b - x,
{
    let r = svg_rect((a * s) as nat, (y * s) as nat, ((b - a) * s) as nat, s);
    if x < b {
        lemma_run_closes(m, y, a, b, x + 1, s);
    } else if b == m.side() {
        lemma_occurs_self(r);
    } else {
        lemma_occurs_self(r);
        lemma_occurs_left(r, runs_from(m, y, b + 1, None, s), r);
    }
}

/// The scan of row `y` from column `x` draws the run at `a`, provided the scan
/// reaches `a` with no run open.
proof fn lemma_run_drawn(m: Matrix, y: int, a: int, b: int, x: int, open: Option<int>, s: nat)
    requires
        dark_run(m, y, a, b),
        0 <= x <= a,
        x == a ==> open is None,
    ensures
        occurs_in(runs_from(m, y, x, open, s), svg_rect((a * s) as nat, (y * s) as nat, ((b - a) * s) as nat, s)),
    decreases a - x,
{
    let r = svg_rect((a * s) as nat, (y * s) as nat, ((b - a) * s) as nat, s);
    if x == a {
        assert(m.module(a, y));
        lemma_run_closes(m, y, a, b, a + 1, s);
    } else {
        let next = if m.module(x, y) {
            match open {
                Some(st) => Some(st),
                None => Some(x),
            }
        } else {
            None::<int>
        };
        if x + 1 == a {
            assert(!m.module(x, y));
        }
        lemma_run_drawn(m, y, a, b, x + 1, next, s);
        if !m.module(x, y) && open is Some {
            let st = open->0;
            lemma_occurs_right(
                svg_rect((st * s) as nat, (y * s) as nat, ((x - st) * s) as nat, s),
                runs_from(m, y, x + 1, None, s),
                r,
            );
        }
    }
}

proof fn lemma_rows_drawn(m: Matrix, n: int, y: int, t: Seq<char>, s: nat)
    requires
        0 <= y < n,
        occurs_in(runs_from(m, y, 0, None, s), t),
    ensures
        occurs_in(svg_rects(m, n, s), t),
    decreases n,
{
    if y == n - 1 {
        lemma_occurs_right(svg_rects(m, n - 1, s), runs_from(m, n - 1, 0, None, s), t);
    } else {
        lemma_rows_drawn(m, n - 1, y, t, s);
        lemma_occurs_left(svg_rects(m, n - 1, s), runs_from(m, n - 1, 0, None, s), t);
    }
}

/// Every maximal horizontal run of dark modules is drawn as one rectangle:
/// it starts at the run's first module, its width is the run's length and
/// its height one module, all times the scale.
pub proof fn lemma_svg_draws_runs(m: Matrix, scale: u32, y: int, a: int, b: int)
    requires
        0 <= y < m.side(),
        dark_run(m, y, a, b),
    ensures
        ({
            let s = effective_scale(scale);
            occurs_in(
                svg_of(m, scale),
                "<rect x=\""@ + decimal((a * s) as nat) + "\" y=\""@ + decimal((y * s) as nat)
                    + "\" width=\""@ + decimal(((b - a) * s) as nat) + "\" height=\""@ + decimal(s)
                    + "\"/>"@,
            )
        }),
{
    let s = effective_scale(scale);
    let r = svg_rect((a * s) as nat, (y * s) as nat, ((b - a) * s) as nat, s);
    lemma_run_drawn(m, y, a, b, 0, None, s);
    lemma_rows_drawn(m, m.side(), y, r, s);
    let head = svg_head((m.side() * s) as nat);
    let rects = svg_rects(m, m.side(), s);
    lemma_occurs_right(head, rects, r);
    lemma_occurs_left(head + rects, "</g></svg>\n"@, r);
}

fn push_number(out: &mut Vec<char>, n: u32)
    ensures
        final(out)@ == old(out)@ + decimal(n as nat),
{
    let d = decimal_chars(n as u64);
    push_all(out, d.as_slice());
}

fn push_rect(out: &mut Vec<char>, x: u32, y: u32, w: u32, h: u32)
    ensures
        final(out)@ == old(out)@ + svg_rect(x as nat, y as nat, w as nat, h as nat),
{
    push_str(out, "<rect x=\"");
    push_number(out, x);
    push_str(out, "\" y=\"");
    push_number(out, y);
    push_str(out, "\" width=\"");
    push_number(out, w);
    push_str(out, "\" height=\"");
    push_number(out, h);
    push_str(out, "\"/>");
    assert(out@ =~= old(out)@ + svg_rect(x as nat, y as nat, w as nat, h as nat));
}

proof fn lemma_scaled(a: int, b: int, s: int)
    requires
        0 <= a <= b,
        0 <= s,
    ensures
        0 <= a * s <= b * s,
{
    assert(0 <= a * s <= b * s) by (nonlinear_arith)
        requires
            0 <= a <= b,
            0 <= s,
    ;
}

/// Render the symbol as SVG. Horizontal runs of dark modules are merged into a
/// single rectangle to keep the file small.
pub fn to_svg(matrix: &Matrix, scale: u32) -> (r: String)
    requires
        matrix.wf(),
        matrix.side() * effective_scale(scale) <= u32::MAX,
    ensures
        r@ == svg_of(*matrix, scale),
{
    let scale = if scale < 1 {
        1
    } else {
        scale
    };
    let size = matrix.size;
    proof {
        lemma_scaled(size as int, size as int, scale as int);
    }
    let side = size as u32 * scale;
    let mut rects: Vec<char> = Vec::new();
    let mut y: usize = 0;
    while y < size
        invariant
            matrix.wf(),
            size == matrix.side(),
            size * scale <= u32::MAX,
            scale >= 1,
            y <= size,
            rects@ == svg_rects(*matrix, y as int, scale as nat),
        decreases size - y,
    {
        let ghost row_start = rects@;
        let mut x: usize = 0;
        while x < size
            invariant
                matrix.wf(),
                size == matrix.side(),
                size * scale <= u32::MAX,
                scale >= 1,
                y < size,
                x <= size,
                row_start + runs_from(*matrix, y as int, 0, None, scale as nat) == rects@
                    + runs_from(*matrix, y as int, x as int, None, scale as nat),
            decreases size - x,
        {
            if !matrix.is_dark(x, y) {
                x += 1;
                continue;
            }
            let start = x;
            while x < size && matrix.is_dark(x, y)
                invariant
                    matrix.wf(),
                    size == matrix.side(),
                    y < size,
                    start <= x <= size,
                    start < size,
                    matrix.module(start as int, y as int),
                    forall|k: int| start <= k < x ==> matrix.module(k, y as int),
                decreases size - x,
            {
                x += 1;
            }
            proof {
                lemma_run_close(*matrix, y as int, start as int, x as int, scale as nat);
                lemma_scaled(start as int, size as int, scale as int);
                lemma_scaled(y as int, size as int, scale as int);
                lemma_scaled((x - start) as int, size as int, scale as int);
            }
            let ghost before = rects@;
            push_rect(
                &mut rects,
                start as u32 * scale,
                y as u32 * scale,
                (x - start) as u32 * scale,
                scale,
            );
        }
        assert(runs_from(*matrix, y as int, size as int, None, scale as nat) =~= Seq::<char>::empty());
        assert(rects@ =~= svg_rects(*matrix, y + 1, scale as nat));
        y += 1;
    }
    let mut out: Vec<char> = Vec::new();
    push_str(&mut out, "<?xml version=\"1.0\" encoding=\"UTF-8\"?>\n<svg xmlns=\"http://www.w3.org/2000/svg\" width=\"");
    push_number(&mut out, side);
    push_str(&mut out, "\" height=\"");
    push_number(&mut out, side);
    push_str(&mut out, "\" viewBox=\"0 0 ");
    push_number(&mut out, side);
    push_str(&mut out, " ");
    push_number(&mut out, side);
    push_str(&mut out, "\" shape-rendering=\"crispEdges\"><rect width=\"");
    push_number(&mut out, side);
    push_str(&mut out, "\" height=\"");
    push_number(&mut out, side);
    push_str(&mut out, "\" fill=\"#ffffff\"/><g fill=\"#000000\">");
    push_all(&mut out, rects.as_slice());
    push_str(&mut out, "</g></svg>\n");
    assert(out@ =~= svg_of(*matrix, scale));
    from_chars(out.as_slice())
}

/// Scanning a run of dark modules from `start` to `x` and closing it.
proof fn lemma_run_close(m: Matrix, y: int, start: int, x: int, s: nat)
    requires
        0 <= start < x <= m.side(),
        forall|k: int| start <= k < x ==> m.module(k, y),
        x == m.side() || !m.module(x, y),
    ensures
        runs_from(m, y, start, None, s) == svg_rect((start * s) as nat, (y * s) as nat, ((x - start) * s) as nat, s)
            + runs_from(m, y, x, None, s),
{
    lemma_run_open(m, y, start, start + 1, x, s);
    if x == m.side() {
        assert(runs_from(m, y, x, None, s) =~= Seq::<char>::empty());
    }
}

proof fn lemma_run_open(m: Matrix, y: int, start: int, k: int, x: int, s: nat)
    requires
        0 <= start < k <= x <= m.side(),
        forall|i: int| start <= i < x ==> m.module(i, y),
        x == m.side() || !m.module(x, y),
    ensures
        runs_from(m, y, k, Some(start), s) == svg_rect((start * s) as nat, (y * s) as nat, ((x - start) * s) as nat, s)
            + runs_from(m, y, x, None, s),
    decreases x - k,
{
    if k < x {
        lemma_run_open(m, y, start, k + 1, x, s);
    } else if x == m.side() {
        assert(runs_from(m, y, x, None, s) =~= Seq::<char>::empty());
        assert(svg_rect((start * s) as nat, (y * s) as nat, ((x - start) * s) as nat, s) + Seq::<char>::empty() =~= svg_rect((start * s) as nat, (y * s) as nat, ((x - start) * s) as nat, s));
    }
}

// ---------------------------------------------------------------------------
// Raster
// ---------------------------------------------------------------------------

/// The grey level of pixel `(px, py)` at `s` pixels per module: black for a
/// dark module, white otherwise.
pub open spec fn pixel_at(m: Matrix, s: int, px: int, py: int) -> u8 {
    if m.module(px / s, py / s) {
        0
    } else {
        255
    }
}

/// The symbol as a grey raster, `scale` pixels per module, row by row: what a
/// PNG of the symbol holds. Its side is `side * scale` pixels.
pub fn raster(matrix: &Matrix, scale: u32) -> (r: (u32, Vec<u8>))
    requires
        matrix.wf(),
        matrix.side() * effective_scale(scale) <= u32::MAX,
        (matrix.side() * effective_scale(scale)) * (matrix.side() * effective_scale(scale))
            <= usize::MAX,
    ensures
        r.0 == matrix.side() * effective_scale(scale),
        r.1@.len() == r.0 * r.0,
        forall|px: int, py: int|
            0 <= px < r.0 && 0 <= py < r.0 ==> #[trigger] r.1@[py * r.0 + px] == pixel_at(
                *matrix,
                effective_scale(scale) as int,
                px,
                py,
            ),
{
    let scale = if scale < 1 {
        1
    } else {
        scale
    };
    let size = matrix.size;
    proof {
        lemma_scaled(size as int, size as int, scale as int);
    }
    let side = size as u32 * scale;
    let side_us = size * (scale as usize);
    let mut pixels: Vec<u8> = Vec::new();
    let mut py: usize = 0;
    while py < side_us
        invariant
            matrix.wf(),
            size == matrix.side(),
            scale >= 1,
            side_us == size * scale,
            side_us * side_us <= usize::MAX,
            py <= side_us,
            pixels@.len() == py * side_us,
            forall|k: int|
                0 <= k < pixels@.len() ==> #[trigger] pixels@[k] == pixel_at(
                    *matrix,
                    scale as int,
                    k % side_us as int,
                    k / side_us as int,
                ),
        decreases side_us - py,
    {
        let mut px: usize = 0;
        while px < side_us
            invariant
                matrix.wf(),
                size == matrix.side(),
                scale >= 1,
                side_us == size * scale,
                side_us * side_us <= usize::MAX,
                py < side_us,
                px <= side_us,
                pixels@.len() == py * side_us + px,
                forall|k: int|
                    0 <= k < pixels@.len() ==> #[trigger] pixels@[k] == pixel_at(
                        *matrix,
                        scale as int,
                        k % side_us as int,
                        k / side_us as int,
                    ),
            decreases side_us - px,
        {
            proof {
                lemma_flat(px as int, py as int, side_us as int);
                lemma_module_of_pixel(px as int, size as int, scale as int);
                lemma_module_of_pixel(py as int, size as int, scale as int);
            }
            let dark = matrix.is_dark(px / (scale as usize), py / (scale as usize));
            pixels.push(if dark { 0 } else { 255 });
            px += 1;
        }
        proof {
            assert((py + 1) * side_us == py * side_us + side_us) by (nonlinear_arith);
        }
        py += 1;
    }
    proof {
        assert forall|x: int, y: int| 0 <= x < side_us && 0 <= y < side_us implies #[trigger] pixels@[y * side_us + x] == pixel_at(*matrix, scale as int, x, y) by {
            lemma_flat(x, y, side_us as int);
        }
    }
    (side, pixels)
}

proof fn lemma_module_of_pixel(p: int, size: int, s: int)
    requires
        0 <= p < size * s,
        s >= 1,
    ensures
        0 <= p / s < size,
{
    assert(0 <= p / s < size) by (nonlinear_arith)
        requires
            0 <= p < size * s,
            s >= 1,
    ;
}

/// The quiet zone surrounds the symbol: the four outermost rows and columns
/// of an encoded matrix are light.
pub proof fn lemma_quiet_zone(m: Matrix, data: Seq<u8>, x: int, y: int)
    requires
        encodes(m, data),
        0 <= x < m.side(),
        0 <= y < m.side(),
        x < QUIET_ZONE || y < QUIET_ZONE || x >= m.side() - QUIET_ZONE || y >= m.side() - QUIET_ZONE,
    ensures
        !m.module(x, y),
{
}

} // verus!
