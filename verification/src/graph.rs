//! The temperature side-graph drawn in the right margin of the forecast.
//!
//! The forecast table is tall and narrow, so the graph is a full-height side
//! panel aligned row for row with the table: time runs down (one anchor per
//! forecast row), temperature runs across (cold left, hot right). The line is
//! drawn with Unicode braille dots, eight per character cell, and coloured
//! with the temperature gradient. It is only drawn when the terminal is wide
//! enough; otherwise the lines are left untouched.

use vstd::prelude::*;
use crate::color::{foreground_sgr, push_foreground, push_reset, reset_sgr};
use crate::text::{
    axis, axis_line, center, centered, chars_of, display_width, pad_to, push_char, push_signed,
    push_str, signed_decimal, spaces, visible_width,
};

verus! {

/// Role of an output line, deciding what (if anything) the graph attaches to it.
#[derive(Debug, Clone, Copy, PartialEq, Eq, Structural)]
pub enum Role {
    /// Printed verbatim, never decorated (e.g. the location line).
    Plain,
    /// First header line — receives the graph title.
    GraphTitle,
    /// Second header line — receives the temperature axis scale.
    GraphAxis,
    /// A data-region line (forecast row or day separator) — receives graph cells.
    Body,
}

/// One line of output plus the metadata the graph needs. `T` is the
/// temperature measurement the graph is drawn from.
pub struct OutLine<T> {
    pub text: String,
    /// Temperature for forecast rows; `None` for separators/headers.
    pub temp: Option<T>,
    pub role: Role,
}

/// What an output line shows: its text, temperature and role.
pub open spec fn line_view<T>(l: OutLine<T>) -> (Seq<char>, Option<T>, Role) {
    (l.text@, l.temp, l.role)
}

/// The views of a list of output lines.
pub open spec fn lines_view<T>(ls: Seq<OutLine<T>>) -> Seq<(Seq<char>, Option<T>, Role)> {
    ls.map_values(|l: OutLine<T>| line_view(l))
}

/// Blank columns between the table and the graph.
pub const GAP: usize = 2;
/// Minimum graph width (characters) worth drawing.
pub const MIN_W: usize = 14;
/// Cap so the graph stays tidy on very wide terminals.
pub const MAX_W: usize = 40;

/// The view of one output line.
pub type LineView<T> = (Seq<char>, Option<T>, Role);

/// A forecast row: a body line with a temperature.
pub open spec fn is_plotted<T>(l: LineView<T>) -> bool {
    l.2 == Role::Body && l.1 is Some
}

/// Texts short enough to measure.
pub open spec fn measurable<T>(v: Seq<LineView<T>>) -> bool {
    forall|i: int| 0 <= i < v.len() ==> (#[trigger] v[i]).0.len() <= usize::MAX / 4
}

/// The widest forecast row, in display columns, if there is any.
pub open spec fn widest_row<T>(v: Seq<LineView<T>>) -> Option<nat>
    decreases v.len(),
{
    if v.len() == 0 {
        None
    } else {
        let rest = widest_row(v.drop_last());
        if is_plotted(v.last()) {
            let w = visible_width(v.last().0);
            match rest {
                Some(m) => Some(if w > m { w } else { m }),
                None => Some(w),
            }
        } else {
            rest
        }
    }
}

/// How many body lines `v` holds.
pub open spec fn body_count<T>(v: Seq<LineView<T>>) -> nat
    decreases v.len(),
{
    if v.len() == 0 {
        0
    } else {
        body_count(v.drop_last()) + if v.last().2 == Role::Body {
            1nat
        } else {
            0nat
        }
    }
}

/// The graph anchors: for each forecast row, its rank among the body lines
/// and its index among all lines.
pub open spec fn anchors_of<T>(v: Seq<LineView<T>>) -> Seq<(int, int)>
    decreases v.len(),
{
    if v.len() == 0 {
        Seq::empty()
    } else {
        let rest = anchors_of(v.drop_last());
        if is_plotted(v.last()) {
            rest.push((body_count(v.drop_last()) as int, v.len() - 1))
        } else {
            rest
        }
    }
}

/// Where the graph goes, when it is drawn at all.
pub struct GraphPlan {
    /// First column of the graph.
    pub graph_col: usize,
    /// Width of the graph in character cells.
    pub graph_w: usize,
    /// Number of body lines, one graph row each.
    pub rows: usize,
    /// Body rank of each forecast row, in order.
    pub anchors: Vec<usize>,
    /// Line index of each forecast row, in order.
    pub anchor_lines: Vec<usize>,
}

/// The layout decision: no graph without forecast rows, on a terminal no
/// wider than the table, the gap and the minimum graph width, or with fewer
/// than two body lines or two forecast rows. Otherwise the graph starts two
/// columns right of the widest row and spans the rest of the terminal, at
/// most 40 cells.
pub open spec fn graph_layout<T>(v: Seq<LineView<T>>, cols: int) -> Option<(int, int)> {
    match widest_row(v) {
        None => None,
        Some(w) => {
            let graph_col = w + GAP;
            if cols <= graph_col + MIN_W || body_count(v) < 2 || anchors_of(v).len() < 2 {
                None
            } else {
                Some((graph_col, if cols - graph_col < MAX_W { cols - graph_col } else { MAX_W as int }))
            }
        },
    }
}

/// When the graph is drawn it fits the terminal: it starts right of every
/// forecast row with a gap of two columns, ends within the terminal, and is
/// more than 14 and at most 40 cells wide.
pub proof fn law_graph_fits<T>(v: Seq<LineView<T>>, cols: int)
    requires
        graph_layout(v, cols) is Some,
    ensures
        ({
            let (col, w) = graph_layout(v, cols)->0;
            &&& col + w <= cols
            &&& MIN_W < w <= MAX_W
            &&& widest_row(v) matches Some(t) && col == t + GAP
        }),
{
}

/// The anchors never outnumber the lines, and follow each other.
pub proof fn lemma_anchors<T>(v: Seq<LineView<T>>)
    ensures
        anchors_of(v).len() <= v.len(),
        body_count(v) <= v.len(),
        forall|i: int| 0 <= i < anchors_of(v).len() ==> {
            let a = #[trigger] anchors_of(v)[i];
            &&& 0 <= a.0 < body_count(v)
            &&& 0 <= a.1 < v.len()
            &&& is_plotted(v[a.1])
            &&& a.0 == body_count(v.take(a.1))
        },
        forall|i: int, j: int| 0 <= i < j < anchors_of(v).len() ==> anchors_of(v)[i].0 < anchors_of(v)[j].0 && anchors_of(v)[i].1 < anchors_of(v)[j].1,
    decreases v.len(),
{
    if v.len() > 0 {
        let p = v.drop_last();
        lemma_anchors(p);
        assert(p.take(p.len() as int) =~= p);
        assert forall|i: int| 0 <= i < anchors_of(p).len() implies #[trigger] p.take(anchors_of(p)[i].1) == v.take(anchors_of(p)[i].1) by {
            assert(p.take(anchors_of(p)[i].1) =~= v.take(anchors_of(p)[i].1));
        }
    }
}

/// Decides whether and where the graph is drawn on a terminal `cols` wide.
pub fn plan_graph<T>(lines: &Vec<OutLine<T>>, cols: usize) -> (r: Option<GraphPlan>)
    requires
        measurable(lines_view(lines@)),
    ensures
        match r {
            None => graph_layout(lines_view(lines@), cols as int) is None,
            Some(p) => {
                &&& graph_layout(lines_view(lines@), cols as int) == Some((p.graph_col as int, p.graph_w as int))
                &&& p.rows == body_count(lines_view(lines@))
                &&& p.anchors.len() == anchors_of(lines_view(lines@)).len()
                &&& p.anchor_lines.len() == p.anchors.len()
                &&& forall|i: int| 0 <= i < p.anchors.len() ==> (p.anchors@[i] as int, p.anchor_lines@[i] as int) == #[trigger] anchors_of(lines_view(lines@))[i]
                &&& forall|i: int| 0 <= i < p.anchors.len() ==> #[trigger] p.anchors@[i] < p.rows
                &&& forall|i: int, j: int| 0 <= i < j < p.anchors.len() ==> p.anchors@[i] < p.anchors@[j]
            },
        },
{
    let ghost v = lines_view(lines@);
    let mut widest: Option<usize> = None;
    let mut body: usize = 0;
    let mut anchors: Vec<usize> = Vec::new();
    let mut anchor_lines: Vec<usize> = Vec::new();
    let mut i: usize = 0;
    while i < lines.len()
        invariant
            v == lines_view(lines@),
            measurable(v),
            i <= lines.len(),
            body == body_count(v.take(i as int)),
            body <= i,
            match widest {
                Some(w) => widest_row(v.take(i as int)) == Some(w as nat) && w <= usize::MAX / 2,
                None => widest_row(v.take(i as int)) is None,
            },
            anchors.len() == anchors_of(v.take(i as int)).len(),
            anchor_lines.len() == anchors.len(),
            forall|j: int| 0 <= j < anchors.len() ==> (anchors@[j] as int, anchor_lines@[j] as int) == #[trigger] anchors_of(v.take(i as int))[j],
        decreases lines.len() - i,
    {
        let ghost pre = v.take(i as int);
        assert(v.take(i + 1).drop_last() =~= pre);
        assert(v.take(i + 1).last() == v[i as int]);
        assert(v[i as int] == line_view(lines@[i as int]));
        let line = &lines[i];
        let is_body = match line.role {
            Role::Body => true,
            _ => false,
        };
        if is_body && line.temp.is_some() {
            proof {
                crate::text::lemma_visible_width_bound(line.text@);
            }
            let w = display_width(line.text.as_str());
            widest = match widest {
                Some(m) => Some(if w > m { w } else { m }),
                None => Some(w),
            };
            anchors.push(body);
            anchor_lines.push(i);
        }
        if is_body {
            body = body + 1;
        }
        i = i + 1;
    }
    assert(v.take(lines.len() as int) =~= v);
    proof {
        lemma_anchors(v);
    }
    assert forall|a: int, b: int| 0 <= a < b < anchors.len() implies anchors@[a] < anchors@[b] by {
        assert((anchors@[a] as int, anchor_lines@[a] as int) == anchors_of(v)[a]);
        assert((anchors@[b] as int, anchor_lines@[b] as int) == anchors_of(v)[b]);
    }
    assert forall|a: int| 0 <= a < anchors.len() implies #[trigger] anchors@[a] < body by {
        assert((anchors@[a] as int, anchor_lines@[a] as int) == anchors_of(v)[a]);
    }
    let w = match widest {
        Some(w) => w,
        None => return None,
    };
    let graph_col = w + GAP;
    if cols <= graph_col + MIN_W || body < 2 || anchors.len() < 2 {
        return None;
    }
    let room = cols - graph_col;
    let graph_w = if room < MAX_W { room } else { MAX_W };
    Some(GraphPlan { graph_col, graph_w, rows: body, anchors, anchor_lines })
}

// ── The braille canvas ─────────────────────────────────────────────────────

/// Braille dot bit for sub-cell (`cx` ∈ 0..2 columns, `cy` ∈ 0..4 rows).
/// Unicode dot numbering and bit values:
///   1(0x01) 4(0x08)
///   2(0x02) 5(0x10)
///   3(0x04) 6(0x20)
///   7(0x40) 8(0x80)
pub open spec fn braille_bit(cy: int, cx: int) -> u8 {
    if cx == 0 {
        if cy == 0 {
            0x01
        } else if cy == 1 {
            0x02
        } else if cy == 2 {
            0x04
        } else {
            0x40
        }
    } else {
        if cy == 0 {
            0x08
        } else if cy == 1 {
            0x10
        } else if cy == 2 {
            0x20
        } else {
            0x80
        }
    }
}

fn dot_bit(cy: usize, cx: usize) -> (b: u8)
    requires
        cy < 4,
        cx < 2,
    ensures
        b == braille_bit(cy as int, cx as int),
{
    if cx == 0 {
        if cy == 0 {
            0x01
        } else if cy == 1 {
            0x02
        } else if cy == 2 {
            0x04
        } else {
            0x40
        }
    } else {
        if cy == 0 {
            0x08
        } else if cy == 1 {
            0x10
        } else if cy == 2 {
            0x20
        } else {
            0x80
        }
    }
}

/// `cells` (`rows` rows of `width` braille cells) with the dot at absolute dot
/// coordinates (`dx`, `dy`) set; dots outside the canvas are dropped.
pub open spec fn with_dot(cells: Seq<u8>, width: int, rows: int, dx: int, dy: int) -> Seq<u8> {
    if dx < 0 || dy < 0 || dy / 4 >= rows || dx / 2 >= width {
        cells
    } else {
        let i = (dy / 4) * width + dx / 2;
        cells.update(i, cells[i] | braille_bit(dy % 4, dx % 2))
    }
}

/// `cells` with the dots from column `a` through `b` of dot row `y` set.
pub open spec fn with_span(cells: Seq<u8>, width: int, rows: int, a: int, b: int, y: int) -> Seq<u8>
    decreases b - a + 1,
{
    if a > b {
        cells
    } else {
        with_span(with_dot(cells, width, rows, a, y), width, rows, a + 1, b, y)
    }
}

/// `cells` with a line drawn down from dot row `y`: the line passes column
/// `xs[i]` on row `y + i`, and each row is bridged horizontally from the
/// previous row's column (`prev` for the first) so steep slopes stay unbroken.
pub open spec fn with_path(cells: Seq<u8>, width: int, rows: int, prev: int, y: int, xs: Seq<i32>) -> Seq<u8>
    decreases xs.len(),
{
    if xs.len() == 0 {
        cells
    } else {
        let x = xs[0] as int;
        let (a, b) = if prev <= x {
            (prev, x)
        } else {
            (x, prev)
        };
        with_path(with_span(cells, width, rows, a, b, y), width, rows, x, y + 1, xs.drop_first())
    }
}

/// Number of cells up to and including the last lit one.
pub open spec fn lit_len(row: Seq<u8>) -> nat
    decreases row.len(),
{
    if row.len() == 0 {
        0
    } else if row.last() != 0 {
        row.len()
    } else {
        lit_len(row.drop_last())
    }
}

/// The braille characters of the cell bitmasks.
pub open spec fn braille_glyphs(bits: Seq<u8>) -> Seq<char> {
    bits.map_values(|b: u8| (0x2800 + b as int) as char)
}

/// One graph row as coloured braille, trailing blank cells trimmed; nothing
/// when the row is blank.
pub open spec fn strip_text(row: Seq<u8>, color: u8) -> Seq<char> {
    let n = lit_len(row);
    if n == 0 {
        Seq::empty()
    } else {
        foreground_sgr(color) + braille_glyphs(row.take(n as int)) + reset_sgr()
    }
}

/// Whether `code` is a Unicode scalar value.
pub open spec fn is_scalar(code: u32) -> bool {
    code < 0xD800 || (0xE000 <= code && code <= 0x10FFFF)
}

/// Calls `char::from_u32`. Trusted: as documented, the character with that
/// code when the code is a Unicode scalar value, `None` otherwise.
#[verifier::external_body]
fn char_from_u32(code: u32) -> (r: Option<char>)
    ensures
        r == if is_scalar(code) {
            Some(code as char)
        } else {
            None
        },
{
    char::from_u32(code)
}

/// The first dot row of body row `k`: each row is four dots high and its
/// anchor sits on the second of them.
pub open spec fn dot_row(k: int) -> int {
    k * 4 + 1
}

/// A braille canvas of `rows` rows of `width` character cells.
pub struct Canvas {
    cells: Vec<u8>,
    width: usize,
    rows: usize,
}

impl Canvas {
    /// The cell bitmasks, row after row.
    pub closed spec fn cells(self) -> Seq<u8> {
        self.cells@
    }

    /// Width in character cells.
    pub closed spec fn width(self) -> int {
        self.width as int
    }

    /// Height in character rows.
    pub closed spec fn rows(self) -> int {
        self.rows as int
    }

    /// The canvas holds exactly `rows × width` cells.
    pub closed spec fn wf(self) -> bool {
        self.cells@.len() == self.rows * self.width
    }

    /// A blank canvas.
    pub fn new(width: usize, rows: usize) -> (c: Canvas)
        requires
            rows * width <= usize::MAX,
        ensures
            c.wf(),
            c.width() == width,
            c.rows() == rows,
            c.cells() == Seq::new((rows * width) as nat, |i: int| 0u8),
    {
        let n = rows * width;
        let mut cells: Vec<u8> = Vec::new();
        let mut i: usize = 0;
        while i < n
            invariant
                i <= n,
                cells@ == Seq::new(i as nat, |j: int| 0u8),
            decreases n - i,
        {
            cells.push(0);
            i = i + 1;
            assert(cells@ =~= Seq::new(i as nat, |j: int| 0u8));
        }
        Canvas { cells, width, rows }
    }

    /// Set the braille dot at absolute dot coordinates (`dx`, `dy`).
    pub fn set_dot(&mut self, dx: i32, dy: i32)
        requires
            old(self).wf(),
        ensures
            final(self).wf(),
            final(self).width() == old(self).width(),
            final(self).rows() == old(self).rows(),
            final(self).cells() == with_dot(
                old(self).cells(),
                old(self).width(),
                old(self).rows(),
                dx as int,
                dy as int,
            ),
    {
        if dx < 0 || dy < 0 {
            return;
        }
        let (dx, dy) = (dx as usize, dy as usize);
        let (cell_row, cell_col) = (dy / 4, dx / 2);
        if cell_row >= self.rows || cell_col >= self.width {
            return;
        }
        assert(cell_row * self.width + cell_col < self.rows * self.width) by (nonlinear_arith)
            requires
                cell_row < self.rows,
                cell_col < self.width,
        ;
        let len = self.cells.len();
        assert(cell_row * self.width <= cell_row * self.width + cell_col);
        let i = cell_row * self.width + cell_col;
        assert(i < len);
        let bits = self.cells[i] | dot_bit(dy % 4, dx % 2);
        self.cells.set(i, bits);
    }

    /// Sets the dots from column `a` through `b` of dot row `y`.
    fn set_span(&mut self, a: i32, b: i32, y: i32)
        requires
            old(self).wf(),
            a <= b,
        ensures
            final(self).wf(),
            final(self).width() == old(self).width(),
            final(self).rows() == old(self).rows(),
            final(self).cells() == with_span(
                old(self).cells(),
                old(self).width(),
                old(self).rows(),
                a as int,
                b as int,
                y as int,
            ),
    {
        let mut xx = a;
        loop
            invariant
                self.wf(),
                self.width() == old(self).width(),
                self.rows() == old(self).rows(),
                a <= xx <= b,
                with_span(old(self).cells(), self.width(), self.rows(), a as int, b as int, y as int)
                    == with_span(self.cells(), self.width(), self.rows(), xx as int, b as int, y as int),
            decreases b - xx,
        {
            self.set_dot(xx, y);
            if xx == b {
                assert(with_span(self.cells(), self.width(), self.rows(), b + 1, b as int, y as int) == self.cells());
                return;
            }
            xx = xx + 1;
        }
    }

    /// Reads cell `i`.
    fn cell(&self, i: usize) -> (b: u8)
        requires
            i < self.cells().len(),
        ensures
            b == self.cells()[i as int],
    {
        self.cells[i]
    }

    /// Renders character row `k` as coloured braille (trailing blank cells trimmed).
    pub fn row_strip(&self, k: usize, color: u8) -> (r: String)
        requires
            self.wf(),
            k < self.rows(),
        ensures
            r@ == strip_text(
                self.cells().subrange(k * self.width(), k * self.width() + self.width()),
                color,
            ),
    {
        let w = self.width;
        assert((k + 1) * w <= self.rows * w) by (nonlinear_arith)
            requires
                k < self.rows,
        ;
        assert((k + 1) * w == k * w + w) by (nonlinear_arith);
        let len = self.cells.len();
        let start = k * w;
        let ghost row = self.cells@.subrange(start as int, start + w);
        let mut last = w;
        assert(row.take(last as int) =~= row);
        while last > 0 && self.cell(start + last - 1) == 0
            invariant
                last <= w,
                len == self.cells@.len(),
                start + w <= self.cells@.len(),
                row == self.cells@.subrange(start as int, start + w),
                lit_len(row.take(last as int)) == lit_len(row),
            decreases last,
        {
            assert(row.take(last as int).drop_last() =~= row.take(last - 1));
            last = last - 1;
        }
        let mut r = String::new();
        if last == 0 {
            assert(row.take(0) =~= Seq::<u8>::empty());
            return r;
        }
        assert(row.take(last as int).last() != 0);
        assert(lit_len(row) == last);
        push_foreground(&mut r, color);
        let ghost head = r@;
        let mut j: usize = 0;
        while j < last
            invariant
                j <= last <= w,
                len == self.cells@.len(),
                start + w <= self.cells@.len(),
                row == self.cells@.subrange(start as int, start + w),
                r@ == head + braille_glyphs(row.take(j as int)),
            decreases last - j,
        {
            let bits = self.cell(start + j);
            let c = char_from_u32(0x2800 + bits as u32);
            match c {
                Some(c) => push_char(&mut r, c),
                None => {},
            }
            assert(row.take(j + 1) =~= row.take(j as int).push(bits));
            assert(braille_glyphs(row.take(j + 1)) =~= braille_glyphs(row.take(j as int)).push(
                ((0x2800 + bits as int) as char),
            ));
            j = j + 1;
        }
        push_reset(&mut r);
        r
    }

    /// Draws a line down from dot row `y0`, passing column `xs[i]` on row
    /// `y0 + i` and starting from column `start_x`, each row bridged from the
    /// previous one.
    pub fn draw_path(&mut self, start_x: i32, y0: i32, xs: &Vec<i32>)
        requires
            old(self).wf(),
            0 <= y0,
            y0 as int + xs.len() <= i32::MAX,
        ensures
            final(self).wf(),
            final(self).width() == old(self).width(),
            final(self).rows() == old(self).rows(),
            final(self).cells() == with_path(
                old(self).cells(),
                old(self).width(),
                old(self).rows(),
                start_x as int,
                y0 as int,
                xs@,
            ),
    {
        let mut prev_x = start_x;
        let mut i: usize = 0;
        assert(xs@.skip(0) =~= xs@);
        while i < xs.len()
            invariant
                self.wf(),
                self.width() == old(self).width(),
                self.rows() == old(self).rows(),
                i <= xs.len(),
                0 <= y0,
                y0 as int + xs.len() <= i32::MAX,
                with_path(old(self).cells(), self.width(), self.rows(), start_x as int, y0 as int, xs@)
                    == with_path(self.cells(), self.width(), self.rows(), prev_x as int, y0 + i, xs@.skip(i as int)),
            decreases xs.len() - i,
        {
            let x = xs[i];
            let y = y0 + i as i32;
            // Bridge horizontally so steep slopes stay an unbroken line.
            let (a, b) = if prev_x <= x { (prev_x, x) } else { (x, prev_x) };
            assert(xs@.skip(i as int).drop_first() =~= xs@.skip(i + 1));
            assert(xs@.skip(i as int)[0] == x);
            self.set_span(a, b, y);
            prev_x = x;
            i = i + 1;
        }
    }
}

// ── Title, scale and attachment ────────────────────────────────────────────

/// Title variants, longest first.
pub open spec fn graph_titles(french: bool) -> Seq<Seq<char>> {
    seq![if french { "Température (°C)"@ } else { "Temperature (°C)"@ }, "Temp. °C"@, "°C"@]
}

/// The longest title variant that fits `width` characters (none if none fits).
pub open spec fn graph_title(french: bool, width: int) -> Seq<char> {
    let t = graph_titles(french);
    if t[0].len() <= width {
        t[0]
    } else if t[1].len() <= width {
        t[1]
    } else if t[2].len() <= width {
        t[2]
    } else {
        Seq::empty()
    }
}

/// Picks the longest title variant that fits the graph width.
pub fn choose_title(french: bool, width: usize) -> (r: &'static str)
    ensures
        r@ == graph_title(french, width as int),
{
    let first = if french {
        "Température (°C)"
    } else {
        "Temperature (°C)"
    };
    if chars_of(first).len() <= width {
        return first;
    }
    if chars_of("Temp. °C").len() <= width {
        return "Temp. °C";
    }
    if chars_of("°C").len() <= width {
        return "°C";
    }
    proof {
        reveal_strlit("");
    }
    ""
}

/// A temperature scale label: whole degrees and `°`.
pub open spec fn degree_label(deg: i32) -> Seq<char> {
    signed_decimal(deg as int).push('°')
}

/// Formats a temperature scale label.
pub fn degree_text(deg: i32) -> (r: String)
    ensures
        r@ == degree_label(deg),
{
    let mut r = String::new();
    push_signed(&mut r, deg as i64);
    push_char(&mut r, '°');
    assert(r@ =~= degree_label(deg));
    r
}

/// `text` padded with spaces to `target` display columns (unchanged if wider).
pub open spec fn padded(text: Seq<char>, target: int) -> Seq<char> {
    if visible_width(text) < target {
        text + spaces((target - visible_width(text)) as nat)
    } else {
        text
    }
}

/// One line with its graph decoration: body line `k` gets graph row `k` (if
/// not blank), the title line the title, the axis line the scale, each
/// starting at column `col`; plain lines are left alone.
pub open spec fn decorated_line<T>(
    l: LineView<T>,
    k: int,
    strips: Seq<Seq<char>>,
    title: Seq<char>,
    scale: Seq<char>,
    col: int,
) -> LineView<T> {
    match l.2 {
        Role::Body => if strips[k].len() > 0 {
            (padded(l.0, col) + strips[k], l.1, l.2)
        } else {
            l
        },
        Role::GraphTitle => (padded(l.0, col) + title, l.1, l.2),
        Role::GraphAxis => (padded(l.0, col) + scale, l.1, l.2),
        Role::Plain => l,
    }
}

/// Every line with its graph decoration.
pub open spec fn decorated<T>(
    v: Seq<LineView<T>>,
    strips: Seq<Seq<char>>,
    title: Seq<char>,
    scale: Seq<char>,
    col: int,
) -> Seq<LineView<T>> {
    Seq::new(
        v.len(),
        |i: int| decorated_line(v[i], body_count(v.take(i)) as int, strips, title, scale, col),
    )
}

/// Decoration only appends: every line keeps its text as a prefix, its
/// temperature and its role, and plain lines are left untouched.
pub proof fn law_decoration_appends<T>(
    v: Seq<LineView<T>>,
    strips: Seq<Seq<char>>,
    title: Seq<char>,
    scale: Seq<char>,
    col: int,
    i: int,
)
    requires
        0 <= i < v.len(),
    ensures
        ({
            let d = decorated(v, strips, title, scale, col);
            &&& d.len() == v.len()
            &&& d[i].1 == v[i].1
            &&& d[i].2 == v[i].2
            &&& d[i].0.len() >= v[i].0.len()
            &&& d[i].0.take(v[i].0.len() as int) == v[i].0
            &&& v[i].2 == Role::Plain ==> d[i] == v[i]
        }),
{
    let d = decorated(v, strips, title, scale, col);
    let t = v[i].0;
    let p = padded(t, col);
    assert(p.take(t.len() as int) =~= t);
    let k = body_count(v.take(i)) as int;
    match v[i].2 {
        Role::Body => {
            if strips[k].len() > 0 {
                assert((p + strips[k]).take(t.len() as int) =~= t);
            } else {
                assert(t.take(t.len() as int) =~= t);
            }
        },
        Role::GraphTitle => {
            assert((p + title).take(t.len() as int) =~= t);
        },
        Role::GraphAxis => {
            assert((p + scale).take(t.len() as int) =~= t);
        },
        Role::Plain => {
            assert(t.take(t.len() as int) =~= t);
        },
    }
}

/// Every line no wider than the graph column is padded to exactly that
/// column, so the graph cells of all lines start in the same column.
pub proof fn law_graph_column(text: Seq<char>, col: int)
    requires
        crate::text::escapes_closed(text),
        visible_width(text) <= col,
    ensures
        visible_width(padded(text, col)) == col,
{
    if visible_width(text) < col {
        let n = (col - visible_width(text)) as nat;
        crate::text::lemma_spaces_plain(n);
        crate::text::lemma_plain_width(spaces(n));
        crate::text::lemma_width_concat(text, spaces(n));
    }
}

/// Attaches the graph rows, the title and the scale to the lines.
pub fn attach_graph<T: Copy>(
    lines: &mut Vec<OutLine<T>>,
    strips: &Vec<String>,
    title: &str,
    scale: &str,
    graph_col: usize,
)
    requires
        measurable(lines_view(old(lines)@)),
        strips.len() == body_count(lines_view(old(lines)@)),
    ensures
        lines_view(final(lines)@) == decorated(
            lines_view(old(lines)@),
            strips@.map_values(|s: String| s@),
            title@,
            scale@,
            graph_col as int,
        ),
{
    let ghost v = lines_view(lines@);
    let ghost sv = strips@.map_values(|s: String| s@);
    let ghost target = decorated(v, sv, title@, scale@, graph_col as int);
    let n = lines.len();
    let mut k: usize = 0;
    let mut i: usize = 0;
    while i < n
        invariant
            n == lines.len(),
            v.len() == n,
            i <= n,
            k == body_count(v.take(i as int)),
            k <= strips.len() == body_count(v),
            measurable(v),
            sv == strips@.map_values(|s: String| s@),
            target == decorated(v, sv, title@, scale@, graph_col as int),
            forall|j: int| 0 <= j < i ==> #[trigger] line_view(lines@[j]) == target[j],
            forall|j: int| i <= j < n ==> #[trigger] line_view(lines@[j]) == v[j],
        decreases n - i,
    {
        assert(v.take(i + 1).drop_last() =~= v.take(i as int));
        proof {
            lemma_body_count_prefix(v, i as int);
        }
        assert(line_view(lines@[i as int]) == v[i as int]);
        let role = lines[i].role;
        let temp = lines[i].temp;
        let mut text = lines[i].text.clone();
        assert(text@ == v[i as int].0);
        match role {
            Role::Body => {
                if !strips[k].as_str().is_empty() {
                    pad_to(&mut text, graph_col);
                    push_str(&mut text, strips[k].as_str());
                }
                assert(strips[k as int]@ == sv[k as int]);
            },
            Role::GraphTitle => {
                pad_to(&mut text, graph_col);
                push_str(&mut text, title);
            },
            Role::GraphAxis => {
                pad_to(&mut text, graph_col);
                push_str(&mut text, scale);
            },
            Role::Plain => {},
        }
        lines.set(i, OutLine { text, temp, role });
        if role == Role::Body {
            k = k + 1;
        }
        i = i + 1;
    }
    assert(lines_view(lines@) =~= target);
}

/// The graph canvas after the first `j` anchor-to-anchor segments are drawn:
/// segment `i` runs from the anchor of body row `anchors[i]` down to the next
/// anchor, starting from column `starts[i]` and passing the columns `paths[i]`.
pub open spec fn graph_canvas(
    width: int,
    rows: int,
    anchors: Seq<usize>,
    starts: Seq<i32>,
    paths: Seq<Vec<i32>>,
    j: nat,
) -> Seq<u8>
    decreases j,
{
    if j == 0 {
        Seq::new((rows * width) as nat, |i: int| 0u8)
    } else {
        with_path(
            graph_canvas(width, rows, anchors, starts, paths, (j - 1) as nat),
            width,
            rows,
            starts[j - 1] as int,
            dot_row(anchors[j - 1] as int),
            paths[j - 1]@,
        )
    }
}

/// The graph rows as text, one per body line.
pub open spec fn graph_strips(cells: Seq<u8>, width: int, rows: int, colors: Seq<u8>) -> Seq<Seq<char>> {
    Seq::new(rows as nat, |k: int| strip_text(cells.subrange(k * width, k * width + width), colors[k]))
}

/// Segments join consecutive anchors: each passes one column per dot row
/// from one anchor's row to the next.
pub open spec fn segments_fit(plan_rows: int, anchors: Seq<usize>, starts: Seq<i32>, paths: Seq<Vec<i32>>) -> bool {
    &&& starts.len() + 1 == anchors.len()
    &&& paths.len() == starts.len()
    &&& forall|j: int|
        0 <= j < paths.len() ==> {
            &&& anchors[j] < anchors[j + 1] < plan_rows
            &&& (#[trigger] paths[j]).len() == dot_row(anchors[j + 1] as int) - dot_row(anchors[j] as int) + 1
        }
}

// ── Which graph rows are lit ───────────────────────────────────────────────

/// The cell in column `c` of character row `k`.
pub open spec fn cell_at(cells: Seq<u8>, width: int, k: int, c: int) -> u8 {
    cells[k * width + c]
}

/// Whether the cell holding dot (`dx`, `dy`) has some dot set.
pub open spec fn dot_lit(cells: Seq<u8>, width: int, dx: int, dy: int) -> bool {
    cell_at(cells, width, dy / 4, dx / 2) != 0
}

/// Whether some cell of character row `k` is lit.
pub open spec fn row_lit(cells: Seq<u8>, width: int, k: int) -> bool {
    exists|c: int| 0 <= c < width && #[trigger] cell_at(cells, width, k, c) != 0
}

/// `b` keeps every lit cell of `a`.
pub open spec fn grows(a: Seq<u8>, b: Seq<u8>) -> bool {
    &&& a.len() == b.len()
    &&& forall|i: int| #![trigger a[i]] 0 <= i < a.len() && a[i] != 0 ==> b[i] != 0
}

/// Every path column lies inside a canvas `width` cells (twice as many dots) wide.
pub open spec fn columns_inside(width: int, paths: Seq<Vec<i32>>) -> bool {
    forall|q: int, i: int|
        0 <= q < paths.len() && 0 <= i < paths[q].len() ==> 0 <= #[trigger] paths[q]@[i] < 2 * width
}

proof fn lemma_cell_index(width: int, rows: int, k: int, c: int)
    requires
        0 <= k < rows,
        0 <= c < width,
    ensures
        0 <= k * width + c < rows * width,
        k * width + width <= rows * width,
        0 <= k * width,
{
    assert(0 <= k * width + c < rows * width) by (nonlinear_arith)
        requires
            0 <= k < rows,
            0 <= c < width,
    ;
    assert(k * width + width <= rows * width) by (nonlinear_arith)
        requires
            0 <= k < rows,
            0 <= c < width,
    ;
    assert(0 <= k * width) by (nonlinear_arith)
        requires
            0 <= k,
            0 <= c < width,
    ;
}

proof fn lemma_grows_trans(a: Seq<u8>, b: Seq<u8>, c: Seq<u8>)
    requires
        grows(a, b),
        grows(b, c),
    ensures
        grows(a, c),
{
    assert forall|i: int| #![trigger a[i]] 0 <= i < a.len() && a[i] != 0 implies c[i] != 0 by {
        assert(b[i] != 0);
    }
}

proof fn lemma_dot_grows(a: Seq<u8>, b: Seq<u8>, width: int, rows: int, dx: int, dy: int)
    requires
        grows(a, b),
        a.len() == rows * width,
        0 <= dx < 2 * width,
        0 <= dy < 4 * rows,
        dot_lit(a, width, dx, dy),
    ensures
        dot_lit(b, width, dx, dy),
{
    lemma_cell_index(width, rows, dy / 4, dx / 2);
    assert(a[(dy / 4) * width + dx / 2] != 0);
}

proof fn lemma_row_lit_grows(a: Seq<u8>, b: Seq<u8>, width: int, rows: int, k: int)
    requires
        grows(a, b),
        a.len() == rows * width,
        0 <= k < rows,
        row_lit(a, width, k),
    ensures
        row_lit(b, width, k),
{
    let c = choose|c: int| 0 <= c < width && #[trigger] cell_at(a, width, k, c) != 0;
    lemma_cell_index(width, rows, k, c);
    assert(a[k * width + c] != 0);
    assert(cell_at(b, width, k, c) != 0);
}

/// Setting a dot keeps every lit cell and lights the dot's cell.
proof fn lemma_set_dot(cells: Seq<u8>, width: int, rows: int, dx: int, dy: int)
    requires
        cells.len() == rows * width,
    ensures
        grows(cells, with_dot(cells, width, rows, dx, dy)),
        0 <= dx < 2 * width && 0 <= dy < 4 * rows ==> dot_lit(with_dot(cells, width, rows, dx, dy), width, dx, dy),
{
    if !(dx < 0 || dy < 0 || dy / 4 >= rows || dx / 2 >= width) {
        let i = (dy / 4) * width + dx / 2;
        lemma_cell_index(width, rows, dy / 4, dx / 2);
        let bit = braille_bit(dy % 4, dx % 2);
        assert(bit != 0);
        let x = cells[i];
        assert((x | bit) != 0u8) by (bit_vector)
            requires
                bit != 0u8,
        ;
        let r = with_dot(cells, width, rows, dx, dy);
        assert(r == cells.update(i, x | bit));
        assert forall|j: int| #![trigger cells[j]] 0 <= j < cells.len() && cells[j] != 0 implies r[j] != 0 by {
            if j != i {
                assert(r[j] == cells[j]);
            }
        }
    }
}

/// Drawing a span keeps every lit cell and lights every dot of the span.
proof fn lemma_set_span(cells: Seq<u8>, width: int, rows: int, a: int, b: int, y: int)
    requires
        cells.len() == rows * width,
    ensures
        grows(cells, with_span(cells, width, rows, a, b, y)),
        forall|x: int|
            a <= x <= b && 0 <= x < 2 * width && 0 <= y < 4 * rows ==> #[trigger] dot_lit(
                with_span(cells, width, rows, a, b, y),
                width,
                x,
                y,
            ),
    decreases b - a + 1,
{
    if a <= b {
        let c1 = with_dot(cells, width, rows, a, y);
        lemma_set_dot(cells, width, rows, a, y);
        lemma_set_span(c1, width, rows, a + 1, b, y);
        let r = with_span(cells, width, rows, a, b, y);
        assert(r == with_span(c1, width, rows, a + 1, b, y));
        lemma_grows_trans(cells, c1, r);
        assert forall|x: int|
            a <= x <= b && 0 <= x < 2 * width && 0 <= y < 4 * rows implies #[trigger] dot_lit(r, width, x, y) by {
            if x == a {
                lemma_dot_grows(c1, r, width, rows, x, y);
            }
        }
    }
}

/// Drawing a path keeps every lit cell and lights the dot the path passes on
/// each of its rows.
proof fn lemma_draw_path(cells: Seq<u8>, width: int, rows: int, prev: int, y: int, xs: Seq<i32>)
    requires
        cells.len() == rows * width,
    ensures
        grows(cells, with_path(cells, width, rows, prev, y, xs)),
        forall|i: int|
            #![trigger xs[i]]
            0 <= i < xs.len() && 0 <= xs[i] < 2 * width && 0 <= y + i < 4 * rows ==> dot_lit(
                with_path(cells, width, rows, prev, y, xs),
                width,
                xs[i] as int,
                y + i,
            ),
    decreases xs.len(),
{
    if xs.len() > 0 {
        let x = xs[0] as int;
        let (a, b) = if prev <= x {
            (prev, x)
        } else {
            (x, prev)
        };
        let c1 = with_span(cells, width, rows, a, b, y);
        lemma_set_span(cells, width, rows, a, b, y);
        let rest = xs.drop_first();
        lemma_draw_path(c1, width, rows, x, y + 1, rest);
        let r = with_path(cells, width, rows, prev, y, xs);
        assert(r == with_path(c1, width, rows, x, y + 1, rest));
        lemma_grows_trans(cells, c1, r);
        assert forall|i: int|
            #![trigger xs[i]]
            0 <= i < xs.len() && 0 <= xs[i] < 2 * width && 0 <= y + i < 4 * rows implies dot_lit(r, width, xs[i] as int, y + i) by {
            if i == 0 {
                assert(dot_lit(c1, width, x, y));
                lemma_dot_grows(c1, r, width, rows, x, y);
            } else {
                assert(rest[i - 1] == xs[i]);
            }
        }
    }
}

/// The canvas keeps its size as segments are drawn.
proof fn lemma_canvas_len(
    width: int,
    rows: int,
    anchors: Seq<usize>,
    starts: Seq<i32>,
    paths: Seq<Vec<i32>>,
    j: nat,
)
    requires
        width >= 0,
        rows >= 0,
    ensures
        graph_canvas(width, rows, anchors, starts, paths, j).len() == rows * width,
    decreases j,
{
    if j == 0 {
        assert(rows * width >= 0) by (nonlinear_arith)
            requires
                width >= 0,
                rows >= 0,
        ;
    } else {
        let prev = graph_canvas(width, rows, anchors, starts, paths, (j - 1) as nat);
        lemma_canvas_len(width, rows, anchors, starts, paths, (j - 1) as nat);
        lemma_draw_path(prev, width, rows, starts[j - 1] as int, dot_row(anchors[j - 1] as int), paths[j - 1]@);
    }
}

/// Once the first `j` segments are drawn, every row from the first anchor to
/// anchor `j` holds a lit cell.
proof fn lemma_canvas_rows_lit(
    width: int,
    rows: int,
    anchors: Seq<usize>,
    starts: Seq<i32>,
    paths: Seq<Vec<i32>>,
    j: nat,
)
    requires
        width >= 0,
        rows >= 0,
        segments_fit(rows, anchors, starts, paths),
        columns_inside(width, paths),
        1 <= j <= paths.len(),
    ensures
        forall|k: int|
            anchors[0] <= k <= anchors[j as int] ==> #[trigger] row_lit(
                graph_canvas(width, rows, anchors, starts, paths, j),
                width,
                k,
            ),
    decreases j,
{
    let q = j - 1;
    let prev = graph_canvas(width, rows, anchors, starts, paths, q as nat);
    let cur = graph_canvas(width, rows, anchors, starts, paths, j);
    let y0 = dot_row(anchors[q] as int);
    let xs = paths[q]@;
    lemma_canvas_len(width, rows, anchors, starts, paths, q as nat);
    lemma_draw_path(prev, width, rows, starts[q] as int, y0, xs);
    assert(anchors[q] < anchors[q + 1] < rows);
    assert(xs.len() == dot_row(anchors[q + 1] as int) - dot_row(anchors[q] as int) + 1);
    if q > 0 {
        lemma_canvas_rows_lit(width, rows, anchors, starts, paths, q as nat);
    }
    assert forall|k: int| anchors[0] <= k <= anchors[j as int] implies #[trigger] row_lit(cur, width, k) by {
        if k < anchors[q] {
            assert(q > 0);
            assert(row_lit(prev, width, k));
            lemma_row_lit_grows(prev, cur, width, rows, k);
        } else {
            let i = 4 * (k - anchors[q]);
            assert(0 <= i < xs.len());
            let x = xs[i] as int;
            assert(paths[q]@[i] == xs[i]);
            assert(0 <= x < 2 * width);
            assert(y0 + i == 4 * k + 1);
            assert((4 * k + 1) / 4 == k);
            assert(dot_lit(cur, width, x, y0 + i));
            assert(cell_at(cur, width, k, x / 2) != 0);
        }
    }
}

/// A row with a lit cell is trimmed after its last lit cell.
proof fn lemma_lit_len(row: Seq<u8>)
    ensures
        lit_len(row) <= row.len(),
        lit_len(row) > 0 ==> row[lit_len(row) - 1] != 0,
        forall|c: int| 0 <= c < row.len() && #[trigger] row[c] != 0 ==> c < lit_len(row),
    decreases row.len(),
{
    if row.len() > 0 && row.last() == 0 {
        let p = row.drop_last();
        lemma_lit_len(p);
        assert forall|c: int| 0 <= c < row.len() && #[trigger] row[c] != 0 implies c < lit_len(row) by {
            assert(c != row.len() - 1);
            assert(p[c] == row[c]);
        }
    }
}

/// The graph leaves no gap: when every path column lies inside the canvas,
/// each body row from the first anchored row to the last one gets a graph
/// strip that is not empty and ends on a lit braille cell.
pub proof fn law_graph_rows_lit(
    width: int,
    rows: int,
    anchors: Seq<usize>,
    starts: Seq<i32>,
    paths: Seq<Vec<i32>>,
    colors: Seq<u8>,
    k: int,
)
    requires
        width >= 0,
        segments_fit(rows, anchors, starts, paths),
        paths.len() > 0,
        columns_inside(width, paths),
        anchors[0] <= k <= anchors[paths.len() as int],
    ensures
        ({
            let cells = graph_canvas(width, rows, anchors, starts, paths, paths.len() as nat);
            let row = cells.subrange(k * width, k * width + width);
            &&& lit_len(row) > 0
            &&& row[lit_len(row) - 1] != 0
            &&& graph_strips(cells, width, rows, colors)[k].len() > 0
        }),
{
    let cells = graph_canvas(width, rows, anchors, starts, paths, paths.len() as nat);
    assert(anchors[paths.len() - 1] < anchors[paths.len() as int] < rows);
    lemma_canvas_len(width, rows, anchors, starts, paths, paths.len() as nat);
    lemma_canvas_rows_lit(width, rows, anchors, starts, paths, paths.len() as nat);
    assert(row_lit(cells, width, k));
    let c = choose|c: int| 0 <= c < width && #[trigger] cell_at(cells, width, k, c) != 0;
    lemma_cell_index(width, rows, k, c);
    let row = cells.subrange(k * width, k * width + width);
    assert(row[c] == cells[k * width + c]);
    lemma_lit_len(row);
    assert(strip_text(row, colors[k]).len() > 0);
}

/// Draws the temperature graph into the lines: the line through the anchors
/// (segment `j` starting from column `starts[j]` and passing `paths[j]`, one
/// column per dot row), each graph row in colour `colors[k]`, the title that
/// fits above, and the `lo_deg`/`hi_deg` scale below it.
pub fn draw_graph<T: Copy>(
    lines: &mut Vec<OutLine<T>>,
    plan: &GraphPlan,
    starts: &Vec<i32>,
    paths: &Vec<Vec<i32>>,
    colors: &Vec<u8>,
    french: bool,
    lo_deg: i32,
    hi_deg: i32,
)
    requires
        measurable(lines_view(old(lines)@)),
        plan.rows == body_count(lines_view(old(lines)@)),
        plan.rows * plan.graph_w <= usize::MAX,
        plan.rows * 4 + 1 <= i32::MAX,
        colors.len() == plan.rows,
        segments_fit(plan.rows as int, plan.anchors@, starts@, paths@),
    ensures
        lines_view(final(lines)@) == decorated(
            lines_view(old(lines)@),
            graph_strips(
                graph_canvas(
                    plan.graph_w as int,
                    plan.rows as int,
                    plan.anchors@,
                    starts@,
                    paths@,
                    paths.len() as nat,
                ),
                plan.graph_w as int,
                plan.rows as int,
                colors@,
            ),
            centered(graph_title(french, plan.graph_w as int), plan.graph_w as nat),
            axis_line(degree_label(lo_deg), degree_label(hi_deg), plan.graph_w as nat),
            plan.graph_col as int,
        ),
{
    let w = plan.graph_w;
    let n = plan.rows;
    let mut canvas = Canvas::new(w, n);
    let mut j: usize = 0;
    while j < paths.len()
        invariant
            j <= paths.len(),
            canvas.wf(),
            canvas.width() == w,
            canvas.rows() == n,
            n * 4 + 1 <= i32::MAX,
            segments_fit(n as int, plan.anchors@, starts@, paths@),
            canvas.cells() == graph_canvas(w as int, n as int, plan.anchors@, starts@, paths@, j as nat),
        decreases paths.len() - j,
    {
        let k0 = plan.anchors[j];
        let k1 = plan.anchors[j + 1];
        assert(paths[j as int].len() == dot_row(k1 as int) - dot_row(k0 as int) + 1);
        let y0 = k0 as i32 * 4 + 1;
        canvas.draw_path(starts[j], y0, &paths[j]);
        j = j + 1;
    }
    let mut strips: Vec<String> = Vec::new();
    let mut k: usize = 0;
    while k < n
        invariant
            k <= n,
            canvas.wf(),
            canvas.width() == w,
            canvas.rows() == n,
            colors.len() == n,
            strips.len() == k,
            forall|q: int| 0 <= q < k ==> (#[trigger] strips@[q])@ == graph_strips(canvas.cells(), w as int, n as int, colors@)[q],
        decreases n - k,
    {
        let s = canvas.row_strip(k, colors[k]);
        strips.push(s);
        k = k + 1;
    }
    assert(strips@.map_values(|s: String| s@) =~= graph_strips(canvas.cells(), w as int, n as int, colors@));
    let title = center(choose_title(french, w), w);
    let lo_lbl = degree_text(lo_deg);
    let hi_lbl = degree_text(hi_deg);
    let scale = axis(lo_lbl.as_str(), hi_lbl.as_str(), w);
    attach_graph(lines, &strips, title.as_str(), scale.as_str(), plan.graph_col);
}

/// How many body lines a prefix holds, one more each time a body line is passed.
proof fn lemma_body_count_prefix<T>(v: Seq<LineView<T>>, i: int)
    requires
        0 <= i < v.len(),
    ensures
        body_count(v.take(i + 1)) == body_count(v.take(i)) + if v[i].2 == Role::Body {
            1nat
        } else {
            0nat
        },
        body_count(v.take(i + 1)) <= body_count(v),
{
    assert(v.take(i + 1).drop_last() =~= v.take(i));
    lemma_body_count_monotone(v, i + 1);
}

/// A prefix never holds more body lines than the whole.
proof fn lemma_body_count_monotone<T>(v: Seq<LineView<T>>, n: int)
    requires
        0 <= n <= v.len(),
    ensures
        body_count(v.take(n)) <= body_count(v),
    decreases v.len() - n,
{
    if n < v.len() {
        lemma_body_count_monotone(v, n + 1);
        assert(v.take(n + 1).drop_last() =~= v.take(n));
    } else {
        assert(v.take(n) =~= v);
    }
}

/// Every forecast row is an anchor of the temperature line: each body line
/// with a temperature, at line index `i`, is anchored at its rank among the
/// body lines, `body_count(v.take(i))`; and every anchor is such a row.
pub proof fn law_every_row_anchored<T>(v: Seq<LineView<T>>)
    ensures
        forall|i: int|
            0 <= i < v.len() && #[trigger] is_plotted(v[i]) ==> exists|j: int|
                0 <= j < anchors_of(v).len() && #[trigger] anchors_of(v)[j] == (body_count(v.take(i)) as int, i),
        forall|j: int|
            0 <= j < anchors_of(v).len() ==> is_plotted(v[(#[trigger] anchors_of(v)[j]).1]),
    decreases v.len(),
{
    lemma_anchors(v);
    if v.len() > 0 {
        let p = v.drop_last();
        law_every_row_anchored(p);
        let a = anchors_of(v);
        let ap = anchors_of(p);
        assert forall|i: int|
            0 <= i < v.len() && #[trigger] is_plotted(v[i]) implies exists|j: int|
                0 <= j < a.len() && #[trigger] a[j] == (body_count(v.take(i)) as int, i) by {
            if i == v.len() - 1 {
                assert(v.take(i) =~= p);
                assert(a[ap.len() as int] == (body_count(p) as int, i));
            } else {
                assert(p[i] == v[i]);
                assert(p.take(i) =~= v.take(i));
                let j = choose|j: int| 0 <= j < ap.len() && #[trigger] ap[j] == (body_count(p.take(i)) as int, i);
                assert(a[j] == ap[j]);
            }
        }
    }
}

/// The title is the longest variant that fits: the full title (16 characters)
/// from a width of 16, `Temp. °C` from 8, `°C` from 2, nothing below; it
/// never exceeds the width.
pub proof fn law_graph_title(french: bool, width: int)
    ensures
        graph_title(french, width).len() <= if width < 0 { 0 } else { width },
        width >= 16 ==> graph_title(french, width) == if french {
            "Température (°C)"@
        } else {
            "Temperature (°C)"@
        },
        8 <= width < 16 ==> graph_title(french, width) == "Temp. °C"@,
        2 <= width < 8 ==> graph_title(french, width) == "°C"@,
        width < 2 ==> graph_title(french, width).len() == 0,
{
    reveal_strlit("Température (°C)");
    reveal_strlit("Temperature (°C)");
    reveal_strlit("Temp. °C");
    reveal_strlit("°C");
}

/// The Unicode braille dot bits: dots 1, 2, 3 down the left column and 4, 5,
/// 6 down the right take bits 0x01, 0x02, 0x04 and 0x08, 0x10, 0x20; the
/// bottom dots 7 (left) and 8 (right) take 0x40 and 0x80.
pub proof fn law_braille_dots()
    ensures
        braille_bit(0, 0) == 0x01 && braille_bit(1, 0) == 0x02 && braille_bit(2, 0) == 0x04,
        braille_bit(0, 1) == 0x08 && braille_bit(1, 1) == 0x10 && braille_bit(2, 1) == 0x20,
        braille_bit(3, 0) == 0x40 && braille_bit(3, 1) == 0x80,
{
}

} // verus!
