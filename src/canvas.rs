use vstd::prelude::*;

use crate::color::{complement, lemma_complement_differs, solid_cell, Color, CompositedCell, TerminalPixel};
use crate::wire::{cell_text, diff_text, full_text, push_cell_text};

verus! {

/// The number of depth layers of every canvas.
const DEFAULT_MAX_Z_LAYERS: usize = 10;

/// A canvas for drawing to the terminal.
///
/// The canvas is a 3D grid of half-block pixels: `width` columns, `height * 2`
/// half-rows (each terminal row holds a top and a bottom half) and a fixed
/// number of depth layers, where higher layers are drawn over lower ones.
/// Rendering collapses the layers into one pair of colors per terminal cell
/// and emits updates only for the cells that changed since the last render.
pub struct Canvas {
    /// The width of the canvas in terminal character columns.
    pub width: usize,
    /// The height of the canvas in terminal character rows.
    pub height: usize,
    /// The half-block pixels, indexed by (x, half-row, layer), one layer after
    /// another.
    pixels: Vec<TerminalPixel>,
    /// The composited cells of the latest render, row by row.
    composited_cells: Vec<CompositedCell>,
    /// The composited cells that the terminal shows, row by row.
    previous_composited_cells: Vec<CompositedCell>,
    /// The color used for clearing the canvas and for transparent pixels.
    pub default_color: Color,
    /// The number of depth layers.
    max_z_layers: usize,
}

impl Canvas {
    /// The width in terminal columns.
    pub closed spec fn columns(self) -> nat {
        self.width as nat
    }

    /// The height in terminal rows.
    pub closed spec fn rows(self) -> nat {
        self.height as nat
    }

    /// The default color.
    pub closed spec fn background(self) -> Color {
        self.default_color
    }

    /// The colors of all pixels, in storage order.
    pub closed spec fn pixel_colors(self) -> Seq<Color> {
        self.pixels@.map_values(|p: TerminalPixel| p.color)
    }

    /// The number of depth layers.
    pub closed spec fn layers(self) -> nat {
        self.max_z_layers as nat
    }

    /// The cells that the terminal shows, as of the latest render.
    pub closed spec fn previous(self) -> Seq<CompositedCell> {
        self.previous_composited_cells@
    }

    /// The number of terminal cells.
    pub open spec fn cell_count(self) -> nat {
        self.columns() * self.rows()
    }

    /// The number of half-block pixels on one layer.
    pub open spec fn layer_size(self) -> nat {
        self.columns() * self.rows() * 2
    }

    /// The storage is sized by the dimensions, and every index fits in `usize`.
    pub closed spec fn wf(self) -> bool {
        &&& self.max_z_layers == DEFAULT_MAX_Z_LAYERS
        &&& self.width * self.height * 2 * DEFAULT_MAX_Z_LAYERS <= usize::MAX
        &&& self.pixels@.len() == self.layer_size() * self.layers()
        &&& self.composited_cells@.len() == self.cell_count()
        &&& self.previous_composited_cells@.len() == self.cell_count()
    }

    /// Whether (x, y, z) addresses a pixel: a column, a half-row and a layer.
    pub open spec fn in_bounds(self, x: int, y: int, z: int) -> bool {
        &&& 0 <= x < self.columns()
        &&& 0 <= y < self.rows() * 2
        &&& 0 <= z < self.layers()
    }

    /// The storage index of pixel (x, y, z).
    pub open spec fn index_of(self, x: int, y: int, z: int) -> int {
        x + y * self.columns() + z * self.layer_size()
    }

    /// The color stored at (x, y, z).
    pub open spec fn color_at(self, x: int, y: int, z: int) -> Color {
        self.pixel_colors()[self.index_of(x, y, z)]
    }

    /// The color of the highest layer below `z` at (x, y) whose color is not
    /// the default color, or the default color if there is none.
    pub open spec fn resolve_below(self, x: int, y: int, z: int) -> Color
        decreases z,
    {
        if z <= 0 {
            self.background()
        } else if self.color_at(x, y, z - 1) != self.background() {
            self.color_at(x, y, z - 1)
        } else {
            self.resolve_below(x, y, z - 1)
        }
    }

    /// The effective color of half-row `y` in column `x`: that of the highest
    /// layer whose color is not the default, else the default.
    pub open spec fn resolved(self, x: int, y: int) -> Color {
        self.resolve_below(x, y, self.layers() as int)
    }

    /// The composited cell at terminal column `col` and row `row`.
    pub open spec fn cell_at(self, col: int, row: int) -> CompositedCell {
        CompositedCell {
            top_color: self.resolved(col, 2 * row),
            bottom_color: self.resolved(col, 2 * row + 1),
        }
    }

    /// All composited cells, row by row.
    pub open spec fn collapsed(self) -> Seq<CompositedCell> {
        Seq::new(
            self.cell_count(),
            |i: int| self.cell_at(i % self.columns() as int, i / self.columns() as int),
        )
    }

    /// The update that a render emits: each cell whose composited state
    /// differs from what the terminal shows.
    pub open spec fn render_text(self) -> Seq<char> {
        diff_text(self.previous(), self.collapsed(), self.columns(), self.cell_count())
    }

    /// Every pixel holds the default color.
    pub open spec fn is_cleared(self) -> bool {
        forall|i: int|
            0 <= i < self.pixel_colors().len() ==> #[trigger] self.pixel_colors()[i]
                == self.background()
    }

    /// Creates a canvas of `width` columns and `height` rows, with every pixel
    /// set to `default_color`. The terminal is taken to show the complement of
    /// the default color everywhere, so the first render redraws every cell.
    pub fn new(width: usize, height: usize, default_color: Color) -> (r: Canvas)
        requires
            width * height * 2 * 10 <= usize::MAX,
        ensures
            r.wf(),
            r.columns() == width,
            r.rows() == height,
            r.background() == default_color,
            r.layers() == 10,
            r.pixel_colors().len() == width * height * 2 * 10,
            r.is_cleared(),
            r.previous() == Seq::new(
                (width * height) as nat,
                |i: int| solid_cell(complement(default_color)),
            ),
            r.collapsed() == Seq::new(
                (width * height) as nat,
                |i: int| solid_cell(default_color),
            ),
    {
        let initial_pixel = TerminalPixel { color: default_color };
        let initial_composited_cell = CompositedCell {
            top_color: default_color,
            bottom_color: default_color,
        };
        let opposite_color = default_color.complement();
        let different_composited_cell = CompositedCell {
            top_color: opposite_color,
            bottom_color: opposite_color,
        };
        let total_half_block_pixels: usize = width * height * 2 * DEFAULT_MAX_Z_LAYERS;
        let total_terminal_cells: usize = width * height;
        let r = Canvas {
            width,
            height,
            pixels: vec![initial_pixel; total_half_block_pixels],
            composited_cells: vec![initial_composited_cell; total_terminal_cells],
            previous_composited_cells: vec![different_composited_cell; total_terminal_cells],
            default_color,
            max_z_layers: DEFAULT_MAX_Z_LAYERS,
        };
        assert(r.previous() =~= Seq::new(
            (width * height) as nat,
            |i: int| solid_cell(complement(default_color)),
        ));
        proof {
            r.lemma_cleared_collapses();
        }
        r
    }

    /// Resets every pixel to the default color. What the terminal shows, as
    /// far as the next render knows, is left as it is.
    pub fn clear(&mut self)
        requires
            old(self).wf(),
        ensures
            final(self).wf(),
            final(self).columns() == old(self).columns(),
            final(self).rows() == old(self).rows(),
            final(self).background() == old(self).background(),
            final(self).layers() == old(self).layers(),
            final(self).pixel_colors().len() == old(self).pixel_colors().len(),
            final(self).is_cleared(),
            final(self).previous() == old(self).previous(),
            final(self).collapsed() == Seq::new(
                final(self).cell_count(),
                |i: int| solid_cell(final(self).background()),
            ),
    {
        let initial_pixel = TerminalPixel { color: self.default_color };
        let n = self.pixels.len();
        let mut i: usize = 0;
        while i < n
            invariant
                self.wf(),
                n == self.pixels@.len(),
                i <= n,
                self.width == old(self).width,
                self.height == old(self).height,
                self.default_color == old(self).default_color,
                self.max_z_layers == old(self).max_z_layers,
                self.previous_composited_cells == old(self).previous_composited_cells,
                self.composited_cells == old(self).composited_cells,
                initial_pixel.color == self.default_color,
                forall|j: int| 0 <= j < i ==> #[trigger] self.pixels@[j].color == self.default_color,
            decreases n - i,
        {
            self.pixels.set(i, initial_pixel);
            i = i + 1;
        }
        proof {
            assert(self.is_cleared());
            self.lemma_cleared_collapses();
        }
    }

    /// A cleared canvas collapses to the default color in every cell.
    pub proof fn lemma_cleared_collapses(self)
        requires
            self.wf(),
            self.is_cleared(),
        ensures
            self.collapsed() == Seq::new(self.cell_count(), |i: int| solid_cell(self.background())),
    {
        assert forall|i: int| 0 <= i < self.cell_count() implies #[trigger] self.collapsed()[i]
            == solid_cell(self.background()) by {
            let col = i % self.columns() as int;
            let row = i / self.columns() as int;
            lemma_cell_position(self.columns() as int, self.rows() as int, i);
            self.lemma_cleared_resolves(col, 2 * row, self.layers() as int);
            self.lemma_cleared_resolves(col, 2 * row + 1, self.layers() as int);
        }
        assert(self.collapsed() =~= Seq::new(
            self.cell_count(),
            |i: int| solid_cell(self.background()),
        ));
    }

    /// Below a layer `z` whose color is not the default, with only default
    /// colors between `z` and `top`, the scan from `top` stops at `z`.
    proof fn lemma_scan_stops_at(self, x: int, y: int, z: int, top: int)
        requires
            0 <= z < top,
            self.color_at(x, y, z) != self.background(),
            forall|k: int| z < k < top ==> #[trigger] self.color_at(x, y, k) == self.background(),
        ensures
            self.resolve_below(x, y, top) == self.color_at(x, y, z),
        decreases top,
    {
        if top > z + 1 {
            self.lemma_scan_stops_at(x, y, z, top - 1);
        }
    }

    /// With only default colors below `top`, the scan finds the default color.
    proof fn lemma_scan_finds_nothing(self, x: int, y: int, top: int)
        requires
            forall|k: int| 0 <= k < top ==> #[trigger] self.color_at(x, y, k) == self.background(),
        ensures
            self.resolve_below(x, y, top) == self.background(),
        decreases top,
    {
        if top > 0 {
            self.lemma_scan_finds_nothing(x, y, top - 1);
        }
    }

    /// The topmost layer wins: where layer `z` at (x, y) holds a color other
    /// than the default and every layer above it holds the default, the
    /// effective color is that of layer `z`.
    pub proof fn lemma_topmost_layer_wins(self, x: int, y: int, z: int)
        requires
            self.in_bounds(x, y, z),
            self.color_at(x, y, z) != self.background(),
            forall|k: int|
                z < k < self.layers() ==> #[trigger] self.color_at(x, y, k) == self.background(),
        ensures
            self.resolved(x, y) == self.color_at(x, y, z),
    {
        self.lemma_scan_stops_at(x, y, z, self.layers() as int);
    }

    /// Layer priority: where layers 1 and 3 at (x, y) hold two different
    /// colors, neither of them the default, and no layer above 3 is drawn on,
    /// the effective color is that of layer 3.
    pub proof fn lemma_higher_layer_covers_lower(self, x: int, y: int)
        requires
            self.in_bounds(x, y, 3),
            self.color_at(x, y, 1) != self.background(),
            self.color_at(x, y, 3) != self.background(),
            self.color_at(x, y, 1) != self.color_at(x, y, 3),
            forall|k: int|
                3 < k < self.layers() ==> #[trigger] self.color_at(x, y, k) == self.background(),
        ensures
            self.resolved(x, y) == self.color_at(x, y, 3),
            self.resolved(x, y) != self.color_at(x, y, 1),
    {
        self.lemma_topmost_layer_wins(x, y, 3);
    }

    /// A written pixel reads back: where `after` is `before` with pixel
    /// (x, y, z) set to `color`, as `set_pixel` leaves it, and no other layer
    /// at (x, y) holds a color other than the default, the effective color at
    /// (x, y) is `color`.
    pub proof fn lemma_written_pixel_reads_back(
        before: Canvas,
        after: Canvas,
        x: int,
        y: int,
        z: int,
        color: Color,
    )
        requires
            before.wf(),
            before.in_bounds(x, y, z),
            after.columns() == before.columns(),
            after.rows() == before.rows(),
            after.background() == before.background(),
            after.layers() == before.layers(),
            after.pixel_colors() == before.pixel_colors().update(before.index_of(x, y, z), color),
            forall|k: int|
                0 <= k < before.layers() && k != z ==> #[trigger] before.color_at(x, y, k)
                    == before.background(),
        ensures
            after.resolved(x, y) == color,
    {
        assert(before.layer_size() > 0) by (nonlinear_arith)
            requires
                0 <= x < before.columns(),
                0 <= y < before.rows() * 2,
                before.layer_size() == before.columns() * before.rows() * 2,
        ;
        before.lemma_color_at_in_range(x, y, z);
        assert forall|k: int| 0 <= k < after.layers() && k != z implies #[trigger] after.color_at(
            x,
            y,
            k,
        ) == after.background() by {
            before.lemma_color_at_in_range(x, y, k);
            assert(k * before.layer_size() != z * before.layer_size()) by (nonlinear_arith)
                requires
                    k != z,
                    before.layer_size() > 0,
            ;
            assert(before.color_at(x, y, k) == before.background());
        }
        assert(after.color_at(x, y, z) == color);
        if color == after.background() {
            after.lemma_scan_finds_nothing(x, y, after.layers() as int);
        } else {
            after.lemma_topmost_layer_wins(x, y, z);
        }
    }

    /// Rendering is idempotent: once a cleared canvas has been rendered, a
    /// canvas cleared again, with nothing drawn since, renders to an empty
    /// update. `first` is the canvas as the first render found it; `second` is
    /// the canvas after that render and the second clear.
    pub proof fn lemma_clear_render_twice_is_empty(first: Canvas, second: Canvas)
        requires
            first.wf(),
            second.wf(),
            first.is_cleared(),
            second.is_cleared(),
            second.columns() == first.columns(),
            second.rows() == first.rows(),
            second.background() == first.background(),
            second.previous() == first.collapsed(),
        ensures
            second.render_text() == Seq::<char>::empty(),
    {
        first.lemma_cleared_collapses();
        second.lemma_cleared_collapses();
        lemma_no_change_no_text(second.previous(), second.collapsed(), second.columns(), second.cell_count());
    }

    /// A render emits nothing when the terminal already shows every cell as
    /// the canvas collapses it.
    pub proof fn lemma_synchronized_render_is_empty(self)
        requires
            self.previous() == self.collapsed(),
        ensures
            self.render_text() == Seq::<char>::empty(),
    {
        lemma_no_change_no_text(self.previous(), self.collapsed(), self.columns(), self.cell_count());
    }

    /// The first render of a new canvas, with nothing drawn, redraws every
    /// terminal cell once, in row-major order; the update is empty only for a
    /// canvas without cells.
    pub proof fn lemma_first_render_draws_every_cell(c: Canvas)
        requires
            c.wf(),
            c.is_cleared(),
            c.previous() == Seq::new(c.cell_count(), |i: int| solid_cell(complement(c.background()))),
        ensures
            c.render_text() == full_text(c.collapsed(), c.columns(), c.cell_count()),
            c.cell_count() > 0 ==> c.render_text().len() > 0,
    {
        c.lemma_cleared_collapses();
        lemma_complement_differs(c.background());
        lemma_all_changed_full_text(c.previous(), c.collapsed(), c.columns(), c.cell_count());
        if c.cell_count() > 0 {
            let n = c.cell_count();
            let i = (n - 1) as nat;
            assert(full_text(c.collapsed(), c.columns(), n) == full_text(c.collapsed(), c.columns(), i)
                + cell_text(i / c.columns(), i % c.columns(), c.collapsed()[i as int]));
        }
    }

    /// On a cleared canvas every half-row resolves to the default color.
    pub proof fn lemma_cleared_resolves(self, x: int, y: int, z: int)
        requires
            self.wf(),
            self.is_cleared(),
            0 <= x < self.columns(),
            0 <= y < self.rows() * 2,
            0 <= z <= self.layers(),
        ensures
            self.resolve_below(x, y, z) == self.background(),
        decreases z,
    {
        if z > 0 {
            self.lemma_color_at_in_range(x, y, z - 1);
            self.lemma_cleared_resolves(x, y, z - 1);
        }
    }

    /// An addressable pixel has a place in the storage.
    pub proof fn lemma_color_at_in_range(self, x: int, y: int, z: int)
        requires
            self.wf(),
            self.in_bounds(x, y, z),
        ensures
            0 <= self.index_of(x, y, z) < self.pixel_colors().len(),
    {
        lemma_index_in_range(self.width as int, self.height as int, self.max_z_layers as int, x, y, z);
    }

    /// The storage index of (x, y, z), or `None` where it is out of bounds.
    fn get_index(&self, x: usize, y: usize, z: usize) -> (r: Option<usize>)
        requires
            self.wf(),
        ensures
            match r {
                Some(i) => self.in_bounds(x as int, y as int, z as int) && i == self.index_of(
                    x as int,
                    y as int,
                    z as int,
                ) && i < self.pixels@.len(),
                None => !self.in_bounds(x as int, y as int, z as int),
            },
    {
        if x >= self.width {
            return None;
        }
        proof {
            lemma_half_rows_fit(self.width as int, self.height as int);
        }
        if y >= self.height * 2 {
            return None;
        }
        if z >= self.max_z_layers {
            return None;
        }
        proof {
            lemma_index_in_range(
                self.width as int,
                self.height as int,
                self.max_z_layers as int,
                x as int,
                y as int,
                z as int,
            );
        }
        Some(x + (y * self.width) + (z * self.width * self.height * 2))
    }

    /// Sets the pixel at column `x`, half-row `y` and layer `z` to `color`.
    /// Half-row `2 * r` is the top half of terminal row `r`, `2 * r + 1` its
    /// bottom half. A write out of bounds changes nothing.
    pub fn set_pixel(&mut self, x: usize, y: usize, z: usize, color: Color)
        requires
            old(self).wf(),
        ensures
            final(self).wf(),
            final(self).columns() == old(self).columns(),
            final(self).rows() == old(self).rows(),
            final(self).background() == old(self).background(),
            final(self).layers() == old(self).layers(),
            final(self).previous() == old(self).previous(),
            old(self).in_bounds(x as int, y as int, z as int) ==> final(self).pixel_colors()
                == old(self).pixel_colors().update(
                old(self).index_of(x as int, y as int, z as int),
                color,
            ),
            old(self).in_bounds(x as int, y as int, z as int) ==> final(self).color_at(
                x as int,
                y as int,
                z as int,
            ) == color,
            !old(self).in_bounds(x as int, y as int, z as int) ==> *final(self) == *old(self),
    {
        if let Some(index) = self.get_index(x, y, z) {
            self.pixels.set(index, TerminalPixel { color });
            assert(self.pixel_colors() =~= old(self).pixel_colors().update(index as int, color));
        }
    }

    /// The effective color of half-row `y` in column `x`: the scan goes down
    /// from the highest layer and stops at the first color that is not the
    /// default.
    fn resolve_color(&self, x: usize, y: usize) -> (c: Color)
        requires
            self.wf(),
            x < self.width,
            y < self.height * 2,
        ensures
            c == self.resolved(x as int, y as int),
    {
        let mut z: usize = self.max_z_layers;
        while z > 0
            invariant
                self.wf(),
                z <= self.max_z_layers,
                x < self.width,
                y < self.height * 2,
                self.resolve_below(x as int, y as int, z as int) == self.resolved(x as int, y as int),
            decreases z,
        {
            if let Some(index) = self.get_index(x, y, z - 1) {
                let pixel = &self.pixels[index];
                assert(self.pixel_colors()[index as int] == pixel.color);
                if pixel.color != self.default_color {
                    return pixel.color;
                }
            }
            z = z - 1;
        }
        self.default_color
    }

    /// Collapses the layers of every terminal cell into its top and bottom
    /// colors and returns the escape sequences that bring the terminal up to
    /// date: for each cell that differs from what the terminal shows, row by
    /// row, a cursor move, the background set to the top color, the
    /// foreground set to the bottom color and a lower half-block. The
    /// composited cells are then taken as what the terminal shows.
    pub fn render(&mut self) -> (r: String)
        requires
            old(self).wf(),
        ensures
            final(self).wf(),
            final(self).columns() == old(self).columns(),
            final(self).rows() == old(self).rows(),
            final(self).background() == old(self).background(),
            final(self).layers() == old(self).layers(),
            final(self).pixel_colors() == old(self).pixel_colors(),
            final(self).previous() == old(self).collapsed(),
            final(self).collapsed() == old(self).collapsed(),
            r@ == old(self).render_text(),
    {
        let ghost prev = self.previous();
        let ghost cur = self.collapsed();
        let mut buffer = String::new();
        let mut terminal_cell_y: usize = 0;
        while terminal_cell_y < self.height
            invariant
                self.wf(),
                self.width == old(self).width,
                self.height == old(self).height,
                self.default_color == old(self).default_color,
                self.max_z_layers == old(self).max_z_layers,
                self.pixels == old(self).pixels,
                self.previous_composited_cells == old(self).previous_composited_cells,
                prev == old(self).previous(),
                cur == old(self).collapsed(),
                terminal_cell_y <= self.height,
                buffer@ == diff_text(prev, cur, self.width as nat, (terminal_cell_y * self.width) as nat),
                forall|j: int|
                    0 <= j < terminal_cell_y * self.width ==> #[trigger] self.composited_cells@[j]
                        == cur[j],
            decreases self.height - terminal_cell_y,
        {
            let mut terminal_cell_x: usize = 0;
            while terminal_cell_x < self.width
                invariant
                    self.wf(),
                    self.width == old(self).width,
                    self.height == old(self).height,
                    self.default_color == old(self).default_color,
                    self.max_z_layers == old(self).max_z_layers,
                    self.pixels == old(self).pixels,
                    self.previous_composited_cells == old(self).previous_composited_cells,
                    prev == old(self).previous(),
                    cur == old(self).collapsed(),
                    terminal_cell_y < self.height,
                    terminal_cell_x <= self.width,
                    buffer@ == diff_text(
                        prev,
                        cur,
                        self.width as nat,
                        (terminal_cell_y * self.width + terminal_cell_x) as nat,
                    ),
                    forall|j: int|
                        0 <= j < terminal_cell_y * self.width + terminal_cell_x
                            ==> #[trigger] self.composited_cells@[j] == cur[j],
                decreases self.width - terminal_cell_x,
            {
                proof {
                    lemma_half_rows_fit(self.width as int, self.height as int);
                    lemma_cell_index(
                        self.width as int,
                        self.height as int,
                        terminal_cell_x as int,
                        terminal_cell_y as int,
                    );
                }
                let top_half_pixel_y = terminal_cell_y * 2;
                let bottom_half_pixel_y = terminal_cell_y * 2 + 1;
                let current_top_color = self.resolve_color(terminal_cell_x, top_half_pixel_y);
                let current_bottom_color = self.resolve_color(terminal_cell_x, bottom_half_pixel_y);
                let current_composited_cell = CompositedCell {
                    top_color: current_top_color,
                    bottom_color: current_bottom_color,
                };
                let terminal_cell_index = terminal_cell_y * self.width + terminal_cell_x;
                proof {
                    lemma_resolution_congruent(*old(self), *self, terminal_cell_x as int, top_half_pixel_y as int, self.max_z_layers as int);
                    lemma_resolution_congruent(*old(self), *self, terminal_cell_x as int, bottom_half_pixel_y as int, self.max_z_layers as int);
                }
                assert(cur[terminal_cell_index as int] == current_composited_cell);
                if current_composited_cell != self.previous_composited_cells[terminal_cell_index] {
                    push_cell_text(
                        &mut buffer,
                        terminal_cell_y,
                        terminal_cell_x,
                        current_composited_cell,
                    );
                }
                self.composited_cells.set(terminal_cell_index, current_composited_cell);
                terminal_cell_x = terminal_cell_x + 1;
            }
            proof {
                assert((terminal_cell_y + 1) * self.width == terminal_cell_y * self.width
                    + self.width) by (nonlinear_arith);
            }
            terminal_cell_y = terminal_cell_y + 1;
        }
        self.previous_composited_cells = self.composited_cells.clone();
        proof {
            assert(self.height * self.width == self.width * self.height) by (nonlinear_arith);
            assert(self.previous() =~= cur);
            assert forall|i: int| 0 <= i < cur.len() implies #[trigger] self.collapsed()[i] == cur[i] by {
                let col = i % self.width as int;
                let row = i / self.width as int;
                lemma_resolution_congruent(*old(self), *self, col, 2 * row, self.max_z_layers as int);
                lemma_resolution_congruent(*old(self), *self, col, 2 * row + 1, self.max_z_layers as int);
            }
            assert(self.collapsed() =~= cur);
        }
        buffer
    }
}

/// Where no cell changed, the update is empty.
proof fn lemma_no_change_no_text(
    prev: Seq<CompositedCell>,
    cur: Seq<CompositedCell>,
    width: nat,
    n: nat,
)
    requires
        n <= cur.len(),
        forall|i: int| 0 <= i < n ==> #[trigger] cur[i] == prev[i],
    ensures
        diff_text(prev, cur, width, n) == Seq::<char>::empty(),
    decreases n,
{
    if n > 0 {
        lemma_no_change_no_text(prev, cur, width, (n - 1) as nat);
        assert(cur[n - 1] == prev[n - 1]);
        assert(diff_text(prev, cur, width, n) =~= Seq::<char>::empty());
    }
}

/// Where every cell changed, the update redraws them all.
proof fn lemma_all_changed_full_text(
    prev: Seq<CompositedCell>,
    cur: Seq<CompositedCell>,
    width: nat,
    n: nat,
)
    requires
        forall|i: int| 0 <= i < n ==> #[trigger] cur[i] != prev[i],
    ensures
        diff_text(prev, cur, width, n) == full_text(cur, width, n),
    decreases n,
{
    if n > 0 {
        lemma_all_changed_full_text(prev, cur, width, (n - 1) as nat);
        assert(cur[n - 1] != prev[n - 1]);
    }
}

/// Resolution reads only the pixels, the dimensions and the default color.
proof fn lemma_resolution_congruent(a: Canvas, b: Canvas, x: int, y: int, z: int)
    requires
        a.pixel_colors() == b.pixel_colors(),
        a.columns() == b.columns(),
        a.rows() == b.rows(),
        a.background() == b.background(),
    ensures
        a.resolve_below(x, y, z) == b.resolve_below(x, y, z),
    decreases z,
{
    if z > 0 {
        lemma_resolution_congruent(a, b, x, y, z - 1);
    }
}

/// Cell (x, y) of a grid `w` cells wide and `h` high has index `y * w + x`.
proof fn lemma_cell_index(w: int, h: int, x: int, y: int)
    requires
        0 <= x < w,
        0 <= y < h,
    ensures
        0 <= y * w + x < w * h,
        (y * w + x) % w == x,
        (y * w + x) / w == y,
{
    vstd::arithmetic::div_mod::lemma_fundamental_div_mod_converse(y * w + x, w, y, x);
    assert(y * w + x < w * h) by (nonlinear_arith)
        requires
            0 <= x < w,
            0 <= y < h,
    ;
    assert(0 <= y * w) by (nonlinear_arith)
        requires
            0 <= x < w,
            0 <= y,
    ;
}

/// The column and row of cell `i` of a grid `w` cells wide and `h` high.
proof fn lemma_cell_position(w: int, h: int, i: int)
    requires
        0 <= w,
        0 <= h,
        0 <= i < w * h,
    ensures
        0 <= i % w < w,
        0 <= i / w < h,
        0 <= 2 * (i / w) + 1 < 2 * h,
{
    assert(w > 0) by (nonlinear_arith)
        requires
            0 <= w,
            0 <= h,
            0 <= i < w * h,
    ;
    vstd::arithmetic::div_mod::lemma_fundamental_div_mod(i, w);
    assert(i / w < h) by (nonlinear_arith)
        requires
            0 <= i < w * h,
            w > 0,
            i == w * (i / w) + i % w,
            0 <= i % w,
    ;
    assert(0 <= i / w) by (nonlinear_arith)
        requires
            0 <= i,
            w > 0,
    ;
}

/// With at least one column, the half-rows of a canvas can be counted in `usize`.
proof fn lemma_half_rows_fit(w: int, h: int)
    requires
        1 <= w,
        0 <= h,
        w * h * 2 * 10 <= usize::MAX,
    ensures
        h * 2 <= usize::MAX,
{
    assert(h * 2 <= w * h * 2) by (nonlinear_arith)
        requires
            1 <= w,
            0 <= h,
    ;
    assert(w * h * 2 <= w * h * 2 * 10) by (nonlinear_arith)
        requires
            0 <= w,
            0 <= h,
    ;
}

/// The index of an addressable pixel lies within the storage.
proof fn lemma_index_in_range(w: int, h: int, l: int, x: int, y: int, z: int)
    requires
        0 <= x < w,
        0 <= y < h * 2,
        0 <= z < l,
    ensures
        0 <= x + y * w + z * (w * h * 2) < w * h * 2 * l,
        0 <= y * w + z * (w * h * 2),
        x + y * w + z * (w * h * 2) == x + y * w + z * w * h * 2,
        0 <= z * w <= z * w * h,
        z * w * h <= z * w * h * 2,
{
    assert(0 <= z * w <= z * w * h) by (nonlinear_arith)
        requires
            0 <= z,
            0 <= w,
            1 <= h,
    ;
    assert(y * w <= (h * 2 - 1) * w) by (nonlinear_arith)
        requires
            0 <= y < h * 2,
            0 <= w,
    ;
    assert(z * (w * h * 2) <= (l - 1) * (w * h * 2)) by (nonlinear_arith)
        requires
            0 <= z < l,
            0 <= w,
            0 <= h,
    ;
    assert((h * 2 - 1) * w == w * h * 2 - w) by (nonlinear_arith);
    assert((l - 1) * (w * h * 2) == w * h * 2 * l - w * h * 2) by (nonlinear_arith);
    assert(0 <= y * w) by (nonlinear_arith)
        requires
            0 <= y,
            0 <= w,
    ;
    assert(0 <= z * (w * h * 2)) by (nonlinear_arith)
        requires
            0 <= z,
            0 <= w,
            0 <= h,
    ;
    assert(z * (w * h * 2) == z * w * h * 2) by (nonlinear_arith);
}

} // verus!
