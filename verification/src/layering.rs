//! What drawing patches on a canvas does to single cells: the size of the
//! canvas never changes, a pixel touches no cell but its own, the last
//! opaque pixel to land in a cell shows there, a transparent pixel leaves a
//! decided cell alone, and what lands outside the canvas changes nothing.

use vstd::prelude::*;
use crate::compose::{
    blank_canvas,
    blit_column,
    blit_columns,
    blit_patch,
    blit_patch_pixel,
    blit_pixel,
    compose_pixels,
    compose_prefix,
    dest_cell,
    dest_column,
    dest_row,
    in_canvas,
    patch_offset,
    PatchView,
    OPAQUE,
    TRANSPARENT,
    UNDECIDED,
};
use crate::definition::{DefinitionView, PatchPlacement};

verus! {

/// The alpha of a cell.
pub open spec fn alpha_at(canvas: Seq<u8>, cell: int) -> u8 {
    canvas[4 * cell + 3]
}

/// Whether `cell` holds the colour `(r, g, b)` with alpha `a`.
pub open spec fn cell_shows(canvas: Seq<u8>, cell: int, r: u8, g: u8, b: u8, a: u8) -> bool {
    &&& canvas[4 * cell] == r
    &&& canvas[4 * cell + 1] == g
    &&& canvas[4 * cell + 2] == b
    &&& canvas[4 * cell + 3] == a
}

/// Whether `cell` holds the same four bytes in both canvases.
pub open spec fn same_cell(first: Seq<u8>, second: Seq<u8>, cell: int) -> bool {
    &&& first[4 * cell] == second[4 * cell]
    &&& first[4 * cell + 1] == second[4 * cell + 1]
    &&& first[4 * cell + 2] == second[4 * cell + 2]
    &&& first[4 * cell + 3] == second[4 * cell + 3]
}

/// Whether pixel `(x, y)` of a patch is anything but transparent.
pub open spec fn is_opaque_pixel(patch: PatchView, x: int, y: int) -> bool {
    patch.pixels[patch_offset(patch, x, y) + 3] != TRANSPARENT
}

/// Whether `cell` of the canvas shows pixel `(x, y)` of a patch, opaque.
pub open spec fn shows_patch_pixel(canvas: Seq<u8>, cell: int, patch: PatchView, x: int, y: int) -> bool {
    let at = patch_offset(patch, x, y);
    cell_shows(canvas, cell, patch.pixels[at], patch.pixels[at + 1], patch.pixels[at + 2], OPAQUE)
}

/// Whether every cell of the canvas is undecided, transparent or opaque.
pub open spec fn alphas_settled(canvas: Seq<u8>) -> bool {
    forall|cell: int|
        in_canvas(canvas, cell) ==> {
            let a = #[trigger] alpha_at(canvas, cell);
            a == UNDECIDED || a == TRANSPARENT || a == OPAQUE
        }
}

/// Drawing the first rows of a column keeps the size of the canvas.
pub proof fn lemma_blit_column_len(
    canvas: Seq<u8>,
    width: int,
    height: int,
    placement: PatchPlacement,
    patch: PatchView,
    x: int,
    rows: nat,
)
    ensures
        blit_column(canvas, width, height, placement, patch, x, rows).len() == canvas.len(),
    decreases rows,
{
    if rows > 0 {
        lemma_blit_column_len(canvas, width, height, placement, patch, x, (rows - 1) as nat);
    }
}

/// Drawing the first columns of a patch keeps the size of the canvas.
pub proof fn lemma_blit_columns_len(
    canvas: Seq<u8>,
    width: int,
    height: int,
    placement: PatchPlacement,
    patch: PatchView,
    columns: nat,
)
    ensures
        blit_columns(canvas, width, height, placement, patch, columns).len() == canvas.len(),
    decreases columns,
{
    if columns > 0 {
        let before = blit_columns(canvas, width, height, placement, patch, (columns - 1) as nat);
        lemma_blit_columns_len(canvas, width, height, placement, patch, (columns - 1) as nat);
        lemma_blit_column_len(before, width, height, placement, patch, columns - 1, patch.height);
    }
}

/// The columns of a patch without rows change nothing.
pub proof fn lemma_columns_without_rows(
    canvas: Seq<u8>,
    width: int,
    height: int,
    placement: PatchPlacement,
    patch: PatchView,
    columns: nat,
)
    requires
        patch.height == 0,
    ensures
        blit_columns(canvas, width, height, placement, patch, columns) == canvas,
    decreases columns,
{
    if columns > 0 {
        lemma_columns_without_rows(canvas, width, height, placement, patch, (columns - 1) as nat);
    }
}

/// Drawing the first rows of a column keeps every alpha undecided,
/// transparent or opaque.
pub proof fn lemma_blit_column_alphas(
    canvas: Seq<u8>,
    width: int,
    height: int,
    placement: PatchPlacement,
    patch: PatchView,
    x: int,
    rows: nat,
)
    requires
        alphas_settled(canvas),
    ensures
        alphas_settled(blit_column(canvas, width, height, placement, patch, x, rows)),
    decreases rows,
{
    if rows > 0 {
        let before = blit_column(canvas, width, height, placement, patch, x, (rows - 1) as nat);
        let after = blit_column(canvas, width, height, placement, patch, x, rows);
        lemma_blit_column_alphas(canvas, width, height, placement, patch, x, (rows - 1) as nat);
        assert forall|cell: int| in_canvas(after, cell) implies {
            let a = #[trigger] alpha_at(after, cell);
            a == UNDECIDED || a == TRANSPARENT || a == OPAQUE
        } by {
            assert(in_canvas(before, cell));
            let a = alpha_at(before, cell);
            assert(a == UNDECIDED || a == TRANSPARENT || a == OPAQUE);
        }
    }
}

/// Drawing the first columns of a patch keeps every alpha undecided,
/// transparent or opaque.
pub proof fn lemma_blit_columns_alphas(
    canvas: Seq<u8>,
    width: int,
    height: int,
    placement: PatchPlacement,
    patch: PatchView,
    columns: nat,
)
    requires
        alphas_settled(canvas),
    ensures
        alphas_settled(blit_columns(canvas, width, height, placement, patch, columns)),
    decreases columns,
{
    if columns > 0 {
        let before = blit_columns(canvas, width, height, placement, patch, (columns - 1) as nat);
        lemma_blit_columns_alphas(canvas, width, height, placement, patch, (columns - 1) as nat);
        lemma_blit_column_alphas(before, width, height, placement, patch, columns - 1, patch.height);
    }
}

/// After any number of placements the canvas has four bytes for each cell
/// of the declared size, and every alpha is undecided, transparent or
/// opaque.
pub proof fn lemma_compose_prefix_canvas(
    definition: DefinitionView,
    patches: Seq<PatchView>,
    count: nat,
)
    ensures
        compose_prefix(definition, patches, count).len() == 4 * (definition.width
            * definition.height),
        alphas_settled(compose_prefix(definition, patches, count)),
    decreases count,
{
    let width = definition.width as int;
    let height = definition.height as int;
    if count == 0 {
        let blank = blank_canvas(width, height);
        assert forall|cell: int| in_canvas(blank, cell) implies #[trigger] alpha_at(blank, cell)
            == UNDECIDED by {}
    } else {
        let before = compose_prefix(definition, patches, (count - 1) as nat);
        let placement = definition.placements[count - 1];
        let patch = patches[placement.patch_index as int];
        lemma_compose_prefix_canvas(definition, patches, (count - 1) as nat);
        lemma_blit_columns_len(before, width, height, placement, patch, patch.width);
        lemma_blit_columns_alphas(before, width, height, placement, patch, patch.width);
    }
}

/// The finished pixels of a definition are four bytes for each cell of the
/// declared size, whatever the patches cover, and every alpha among them is
/// undecided, transparent or opaque.
pub proof fn lemma_compose_pixels_canvas(definition: DefinitionView, patches: Seq<PatchView>)
    ensures
        compose_pixels(definition, patches).len() == 4 * (definition.width * definition.height),
        alphas_settled(compose_pixels(definition, patches)),
{
    lemma_compose_prefix_canvas(definition, patches, definition.placements.len());
}

/// An opaque pixel that lands in the canvas gives its cell its colour and
/// makes it opaque, whatever the cell held.
pub proof fn lemma_opaque_pixel_overwrites(canvas: Seq<u8>, cell: int, r: u8, g: u8, b: u8, a: u8)
    requires
        in_canvas(canvas, cell),
        a != TRANSPARENT,
    ensures
        cell_shows(blit_pixel(canvas, cell, r, g, b, a), cell, r, g, b, OPAQUE),
{
}

/// Of two opaque pixels drawn one after the other in one cell, the later
/// one shows, whatever the canvas held and whatever the earlier one was.
pub proof fn lemma_later_pixel_wins(
    canvas: Seq<u8>,
    cell: int,
    earlier: (u8, u8, u8, u8),
    later: (u8, u8, u8, u8),
)
    requires
        in_canvas(canvas, cell),
        later.3 != TRANSPARENT,
    ensures
        cell_shows(
            blit_pixel(
                blit_pixel(canvas, cell, earlier.0, earlier.1, earlier.2, earlier.3),
                cell,
                later.0,
                later.1,
                later.2,
                later.3,
            ),
            cell,
            later.0,
            later.1,
            later.2,
            OPAQUE,
        ),
{
}

/// A pixel changes no cell but the one it lands in.
pub proof fn lemma_pixel_touches_one_cell(
    canvas: Seq<u8>,
    cell: int,
    r: u8,
    g: u8,
    b: u8,
    a: u8,
    other: int,
)
    requires
        in_canvas(canvas, other),
        other != cell,
    ensures
        same_cell(blit_pixel(canvas, cell, r, g, b, a), canvas, other),
{
}

/// A transparent pixel changes nothing in a cell that is already opaque or
/// already transparent.
pub proof fn lemma_transparent_pixel_keeps_decided_cell(
    canvas: Seq<u8>,
    cell: int,
    r: u8,
    g: u8,
    b: u8,
)
    requires
        in_canvas(canvas, cell),
        alpha_at(canvas, cell) == OPAQUE || alpha_at(canvas, cell) == TRANSPARENT,
    ensures
        blit_pixel(canvas, cell, r, g, b, TRANSPARENT) == canvas,
{
    assert(blit_pixel(canvas, cell, r, g, b, TRANSPARENT) =~= canvas);
}

/// A transparent pixel marks an undecided cell transparent and leaves its
/// colour bytes as they were.
pub proof fn lemma_transparent_pixel_marks_undecided_cell(
    canvas: Seq<u8>,
    cell: int,
    r: u8,
    g: u8,
    b: u8,
)
    requires
        in_canvas(canvas, cell),
        alpha_at(canvas, cell) == UNDECIDED,
    ensures
        cell_shows(
            blit_pixel(canvas, cell, r, g, b, TRANSPARENT),
            cell,
            canvas[4 * cell],
            canvas[4 * cell + 1],
            canvas[4 * cell + 2],
            TRANSPARENT,
        ),
{
}

/// A pixel whose cell lies outside the canvas changes nothing.
pub proof fn lemma_pixel_outside_is_dropped(canvas: Seq<u8>, cell: int, r: u8, g: u8, b: u8, a: u8)
    requires
        !in_canvas(canvas, cell),
    ensures
        blit_pixel(canvas, cell, r, g, b, a) == canvas,
{
}

/// A pixel whose column and row lie inside the texture lands in the canvas.
pub proof fn lemma_inside_lands_in_canvas(
    canvas: Seq<u8>,
    width: nat,
    height: nat,
    placement: PatchPlacement,
    x: int,
    y: int,
)
    requires
        canvas.len() == 4 * (width * height),
        0 <= dest_column(placement, x) < width,
        0 <= dest_row(height as int, placement, y) < height,
    ensures
        in_canvas(canvas, dest_cell(width as int, height as int, placement, x, y)),
{
    let row = dest_row(height as int, placement, y);
    let column = dest_column(placement, x);
    assert(0 <= row * width && row * width + column < width * height) by (nonlinear_arith)
        requires
            0 <= row < height,
            0 <= column < width,
    ;
}

/// A pixel whose row lies above or below the texture, in a column inside
/// it, lands outside the canvas.
pub proof fn lemma_row_outside_is_clipped(
    canvas: Seq<u8>,
    width: nat,
    height: nat,
    placement: PatchPlacement,
    x: int,
    y: int,
)
    requires
        canvas.len() == 4 * (width * height),
        0 <= dest_column(placement, x) < width,
        !(0 <= dest_row(height as int, placement, y) < height),
    ensures
        !in_canvas(canvas, dest_cell(width as int, height as int, placement, x, y)),
{
    let row = dest_row(height as int, placement, y);
    let column = dest_column(placement, x);
    assert(row * width + column < 0 || row * width + column >= width * height)
        by (nonlinear_arith)
        requires
            row < 0 || row >= height,
            0 <= column < width,
    ;
}

/// A pixel whose column or row lies outside the texture changes nothing,
/// unless its cell, counted on through the rows, lies in the canvas again.
pub proof fn lemma_clipped_pixel_changes_nothing(
    canvas: Seq<u8>,
    width: nat,
    height: nat,
    placement: PatchPlacement,
    patch: PatchView,
    x: int,
    y: int,
)
    requires
        !(0 <= dest_column(placement, x) < width && 0 <= dest_row(height as int, placement, y)
            < height),
        !in_canvas(canvas, dest_cell(width as int, height as int, placement, x, y)),
    ensures
        blit_patch_pixel(canvas, width as int, height as int, placement, patch, x, y) == canvas,
{
}

/// The first rows of a column change no cell that none of them lands in.
pub proof fn lemma_blit_column_elsewhere(
    canvas: Seq<u8>,
    width: int,
    height: int,
    placement: PatchPlacement,
    patch: PatchView,
    x: int,
    rows: nat,
    cell: int,
)
    requires
        in_canvas(canvas, cell),
        forall|y: int| 0 <= y < rows ==> dest_cell(width, height, placement, x, y) != cell,
    ensures
        same_cell(blit_column(canvas, width, height, placement, patch, x, rows), canvas, cell),
    decreases rows,
{
    if rows > 0 {
        let before = blit_column(canvas, width, height, placement, patch, x, (rows - 1) as nat);
        lemma_blit_column_elsewhere(
            canvas,
            width,
            height,
            placement,
            patch,
            x,
            (rows - 1) as nat,
            cell,
        );
        lemma_blit_column_len(canvas, width, height, placement, patch, x, (rows - 1) as nat);
        assert(dest_cell(width, height, placement, x, rows - 1) != cell);
    }
}

/// The first columns of a patch change no cell that none of their pixels
/// lands in.
pub proof fn lemma_blit_columns_elsewhere(
    canvas: Seq<u8>,
    width: int,
    height: int,
    placement: PatchPlacement,
    patch: PatchView,
    columns: nat,
    cell: int,
)
    requires
        in_canvas(canvas, cell),
        forall|x: int, y: int|
            0 <= x < columns && 0 <= y < patch.height ==> dest_cell(width, height, placement, x, y)
                != cell,
    ensures
        same_cell(blit_columns(canvas, width, height, placement, patch, columns), canvas, cell),
    decreases columns,
{
    if columns > 0 {
        let before = blit_columns(canvas, width, height, placement, patch, (columns - 1) as nat);
        lemma_blit_columns_elsewhere(
            canvas,
            width,
            height,
            placement,
            patch,
            (columns - 1) as nat,
            cell,
        );
        lemma_blit_columns_len(canvas, width, height, placement, patch, (columns - 1) as nat);
        lemma_blit_column_elsewhere(
            before,
            width,
            height,
            placement,
            patch,
            columns - 1,
            patch.height,
            cell,
        );
    }
}

/// A patch none of whose pixels lands in the canvas changes nothing.
pub proof fn lemma_clipped_patch_changes_nothing(
    canvas: Seq<u8>,
    width: int,
    height: int,
    placement: PatchPlacement,
    patch: PatchView,
)
    requires
        forall|x: int, y: int|
            0 <= x < patch.width && 0 <= y < patch.height ==> !in_canvas(
                canvas,
                dest_cell(width, height, placement, x, y),
            ),
    ensures
        blit_patch(canvas, width, height, placement, patch) == canvas,
{
    lemma_clipped_columns_change_nothing(canvas, width, height, placement, patch, patch.width);
}

/// The first columns of a patch change nothing where none of their pixels
/// lands in the canvas.
proof fn lemma_clipped_columns_change_nothing(
    canvas: Seq<u8>,
    width: int,
    height: int,
    placement: PatchPlacement,
    patch: PatchView,
    columns: nat,
)
    requires
        columns <= patch.width,
        forall|x: int, y: int|
            0 <= x < patch.width && 0 <= y < patch.height ==> !in_canvas(
                canvas,
                dest_cell(width, height, placement, x, y),
            ),
    ensures
        blit_columns(canvas, width, height, placement, patch, columns) == canvas,
    decreases columns,
{
    if columns > 0 {
        lemma_clipped_columns_change_nothing(
            canvas,
            width,
            height,
            placement,
            patch,
            (columns - 1) as nat,
        );
        lemma_clipped_column_changes_nothing(
            canvas,
            width,
            height,
            placement,
            patch,
            columns - 1,
            patch.height,
        );
    }
}

/// The first rows of a column change nothing where none of them lands in
/// the canvas.
proof fn lemma_clipped_column_changes_nothing(
    canvas: Seq<u8>,
    width: int,
    height: int,
    placement: PatchPlacement,
    patch: PatchView,
    x: int,
    rows: nat,
)
    requires
        0 <= x < patch.width,
        rows <= patch.height,
        forall|x: int, y: int|
            0 <= x < patch.width && 0 <= y < patch.height ==> !in_canvas(
                canvas,
                dest_cell(width, height, placement, x, y),
            ),
    ensures
        blit_column(canvas, width, height, placement, patch, x, rows) == canvas,
    decreases rows,
{
    if rows > 0 {
        lemma_clipped_column_changes_nothing(
            canvas,
            width,
            height,
            placement,
            patch,
            x,
            (rows - 1) as nat,
        );
        assert(!in_canvas(canvas, dest_cell(width, height, placement, x, rows - 1)));
    }
}

/// Whether pixel `(later_x, later_y)` of a patch is drawn after pixel
/// `(x, y)`: columns are drawn in turn, each from row 0 on.
pub open spec fn drawn_after(x: int, y: int, later_x: int, later_y: int) -> bool {
    later_x > x || (later_x == x && later_y > y)
}

/// Whether no pixel of the patch that is drawn after `(x, y)` lands in
/// `cell`.
pub open spec fn last_to_land(
    width: int,
    height: int,
    placement: PatchPlacement,
    patch: PatchView,
    x: int,
    y: int,
    cell: int,
) -> bool {
    forall|later_x: int, later_y: int|
        0 <= later_x < patch.width && 0 <= later_y < patch.height && drawn_after(
            x,
            y,
            later_x,
            later_y,
        ) ==> dest_cell(width, height, placement, later_x, later_y) != cell
}

/// Whether no pixel of the placed patch lands in `cell`.
pub open spec fn misses(
    width: int,
    height: int,
    placement: PatchPlacement,
    patch: PatchView,
    cell: int,
) -> bool {
    forall|x: int, y: int|
        0 <= x < patch.width && 0 <= y < patch.height ==> dest_cell(width, height, placement, x, y)
            != cell
}

/// After the first rows of a column, a cell shows the last opaque pixel
/// among them that landed in it, if no later one of them did.
proof fn lemma_blit_column_last_opaque(
    canvas: Seq<u8>,
    width: int,
    height: int,
    placement: PatchPlacement,
    patch: PatchView,
    x: int,
    rows: nat,
    y: int,
    cell: int,
)
    requires
        in_canvas(canvas, cell),
        0 <= y < rows,
        dest_cell(width, height, placement, x, y) == cell,
        is_opaque_pixel(patch, x, y),
        forall|later: int| y < later < rows ==> dest_cell(width, height, placement, x, later) != cell,
    ensures
        shows_patch_pixel(
            blit_column(canvas, width, height, placement, patch, x, rows),
            cell,
            patch,
            x,
            y,
        ),
    decreases rows,
{
    let before = blit_column(canvas, width, height, placement, patch, x, (rows - 1) as nat);
    lemma_blit_column_len(canvas, width, height, placement, patch, x, (rows - 1) as nat);
    if y < rows - 1 {
        lemma_blit_column_last_opaque(
            canvas,
            width,
            height,
            placement,
            patch,
            x,
            (rows - 1) as nat,
            y,
            cell,
        );
        assert(dest_cell(width, height, placement, x, rows - 1) != cell);
    }
}

/// After the first columns of a patch, a cell shows the last opaque pixel
/// among them that landed in it, if no later one of them did.
proof fn lemma_blit_columns_last_opaque(
    canvas: Seq<u8>,
    width: int,
    height: int,
    placement: PatchPlacement,
    patch: PatchView,
    columns: nat,
    x: int,
    y: int,
    cell: int,
)
    requires
        in_canvas(canvas, cell),
        0 <= x < columns <= patch.width,
        0 <= y < patch.height,
        dest_cell(width, height, placement, x, y) == cell,
        is_opaque_pixel(patch, x, y),
        last_to_land(width, height, placement, patch, x, y, cell),
    ensures
        shows_patch_pixel(
            blit_columns(canvas, width, height, placement, patch, columns),
            cell,
            patch,
            x,
            y,
        ),
    decreases columns,
{
    let before = blit_columns(canvas, width, height, placement, patch, (columns - 1) as nat);
    lemma_blit_columns_len(canvas, width, height, placement, patch, (columns - 1) as nat);
    if x == columns - 1 {
        assert forall|later: int| y < later < patch.height implies dest_cell(
            width,
            height,
            placement,
            x,
            later,
        ) != cell by {
            assert(drawn_after(x, y, x, later));
        }
        lemma_blit_column_last_opaque(
            before,
            width,
            height,
            placement,
            patch,
            x,
            patch.height,
            y,
            cell,
        );
    } else {
        lemma_blit_columns_last_opaque(
            canvas,
            width,
            height,
            placement,
            patch,
            (columns - 1) as nat,
            x,
            y,
            cell,
        );
        let last: int = columns - 1;
        assert forall|row: int| 0 <= row < patch.height implies dest_cell(
            width,
            height,
            placement,
            last,
            row,
        ) != cell by {
            assert(drawn_after(x, y, last, row));
        }
        lemma_blit_column_elsewhere(
            before,
            width,
            height,
            placement,
            patch,
            last,
            patch.height,
            cell,
        );
    }
}

/// After a patch was drawn, a cell shows the opaque pixel of the patch that
/// landed in it last, whatever the canvas held there before.
pub proof fn lemma_last_opaque_pixel_shows(
    canvas: Seq<u8>,
    width: int,
    height: int,
    placement: PatchPlacement,
    patch: PatchView,
    x: int,
    y: int,
    cell: int,
)
    requires
        in_canvas(canvas, cell),
        0 <= x < patch.width,
        0 <= y < patch.height,
        dest_cell(width, height, placement, x, y) == cell,
        is_opaque_pixel(patch, x, y),
        last_to_land(width, height, placement, patch, x, y, cell),
    ensures
        shows_patch_pixel(blit_patch(canvas, width, height, placement, patch), cell, patch, x, y),
{
    lemma_blit_columns_last_opaque(
        canvas,
        width,
        height,
        placement,
        patch,
        patch.width,
        x,
        y,
        cell,
    );
}

/// A patch changes no cell that none of its pixels lands in.
pub proof fn lemma_patch_touches_only_its_cells(
    canvas: Seq<u8>,
    width: int,
    height: int,
    placement: PatchPlacement,
    patch: PatchView,
    cell: int,
)
    requires
        in_canvas(canvas, cell),
        misses(width, height, placement, patch, cell),
    ensures
        same_cell(blit_patch(canvas, width, height, placement, patch), canvas, cell),
{
    lemma_blit_columns_elsewhere(canvas, width, height, placement, patch, patch.width, cell);
}

/// Where two patches are drawn one after the other and the later one has
/// an opaque pixel in a cell, the cell shows the colour of the later patch,
/// whatever the earlier patch and the canvas held there.
pub proof fn lemma_later_patch_wins(
    canvas: Seq<u8>,
    width: int,
    height: int,
    earlier_placement: PatchPlacement,
    earlier_patch: PatchView,
    later_placement: PatchPlacement,
    later_patch: PatchView,
    x: int,
    y: int,
    cell: int,
)
    requires
        in_canvas(canvas, cell),
        0 <= x < later_patch.width,
        0 <= y < later_patch.height,
        dest_cell(width, height, later_placement, x, y) == cell,
        is_opaque_pixel(later_patch, x, y),
        last_to_land(width, height, later_placement, later_patch, x, y, cell),
    ensures
        shows_patch_pixel(
            blit_patch(
                blit_patch(canvas, width, height, earlier_placement, earlier_patch),
                width,
                height,
                later_placement,
                later_patch,
            ),
            cell,
            later_patch,
            x,
            y,
        ),
{
    let between = blit_patch(canvas, width, height, earlier_placement, earlier_patch);
    lemma_blit_columns_len(
        canvas,
        width,
        height,
        earlier_placement,
        earlier_patch,
        earlier_patch.width,
    );
    lemma_last_opaque_pixel_shows(between, width, height, later_placement, later_patch, x, y, cell);
}

/// No two pixels of a patch land in one cell where the patch is no wider
/// than the texture.
pub proof fn lemma_narrow_patch_lands_apart(
    width: int,
    height: int,
    placement: PatchPlacement,
    patch: PatchView,
    x: int,
    y: int,
)
    requires
        0 < width,
        patch.width <= width,
        0 <= x < patch.width,
        0 <= y < patch.height,
    ensures
        last_to_land(
            width,
            height,
            placement,
            patch,
            x,
            y,
            dest_cell(width, height, placement, x, y),
        ),
{
    let cell = dest_cell(width, height, placement, x, y);
    assert forall|later_x: int, later_y: int|
        0 <= later_x < patch.width && 0 <= later_y < patch.height && drawn_after(
            x,
            y,
            later_x,
            later_y,
        ) implies dest_cell(width, height, placement, later_x, later_y) != cell by {
        let row = dest_row(height, placement, y);
        let later_row = dest_row(height, placement, later_y);
        let shift = later_x - x;
        assert(row * width != later_row * width + shift) by (nonlinear_arith)
            requires
                0 < width,
                -width < shift < width,
                row != later_row || shift != 0,
        ;
    }
}

/// Of all the placements drawn so far, the last opaque pixel to land in a
/// cell shows there: the placements before it do not matter, and those
/// after it miss the cell.
pub proof fn lemma_last_opaque_placement_shows(
    definition: DefinitionView,
    patches: Seq<PatchView>,
    count: nat,
    index: int,
    x: int,
    y: int,
    cell: int,
)
    requires
        0 <= index < count <= definition.placements.len(),
        0 <= cell < definition.width * definition.height,
        ({
            let placement = definition.placements[index];
            let patch = patches[placement.patch_index as int];
            &&& 0 <= x < patch.width
            &&& 0 <= y < patch.height
            &&& dest_cell(definition.width as int, definition.height as int, placement, x, y)
                == cell
            &&& is_opaque_pixel(patch, x, y)
            &&& last_to_land(
                definition.width as int,
                definition.height as int,
                placement,
                patch,
                x,
                y,
                cell,
            )
        }),
        forall|later: int|
            index < later < count ==> misses(
                definition.width as int,
                definition.height as int,
                #[trigger] definition.placements[later],
                patches[definition.placements[later].patch_index as int],
                cell,
            ),
    ensures
        shows_patch_pixel(
            compose_prefix(definition, patches, count),
            cell,
            patches[definition.placements[index].patch_index as int],
            x,
            y,
        ),
    decreases count,
{
    let width = definition.width as int;
    let height = definition.height as int;
    let before = compose_prefix(definition, patches, (count - 1) as nat);
    let last = definition.placements[count - 1];
    let last_patch = patches[last.patch_index as int];
    lemma_compose_prefix_canvas(definition, patches, (count - 1) as nat);
    if index == count - 1 {
        lemma_last_opaque_pixel_shows(before, width, height, last, last_patch, x, y, cell);
    } else {
        lemma_last_opaque_placement_shows(
            definition,
            patches,
            (count - 1) as nat,
            index,
            x,
            y,
            cell,
        );
        assert(misses(width, height, last, last_patch, cell));
        lemma_patch_touches_only_its_cells(before, width, height, last, last_patch, cell);
    }
}

} // verus!
