//! Compositing a texture from its patches.
//!
//! A canvas of `width * height` RGBA cells starts out undecided: every byte
//! of it, alpha included, is `UNDECIDED`. Each placement then draws its patch
//! pixel by pixel. A transparent patch pixel marks a cell transparent only
//! while the cell is not opaque; any other patch pixel overwrites the cell
//! and makes it opaque. Rows of a patch run bottom to top, so the row a
//! pixel lands in is counted back from the declared height of the texture.
//! A pixel whose cell lies outside the canvas is dropped.

use vstd::prelude::*;
use crate::layering::{alphas_settled, lemma_columns_without_rows, lemma_compose_pixels_canvas};
use crate::definition::{
    DecodeError,
    DefinitionView,
    PatchPlacement,
    TextureDefinition,
    MAX_DIMENSION,
};

verus! {

/// The value of every byte of a cell that no patch has touched. As an alpha
/// it is neither transparent nor opaque.
pub const UNDECIDED: u8 = 1;

/// The alpha of a cell that was marked transparent.
pub const TRANSPARENT: u8 = 0;

/// The alpha of a cell that a patch pixel has painted.
pub const OPAQUE: u8 = 255;

/// What a patch bitmap holds, as mathematical values.
pub ghost struct PatchView {
    pub width: nat,
    pub height: nat,
    pub pixels: Seq<u8>,
}

impl PatchView {
    /// The pixels are `width * height` cells of four bytes, row by row.
    pub open spec fn wf(self) -> bool {
        self.pixels.len() == 4 * (self.width * self.height)
    }
}

/// A decoded patch: `width * height` RGBA cells, row by row.
#[derive(Debug)]
pub struct PatchBitmap {
    width: usize,
    height: usize,
    pixels: Vec<u8>,
}

impl View for PatchBitmap {
    type V = PatchView;

    closed spec fn view(&self) -> PatchView {
        PatchView { width: self.width as nat, height: self.height as nat, pixels: self.pixels@ }
    }
}

impl PatchBitmap {
    #[verifier::type_invariant]
    spec fn holds_all_cells(&self) -> bool {
        self.pixels@.len() == 4 * (self.width * self.height)
    }

    /// A patch from its size and its pixels, or `None` where the pixels are
    /// not four bytes for each of `width * height` cells.
    pub fn new(width: usize, height: usize, pixels: Vec<u8>) -> (r: Option<PatchBitmap>)
        ensures
            r is Some <==> pixels@.len() == 4 * (width * height),
            r matches Some(p) ==> p@ == (PatchView {
                width: width as nat,
                height: height as nat,
                pixels: pixels@,
            }),
    {
        let len = pixels.len();
        let cells = match width.checked_mul(height) {
            Some(cells) => cells,
            None => {
                return None;
            },
        };
        let bytes = match cells.checked_mul(4) {
            Some(bytes) => bytes,
            None => {
                return None;
            },
        };
        if len != bytes {
            return None;
        }
        Some(PatchBitmap { width, height, pixels })
    }

    /// The number of columns.
    pub fn width(&self) -> (r: usize)
        ensures
            r == self@.width,
    {
        self.width
    }

    /// The number of rows.
    pub fn height(&self) -> (r: usize)
        ensures
            r == self@.height,
    {
        self.height
    }

    /// The pixels, four bytes a cell.
    pub fn pixels(&self) -> (r: &Vec<u8>)
        ensures
            r@ == self@.pixels,
            self@.wf(),
    {
        proof {
            use_type_invariant(self);
        }
        &self.pixels
    }
}

/// The views of a patch table, one for one.
pub open spec fn patch_views(patches: Seq<PatchBitmap>) -> Seq<PatchView> {
    Seq::new(patches.len(), |i: int| patches[i]@)
}

/// The column of the texture that column `x` of a placed patch lands in.
pub open spec fn dest_column(placement: PatchPlacement, x: int) -> int {
    placement.origin_x + x
}

/// The row of a texture `height` high that row `y` of a placed patch lands
/// in. Rows of the patch run upwards from its origin, rows of the texture
/// downwards from the top.
pub open spec fn dest_row(height: int, placement: PatchPlacement, y: int) -> int {
    height - (placement.origin_y + y) - 1
}

/// The canvas cell that pixel `(x, y)` of a placed patch lands in, counted
/// row by row from the top left of a texture `width` wide and `height` high.
pub open spec fn dest_cell(width: int, height: int, placement: PatchPlacement, x: int, y: int) -> int {
    dest_row(height, placement, y) * width + dest_column(placement, x)
}

/// Whether `cell` is a cell of the canvas.
pub open spec fn in_canvas(canvas: Seq<u8>, cell: int) -> bool {
    0 <= cell && 4 * cell + 4 <= canvas.len()
}

/// The canvas after one patch pixel of colour `(r, g, b)` and alpha `a` was
/// drawn at `cell`.
pub open spec fn blit_pixel(canvas: Seq<u8>, cell: int, r: u8, g: u8, b: u8, a: u8) -> Seq<u8> {
    if !in_canvas(canvas, cell) {
        canvas
    } else if a == TRANSPARENT {
        if canvas[4 * cell + 3] <= UNDECIDED {
            canvas.update(4 * cell + 3, TRANSPARENT)
        } else {
            canvas
        }
    } else {
        canvas.update(4 * cell, r).update(4 * cell + 1, g).update(4 * cell + 2, b).update(
            4 * cell + 3,
            OPAQUE,
        )
    }
}

/// Where the four bytes of pixel `(x, y)` start in the pixels of a patch.
pub open spec fn patch_offset(patch: PatchView, x: int, y: int) -> int {
    4 * (y * patch.width + x)
}

/// The canvas after pixel `(x, y)` of a placed patch was drawn.
pub open spec fn blit_patch_pixel(
    canvas: Seq<u8>,
    width: int,
    height: int,
    placement: PatchPlacement,
    patch: PatchView,
    x: int,
    y: int,
) -> Seq<u8> {
    let at = patch_offset(patch, x, y);
    blit_pixel(
        canvas,
        dest_cell(width, height, placement, x, y),
        patch.pixels[at],
        patch.pixels[at + 1],
        patch.pixels[at + 2],
        patch.pixels[at + 3],
    )
}

/// The canvas after the first `rows` pixels of column `x` were drawn, from
/// row 0 on.
pub open spec fn blit_column(
    canvas: Seq<u8>,
    width: int,
    height: int,
    placement: PatchPlacement,
    patch: PatchView,
    x: int,
    rows: nat,
) -> Seq<u8>
    decreases rows,
{
    if rows == 0 {
        canvas
    } else {
        blit_patch_pixel(
            blit_column(canvas, width, height, placement, patch, x, (rows - 1) as nat),
            width,
            height,
            placement,
            patch,
            x,
            rows - 1,
        )
    }
}

/// The canvas after the first `columns` columns of a placed patch were
/// drawn, each one whole, from column 0 on.
pub open spec fn blit_columns(
    canvas: Seq<u8>,
    width: int,
    height: int,
    placement: PatchPlacement,
    patch: PatchView,
    columns: nat,
) -> Seq<u8>
    decreases columns,
{
    if columns == 0 {
        canvas
    } else {
        blit_column(
            blit_columns(canvas, width, height, placement, patch, (columns - 1) as nat),
            width,
            height,
            placement,
            patch,
            columns - 1,
            patch.height,
        )
    }
}

/// The canvas after a placed patch was drawn whole.
pub open spec fn blit_patch(
    canvas: Seq<u8>,
    width: int,
    height: int,
    placement: PatchPlacement,
    patch: PatchView,
) -> Seq<u8> {
    blit_columns(canvas, width, height, placement, patch, patch.width)
}

/// A canvas that no patch has touched.
pub open spec fn blank_canvas(width: int, height: int) -> Seq<u8> {
    Seq::new((4 * (width * height)) as nat, |i: int| UNDECIDED)
}

/// Whether the patch table holds the patch that `placement` names.
pub open spec fn resolves(placement: PatchPlacement, patches: Seq<PatchView>) -> bool {
    0 <= placement.patch_index < patches.len()
}

/// Whether the patch table holds every patch that the definition names.
pub open spec fn resolvable(definition: DefinitionView, patches: Seq<PatchView>) -> bool {
    forall|j: int|
        0 <= j < definition.placements.len() ==> resolves(
            #[trigger] definition.placements[j],
            patches,
        )
}

/// The canvas of a definition after its first `count` placements were
/// drawn, in listing order, on a blank canvas.
pub open spec fn compose_prefix(
    definition: DefinitionView,
    patches: Seq<PatchView>,
    count: nat,
) -> Seq<u8>
    decreases count,
{
    if count == 0 {
        blank_canvas(definition.width as int, definition.height as int)
    } else {
        let placement = definition.placements[count - 1];
        blit_patch(
            compose_prefix(definition, patches, (count - 1) as nat),
            definition.width as int,
            definition.height as int,
            placement,
            patches[placement.patch_index as int],
        )
    }
}

/// The finished pixels of a definition: all its placements drawn.
pub open spec fn compose_pixels(definition: DefinitionView, patches: Seq<PatchView>) -> Seq<u8> {
    compose_prefix(definition, patches, definition.placements.len())
}

/// What a finished texture holds, as mathematical values.
pub ghost struct TextureView {
    pub name: Seq<u8>,
    pub width: nat,
    pub height: nat,
    pub pixels: Seq<u8>,
}

/// A finished texture: its name, its declared size and its RGBA pixels, row
/// by row from the top.
#[derive(Debug)]
pub struct Texture {
    pub name: [u8; 8],
    pub width: usize,
    pub height: usize,
    pub pixels: Vec<u8>,
}

impl View for Texture {
    type V = TextureView;

    open spec fn view(&self) -> TextureView {
        TextureView {
            name: self.name@,
            width: self.width as nat,
            height: self.height as nat,
            pixels: self.pixels@,
        }
    }
}

/// The texture that a definition composes to: its own name and size, and
/// the pixels that its placements draw.
pub open spec fn composite(definition: DefinitionView, patches: Seq<PatchView>) -> TextureView {
    TextureView {
        name: definition.name,
        width: definition.width,
        height: definition.height,
        pixels: compose_pixels(definition, patches),
    }
}

/// Pixel `(x, y)` of a patch `width` wide and `height` high lies before the
/// end of its `width * height` cells.
proof fn lemma_patch_cell_in_bounds(width: int, height: int, x: int, y: int)
    by (nonlinear_arith)
    requires
        0 <= x < width,
        0 <= y < height,
    ensures
        0 <= y * width,
        y * width + x < width * height,
{
}

/// A row offset of the canvas stays far inside 128 bits.
proof fn lemma_row_offset_bounded(row: int, width: int)
    by (nonlinear_arith)
    requires
        -0x2_0000_0000_0000_0000 <= row <= 0x2_0000_0000_0000_0000,
        0 <= width <= 0x7fff,
    ensures
        -0x1_0000_0000_0000_0000_0000 <= row * width <= 0x1_0000_0000_0000_0000_0000,
{
}

/// Draws one patch pixel at `cell`, or drops it where the canvas has no
/// such cell.
fn blit_pixel_onto(canvas: &mut Vec<u8>, cell: i128, r: u8, g: u8, b: u8, a: u8)
    ensures
        final(canvas)@ == blit_pixel(old(canvas)@, cell as int, r, g, b, a),
{
    let cells: usize = canvas.len() / 4;
    if cell < 0 || cell >= cells as i128 {
        return ;
    }
    let at: usize = (cell as usize) * 4;
    if a == TRANSPARENT {
        if canvas[at + 3] <= UNDECIDED {
            canvas.set(at + 3, TRANSPARENT);
        }
    } else {
        canvas.set(at, r);
        canvas.set(at + 1, g);
        canvas.set(at + 2, b);
        canvas.set(at + 3, OPAQUE);
    }
}

/// Draws a placed patch on the canvas of a texture `width` wide and
/// `height` high: column by column, each from row 0 on.
fn blit_patch_onto(
    canvas: &mut Vec<u8>,
    width: usize,
    height: usize,
    placement: PatchPlacement,
    patch: &PatchBitmap,
)
    requires
        width <= MAX_DIMENSION,
        height <= MAX_DIMENSION,
    ensures
        final(canvas)@ == blit_patch(
            old(canvas)@,
            width as int,
            height as int,
            placement,
            patch@,
        ),
{
    let columns = patch.width();
    let rows = patch.height();
    if rows == 0 {
        proof {
            lemma_columns_without_rows(
                canvas@,
                width as int,
                height as int,
                placement,
                patch@,
                columns as nat,
            );
        }
        return ;
    }
    let pixels = patch.pixels();
    assert(pixels@.len() == pixels.len());
    let mut x: usize = 0;
    while x < columns
        invariant
            x <= columns,
            columns == patch@.width,
            rows == patch@.height,
            pixels@ == patch@.pixels,
            pixels@.len() <= usize::MAX,
            patch@.wf(),
            width <= MAX_DIMENSION,
            height <= MAX_DIMENSION,
            canvas@ == blit_columns(
                old(canvas)@,
                width as int,
                height as int,
                placement,
                patch@,
                x as nat,
            ),
        decreases columns - x,
    {
        let ghost column_start = canvas@;
        let mut y: usize = 0;
        while y < rows
            invariant
                y <= rows,
                x < columns,
                columns == patch@.width,
                rows == patch@.height,
                pixels@ == patch@.pixels,
                pixels@.len() <= usize::MAX,
                patch@.wf(),
                width <= MAX_DIMENSION,
                height <= MAX_DIMENSION,
                canvas@ == blit_column(
                    column_start,
                    width as int,
                    height as int,
                    placement,
                    patch@,
                    x as int,
                    y as nat,
                ),
            decreases rows - y,
        {
            proof {
                lemma_patch_cell_in_bounds(columns as int, rows as int, x as int, y as int);
            }
            let at: usize = (y * columns + x) * 4;
            let row: i128 = height as i128 - (placement.origin_y as i128 + y as i128) - 1;
            proof {
                lemma_row_offset_bounded(row as int, width as int);
            }
            let cell: i128 = row * (width as i128) + (placement.origin_x as i128 + x as i128);
            blit_pixel_onto(canvas, cell, pixels[at], pixels[at + 1], pixels[at + 2], pixels[at + 3]);
            y = y + 1;
        }
        x = x + 1;
    }
}

/// Composes the texture of a definition from the patches it names.
///
/// Fails exactly where a placement names a patch that `patches` does not
/// hold. The texture has the name and the declared size of the definition,
/// whatever its patches cover.
pub fn compose_texture(definition: &TextureDefinition, patches: &[PatchBitmap]) -> (r: Result<
    Texture,
    DecodeError,
>)
    ensures
        r is Ok <==> resolvable(definition@, patch_views(patches@)),
        r matches Ok(texture) ==> texture@ == composite(definition@, patch_views(patches@)),
        r matches Ok(texture) ==> texture@.pixels.len() == 4 * (definition@.width
            * definition@.height),
        r matches Ok(texture) ==> alphas_settled(texture@.pixels),
        r matches Err(e) ==> e == DecodeError::UnresolvablePatch,
{
    let width = definition.width();
    let height = definition.height();
    let placements = definition.placements();
    assert(width * height <= 0x7fff * 0x7fff) by (nonlinear_arith)
        requires
            width <= 0x7fff,
            height <= 0x7fff,
    ;
    let mut canvas: Vec<u8> = vec![UNDECIDED; 4 * (width * height)];
    assert(canvas@ =~= blank_canvas(width as int, height as int));
    let mut j: usize = 0;
    while j < placements.len()
        invariant
            j <= placements@.len(),
            placements@ == definition@.placements,
            width == definition@.width,
            height == definition@.height,
            width <= MAX_DIMENSION,
            height <= MAX_DIMENSION,
            forall|k: int|
                0 <= k < j ==> resolves(
                    #[trigger] definition@.placements[k],
                    patch_views(patches@),
                ),
            canvas@ == compose_prefix(definition@, patch_views(patches@), j as nat),
        decreases placements@.len() - j,
    {
        let placement = placements[j];
        if placement.patch_index < 0 || placement.patch_index as usize >= patches.len() {
            assert(!resolves(definition@.placements[j as int], patch_views(patches@)));
            return Err(DecodeError::UnresolvablePatch);
        }
        let patch = &patches[placement.patch_index as usize];
        blit_patch_onto(&mut canvas, width, height, placement, patch);
        j = j + 1;
    }
    proof {
        lemma_compose_pixels_canvas(definition@, patch_views(patches@));
    }
    Ok(Texture { name: definition.name(), width, height, pixels: canvas })
}

} // verus!
