//! Texture definitions and the reader that decodes them from a section.
//!
//! A section starts with a 32-bit count, followed by that many 32-bit
//! offsets. At each offset stands a record: an 8-byte name, a 4-byte flag, a
//! 16-bit width and height, a 4-byte legacy offset and a 16-bit placement
//! count, then the placements of 10 bytes each. Every integer is
//! little-endian and signed, and no field is padded.

use vstd::prelude::*;
use crate::le::{le_i16, le_i32, read_i16_le, read_i32_le};

verus! {

/// The largest width or height that a record can declare.
pub const MAX_DIMENSION: usize = 0x7fff;

/// Why a section could not be turned into textures.
#[derive(Clone, Copy, Debug, PartialEq, Eq, Structural)]
pub enum DecodeError {
    /// A count, an offset or a record reaches past the end of the section,
    /// or a count or a dimension is negative.
    Malformed,
    /// A placement names a patch that the patch table does not hold.
    UnresolvablePatch,
}

/// One layer of a texture: which patch to draw, and where its origin lies.
#[derive(Clone, Copy, Debug, PartialEq, Eq, Structural)]
pub struct PatchPlacement {
    pub origin_x: i16,
    pub origin_y: i16,
    pub patch_index: i16,
}

/// What a texture definition says, as mathematical values.
pub ghost struct DefinitionView {
    pub name: Seq<u8>,
    pub width: nat,
    pub height: nat,
    pub placements: Seq<PatchPlacement>,
}

/// A named texture of a declared size with its placements in drawing order.
///
/// The name holds eight bytes and neither dimension exceeds
/// `MAX_DIMENSION`.
#[derive(Debug)]
pub struct TextureDefinition {
    name: [u8; 8],
    width: usize,
    height: usize,
    placements: Vec<PatchPlacement>,
}

/// ASCII upper case of one byte; bytes that are no lower-case letter stay.
pub open spec fn upper(b: u8) -> u8 {
    if 0x61 <= b <= 0x7a {
        (b - 0x20) as u8
    } else {
        b
    }
}

/// The name of the record at `offset`: its first eight bytes in upper case.
pub open spec fn name_at(section: Seq<u8>, offset: int) -> Seq<u8> {
    Seq::new(8, |i: int| upper(section[offset + i]))
}

/// The declared width of the record at `offset`.
pub open spec fn width_at(section: Seq<u8>, offset: int) -> int {
    le_i16(section, offset + 12)
}

/// The declared height of the record at `offset`.
pub open spec fn height_at(section: Seq<u8>, offset: int) -> int {
    le_i16(section, offset + 14)
}

/// The number of placements that the record at `offset` announces.
pub open spec fn placement_count_at(section: Seq<u8>, offset: int) -> int {
    le_i16(section, offset + 20)
}

/// The placement whose ten bytes start at `at`; its last two fields carry
/// nothing.
pub open spec fn placement_at(section: Seq<u8>, at: int) -> PatchPlacement {
    PatchPlacement {
        origin_x: le_i16(section, at) as i16,
        origin_y: le_i16(section, at + 2) as i16,
        patch_index: le_i16(section, at + 4) as i16,
    }
}

/// Whether a whole record with all its placements lies inside the section
/// at `offset`, with a size and a placement count that are not negative.
pub open spec fn record_fits(section: Seq<u8>, offset: int) -> bool {
    &&& 0 <= offset
    &&& offset + 22 <= section.len()
    &&& 0 <= width_at(section, offset)
    &&& 0 <= height_at(section, offset)
    &&& 0 <= placement_count_at(section, offset)
    &&& offset + 22 + 10 * placement_count_at(section, offset) <= section.len()
}

/// The definition that the record at `offset` spells.
pub open spec fn definition_at(section: Seq<u8>, offset: int) -> DefinitionView {
    DefinitionView {
        name: name_at(section, offset),
        width: width_at(section, offset) as nat,
        height: height_at(section, offset) as nat,
        placements: Seq::new(
            placement_count_at(section, offset) as nat,
            |j: int| placement_at(section, offset + 22 + 10 * j),
        ),
    }
}

/// The number of definitions that the section announces.
pub open spec fn definition_count(section: Seq<u8>) -> int {
    le_i32(section, 0)
}

/// The offset of the `i`-th record, as the offset table gives it.
pub open spec fn record_offset(section: Seq<u8>, i: int) -> int {
    le_i32(section, 4 + 4 * i)
}

/// A section is well formed when its count is not negative, its offset
/// table lies inside it, and every record the table points to fits.
pub open spec fn well_formed(section: Seq<u8>) -> bool {
    &&& 4 <= section.len()
    &&& 0 <= definition_count(section)
    &&& 4 + 4 * definition_count(section) <= section.len()
    &&& forall|i: int|
        0 <= i < definition_count(section) ==> record_fits(
            section,
            #[trigger] record_offset(section, i),
        )
}

/// The definitions of a section, in the order of its offset table.
pub open spec fn definitions(section: Seq<u8>) -> Seq<DefinitionView> {
    Seq::new(
        definition_count(section) as nat,
        |i: int| definition_at(section, record_offset(section, i)),
    )
}

/// The views of a list of definitions, one for one.
pub open spec fn definition_views(list: Seq<TextureDefinition>) -> Seq<DefinitionView> {
    Seq::new(list.len(), |i: int| list[i]@)
}

impl View for TextureDefinition {
    type V = DefinitionView;

    closed spec fn view(&self) -> DefinitionView {
        DefinitionView {
            name: self.name@,
            width: self.width as nat,
            height: self.height as nat,
            placements: self.placements@,
        }
    }
}

impl TextureDefinition {
    #[verifier::type_invariant]
    spec fn within_limits(&self) -> bool {
        self.width <= MAX_DIMENSION && self.height <= MAX_DIMENSION
    }

    /// A definition from its parts, or `None` where a dimension is larger
    /// than a record could declare.
    pub fn new(name: [u8; 8], width: usize, height: usize, placements: Vec<PatchPlacement>) -> (r:
        Option<TextureDefinition>)
        ensures
            r is Some <==> width <= MAX_DIMENSION && height <= MAX_DIMENSION,
            r matches Some(d) ==> d@ == (DefinitionView {
                name: name@,
                width: width as nat,
                height: height as nat,
                placements: placements@,
            }),
    {
        if width > MAX_DIMENSION || height > MAX_DIMENSION {
            None
        } else {
            Some(TextureDefinition { name, width, height, placements })
        }
    }

    /// The name: eight bytes.
    pub fn name(&self) -> (r: [u8; 8])
        ensures
            r@ == self@.name,
            self@.name.len() == 8,
    {
        self.name
    }

    /// The declared width.
    pub fn width(&self) -> (r: usize)
        ensures
            r == self@.width,
            r <= MAX_DIMENSION,
    {
        proof {
            use_type_invariant(self);
        }
        self.width
    }

    /// The declared height.
    pub fn height(&self) -> (r: usize)
        ensures
            r == self@.height,
            r <= MAX_DIMENSION,
    {
        proof {
            use_type_invariant(self);
        }
        self.height
    }

    /// The placements, in drawing order.
    pub fn placements(&self) -> (r: &Vec<PatchPlacement>)
        ensures
            r@ == self@.placements,
    {
        &self.placements
    }
}

/// ASCII upper case of one byte.
pub fn uppercase_byte(b: u8) -> (r: u8)
    ensures
        r == upper(b),
{
    if 0x61 <= b && b <= 0x7a {
        b - 0x20
    } else {
        b
    }
}

/// Reads the eight name bytes at `offset` and puts them in upper case.
fn read_name(section: &[u8], offset: usize) -> (r: [u8; 8])
    requires
        offset + 8 <= section@.len(),
    ensures
        r@ == name_at(section@, offset as int),
{
    let r: [u8; 8] = [
        uppercase_byte(section[offset]),
        uppercase_byte(section[offset + 1]),
        uppercase_byte(section[offset + 2]),
        uppercase_byte(section[offset + 3]),
        uppercase_byte(section[offset + 4]),
        uppercase_byte(section[offset + 5]),
        uppercase_byte(section[offset + 6]),
        uppercase_byte(section[offset + 7]),
    ];
    assert(r@ =~= name_at(section@, offset as int));
    r
}

/// Reads the placement whose ten bytes start at `at`.
fn read_placement(section: &[u8], at: usize) -> (r: PatchPlacement)
    requires
        at + 10 <= section@.len(),
    ensures
        r == placement_at(section@, at as int),
{
    assert(section@.len() == section.len());
    let origin_x = read_i16_le(section, at);
    let origin_y = read_i16_le(section, at + 2);
    let patch_index = read_i16_le(section, at + 4);
    PatchPlacement {
        origin_x: origin_x.unwrap(),
        origin_y: origin_y.unwrap(),
        patch_index: patch_index.unwrap(),
    }
}

/// Decodes the record at `offset` with all its placements.
///
/// Fails exactly where the record does not fit the section.
pub fn read_definition(section: &[u8], offset: usize) -> (r: Result<TextureDefinition, DecodeError>)
    ensures
        r is Ok <==> record_fits(section@, offset as int),
        r matches Ok(d) ==> d@ == definition_at(section@, offset as int),
        r matches Err(e) ==> e == DecodeError::Malformed,
{
    let len = section.len();
    if len < 22 || offset > len - 22 {
        return Err(DecodeError::Malformed);
    }
    let width = read_i16_le(section, offset + 12).unwrap();
    let height = read_i16_le(section, offset + 14).unwrap();
    let count = read_i16_le(section, offset + 20).unwrap();
    if width < 0 || height < 0 || count < 0 {
        return Err(DecodeError::Malformed);
    }
    let count: usize = count as usize;
    if count > (len - offset - 22) / 10 {
        return Err(DecodeError::Malformed);
    }
    let name = read_name(section, offset);
    let first: usize = offset + 22;
    let mut placements: Vec<PatchPlacement> = Vec::new();
    let mut j: usize = 0;
    while j < count
        invariant
            j <= count,
            len == section@.len(),
            first + 10 * count <= len,
            placements@.len() == j,
            forall|k: int|
                0 <= k < j ==> placements@[k] == placement_at(section@, first + 10 * k),
        decreases count - j,
    {
        let placement = read_placement(section, first + 10 * j);
        placements.push(placement);
        j = j + 1;
    }
    let definition = TextureDefinition {
        name,
        width: width as usize,
        height: height as usize,
        placements,
    };
    assert(definition@.placements =~= definition_at(section@, offset as int).placements);
    Ok(definition)
}

/// Decodes every definition of a section, in the order of its offset table.
///
/// Succeeds exactly on well-formed sections, and then returns as many
/// definitions as the section announces, each the one that its record
/// spells.
pub fn read_texture_definitions(section: &[u8]) -> (r: Result<Vec<TextureDefinition>, DecodeError>)
    ensures
        r is Ok <==> well_formed(section@),
        r matches Ok(list) ==> list@.len() == definition_count(section@),
        r matches Ok(list) ==> definition_views(list@) == definitions(section@),
        r matches Err(e) ==> e == DecodeError::Malformed,
{
    let len = section.len();
    let count = match read_i32_le(section, 0) {
        Some(count) => count,
        None => {
            return Err(DecodeError::Malformed);
        },
    };
    if count < 0 {
        return Err(DecodeError::Malformed);
    }
    let count: usize = count as usize;
    if count > (len - 4) / 4 {
        return Err(DecodeError::Malformed);
    }
    let mut list: Vec<TextureDefinition> = Vec::new();
    let mut i: usize = 0;
    while i < count
        invariant
            i <= count,
            count == definition_count(section@),
            len == section@.len(),
            4 + 4 * count <= len,
            list@.len() == i,
            forall|k: int| 0 <= k < i ==> record_fits(section@, #[trigger] record_offset(section@, k)),
            forall|k: int|
                0 <= k < i ==> (#[trigger] list@[k])@ == definition_at(
                    section@,
                    record_offset(section@, k),
                ),
        decreases count - i,
    {
        let offset = read_i32_le(section, 4 + 4 * i).unwrap();
        if offset < 0 {
            assert(!record_fits(section@, record_offset(section@, i as int)));
            return Err(DecodeError::Malformed);
        }
        match read_definition(section, offset as usize) {
            Ok(definition) => {
                list.push(definition);
            },
            Err(e) => {
                assert(!record_fits(section@, record_offset(section@, i as int)));
                return Err(e);
            },
        }
        i = i + 1;
    }
    assert(definition_views(list@) =~= definitions(section@));
    Ok(list)
}

} // verus!
