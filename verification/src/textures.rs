//! The texture registry: finished textures by name, built section by
//! section. A texture of a later section replaces one of the same name
//! whole; nothing of the earlier one remains.

use std::collections::HashMap;
use vstd::prelude::*;
use vstd::set_lib::lemma_map_size;
use vstd::std_specs::hash::spec_keys_iter;
use vstd::std_specs::iter::IteratorSpec;
use crate::compose::{
    compose_texture,
    composite,
    patch_views,
    resolvable,
    PatchBitmap,
    PatchView,
    Texture,
    TextureView,
};
use crate::definition::{definitions, read_texture_definitions, well_formed, DecodeError};

verus! {

/// The bytes of a section that is there.
pub open spec fn section_bytes(section: Option<&[u8]>) -> Option<Seq<u8>> {
    match section {
        Some(bytes) => Some(bytes@),
        None => None,
    }
}

/// The views of a list of textures, one for one.
pub open spec fn texture_views(list: Seq<Texture>) -> Seq<TextureView> {
    Seq::new(list.len(), |i: int| list[i]@)
}

/// Why a section yields no textures, if it does not: a section that is
/// there must be well formed, and the patch table must hold every patch
/// that its definitions name. A section that is absent is no error.
pub open spec fn section_error(section: Option<Seq<u8>>, patches: Seq<PatchView>) -> Option<
    DecodeError,
> {
    match section {
        None => None,
        Some(bytes) => if !well_formed(bytes) {
            Some(DecodeError::Malformed)
        } else if exists|i: int|
            0 <= i < definitions(bytes).len() && !resolvable(
                #[trigger] definitions(bytes)[i],
                patches,
            ) {
            Some(DecodeError::UnresolvablePatch)
        } else {
            None
        },
    }
}

/// The textures of a section, in the order of its definitions; none for a
/// section that is absent.
pub open spec fn section_textures(section: Option<Seq<u8>>, patches: Seq<PatchView>) -> Seq<
    TextureView,
> {
    match section {
        None => Seq::empty(),
        Some(bytes) => Seq::new(
            definitions(bytes).len(),
            |i: int| composite(definitions(bytes)[i], patches),
        ),
    }
}

/// Decodes a section and composes each of its textures, in the order of
/// its definitions. A section that is absent yields no textures.
pub fn read_texture_section(section: Option<&[u8]>, patches: &[PatchBitmap]) -> (r: Result<
    Vec<Texture>,
    DecodeError,
>)
    ensures
        match r {
            Ok(list) => {
                &&& section_error(section_bytes(section), patch_views(patches@)) is None
                &&& texture_views(list@) == section_textures(
                    section_bytes(section),
                    patch_views(patches@),
                )
            },
            Err(e) => section_error(section_bytes(section), patch_views(patches@)) == Some(e),
        },
{
    let mut list: Vec<Texture> = Vec::new();
    let bytes = match section {
        Some(bytes) => bytes,
        None => {
            assert(texture_views(list@) =~= section_textures(None, patch_views(patches@)));
            return Ok(list);
        },
    };
    let found = match read_texture_definitions(bytes) {
        Ok(found) => found,
        Err(e) => {
            return Err(e);
        },
    };
    let mut i: usize = 0;
    while i < found.len()
        invariant
            i <= found@.len(),
            section == Some(bytes),
            well_formed(bytes@),
            found@.len() == definitions(bytes@).len(),
            forall|k: int| 0 <= k < found@.len() ==> (#[trigger] found@[k])@ == definitions(bytes@)[k],
            list@.len() == i,
            forall|k: int|
                0 <= k < i ==> resolvable(#[trigger] definitions(bytes@)[k], patch_views(patches@)),
            forall|k: int|
                0 <= k < i ==> (#[trigger] list@[k])@ == composite(
                    definitions(bytes@)[k],
                    patch_views(patches@),
                ),
        decreases found@.len() - i,
    {
        match compose_texture(&found[i], patches) {
            Ok(texture) => {
                list.push(texture);
            },
            Err(e) => {
                assert(!resolvable(definitions(bytes@)[i as int], patch_views(patches@)));
                return Err(e);
            },
        }
        i = i + 1;
    }
    assert(texture_views(list@) =~= section_textures(Some(bytes@), patch_views(patches@)));
    Ok(list)
}

/// The registry after the first `count` of `textures` were entered into
/// it, in order: each under its own name, in place of any before it.
pub open spec fn register_all(
    registry: Map<Seq<u8>, TextureView>,
    textures: Seq<TextureView>,
    count: nat,
) -> Map<Seq<u8>, TextureView>
    decreases count,
{
    if count == 0 {
        registry
    } else {
        register_all(registry, textures, (count - 1) as nat).insert(
            textures[count - 1].name,
            textures[count - 1],
        )
    }
}

/// The registry after all the textures of a section were entered into it.
pub open spec fn after_section(
    registry: Map<Seq<u8>, TextureView>,
    section: Option<Seq<u8>>,
    patches: Seq<PatchView>,
) -> Map<Seq<u8>, TextureView> {
    let textures = section_textures(section, patches);
    register_all(registry, textures, textures.len())
}

/// Of the textures entered so far, the last one of a name is the one that
/// the registry holds under that name, whatever it held before.
pub proof fn lemma_register_all_last_wins(
    registry: Map<Seq<u8>, TextureView>,
    textures: Seq<TextureView>,
    count: nat,
    index: int,
)
    requires
        0 <= index < count <= textures.len(),
        forall|later: int|
            index < later < count ==> (#[trigger] textures[later]).name != textures[index].name,
    ensures
        register_all(registry, textures, count).contains_key(textures[index].name),
        register_all(registry, textures, count)[textures[index].name] == textures[index],
    decreases count,
{
    if index < count - 1 {
        lemma_register_all_last_wins(registry, textures, (count - 1) as nat, index);
        assert(textures[count - 1].name != textures[index].name);
    }
}

/// A name that none of the entered textures bears keeps what the registry
/// held under it, or stays absent.
pub proof fn lemma_register_all_keeps_others(
    registry: Map<Seq<u8>, TextureView>,
    textures: Seq<TextureView>,
    count: nat,
    name: Seq<u8>,
)
    requires
        count <= textures.len(),
        forall|i: int| 0 <= i < count ==> (#[trigger] textures[i]).name != name,
    ensures
        register_all(registry, textures, count).contains_key(name) == registry.contains_key(name),
        registry.contains_key(name) ==> register_all(registry, textures, count)[name]
            == registry[name],
    decreases count,
{
    if count > 0 {
        lemma_register_all_keeps_others(registry, textures, (count - 1) as nat, name);
        assert(textures[count - 1].name != name);
    }
}

/// Whether every texture of the registry stands under its own name.
pub open spec fn filed_by_name(registry: Map<Seq<u8>, TextureView>) -> bool {
    forall|name: Seq<u8>| #[trigger] registry.contains_key(name) ==> registry[name].name == name
}

/// Entering textures keeps every texture of the registry under its own
/// name.
pub proof fn lemma_register_all_files_by_name(
    registry: Map<Seq<u8>, TextureView>,
    textures: Seq<TextureView>,
    count: nat,
)
    requires
        filed_by_name(registry),
        count <= textures.len(),
    ensures
        filed_by_name(register_all(registry, textures, count)),
    decreases count,
{
    if count > 0 {
        lemma_register_all_files_by_name(registry, textures, (count - 1) as nat);
    }
}

/// Where a later section defines a texture of some name, the registry holds
/// that texture under the name after both sections: its pixels and its
/// size, and nothing of what an earlier section defined under the name.
/// Where the later section defines the name more than once, its last
/// definition of it counts.
pub proof fn lemma_later_section_overrides(
    registry: Map<Seq<u8>, TextureView>,
    earlier: Option<Seq<u8>>,
    later: Option<Seq<u8>>,
    patches: Seq<PatchView>,
    index: int,
)
    requires
        0 <= index < section_textures(later, patches).len(),
        forall|next: int|
            index < next < section_textures(later, patches).len() ==> (
            #[trigger] section_textures(later, patches)[next]).name != section_textures(
                later,
                patches,
            )[index].name,
    ensures
        ({
            let texture = section_textures(later, patches)[index];
            let result = after_section(
                after_section(registry, earlier, patches),
                later,
                patches,
            );
            result.contains_key(texture.name) && result[texture.name] == texture
        }),
{
    let textures = section_textures(later, patches);
    lemma_register_all_last_wins(
        after_section(registry, earlier, patches),
        textures,
        textures.len(),
        index,
    );
}

/// Decoding one section with one patch table twice yields the same
/// textures both times: as many, and each with the same name, size and
/// pixels.
pub proof fn lemma_decoding_twice_agrees(
    section: Option<Seq<u8>>,
    patches: Seq<PatchView>,
    first: Seq<Texture>,
    second: Seq<Texture>,
)
    requires
        texture_views(first) == section_textures(section, patches),
        texture_views(second) == section_textures(section, patches),
    ensures
        first.len() == second.len(),
        forall|i: int| 0 <= i < first.len() ==> (#[trigger] first[i])@ == second[i]@,
        forall|i: int| 0 <= i < first.len() ==> (#[trigger] first[i]).pixels@ == second[i].pixels@,
{
    assert(texture_views(first).len() == first.len());
    assert(texture_views(second).len() == second.len());
    assert forall|i: int| 0 <= i < first.len() implies (#[trigger] first[i])@ == second[i]@ by {
        assert(texture_views(first)[i] == first[i]@);
        assert(texture_views(second)[i] == second[i]@);
    }
}

/// The number that the registry files an eight-byte name under.
spec fn name_key(name: Seq<u8>) -> u64 {
    (name[0] + 0x100 * name[1] + 0x1_0000 * name[2] + 0x100_0000 * name[3] + 0x1_0000_0000
        * name[4] + 0x100_0000_0000 * name[5] + 0x1_0000_0000_0000 * name[6]
        + 0x100_0000_0000_0000 * name[7]) as u64
}

/// A number splits in one way only into a lowest byte and the rest.
proof fn lemma_lowest_byte(x: int, rest_x: int, y: int, rest_y: int)
    requires
        0 <= x < 0x100,
        0 <= y < 0x100,
        x + 0x100 * rest_x == y + 0x100 * rest_y,
    ensures
        x == y,
        rest_x == rest_y,
{
}

/// Two names of eight bytes that are filed under one number are one name.
proof fn lemma_name_key_injective(a: Seq<u8>, b: Seq<u8>)
    requires
        a.len() == 8,
        b.len() == 8,
        name_key(a) == name_key(b),
    ensures
        a == b,
{
    let a6 = a[6] + 0x100 * a[7];
    let a5 = a[5] + 0x100 * a6;
    let a4 = a[4] + 0x100 * a5;
    let a3 = a[3] + 0x100 * a4;
    let a2 = a[2] + 0x100 * a3;
    let a1 = a[1] + 0x100 * a2;
    let b6 = b[6] + 0x100 * b[7];
    let b5 = b[5] + 0x100 * b6;
    let b4 = b[4] + 0x100 * b5;
    let b3 = b[3] + 0x100 * b4;
    let b2 = b[2] + 0x100 * b3;
    let b1 = b[1] + 0x100 * b2;
    assert(name_key(a) == a[0] + 0x100 * a1);
    assert(name_key(b) == b[0] + 0x100 * b1);
    lemma_lowest_byte(a[0] as int, a1, b[0] as int, b1);
    lemma_lowest_byte(a[1] as int, a2, b[1] as int, b2);
    lemma_lowest_byte(a[2] as int, a3, b[2] as int, b3);
    lemma_lowest_byte(a[3] as int, a4, b[3] as int, b4);
    lemma_lowest_byte(a[4] as int, a5, b[4] as int, b5);
    lemma_lowest_byte(a[5] as int, a6, b[5] as int, b6);
    lemma_lowest_byte(a[6] as int, a[7] as int, b[6] as int, b[7] as int);
    assert(a =~= b);
}

/// The number that the registry files `name` under.
fn key_of(name: &[u8; 8]) -> (key: u64)
    ensures
        key == name_key(name@),
{
    let b0: u64 = name[0] as u64;
    let b1: u64 = name[1] as u64;
    let b2: u64 = name[2] as u64;
    let b3: u64 = name[3] as u64;
    let b4: u64 = name[4] as u64;
    let b5: u64 = name[5] as u64;
    let b6: u64 = name[6] as u64;
    let b7: u64 = name[7] as u64;
    b0 + 0x100 * b1 + 0x1_0000 * b2 + 0x100_0000 * b3 + 0x1_0000_0000 * b4 + 0x100_0000_0000 * b5
        + 0x1_0000_0000_0000 * b6 + 0x100_0000_0000_0000 * b7
}

/// The name of eight bytes that is filed under `key`.
spec fn key_name(key: u64) -> Seq<u8> {
    let rest1 = key / 0x100;
    let rest2 = rest1 / 0x100;
    let rest3 = rest2 / 0x100;
    let rest4 = rest3 / 0x100;
    let rest5 = rest4 / 0x100;
    let rest6 = rest5 / 0x100;
    let rest7 = rest6 / 0x100;
    seq![
        (key % 0x100) as u8,
        (rest1 % 0x100) as u8,
        (rest2 % 0x100) as u8,
        (rest3 % 0x100) as u8,
        (rest4 % 0x100) as u8,
        (rest5 % 0x100) as u8,
        (rest6 % 0x100) as u8,
        rest7 as u8,
    ]
}

/// Every number has a name of eight bytes that is filed under it.
proof fn lemma_key_name(key: u64)
    ensures
        key_name(key).len() == 8,
        name_key(key_name(key)) == key,
{
}

/// The name of eight bytes that is filed under `key`.
fn name_of(key: u64) -> (name: [u8; 8])
    ensures
        name@ == key_name(key),
{
    let rest1: u64 = key / 0x100;
    let rest2: u64 = rest1 / 0x100;
    let rest3: u64 = rest2 / 0x100;
    let rest4: u64 = rest3 / 0x100;
    let rest5: u64 = rest4 / 0x100;
    let rest6: u64 = rest5 / 0x100;
    let rest7: u64 = rest6 / 0x100;
    let name: [u8; 8] = [
        (key % 0x100) as u8,
        (rest1 % 0x100) as u8,
        (rest2 % 0x100) as u8,
        (rest3 % 0x100) as u8,
        (rest4 % 0x100) as u8,
        (rest5 % 0x100) as u8,
        (rest6 % 0x100) as u8,
        rest7 as u8,
    ];
    assert(name@ =~= key_name(key));
    name
}

/// Finished textures by name. Every texture stands under its own name, and
/// under no other.
pub struct Textures {
    list: HashMap<u64, Texture>,
}

impl View for Textures {
    type V = Map<Seq<u8>, TextureView>;

    closed spec fn view(&self) -> Map<Seq<u8>, TextureView> {
        Map::new(
            |name: Seq<u8>| name.len() == 8 && self.list@.contains_key(name_key(name)),
            |name: Seq<u8>| self.list@[name_key(name)]@,
        )
    }
}

impl Textures {
    #[verifier::type_invariant]
    spec fn files_by_name(&self) -> bool {
        forall|key: u64| #[trigger]
            self.list@.contains_key(key) ==> name_key(self.list@[key].name@) == key
    }

    /// A registry that holds nothing.
    pub fn empty() -> (r: Textures)
        ensures
            r@ == Map::<Seq<u8>, TextureView>::empty(),
    {
        let r = Textures { list: HashMap::new() };
        assert(r@ =~= Map::<Seq<u8>, TextureView>::empty());
        r
    }

    /// Enters a texture under its name, in place of any that was there.
    pub fn insert(&mut self, texture: Texture)
        ensures
            final(self)@ == old(self)@.insert(texture.name@, texture@),
    {
        proof {
            use_type_invariant(&*self);
        }
        let key = key_of(&texture.name);
        let ghost name = texture.name@;
        let mut list: HashMap<u64, Texture> = HashMap::new();
        core::mem::swap(&mut self.list, &mut list);
        list.insert(key, texture);
        assert forall|held: u64| #[trigger] list@.contains_key(held) implies name_key(
            list@[held].name@,
        ) == held by {
            if held != key {
                assert(old(self).list@.contains_key(held));
            }
        }
        core::mem::swap(&mut self.list, &mut list);
        proof {
            assert forall|other: Seq<u8>| other.len() == 8 && other != name implies name_key(other)
                != key by {
                if name_key(other) == key {
                    lemma_name_key_injective(other, name);
                }
            }
            assert(self@ =~= old(self)@.insert(name, texture@));
        }
    }

    /// Decodes a section, composes its textures and enters each under its
    /// name, in the order of the definitions. Where the section fails, the
    /// registry stays as it was.
    pub fn add_section(&mut self, section: Option<&[u8]>, patches: &[PatchBitmap]) -> (r: Result<
        (),
        DecodeError,
    >)
        ensures
            match r {
                Ok(_) => {
                    &&& section_error(section_bytes(section), patch_views(patches@)) is None
                    &&& final(self)@ == after_section(
                        old(self)@,
                        section_bytes(section),
                        patch_views(patches@),
                    )
                },
                Err(e) => {
                    &&& section_error(section_bytes(section), patch_views(patches@)) == Some(e)
                    &&& final(self)@ == old(self)@
                },
            },
    {
        let textures = match read_texture_section(section, patches) {
            Ok(textures) => textures,
            Err(e) => {
                return Err(e);
            },
        };
        let ghost views = texture_views(textures@);
        for texture in it: textures
            invariant
                views == texture_views(it.seq()),
                self@ == register_all(old(self)@, views, it.index() as nat),
        {
            self.insert(texture);
        }
        Ok(())
    }

    /// The registry of a primary and a secondary section: the textures of
    /// the primary one first, then those of the secondary one, which
    /// replace those of the same name. The first section that fails gives
    /// the error.
    pub fn new(primary: Option<&[u8]>, secondary: Option<&[u8]>, patches: &[PatchBitmap]) -> (r:
        Result<Textures, DecodeError>)
        ensures
            match r {
                Ok(textures) => {
                    &&& section_error(section_bytes(primary), patch_views(patches@)) is None
                    &&& section_error(section_bytes(secondary), patch_views(patches@)) is None
                    &&& textures@ == after_section(
                        after_section(
                            Map::empty(),
                            section_bytes(primary),
                            patch_views(patches@),
                        ),
                        section_bytes(secondary),
                        patch_views(patches@),
                    )
                    &&& filed_by_name(textures@)
                },
                Err(e) => {
                    let first = section_error(section_bytes(primary), patch_views(patches@));
                    if first is Some {
                        first == Some(e)
                    } else {
                        section_error(section_bytes(secondary), patch_views(patches@)) == Some(e)
                    }
                },
            },
    {
        let mut textures = Textures::empty();
        match textures.add_section(primary, patches) {
            Ok(_) => {},
            Err(e) => {
                return Err(e);
            },
        }
        match textures.add_section(secondary, patches) {
            Ok(_) => {},
            Err(e) => {
                return Err(e);
            },
        }
        proof {
            let views = patch_views(patches@);
            let first = section_textures(section_bytes(primary), views);
            let second = section_textures(section_bytes(secondary), views);
            lemma_register_all_files_by_name(Map::empty(), first, first.len());
            lemma_register_all_files_by_name(
                after_section(Map::empty(), section_bytes(primary), views),
                second,
                second.len(),
            );
        }
        Ok(textures)
    }

    /// The number of textures that the registry holds.
    pub fn len(&self) -> (r: usize)
        ensures
            self@.dom().finite(),
            r == self@.len(),
    {
        proof {
            let keys = self.list@.dom();
            let names = self@.dom();
            let name = |key: u64| key_name(key);
            assert forall|first: u64, second: u64|
                keys.contains(first) && keys.contains(second) && #[trigger] name(first)
                    == #[trigger] name(second) implies first == second by {
                lemma_key_name(first);
                lemma_key_name(second);
            }
            assert forall|held: Seq<u8>| names.contains(held) implies keys.map(name).contains(
                held,
            ) by {
                lemma_key_name(name_key(held));
                lemma_name_key_injective(key_name(name_key(held)), held);
                assert(keys.contains(name_key(held)) && name(name_key(held)) == held);
            }
            assert forall|held: Seq<u8>| keys.map(name).contains(held) implies names.contains(
                held,
            ) by {
                let key = choose|key: u64| keys.contains(key) && name(key) == held;
                lemma_key_name(key);
            }
            assert(keys.map(name) =~= names);
            lemma_map_size(keys, names, name);
        }
        self.list.len()
    }

    /// The names that the registry holds a texture under, each once, in no
    /// particular order.
    pub fn names(&self) -> (r: Vec<[u8; 8]>)
        ensures
            forall|i: int| 0 <= i < r@.len() ==> self@.contains_key(#[trigger] r@[i]@),
            forall|name: Seq<u8>|
                self@.contains_key(name) ==> exists|i: int|
                    0 <= i < r@.len() && #[trigger] r@[i]@ == name,
            forall|i: int, j: int| 0 <= i < j < r@.len() ==> r@[i]@ != r@[j]@,
    {
        let mut r: Vec<[u8; 8]> = Vec::new();
        let ghost keys = spec_keys_iter(&self.list).remaining();
        for key in it: self.list.keys()
            invariant
                it.seq() == keys,
                r@.len() == it.index(),
                forall|i: int| 0 <= i < r@.len() ==> name_key(#[trigger] r@[i]@) == *keys[i],
        {
            proof {
                lemma_key_name(*key);
            }
            r.push(name_of(*key));
        }
        proof {
            assert(keys.unref().to_set() == self.list@.dom());
            assert(keys.no_duplicates());
            assert forall|i: int| 0 <= i < r@.len() implies self@.contains_key(
                #[trigger] r@[i]@,
            ) by {
                assert(keys.unref()[i] == *keys[i]);
                assert(keys.unref().to_set().contains(keys.unref()[i]));
            }
            assert forall|name: Seq<u8>| self@.contains_key(name) implies exists|i: int|
                0 <= i < r@.len() && #[trigger] r@[i]@ == name by {
                let key = name_key(name);
                assert(keys.unref().to_set().contains(key));
                let i = choose|i: int| 0 <= i < keys.unref().len() && keys.unref()[i] == key;
                assert(*keys[i] == key);
                lemma_name_key_injective(r@[i]@, name);
            }
            assert forall|i: int, j: int| 0 <= i < j < r@.len() implies r@[i]@ != r@[j]@ by {
                assert(keys[i] != keys[j]);
            }
        }
        r
    }

    /// The texture of that name, if the registry holds one.
    pub fn get(&self, name: &[u8; 8]) -> (r: Option<&Texture>)
        ensures
            match r {
                Some(texture) => {
                    &&& self@.contains_key(name@)
                    &&& texture@ == self@[name@]
                    &&& texture@.name == name@
                },
                None => !self@.contains_key(name@),
            },
    {
        proof {
            use_type_invariant(self);
        }
        let key = key_of(name);
        let r = self.list.get(&key);
        proof {
            if let Some(texture) = r {
                lemma_name_key_injective(texture.name@, name@);
            }
        }
        r
    }
}

} // verus!
