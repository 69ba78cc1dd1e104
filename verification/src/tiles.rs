//! Properties of a map's game layer: which of the named special tiles occur
//! in it, and the report on them in MessagePack.

use crate::msgpack::{
    bool_encoding, buffer_into_vec, buffer_new, map_len_encoding, str_encoding, uint_encoding, write_bool,
    write_map_len, write_str, write_uint, written,
};
use vstd::prelude::*;
use vstd::utf8::{is_ascii_chars, is_ascii_chars_encode_utf8};

verus! {

/// The name of the special tile with the given index, if it has one.
pub open spec fn tile_name(index: u8) -> Option<Seq<char>> {
    if index == 12 {
        Some("DFREEZE"@)
    } else if index == 16 {
        Some("WALLJUMP"@)
    } else if index == 17 {
        Some("EHOOK_START"@)
    } else if index == 19 {
        Some("HIT_START"@)
    } else if index == 21 {
        Some("SOLO_START"@)
    } else if index == 96 {
        Some("TELE_GUN"@)
    } else if index == 104 {
        Some("NPC_START"@)
    } else if index == 105 {
        Some("SUPER_START"@)
    } else if index == 106 {
        Some("JETPACK_START"@)
    } else if index == 107 {
        Some("NPH_START"@)
    } else if index == 112 {
        Some("TELE_GRENADE"@)
    } else if index == 128 {
        Some("TELE_LASER"@)
    } else if index == 199 {
        Some("WEAPON_SHOTGUN"@)
    } else if index == 200 {
        Some("WEAPON_GRENADE"@)
    } else if index == 201 {
        Some("POWERUP_NINJA"@)
    } else if index == 202 {
        Some("WEAPON_RIFLE"@)
    } else {
        None
    }
}

/// The name of the special tile with the given index, if it has one.
pub fn tile(index: u8) -> (name: Option<&'static str>)
    ensures
        match name {
            Some(text) => tile_name(index) == Some(text@),
            None => tile_name(index) is None,
        },
{
    Some(
        match index {
            12 => "DFREEZE",
            16 => "WALLJUMP",
            17 => "EHOOK_START",
            19 => "HIT_START",
            21 => "SOLO_START",
            96 => "TELE_GUN",
            104 => "NPC_START",
            105 => "SUPER_START",
            106 => "JETPACK_START",
            107 => "NPH_START",
            112 => "TELE_GRENADE",
            128 => "TELE_LASER",
            199 => "WEAPON_SHOTGUN",
            200 => "WEAPON_GRENADE",
            201 => "POWERUP_NINJA",
            202 => "WEAPON_RIFLE",
            _ => return None,
        },
    )
}

/// How often `index` occurs among `tiles`.
pub open spec fn occurrences(tiles: Seq<u8>, index: u8) -> nat
    decreases tiles.len(),
{
    if tiles.len() == 0 {
        0
    } else {
        occurrences(tiles.drop_last(), index) + if tiles.last() == index {
            1nat
        } else {
            0nat
        }
    }
}

/// Adds to `count`, index by index, how often each tile index occurs among
/// `tiles`.
pub fn count(tiles: &[u8], count: &mut [u64; 256])
    requires
        forall|index: u8| old(count)@[index as int] + occurrences(tiles@, index) <= u64::MAX,
    ensures
        forall|index: u8|
            final(count)@[index as int] == old(count)@[index as int] + occurrences(tiles@, index),
{
    let mut i: usize = 0;
    while i < tiles.len()
        invariant
            i <= tiles@.len(),
            forall|index: u8|
                old(count)@[index as int] + occurrences(tiles@, index) <= u64::MAX,
            forall|index: u8|
                count@[index as int] == old(count)@[index as int] + occurrences(
                    tiles@.subrange(0, i as int),
                    index,
                ),
        decreases tiles@.len() - i,
    {
        let index = tiles[i];
        proof {
            let seen = tiles@.subrange(0, i as int);
            let more = tiles@.subrange(0, i + 1);
            assert(more.drop_last() == seen);
            lemma_occurrences_grow(more, tiles@, index);
        }
        count[index as usize] = count[index as usize] + 1;
        i += 1;
    }
    assert(tiles@.subrange(0, i as int) == tiles@);
}

/// A prefix of a sequence holds no more occurrences of an index than the
/// whole sequence.
pub proof fn lemma_occurrences_grow(prefix: Seq<u8>, tiles: Seq<u8>, index: u8)
    requires
        prefix.len() <= tiles.len(),
        prefix == tiles.subrange(0, prefix.len() as int),
    ensures
        occurrences(prefix, index) <= occurrences(tiles, index),
    decreases tiles.len() - prefix.len(),
{
    if prefix.len() < tiles.len() {
        let longer = tiles.subrange(0, prefix.len() as int + 1);
        assert(longer.drop_last() == prefix);
        lemma_occurrences_grow(longer, tiles, index);
    } else {
        assert(prefix == tiles);
    }
}

/// The names of the special tiles with an index below `upto` whose count is
/// not zero, by ascending index.
pub open spec fn present_names(counts: Seq<u64>, upto: nat) -> Seq<Seq<char>>
    decreases upto,
{
    if upto == 0 {
        Seq::empty()
    } else {
        let index = (upto - 1) as nat;
        let below = present_names(counts, index);
        if counts[index as int] != 0 && tile_name(index as u8) is Some {
            below.push(tile_name(index as u8)->0)
        } else {
            below
        }
    }
}

/// The texts of `names`, in the same order.
pub open spec fn texts(names: Seq<&'static str>) -> Seq<Seq<char>> {
    Seq::new(names.len(), |i: int| names[i]@)
}

/// The names of the special tiles that occur at least once according to
/// `counts`, by ascending index.
pub fn present_tiles(counts: &[u64; 256]) -> (names: Vec<&'static str>)
    ensures
        texts(names@) == present_names(counts@, 256),
{
    let mut names: Vec<&'static str> = Vec::new();
    let mut i: usize = 0;
    while i < 256
        invariant
            i <= 256,
            texts(names@) == present_names(counts@, i as nat),
        decreases 256 - i,
    {
        let ghost before = names@;
        if counts[i] != 0 {
            if let Some(name) = tile(i as u8) {
                names.push(name);
                assert(texts(names@) =~= texts(before).push(name@));
            }
        }
        i += 1;
    }
    names
}

/// Holds of a text of fewer than 32 characters, all of them ASCII.
pub open spec fn short_ascii(text: Seq<char>) -> bool {
    is_ascii_chars(text) && text.len() < 32
}

/// Every tile name is short and written in ASCII.
pub proof fn lemma_tile_names_are_short(index: u8)
    ensures
        tile_name(index) matches Some(text) ==> short_ascii(text),
{
    reveal_strlit("DFREEZE");
    reveal_strlit("WALLJUMP");
    reveal_strlit("EHOOK_START");
    reveal_strlit("HIT_START");
    reveal_strlit("SOLO_START");
    reveal_strlit("TELE_GUN");
    reveal_strlit("NPC_START");
    reveal_strlit("SUPER_START");
    reveal_strlit("JETPACK_START");
    reveal_strlit("NPH_START");
    reveal_strlit("TELE_GRENADE");
    reveal_strlit("TELE_LASER");
    reveal_strlit("WEAPON_SHOTGUN");
    reveal_strlit("WEAPON_GRENADE");
    reveal_strlit("POWERUP_NINJA");
    reveal_strlit("WEAPON_RIFLE");
}

/// The names that `present_names` lists are tile names: there are at most
/// `upto` of them, each short and written in ASCII.
pub proof fn lemma_present_names(counts: Seq<u64>, upto: nat)
    requires
        upto <= 256,
    ensures
        present_names(counts, upto).len() <= upto,
        forall|i: int|
            0 <= i < present_names(counts, upto).len() ==> short_ascii(
                #[trigger] present_names(counts, upto)[i],
            ),
    decreases upto,
{
    if upto > 0 {
        let index = (upto - 1) as nat;
        lemma_present_names(counts, index);
        lemma_tile_names_are_short(index as u8);
    }
}

/// The entries of the report's map: each name as a string, with `true` as
/// its value.
pub open spec fn entries_encoding(names: Seq<Seq<char>>) -> Seq<u8>
    decreases names.len(),
{
    if names.len() == 0 {
        Seq::empty()
    } else {
        entries_encoding(names.drop_last()) + str_encoding(names.last()) + bool_encoding(true)
    }
}

/// The report on a game layer of the given size in which the tiles occur as
/// `counts` says: width, height, and a map whose keys are the names of the
/// special tiles that occur.
pub open spec fn report_encoding(width: u64, height: u64, counts: Seq<u64>) -> Seq<u8> {
    let names = present_names(counts, 256);
    uint_encoding(width) + uint_encoding(height) + map_len_encoding(names.len() as u32)
        + entries_encoding(names)
}

/// The report on a game layer, in MessagePack.
pub fn report(width: u64, height: u64, counts: &[u64; 256]) -> (bytes: Vec<u8>)
    ensures
        bytes@ == report_encoding(width, height, counts@),
{
    let names = present_tiles(counts);
    proof {
        lemma_present_names(counts@, 256);
    }
    let mut buf = buffer_new();
    assert(written(buf) =~= Seq::empty());
    write_uint(&mut buf, width);
    write_uint(&mut buf, height);
    write_map_len(&mut buf, names.len() as u32);
    let ghost head = written(buf);
    assert(head =~= uint_encoding(width) + uint_encoding(height) + map_len_encoding(
        names@.len() as u32,
    ));
    let mut i: usize = 0;
    while i < names.len()
        invariant
            i <= names@.len(),
            texts(names@) == present_names(counts@, 256),
            forall|j: int| 0 <= j < names@.len() ==> short_ascii(#[trigger] texts(names@)[j]),
            written(buf) == head + entries_encoding(texts(names@).subrange(0, i as int)),
        decreases names@.len() - i,
    {
        let ghost done = texts(names@).subrange(0, i as int);
        let ghost more = texts(names@).subrange(0, i + 1);
        proof {
            assert(short_ascii(texts(names@)[i as int]));
            is_ascii_chars_encode_utf8(names@[i as int]@);
            assert(more.drop_last() =~= done);
            assert(more.last() == names@[i as int]@);
        }
        write_str(&mut buf, names[i]);
        write_bool(&mut buf, true);
        assert(written(buf) =~= head + entries_encoding(more));
        i += 1;
    }
    assert(texts(names@).subrange(0, i as int) =~= texts(names@));
    buffer_into_vec(buf)
}

} // verus!
