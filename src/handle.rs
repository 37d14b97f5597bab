//! Task handles: a slot index in the upper 32 bits and the low 32 bits of a
//! generation in the lower 32 bits.
use vstd::prelude::*;

verus! {

/// `2^32`: the width of the generation field of a handle.
pub open spec fn gen_width() -> nat {
    0x1_0000_0000
}

/// The handle that names slot `index` at generation `generation`.
pub open spec fn handle_of(index: nat, generation: nat) -> nat {
    index * gen_width() + generation % gen_width()
}

/// Slot index carried by a handle.
pub open spec fn index_of(handle: nat) -> nat {
    handle / gen_width()
}

/// Generation tag carried by a handle.
pub open spec fn tag_of(handle: nat) -> nat {
    handle % gen_width()
}

/// Builds the handle for `index` and `generation`; only the low 32 bits of the
/// generation are kept.
pub fn encode_handle(index: u64, generation: u64) -> (h: u64)
    requires
        index < 0x1_0000_0000,
    ensures
        h as nat == handle_of(index as nat, generation as nat),
{
    let g = generation & 0xFFFF_FFFF;
    let h = (index << 32u64) | g;
    assert(g == generation % 0x1_0000_0000) by (bit_vector)
        requires
            g == generation & 0xFFFF_FFFF,
    ;
    assert(h == index * 0x1_0000_0000 + generation % 0x1_0000_0000) by (bit_vector)
        requires
            index < 0x1_0000_0000,
            g == generation & 0xFFFF_FFFF,
            h == (index << 32u64) | g,
    ;
    h
}

/// The slot index of a handle.
pub fn handle_index(h: u64) -> (i: u64)
    ensures
        i as nat == index_of(h as nat),
{
    let i = h >> 32u64;
    assert(i == h / 0x1_0000_0000) by (bit_vector)
        requires
            i == h >> 32u64,
    ;
    i
}

/// The generation tag of a handle.
pub fn handle_generation(h: u64) -> (g: u64)
    ensures
        g as nat == tag_of(h as nat),
{
    let g = h & 0xFFFF_FFFF;
    assert(g == h % 0x1_0000_0000) by (bit_vector)
        requires
            g == h & 0xFFFF_FFFF,
    ;
    g
}

/// Encoding is lossless: a handle gives back its slot index and the low 32
/// bits of its generation.
pub proof fn lemma_handle_round_trip(index: nat, generation: nat)
    ensures
        index_of(handle_of(index, generation)) == index,
        tag_of(handle_of(index, generation)) == generation % gen_width(),
{
    let r = generation % gen_width();
    vstd::arithmetic::div_mod::lemma_mod_bound(generation as int, gen_width() as int);
    vstd::arithmetic::div_mod::lemma_fundamental_div_mod_converse(
        handle_of(index, generation) as int,
        gen_width() as int,
        index as int,
        r as int,
    );
}

} // verus!
