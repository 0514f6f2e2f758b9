//! The addresses of the second trainer: flags and values of the player's
//! character, reached over chains from five places in the module of the game.

use crate::bitflag::{Bitflag, Flag};
use crate::chain::{Chain, PointerChain};
use crate::layout::{
    image_of_row, lemma_image_of_row, lemma_row_len, lemma_row_of_image, row_from_bytes,
    row_of_image, row_to_bytes, FixedLayout,
};
use vstd::prelude::*;

verus! {

/// The releases of the game that the chains are known for.
#[derive(Clone, Copy, Debug, PartialEq, Eq, Structural)]
pub enum Version {
    V1_03_1,
}

impl Version {
    /// The release as its three numbers: major, minor and patch.
    pub open spec fn spec_numbers(self) -> (u32, u32, u32) {
        match self {
            Version::V1_03_1 => (1, 3, 1),
        }
    }

    /// The release as its three numbers: major, minor and patch.
    pub fn numbers(self) -> (numbers: (u32, u32, u32))
        ensures
            numbers == self.spec_numbers(),
    {
        match self {
            Version::V1_03_1 => (1, 3, 1),
        }
    }

    /// Where the time played lies behind the character manager.
    pub open spec fn spec_igt_offset(self) -> usize {
        match self {
            Version::V1_03_1 => 0xa4,
        }
    }

    /// Where the time played lies behind the character manager.
    pub fn igt_offset(self) -> (offset: usize)
        ensures
            offset == self.spec_igt_offset(),
    {
        match self {
            Version::V1_03_1 => 0xa4,
        }
    }
}

/// The addresses that the chains start from.
#[derive(Clone, Copy, Debug)]
pub struct BaseAddresses {
    pub base_a: usize,
    pub world_chr_man: usize,
    pub character_flags: usize,
    pub base_menu: usize,
    pub world_chr_debug: usize,
}

impl BaseAddresses {
    /// All five addresses lie below the top of the address space when moved
    /// by `base`.
    pub open spec fn fits(self, base: usize) -> bool {
        &&& self.base_a + base <= usize::MAX
        &&& self.world_chr_man + base <= usize::MAX
        &&& self.character_flags + base <= usize::MAX
        &&& self.base_menu + base <= usize::MAX
        &&& self.world_chr_debug + base <= usize::MAX
    }

    /// The addresses moved by `base`.
    pub open spec fn moved(self, base: usize) -> BaseAddresses {
        BaseAddresses {
            base_a: (self.base_a + base) as usize,
            world_chr_man: (self.world_chr_man + base) as usize,
            character_flags: (self.character_flags + base) as usize,
            base_menu: (self.base_menu + base) as usize,
            world_chr_debug: (self.world_chr_debug + base) as usize,
        }
    }

    /// The addresses in a process that has the module at `base`.
    pub fn with_module_base_addr(self, base: usize) -> (moved: BaseAddresses)
        requires
            self.fits(base),
        ensures
            moved == self.moved(base),
    {
        BaseAddresses {
            base_a: self.base_a + base,
            world_chr_man: self.world_chr_man + base,
            character_flags: self.character_flags + base,
            base_menu: self.base_menu + base,
            world_chr_debug: self.world_chr_debug + base,
        }
    }
}

/// The numbers of the player's character, as the game holds them: twenty-two
/// numbers of four bytes each, one behind the other.
#[derive(Clone, Copy, Debug, PartialEq, Eq, Structural)]
pub struct CharacterStats {
    pub vitality: i32,
    pub unk1: i32,
    pub attunement: i32,
    pub unk2: i32,
    pub endurance: i32,
    pub unk3: i32,
    pub strength: i32,
    pub unk4: i32,
    pub dexterity: i32,
    pub unk5: i32,
    pub intelligence: i32,
    pub unk6: i32,
    pub faith: i32,
    pub unk7: i32,
    pub unk8: i32,
    pub unk9: i32,
    pub unk10: i32,
    pub humanity: i32,
    pub resistance: i32,
    pub unk11: i32,
    pub level: i32,
    pub souls: i32,
}

impl CharacterStats {
    /// The numbers in the order in which they lie in memory.
    pub open spec fn row(self) -> Seq<i32> {
        seq![
            self.vitality,
            self.unk1,
            self.attunement,
            self.unk2,
            self.endurance,
            self.unk3,
            self.strength,
            self.unk4,
            self.dexterity,
            self.unk5,
            self.intelligence,
            self.unk6,
            self.faith,
            self.unk7,
            self.unk8,
            self.unk9,
            self.unk10,
            self.humanity,
            self.resistance,
            self.unk11,
            self.level,
            self.souls,
        ]
    }

    /// The numbers that a row of twenty-two holds.
    pub open spec fn of_row(row: Seq<i32>) -> CharacterStats {
        CharacterStats {
        vitality: row[0],
        unk1: row[1],
        attunement: row[2],
        unk2: row[3],
        endurance: row[4],
        unk3: row[5],
        strength: row[6],
        unk4: row[7],
        dexterity: row[8],
        unk5: row[9],
        intelligence: row[10],
        unk6: row[11],
        faith: row[12],
        unk7: row[13],
        unk8: row[14],
        unk9: row[15],
        unk10: row[16],
        humanity: row[17],
        resistance: row[18],
        unk11: row[19],
        level: row[20],
        souls: row[21],
        }
    }
}

impl FixedLayout for CharacterStats {
    open spec fn width() -> nat {
        88
    }

    open spec fn image(&self) -> Seq<u8> {
        image_of_row(self.row())
    }

    open spec fn from_image(bytes: Seq<u8>) -> CharacterStats {
        CharacterStats::of_row(row_of_image::<i32>(bytes, 22))
    }

    proof fn lemma_image(v: &CharacterStats) {
        lemma_image_of_row(v.row());
        assert(v.row().len() == 22);
        assert(<i32 as FixedLayout>::width() == 4);
    }

    proof fn lemma_from_image(bytes: Seq<u8>) {
        lemma_row_of_image::<i32>(bytes, 22);
        lemma_row_len::<i32>(bytes, 22);
        let row = row_of_image::<i32>(bytes, 22);
        assert(CharacterStats::of_row(row).row() =~= row);
    }

    fn size() -> (n: usize) {
        88
    }

    fn to_bytes(&self) -> (bytes: Vec<u8>) {
        let row: [i32; 22] = [
            self.vitality,
            self.unk1,
            self.attunement,
            self.unk2,
            self.endurance,
            self.unk3,
            self.strength,
            self.unk4,
            self.dexterity,
            self.unk5,
            self.intelligence,
            self.unk6,
            self.faith,
            self.unk7,
            self.unk8,
            self.unk9,
            self.unk10,
            self.humanity,
            self.resistance,
            self.unk11,
            self.level,
            self.souls,
        ];
        assert(row@ =~= self.row());
        row_to_bytes(row.as_slice())
    }

    fn from_bytes(bytes: &[u8]) -> (v: CharacterStats) {
        let row = row_from_bytes::<i32>(bytes, 22);
        proof {
            lemma_row_len::<i32>(bytes@, 22);
        }
        CharacterStats {
            vitality: row[0],
            unk1: row[1],
            attunement: row[2],
            unk2: row[3],
            endurance: row[4],
            unk3: row[5],
            strength: row[6],
            unk4: row[7],
            dexterity: row[8],
            unk5: row[9],
            intelligence: row[10],
            unk6: row[11],
            faith: row[12],
            unk7: row[13],
            unk8: row[14],
            unk9: row[15],
            unk10: row[16],
            humanity: row[17],
            resistance: row[18],
            unk11: row[19],
            level: row[20],
            souls: row[21],
        }
    }
}

/// The chain from `base` over `offsets`.
pub open spec fn chain_of(base: usize, offsets: Seq<usize>) -> Chain {
    Chain { base, offsets }
}

/// The flag of the bits `mask` at the end of the chain from `base` over
/// `offsets`.
pub open spec fn flag_of(mask: u8, base: usize, offsets: Seq<usize>) -> Flag<u8> {
    Flag { chain: Chain { base, offsets }, mask }
}

/// The chain from `base` over `offsets`.
fn chain_from<T>(base: usize, offsets: &[usize]) -> (made: PointerChain<T>)
    ensures
        made@ == chain_of(base, offsets@),
{
    let mut chain: Vec<usize> = Vec::new();
    chain.push(base);
    let mut i: usize = 0;
    while i < offsets.len()
        invariant
            i <= offsets@.len(),
            chain@ == seq![base] + offsets@.take(i as int),
        decreases offsets@.len() - i,
    {
        chain.push(offsets[i]);
        i = i + 1;
        assert(chain@ =~= seq![base] + offsets@.take(i as int));
    }
    assert(chain@.skip(1) =~= offsets@);
    PointerChain::new(chain.as_slice())
}

/// The flag of the bits `mask` at the end of the chain from `base` over
/// `offsets`.
fn flag_from(mask: u8, base: usize, offsets: &[usize]) -> (made: Bitflag<u8>)
    ensures
        made@ == flag_of(mask, base, offsets@),
{
    Bitflag::new(chain_from(base, offsets), mask)
}

/// The chains of the trainer. A number with a fraction is held as its four
/// bytes, a place as three such numbers.
#[derive(Debug)]
pub struct PointerChains {
    pub all_no_damage: Bitflag<u8>,
    pub no_death: Bitflag<u8>,
    pub inf_stamina: Bitflag<u8>,
    pub inf_consumables: Bitflag<u8>,
    pub no_damage: Bitflag<u8>,
    pub gravity: Bitflag<u8>,
    pub collision: Bitflag<u8>,
    pub speed: PointerChain<u32>,
    pub character_stats: PointerChain<CharacterStats>,
    pub souls: PointerChain<u32>,
    pub cursor_show: Bitflag<u8>,
    pub no_hit: Bitflag<u8>,
    pub igt: PointerChain<u32>,
    pub bonfire_warp_menu: Bitflag<u8>,
    pub position: (PointerChain<u32>, PointerChain<[u32; 3]>),
}

impl PointerChains {
    /// The chains are those of the release `version` from the addresses
    /// `value`: each starts and goes on as the game lays its data out.
    pub open spec fn is_table(&self, version: Version, value: BaseAddresses) -> bool {
        &&& self.all_no_damage@ == flag_of(0b1, (value.world_chr_debug + 9) as usize, Seq::<usize>::empty())
        &&& self.no_death@ == flag_of(0b100000, value.character_flags, seq![0x68, 0x524])
        &&& self.inf_stamina@ == flag_of(0b100, value.character_flags, seq![0x68, 0x525])
        &&& self.inf_consumables@ == flag_of(0b1, value.character_flags, seq![0x68, 0x527])
        &&& self.no_damage@ == flag_of(0b100000, value.character_flags, seq![0x68, 0x524])
        &&& self.gravity@ == flag_of(0b1000000, value.character_flags, seq![0x68, 0x245])
        &&& self.collision@ == flag_of(0b1000, value.character_flags, seq![0x68, 0x68, 0x104])
        &&& self.speed@ == chain_of(value.character_flags, seq![0x68, 0x68, 0x18, 0xa8])
        &&& self.character_stats@ == chain_of(value.world_chr_man, seq![0x10, 0x40])
        &&& self.souls@ == chain_of(value.world_chr_man, seq![0x10, 0x94])
        &&& self.cursor_show@ == flag_of(0b1, value.base_menu, seq![0xa8])
        &&& self.no_hit@ == flag_of(0b1, value.character_flags, seq![0x80, 0x18, 0x1c0])
        &&& self.igt@ == chain_of(value.world_chr_man, seq![version.spec_igt_offset()])
        &&& self.bonfire_warp_menu@ == flag_of(0b1, value.base_menu, seq![0xc0])
        &&& self.position.0@ == chain_of(value.character_flags, seq![0x68, 0x68, 0x28, 0x4])
        &&& self.position.1@ == chain_of(value.character_flags, seq![0x68, 0x68, 0x28, 0x10])
    }

    /// The chains of the release `version` from the addresses `value`.
    pub fn from(version: Version, value: BaseAddresses) -> (chains: PointerChains)
        requires
            value.world_chr_debug + 9 <= usize::MAX,
        ensures
            chains.is_table(version, value),
    {
        let BaseAddresses { base_a: _, world_chr_man, character_flags, base_menu, world_chr_debug } =
            value;
        let off_all_no_damage: usize = 9;
        let offs_igt: usize = version.igt_offset();
        let none: [usize; 0] = [];
        let o_68_524: [usize; 2] = [0x68, 0x524];
        let o_68_525: [usize; 2] = [0x68, 0x525];
        let o_68_527: [usize; 2] = [0x68, 0x527];
        let o_68_245: [usize; 2] = [0x68, 0x245];
        let o_68_68_104: [usize; 3] = [0x68, 0x68, 0x104];
        let o_speed: [usize; 4] = [0x68, 0x68, 0x18, 0xa8];
        let o_10_40: [usize; 2] = [0x10, 0x40];
        let o_10_94: [usize; 2] = [0x10, 0x94];
        let o_a8: [usize; 1] = [0xa8];
        let o_80_18_1c0: [usize; 3] = [0x80, 0x18, 0x1c0];
        let o_igt: [usize; 1] = [offs_igt];
        let o_c0: [usize; 1] = [0xc0];
        let o_angle: [usize; 4] = [0x68, 0x68, 0x28, 0x4];
        let o_place: [usize; 4] = [0x68, 0x68, 0x28, 0x10];
        proof {
            assert(none@ =~= Seq::<usize>::empty());
            assert(o_68_524@ =~= seq![0x68, 0x524]);
            assert(o_68_525@ =~= seq![0x68, 0x525]);
            assert(o_68_527@ =~= seq![0x68, 0x527]);
            assert(o_68_245@ =~= seq![0x68, 0x245]);
            assert(o_68_68_104@ =~= seq![0x68, 0x68, 0x104]);
            assert(o_speed@ =~= seq![0x68, 0x68, 0x18, 0xa8]);
            assert(o_10_40@ =~= seq![0x10, 0x40]);
            assert(o_10_94@ =~= seq![0x10, 0x94]);
            assert(o_a8@ =~= seq![0xa8]);
            assert(o_80_18_1c0@ =~= seq![0x80, 0x18, 0x1c0]);
            assert(o_igt@ =~= seq![version.spec_igt_offset()]);
            assert(o_c0@ =~= seq![0xc0]);
            assert(o_angle@ =~= seq![0x68, 0x68, 0x28, 0x4]);
            assert(o_place@ =~= seq![0x68, 0x68, 0x28, 0x10]);
        }
        PointerChains {
            all_no_damage: flag_from(0b1, world_chr_debug + off_all_no_damage, none.as_slice()),
            no_death: flag_from(0b100000, character_flags, o_68_524.as_slice()),
            inf_stamina: flag_from(0b100, character_flags, o_68_525.as_slice()),
            inf_consumables: flag_from(0b1, character_flags, o_68_527.as_slice()),
            gravity: flag_from(0b1000000, character_flags, o_68_245.as_slice()),
            collision: flag_from(0b1000, character_flags, o_68_68_104.as_slice()),
            speed: chain_from(character_flags, o_speed.as_slice()),
            character_stats: chain_from(world_chr_man, o_10_40.as_slice()),
            souls: chain_from(world_chr_man, o_10_94.as_slice()),
            cursor_show: flag_from(0b1, base_menu, o_a8.as_slice()),
            no_damage: flag_from(0b100000, character_flags, o_68_524.as_slice()),
            no_hit: flag_from(0b1, character_flags, o_80_18_1c0.as_slice()),
            igt: chain_from(world_chr_man, o_igt.as_slice()),
            bonfire_warp_menu: flag_from(0b1, base_menu, o_c0.as_slice()),
            position: (
                chain_from(character_flags, o_angle.as_slice()),
                chain_from(character_flags, o_place.as_slice()),
            ),
        }
    }

    /// The chains of the release `version` in a process that has the module
    /// of the game at `base_module_address`, from the addresses `known` as
    /// they stand in the file of the module. `None` where the module lies too
    /// high for the addresses to exist.
    pub fn new(version: Version, known: BaseAddresses, base_module_address: usize) -> (chains:
        Option<PointerChains>)
        ensures
            chains is Some == (known.fits(base_module_address) && known.world_chr_debug
                + base_module_address + 9 <= usize::MAX),
            chains matches Some(made) ==> made.is_table(
                version,
                known.moved(base_module_address),
            ),
    {
        let top: usize = usize::MAX - base_module_address;
        if known.base_a > top || known.world_chr_man > top || known.character_flags > top
            || known.base_menu > top || known.world_chr_debug > top {
            return None;
        }
        let moved = known.with_module_base_addr(base_module_address);
        if moved.world_chr_debug > usize::MAX - 9 {
            return None;
        }
        Some(PointerChains::from(version, moved))
    }
}

} // verus!
