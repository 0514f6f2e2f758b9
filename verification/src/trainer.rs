//! The addresses of the first trainer: one flag, at a fixed place in the
//! module of the game.

use crate::bitflag::{Bitflag, Flag};
use crate::chain::{Chain, PointerChain};
use vstd::prelude::*;

verus! {

/// Where the pistol's ammunition lies, from the start of the game's module.
pub const PISTOL_AMMO: usize = 0x0098_A1D8;

/// The addresses that the chains start from.
#[derive(Clone, Copy, Debug)]
pub struct BaseAddresses {
    pub pistol_ammo: usize,
}

impl BaseAddresses {
    /// The addresses as they stand in the file of the module.
    pub fn known() -> (known: BaseAddresses)
        ensures
            known.pistol_ammo == PISTOL_AMMO,
    {
        BaseAddresses { pistol_ammo: PISTOL_AMMO }
    }

    /// The addresses in a process that has the module at `base`.
    pub fn with_module_base_addr(self, base: usize) -> (moved: BaseAddresses)
        requires
            self.pistol_ammo + base <= usize::MAX,
        ensures
            moved == (BaseAddresses { pistol_ammo: (self.pistol_ammo + base) as usize }),
    {
        BaseAddresses { pistol_ammo: self.pistol_ammo + base }
    }
}

/// The chains of the trainer.
pub struct PointerChains {
    pub pistol_ammo: Bitflag<u8>,
}

impl PointerChains {
    /// The chains from the addresses `value`.
    pub fn from(value: BaseAddresses) -> (chains: PointerChains)
        ensures
            chains.pistol_ammo@ == (Flag {
                chain: Chain { base: value.pistol_ammo, offsets: Seq::<usize>::empty() },
                mask: 1u8,
            }),
    {
        let chain: [usize; 1] = [value.pistol_ammo];
        let made = PointerChain::<u8>::new(chain.as_slice());
        assert(chain@.skip(1) =~= Seq::<usize>::empty());
        PointerChains { pistol_ammo: Bitflag::new(made, 0b1) }
    }

    /// The chains in a process that has the module of the game at
    /// `base_module_address`, or `None` where the module lies too high for the
    /// addresses to exist.
    pub fn new(base_module_address: usize) -> (chains: Option<PointerChains>)
        ensures
            chains is Some == (PISTOL_AMMO + base_module_address <= usize::MAX),
            chains matches Some(made) ==> made.pistol_ammo@ == (Flag {
                chain: Chain {
                    base: (PISTOL_AMMO + base_module_address) as usize,
                    offsets: Seq::<usize>::empty(),
                },
                mask: 1u8,
            }),
    {
        if base_module_address > usize::MAX - PISTOL_AMMO {
            return None;
        }
        Some(PointerChains::from(BaseAddresses::known().with_module_base_addr(base_module_address)))
    }
}

} // verus!
