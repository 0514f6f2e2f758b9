use memedit::dsr;
use memedit::simulated::SimulatedProcess;
use memedit::trainer;

#[test]
fn trainer_addresses_move_with_the_module() {
    let known = trainer::BaseAddresses::known();
    assert_eq!(known.pistol_ammo, 0x0098_A1D8);
    assert_eq!(known.with_module_base_addr(0x40_0000).pistol_ammo, 0x00d8_a1d8);
    assert_eq!(known.with_module_base_addr(0).pistol_ammo, 0x0098_a1d8);
}

#[test]
fn trainer_flag_is_the_lowest_bit_at_the_address() {
    let chains = trainer::PointerChains::new(0x40_0000).unwrap();
    let mut process = SimulatedProcess::new();
    process.place(0x00d8_a1d8, &[0b1110]);
    assert_eq!(chains.pistol_ammo.get(&mut process), Some(false));
    chains.pistol_ammo.set(&mut process, true);
    assert_eq!(process.peek(0x00d8_a1d8), Some(0b1111));
    assert_eq!(process.log().len(), 3);
}

#[test]
fn trainer_chains_need_a_module_below_the_top() {
    assert!(trainer::PointerChains::new(usize::MAX - 0x0098_A1D8).is_some());
    assert!(trainer::PointerChains::new(usize::MAX - 0x0098_A1D7).is_none());
}

fn known() -> dsr::BaseAddresses {
    dsr::BaseAddresses {
        base_a: 0x100,
        world_chr_man: 0x200,
        character_flags: 0x300,
        base_menu: 0x400,
        world_chr_debug: 0x500,
    }
}

#[test]
fn dsr_addresses_move_with_the_module() {
    let moved = known().with_module_base_addr(0x1_0000);
    assert_eq!(moved.base_a, 0x1_0100);
    assert_eq!(moved.world_chr_man, 0x1_0200);
    assert_eq!(moved.character_flags, 0x1_0300);
    assert_eq!(moved.base_menu, 0x1_0400);
    assert_eq!(moved.world_chr_debug, 0x1_0500);
}

fn game() -> SimulatedProcess {
    let mut process = SimulatedProcess::new();
    process.place(0x1_0509, &[0]);
    process.place_value::<usize>(0x1_0300, 0x2_0000);
    process.place_value::<usize>(0x2_0068, 0x3_0000);
    process.place_value::<usize>(0x2_0080, 0x3_8000);
    process.place_value::<usize>(0x3_8018, 0x3_9000);
    process.place(0x3_91c0, &[0]);
    process.place(0x3_0245, &[0]);
    process.place(0x3_0524, &[0, 0, 0, 0]);
    process.place_value::<usize>(0x3_0068, 0x4_0000);
    process.place(0x4_0104, &[0]);
    process.place_value::<usize>(0x4_0018, 0x5_0000);
    process.place_value::<u32>(0x5_00a8, 1.0_f32.to_bits());
    process.place_value::<usize>(0x4_0028, 0x6_0000);
    process.place_value::<u32>(0x6_0004, 0.5_f32.to_bits());
    process.place_value::<[u32; 3]>(0x6_0010, [1, 2, 3]);
    process.place_value::<usize>(0x1_0200, 0x7_0000);
    process.place_value::<u32>(0x7_00a4, 3_600_000);
    process.place_value::<usize>(0x7_0010, 0x8_0000);
    process.place(0x8_0040, &[0; 88]);
    process.place_value::<u32>(0x8_0094, 1234);
    process.place_value::<usize>(0x1_0400, 0x9_0000);
    process.place(0x9_00a8, &[0]);
    process.place(0x9_00c0, &[0]);
    process
}

#[test]
fn dsr_chains_lead_to_the_data_of_the_game() {
    let chains = dsr::PointerChains::new(dsr::Version::V1_03_1, known(), 0x1_0000).unwrap();
    let mut process = game();
    chains.all_no_damage.set(&mut process, true);
    assert_eq!(process.peek(0x1_0509), Some(0b1));
    chains.no_death.set(&mut process, true);
    assert_eq!(process.peek(0x3_0524), Some(0b10_0000));
    assert_eq!(chains.no_damage.get(&mut process), Some(true));
    chains.inf_stamina.set(&mut process, true);
    assert_eq!(process.peek(0x3_0525), Some(0b100));
    chains.inf_consumables.set(&mut process, true);
    assert_eq!(process.peek(0x3_0527), Some(0b1));
    chains.gravity.set(&mut process, true);
    assert_eq!(process.peek(0x3_0245), Some(0b100_0000));
    chains.collision.set(&mut process, true);
    assert_eq!(process.peek(0x4_0104), Some(0b1000));
    chains.no_hit.set(&mut process, true);
    assert_eq!(process.peek(0x3_91c0), Some(0b1));
    chains.cursor_show.set(&mut process, true);
    assert_eq!(process.peek(0x9_00a8), Some(0b1));
    chains.bonfire_warp_menu.set(&mut process, true);
    assert_eq!(process.peek(0x9_00c0), Some(0b1));
    assert_eq!(chains.speed.read(&mut process).map(f32::from_bits), Some(1.0));
    assert_eq!(chains.position.0.read(&mut process).map(f32::from_bits), Some(0.5));
    assert_eq!(chains.position.1.read(&mut process), Some([1, 2, 3]));
    assert_eq!(chains.igt.read(&mut process), Some(3_600_000));
    assert_eq!(chains.souls.read(&mut process), Some(1234));
    let stats = chains.character_stats.read(&mut process).unwrap();
    assert_eq!(stats.vitality, 0);
    assert_eq!(stats.souls, 1234);
    assert_eq!(chains.speed.eval(&mut process), Some(0x5_00a8));
    assert_eq!(chains.character_stats.eval(&mut process), Some(0x8_0040));
}

#[test]
fn dsr_chains_need_a_module_below_the_top() {
    let version = dsr::Version::V1_03_1;
    assert!(dsr::PointerChains::new(version, known(), usize::MAX - 0x509).is_some());
    assert!(dsr::PointerChains::new(version, known(), usize::MAX - 0x508).is_none());
    assert!(dsr::PointerChains::new(version, known(), usize::MAX - 0x4ff).is_none());
    assert_eq!(version.igt_offset(), 0xa4);
    assert_eq!(version.numbers(), (1, 3, 1));
}
