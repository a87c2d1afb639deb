use aegis_os::gic::{self, GicBlock, RegWrite};

#[test]
fn gic_init_sequence() {
    let w = gic::init();
    assert_eq!(w[0], RegWrite { block: GicBlock::Distributor, offset: 0x000, value: 0 });
    assert_eq!(w[1], RegWrite { block: GicBlock::Distributor, offset: 0x000, value: 1 });
    assert_eq!(w[2], RegWrite { block: GicBlock::CpuInterface, offset: 0x004, value: 0xFF });
    assert_eq!(w[3], RegWrite { block: GicBlock::CpuInterface, offset: 0x000, value: 1 });
}

#[test]
fn gic_enable_sets_one_bit() {
    // INTID 33: second register, bit 1; the bits already set stay
    assert_eq!(
        gic::enable_intid(33, 0x1),
        RegWrite { block: GicBlock::Distributor, offset: 0x104, value: 0x3 }
    );
    // the timer: first register, bit 30
    assert_eq!(
        gic::enable_intid(30, 0),
        RegWrite { block: GicBlock::Distributor, offset: 0x100, value: 1 << 30 }
    );
    assert_eq!(
        gic::enable_intid(63, 0x8000_0000),
        RegWrite { block: GicBlock::Distributor, offset: 0x104, value: 0x8000_0000 }
    );
}

#[test]
fn gic_disable_writes_only_the_bit() {
    assert_eq!(
        gic::disable_intid(33),
        RegWrite { block: GicBlock::Distributor, offset: 0x184, value: 0x2 }
    );
    assert_eq!(
        gic::disable_intid(64),
        RegWrite { block: GicBlock::Distributor, offset: 0x188, value: 0x1 }
    );
}

#[test]
fn gic_priority_byte() {
    assert_eq!(gic::set_priority(30, 0), (0x400 + 30, 0));
    assert_eq!(gic::set_priority(33, 0xA0), (0x421, 0xA0));
}

#[test]
fn gic_acknowledge_and_end() {
    assert_eq!(gic::acknowledge(30), 30);
    assert_eq!(gic::acknowledge(0xFFFF_FC1E), 30);
    assert_eq!(gic::acknowledge(0x3FF), gic::INTID_SPURIOUS);
    assert_eq!(
        gic::end_interrupt(30),
        RegWrite { block: GicBlock::CpuInterface, offset: 0x010, value: 30 }
    );
}
