use fuzzing::emulator::ExecFault;
use fuzzing::{Emulator, MemError, Perm, Register, Section, VirtAddr};
use fuzzing::{PERM_EXEC, PERM_READ, PERM_WRITE};

fn place_code(emu: &mut Emulator, addr: usize, code: &[u8]) {
    emu.mmu
        .set_permissions(VirtAddr(addr), code.len(), Perm(PERM_WRITE))
        .unwrap();
    emu.mmu.write_from(VirtAddr(addr), code).unwrap();
    emu.mmu
        .set_permissions(VirtAddr(addr), code.len(), Perm(PERM_EXEC))
        .unwrap();
}

#[test]
fn register_from_index() {
    assert_eq!(Register::from_index(0), Some(Register::Zero));
    assert_eq!(Register::from_index(10), Some(Register::A0));
    assert_eq!(Register::from_index(32), Some(Register::Pc));
    assert_eq!(Register::from_index(33), None);
    assert_eq!(Register::from_index(1000), None);
}

#[test]
fn register_index_roundtrip() {
    for i in 0..33u32 {
        let r = Register::from_index(i).unwrap();
        assert_eq!(r.index() as u32, i);
    }
}

#[test]
fn step_auipc() {
    let mut emu = Emulator::new(0x20000);
    // AUIPC a0, 0x12345: a0 gets pc + 0x12345000.
    place_code(&mut emu, 0x10000, &[0x17, 0x55, 0x34, 0x12]);
    emu.set_reg(Register::Pc, 0x10000);
    emu.step().unwrap();
    assert_eq!(emu.reg(Register::A0), 0x10000 + 0x12345000);
    assert_eq!(emu.reg(Register::Pc), 0x10004);
}

#[test]
fn step_auipc_negative_immediate() {
    let mut emu = Emulator::new(0x20000);
    // AUIPC ra, 0x80000: the immediate is sign-extended, so ra gets
    // pc - 0x80000000 in wrapping 64-bit arithmetic.
    place_code(&mut emu, 0x10000, &[0x97, 0x00, 0x00, 0x80]);
    emu.set_reg(Register::Pc, 0x10000);
    emu.step().unwrap();
    assert_eq!(emu.reg(Register::Ra), 0xffffffff80010000);
    assert_eq!(emu.reg(Register::Pc), 0x10004);
}

#[test]
fn step_unknown_opcode_is_a_fault_not_a_panic() {
    let mut emu = Emulator::new(0x20000);
    place_code(&mut emu, 0x10000, &[0x13, 0x00, 0x00, 0x00]);
    emu.set_reg(Register::Pc, 0x10000);
    assert_eq!(emu.step(), Err(ExecFault::UnknownOpcode(0x13)));
    // The fault left the emulator untouched.
    assert_eq!(emu.reg(Register::Pc), 0x10000);
}

#[test]
fn step_fetch_faults() {
    let mut emu = Emulator::new(0x20000);
    // No EXEC permission where the program counter points.
    emu.set_reg(Register::Pc, 0x200);
    assert_eq!(
        emu.step(),
        Err(ExecFault::MemoryFault(MemError::PermissionDenied))
    );
    // The instruction word would cross the end of the space.
    emu.set_reg(Register::Pc, 0x1fffe);
    assert_eq!(emu.step(), Err(ExecFault::MemoryFault(MemError::OutOfBounds)));
    // The program counter is past the space entirely.
    emu.set_reg(Register::Pc, 0x30000);
    assert_eq!(emu.step(), Err(ExecFault::MemoryFault(MemError::OutOfBounds)));
}

#[test]
fn load_sections_populates_space() {
    let mut emu = Emulator::new(0x40000);
    let image: Vec<u8> = vec![0xaa, 0xbb, 0xcc, 0xdd, 0x01, 0x02, 0x03, 0x04];
    let sections = [
        Section {
            file_off: 0,
            virt_addr: VirtAddr(0x11000),
            file_size: 4,
            mem_size: 8,
            permissions: Perm(PERM_READ),
        },
        Section {
            file_off: 4,
            virt_addr: VirtAddr(0x12000),
            file_size: 4,
            mem_size: 4,
            permissions: Perm(PERM_READ | PERM_EXEC),
        },
    ];
    emu.load(image.as_slice(), &sections).unwrap();
    // File bytes placed, remainder zero-filled (bss).
    let mut buf = vec![0xffu8; 8];
    emu.mmu.read_into(VirtAddr(0x11000), &mut buf).unwrap();
    assert_eq!(buf, vec![0xaa, 0xbb, 0xcc, 0xdd, 0, 0, 0, 0]);
    // The declared final permissions hold: the region is no longer writable.
    assert_eq!(
        emu.mmu.write_from(VirtAddr(0x11000), &[0]).unwrap_err(),
        MemError::PermissionDenied
    );
    // The code section is fetchable.
    assert_eq!(
        emu.mmu.read_perms(VirtAddr(0x12000), Perm(PERM_EXEC)).unwrap(),
        0x04030201
    );
    // Dynamic allocation starts past the highest section end, aligned.
    assert_eq!(emu.mmu.allocate(4).unwrap().0, 0x12010);
}

#[test]
fn load_failure_aborts() {
    // A section past the end of the space.
    let mut emu = Emulator::new(0x1000);
    let image: Vec<u8> = vec![1, 2, 3, 4];
    let sections = [Section {
        file_off: 0,
        virt_addr: VirtAddr(0x8000),
        file_size: 4,
        mem_size: 4,
        permissions: Perm(PERM_READ),
    }];
    assert_eq!(
        emu.load(image.as_slice(), &sections).unwrap_err(),
        MemError::OutOfBounds
    );
    // A section asking for more file bytes than the image holds.
    let mut emu = Emulator::new(0x40000);
    let sections = [Section {
        file_off: 2,
        virt_addr: VirtAddr(0x11000),
        file_size: 4,
        mem_size: 4,
        permissions: Perm(PERM_READ),
    }];
    assert_eq!(
        emu.load(image.as_slice(), &sections).unwrap_err(),
        MemError::OutOfBounds
    );
}

#[test]
fn emulator_fork_and_reset_cover_registers() {
    let mut emu = Emulator::new(0x20000);
    emu.set_reg(Register::Sp, 777);
    let mut f = emu.fork();
    assert_eq!(f.reg(Register::Sp), 777);
    f.set_reg(Register::Sp, 1);
    f.set_reg(Register::A0, 2);
    f.reset(&emu);
    assert_eq!(f.reg(Register::Sp), 777);
    assert_eq!(f.reg(Register::A0), 0);
    // The baseline kept its own registers all along.
    assert_eq!(emu.reg(Register::Sp), 777);
}
