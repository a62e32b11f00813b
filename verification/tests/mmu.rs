use fuzzing::mem::{ALLOC_BASE, DIRTY_BLOCK_SIZE};
use fuzzing::{Emulator, MemError, Mmu, Perm, VirtAddr};
use fuzzing::{PERM_EXEC, PERM_RAW, PERM_READ, PERM_WRITE};

#[test]
fn dirty() {
    let mut emu = Emulator::new(1024 * 1024);
    let tmp = emu.mmu.allocate(4096).unwrap();
    let data: &[u8] = b"asdf";
    emu.mmu.write_from(VirtAddr(tmp.0), data).unwrap();
    println!("Original dirty {:x?}", emu.mmu.dirty_blocks());

    {
        let mut forked = emu.mmu.fork();
        // Write and read into forked mem.
        forked.write_from(VirtAddr(tmp.0), data).unwrap();
        let mut bytes = vec![0u8; 4];
        forked.read_into(tmp, &mut bytes).unwrap();
        println!("Forked dirty {:x?}", forked.dirty_blocks());

        forked.reset(&emu.mmu);

        let mut bytes = vec![0u8; 4];
        let read_result = forked.read_into(tmp, &mut bytes);
        println!("{:?}", read_result);

        println!("Forked after reset {:x?}", forked.dirty_blocks());
        assert!(forked.dirty_blocks().is_empty());
    }
}

#[test]
fn allocate_then_write_then_read() {
    let mut emu = Emulator::new(1024 * 1024);
    let tmp = emu.mmu.allocate(4096);
    assert_eq!(tmp.is_ok(), true);
    let tmp = tmp.unwrap();
    let data: &[u8] = b"asdf";
    assert_eq!(emu.mmu.write_from(VirtAddr(tmp.0), data).is_ok(), true);
    let mut buf = vec![0u8; 32];
    // Only the four written bytes are readable; the rest of the region is
    // still read-after-write, so a 32-byte read is refused.
    assert_eq!(emu.mmu.read_into(tmp, &mut buf).is_err(), true);
}

#[test]
fn write_then_read_roundtrip() {
    let mut m = Mmu::new(1024 * 1024);
    let a = m.allocate(64).unwrap();
    let data: &[u8] = &[9, 8, 7, 6, 5];
    m.write_from(a, data).unwrap();
    let mut buf = vec![0u8; 5];
    m.read_into(a, &mut buf).unwrap();
    assert_eq!(buf, vec![9, 8, 7, 6, 5]);
}

#[test]
fn write_without_write_permission_fails_unchanged() {
    let mut m = Mmu::new(8192);
    // Grant read access only.
    m.set_permissions(VirtAddr(0), 8192, Perm(PERM_READ)).unwrap();
    let err = m.write_from(VirtAddr(16), &[1, 2, 3]).unwrap_err();
    assert_eq!(err, MemError::PermissionDenied);
    // Memory is byte-for-byte unchanged: still all zero.
    let mut buf = vec![0xffu8; 32];
    m.read_into(VirtAddr(0), &mut buf).unwrap();
    assert_eq!(buf, vec![0u8; 32]);
    // Permissions are unchanged too: reading still works, writing still
    // fails, and nothing was marked dirty.
    assert_eq!(m.write_from(VirtAddr(16), &[1]).unwrap_err(), MemError::PermissionDenied);
    assert!(m.dirty_blocks().is_empty());
}

#[test]
fn fork_isolation() {
    let mut m = Mmu::new(1024 * 1024);
    let a = m.allocate(16).unwrap();
    m.write_from(a, b"base").unwrap();
    let mut f = m.fork();
    f.write_from(a, b"FORK").unwrap();
    // The fork saw its own write.
    let mut buf = vec![0u8; 4];
    f.read_into(a, &mut buf).unwrap();
    assert_eq!(&buf, b"FORK");
    // The original is untouched.
    let mut buf = vec![0u8; 4];
    m.read_into(a, &mut buf).unwrap();
    assert_eq!(&buf, b"base");
}

#[test]
fn reset_idempotent() {
    let mut m = Mmu::new(1024 * 1024);
    let a = m.allocate(16).unwrap();
    m.write_from(a, b"base").unwrap();
    let mut f = m.fork();
    f.write_from(a, b"FORK").unwrap();
    f.reset(&m);
    let mut first = vec![0u8; 4];
    f.read_into(a, &mut first).unwrap();
    let dirty_after_first = f.dirty_blocks();
    // The second reset starts with no dirty blocks and must be a no-op.
    f.reset(&m);
    let mut second = vec![0u8; 4];
    f.read_into(a, &mut second).unwrap();
    assert_eq!(first, second);
    assert_eq!(&first, b"base");
    assert_eq!(dirty_after_first, f.dirty_blocks());
    assert!(f.dirty_blocks().is_empty());
}

#[test]
fn dirty_minimality() {
    // Ten blocks in all; write to exactly blocks 2 and 5 of the fork.
    let size = 10 * DIRTY_BLOCK_SIZE;
    let mut base = Mmu::new(size);
    base.set_permissions(VirtAddr(0), size, Perm(PERM_READ | PERM_WRITE))
        .unwrap();
    let mut f = base.fork();
    f.write_from(VirtAddr(2 * DIRTY_BLOCK_SIZE), b"two").unwrap();
    f.write_from(VirtAddr(5 * DIRTY_BLOCK_SIZE), b"five").unwrap();
    let mut dirty = f.dirty_blocks();
    dirty.sort();
    assert_eq!(dirty, vec![2, 5]);
    // Corrupt the baseline's block 7 directly (test-only manipulation).
    base.write_from(VirtAddr(7 * DIRTY_BLOCK_SIZE), b"junk").unwrap();
    f.reset(&base);
    // Blocks 2 and 5 went back to the baseline's bytes.
    let mut buf = vec![0xffu8; 4];
    f.read_into(VirtAddr(2 * DIRTY_BLOCK_SIZE), &mut buf).unwrap();
    assert_eq!(buf, vec![0u8; 4]);
    let mut buf = vec![0xffu8; 4];
    f.read_into(VirtAddr(5 * DIRTY_BLOCK_SIZE), &mut buf).unwrap();
    assert_eq!(buf, vec![0u8; 4]);
    // Block 7 was out of the dirty set, so the corruption did not leak in.
    let mut buf = vec![0xffu8; 4];
    f.read_into(VirtAddr(7 * DIRTY_BLOCK_SIZE), &mut buf).unwrap();
    assert_eq!(buf, vec![0u8; 4]);
}

#[test]
fn allocate_no_overlap() {
    let mut m = Mmu::new(1024 * 1024);
    let a1 = m.allocate(4).unwrap();
    let a2 = m.allocate(4).unwrap();
    let a3 = m.allocate(100).unwrap();
    let a4 = m.allocate(1).unwrap();
    assert_eq!(a1.0, ALLOC_BASE);
    // Sizes are rounded up to 16-byte alignment, so regions never overlap.
    assert_eq!(a2.0, ALLOC_BASE + 16);
    assert_eq!(a3.0, ALLOC_BASE + 32);
    assert_eq!(a4.0, ALLOC_BASE + 144);
}

#[test]
fn allocate_out_of_memory_deterministic() {
    // One aligned allocation past the base fits; the next never does.
    let mut m = Mmu::new(ALLOC_BASE + 32);
    assert!(m.allocate(32).is_ok());
    let e1 = m.allocate(1).unwrap_err();
    let e2 = m.allocate(1).unwrap_err();
    assert_eq!(e1, MemError::OutOfMemory);
    assert_eq!(e2, MemError::OutOfMemory);
    // A failed allocation has no side effects: a fitting one still works
    // after a huge request was refused.
    let mut m2 = Mmu::new(ALLOC_BASE + 32);
    assert_eq!(m2.allocate(usize::MAX).unwrap_err(), MemError::OutOfMemory);
    assert_eq!(m2.allocate(16).unwrap().0, ALLOC_BASE);
}

#[test]
fn end_to_end() {
    let mut space = Mmu::new(1_048_576);
    let a = space.allocate(4).unwrap();
    space.write_from(a, &[0x61, 0x73, 0x64, 0x66]).unwrap();
    let mut buf = vec![0u8; 4];
    space.read_into(a, &mut buf).unwrap();
    assert_eq!(buf, vec![0x61, 0x73, 0x64, 0x66]);
    let mut f = space.fork();
    f.write_from(a, &[0, 0, 0, 0]).unwrap();
    let mut buf = vec![0xffu8; 4];
    f.read_into(a, &mut buf).unwrap();
    assert_eq!(buf, vec![0, 0, 0, 0]);
    // The original still holds its bytes.
    let mut buf = vec![0u8; 4];
    space.read_into(a, &mut buf).unwrap();
    assert_eq!(buf, vec![0x61, 0x73, 0x64, 0x66]);
    // And the reset brings the fork back to them.
    f.reset(&space);
    let mut buf = vec![0u8; 4];
    f.read_into(a, &mut buf).unwrap();
    assert_eq!(buf, vec![0x61, 0x73, 0x64, 0x66]);
}

#[test]
fn read_perms_little_endian() {
    let mut m = Mmu::new(8192);
    m.set_permissions(VirtAddr(0), 8192, Perm(PERM_READ | PERM_WRITE))
        .unwrap();
    m.write_from(VirtAddr(100), &[0x78, 0x56, 0x34, 0x12]).unwrap();
    assert_eq!(m.read_perms(VirtAddr(100), Perm(PERM_READ)).unwrap(), 0x12345678);
    // With an empty permission mask the check is skipped entirely.
    assert_eq!(m.read_perms(VirtAddr(100), Perm(0)).unwrap(), 0x12345678);
    // Demanding EXEC on plain data fails.
    assert_eq!(
        m.read_perms(VirtAddr(100), Perm(PERM_EXEC)).unwrap_err(),
        MemError::PermissionDenied
    );
}

#[test]
fn out_of_bounds_errors() {
    let mut m = Mmu::new(4096);
    assert_eq!(
        m.write_from(VirtAddr(4095), &[1, 2]).unwrap_err(),
        MemError::OutOfBounds
    );
    let mut buf = vec![0u8; 2];
    assert_eq!(
        m.read_into(VirtAddr(4095), &mut buf).unwrap_err(),
        MemError::OutOfBounds
    );
    // Address arithmetic that would overflow is out of bounds, never a wrap.
    assert_eq!(
        m.write_from(VirtAddr(usize::MAX), &[1, 2]).unwrap_err(),
        MemError::OutOfBounds
    );
    assert_eq!(
        m.set_permissions(VirtAddr(usize::MAX), 2, Perm(PERM_READ)).unwrap_err(),
        MemError::OutOfBounds
    );
}

#[test]
fn raw_bytes_unreadable_until_written() {
    let mut m = Mmu::new(1024 * 1024);
    let a = m.allocate(8).unwrap();
    // Fresh allocations are write-only until written.
    let mut buf = vec![0u8; 1];
    assert_eq!(m.read_into(a, &mut buf).unwrap_err(), MemError::PermissionDenied);
    // Writing upgrades exactly the written bytes to readable, and the RAW
    // flag stays on them.
    m.write_from(a, &[42]).unwrap();
    m.read_into(a, &mut buf).unwrap();
    assert_eq!(buf, vec![42]);
    let mut two = vec![0u8; 2];
    assert_eq!(m.read_into(a, &mut two).unwrap_err(), MemError::PermissionDenied);
    assert_eq!(
        m.read_perms(VirtAddr(a.0), Perm(PERM_RAW | PERM_WRITE | PERM_READ)).is_err(),
        true
    );
}
