//! The guest-executor skeleton: a register file over an `Mmu`, a
//! fetch/decode/execute step, and the section loader that populates the
//! space from a program image.

use vstd::prelude::*;

use crate::mem::{
    clone_copy_vec, le32, round_up_align, zero_bytes, zero_words, MemError, Mmu, Perm, SpaceModel,
    VirtAddr, PERM_EXEC, PERM_WRITE,
};

verus! {

/// Number of guest registers, the program counter included.
pub const NUM_REGISTERS: usize = 33;

/// Index of the program counter in the register file.
pub const PC_INDEX: usize = 32;

/// How a contiguous guest region is populated from a program image:
/// `file_size` bytes taken from the image at `file_off` are placed at
/// `virt_addr`, the remaining `mem_size - file_size` bytes are zero-filled,
/// and the whole region ends up with `permissions`.
#[derive(Clone, Copy, Debug)]
pub struct Section {
    pub file_off: usize,
    pub virt_addr: VirtAddr,
    pub file_size: usize,
    pub mem_size: usize,
    pub permissions: Perm,
}

/// The closed enumeration of guest register names, with a dedicated
/// program-counter slot.
#[derive(Clone, Copy, Debug, PartialEq, Eq, Structural)]
pub enum Register {
    Zero,
    Ra,
    Sp,
    Gp,
    Tp,
    T0,
    T1,
    T2,
    S0,
    S1,
    A0,
    A1,
    A2,
    A3,
    A4,
    A5,
    A6,
    A7,
    S2,
    S3,
    S4,
    S5,
    S6,
    S7,
    S8,
    S9,
    S10,
    S11,
    T3,
    T4,
    T5,
    T6,
    Pc,
}

/// The register file slot a register name denotes.
pub open spec fn reg_index(r: Register) -> int {
    match r {
        Register::Zero => 0,
        Register::Ra => 1,
        Register::Sp => 2,
        Register::Gp => 3,
        Register::Tp => 4,
        Register::T0 => 5,
        Register::T1 => 6,
        Register::T2 => 7,
        Register::S0 => 8,
        Register::S1 => 9,
        Register::A0 => 10,
        Register::A1 => 11,
        Register::A2 => 12,
        Register::A3 => 13,
        Register::A4 => 14,
        Register::A5 => 15,
        Register::A6 => 16,
        Register::A7 => 17,
        Register::S2 => 18,
        Register::S3 => 19,
        Register::S4 => 20,
        Register::S5 => 21,
        Register::S6 => 22,
        Register::S7 => 23,
        Register::S8 => 24,
        Register::S9 => 25,
        Register::S10 => 26,
        Register::S11 => 27,
        Register::T3 => 28,
        Register::T4 => 29,
        Register::T5 => 30,
        Register::T6 => 31,
        Register::Pc => 32,
    }
}

impl Register {
    /// The register file slot this name denotes.
    pub fn index(self) -> (i: usize)
        ensures
            i as int == reg_index(self),
            i < NUM_REGISTERS,
    {
        match self {
            Register::Zero => 0,
            Register::Ra => 1,
            Register::Sp => 2,
            Register::Gp => 3,
            Register::Tp => 4,
            Register::T0 => 5,
            Register::T1 => 6,
            Register::T2 => 7,
            Register::S0 => 8,
            Register::S1 => 9,
            Register::A0 => 10,
            Register::A1 => 11,
            Register::A2 => 12,
            Register::A3 => 13,
            Register::A4 => 14,
            Register::A5 => 15,
            Register::A6 => 16,
            Register::A7 => 17,
            Register::S2 => 18,
            Register::S3 => 19,
            Register::S4 => 20,
            Register::S5 => 21,
            Register::S6 => 22,
            Register::S7 => 23,
            Register::S8 => 24,
            Register::S9 => 25,
            Register::S10 => 26,
            Register::S11 => 27,
            Register::T3 => 28,
            Register::T4 => 29,
            Register::T5 => 30,
            Register::T6 => 31,
            Register::Pc => 32,
        }
    }

    /// The register name for a raw slot number. An out-of-range number yields
    /// `None` rather than an undefined value.
    pub fn from_index(value: u32) -> (r: Option<Register>)
        ensures
            match r {
                Some(reg) => value < 33 && reg_index(reg) == value as int,
                None => value >= 33,
            },
    {
        match value {
            0 => Some(Register::Zero),
            1 => Some(Register::Ra),
            2 => Some(Register::Sp),
            3 => Some(Register::Gp),
            4 => Some(Register::Tp),
            5 => Some(Register::T0),
            6 => Some(Register::T1),
            7 => Some(Register::T2),
            8 => Some(Register::S0),
            9 => Some(Register::S1),
            10 => Some(Register::A0),
            11 => Some(Register::A1),
            12 => Some(Register::A2),
            13 => Some(Register::A3),
            14 => Some(Register::A4),
            15 => Some(Register::A5),
            16 => Some(Register::A6),
            17 => Some(Register::A7),
            18 => Some(Register::S2),
            19 => Some(Register::S3),
            20 => Some(Register::S4),
            21 => Some(Register::S5),
            22 => Some(Register::S6),
            23 => Some(Register::S7),
            24 => Some(Register::S8),
            25 => Some(Register::S9),
            26 => Some(Register::S10),
            27 => Some(Register::S11),
            28 => Some(Register::T3),
            29 => Some(Register::T4),
            30 => Some(Register::T5),
            31 => Some(Register::T6),
            32 => Some(Register::Pc),
            _ => None,
        }
    }
}

/// The guest executor: an isolated memory space and a register file.
pub struct Emulator {
    /// Memory for the emulator.
    pub mmu: Mmu,
    registers: Vec<u64>,
}

impl Emulator {
    /// The register file as a sequence, indexed by `reg_index`.
    pub closed spec fn regs(&self) -> Seq<u64> {
        self.registers@
    }

    /// The mathematical state of the emulator's memory space.
    pub closed spec fn space(&self) -> SpaceModel {
        self.mmu@
    }

    /// The memory space is well-formed and the register file has one slot per
    /// register name.
    pub closed spec fn wf(&self) -> bool {
        self.mmu.wf() && self.regs().len() == NUM_REGISTERS
    }

    /// A fresh emulator over a fresh space of `size` bytes, every register
    /// zero.
    pub fn new(size: usize) -> (r: Emulator)
        ensures
            r.wf(),
            r.space().mem == Seq::new(size as nat, |i: int| 0u8),
            r.space().perms == Seq::new(size as nat, |i: int| Perm(0)),
            r.space().dirty == Set::<int>::empty(),
            r.space().cursor == crate::mem::ALLOC_BASE as int,
            r.regs() == Seq::new(NUM_REGISTERS as nat, |i: int| 0u64),
    {
        let r = Emulator { mmu: Mmu::new(size), registers: zero_words(NUM_REGISTERS) };
        proof {
            assert(r.regs() =~= Seq::new(NUM_REGISTERS as nat, |i: int| 0u64));
        }
        r
    }

    /// An independent full copy: memory, permissions, allocator cursor and
    /// registers duplicated, dirty tracker empty. The original is unaffected
    /// and remains usable as a baseline for other forks.
    pub fn fork(&self) -> (r: Emulator)
        requires
            self.wf(),
        ensures
            r.wf(),
            r.space().mem == self.space().mem,
            r.space().perms == self.space().perms,
            r.space().dirty == Set::<int>::empty(),
            r.space().cursor == self.space().cursor,
            r.regs() == self.regs(),
    {
        Emulator { mmu: self.mmu.fork(), registers: clone_copy_vec(&self.registers) }
    }

    /// Restores the dirty blocks of the space from `other` and copies
    /// `other`'s registers wholesale.
    pub fn reset(&mut self, other: &Emulator)
        requires
            old(self).wf(),
            other.wf(),
            old(self).space().size() == other.space().size(),
        ensures
            final(self).wf(),
            final(self).space() == old(self).space().after_reset(other.space()),
            final(self).regs() == other.regs(),
    {
        self.mmu.reset(&other.mmu);
        self.registers = clone_copy_vec(&other.registers);
    }

    /// The value of register `r`.
    pub fn reg(&self, r: Register) -> (v: u64)
        requires
            self.wf(),
        ensures
            v == self.regs()[reg_index(r)],
    {
        self.registers[r.index()]
    }

    /// Sets register `r` to `val`, touching nothing else.
    pub fn set_reg(&mut self, r: Register, val: u64)
        requires
            old(self).wf(),
        ensures
            final(self).wf(),
            final(self).regs() == old(self).regs().update(reg_index(r), val),
            final(self).space() == old(self).space(),
    {
        let i = r.index();
        self.registers[i] = val;
    }

    /// One fetch/decode/execute step: fetch the instruction word at the
    /// program counter (demanding `PERM_EXEC`), dispatch on its opcode,
    /// execute, and advance the program counter. A memory failure or an
    /// opcode absent from the dispatch table is a fault for this run —
    /// surfaced as a value, never a panic — and leaves the emulator
    /// unchanged.
    pub fn step(&mut self) -> (r: Result<(), ExecFault>)
        requires
            old(self).wf(),
        ensures
            final(self).wf(),
            ({
                let pc = old(self).regs()[PC_INDEX as int];
                let inst = fetched_inst(old(self).space(), pc);
                match r {
                    Ok(()) => {
                        &&& can_fetch(old(self).space(), pc)
                        &&& opcode_of(inst) == OPCODE_AUIPC
                        &&& final(self).regs() == auipc_regs(old(self).regs(), inst)
                        &&& final(self).space() == old(self).space()
                    },
                    Err(ExecFault::MemoryFault(e)) => {
                        &&& !can_fetch(old(self).space(), pc)
                        &&& (e == MemError::OutOfBounds <==> (pc > usize::MAX
                            || !old(self).space().in_bounds(pc as int, 4)))
                        &&& e != MemError::OutOfMemory
                        &&& final(self).regs() == old(self).regs()
                        &&& final(self).space() == old(self).space()
                    },
                    Err(ExecFault::UnknownOpcode(op)) => {
                        &&& can_fetch(old(self).space(), pc)
                        &&& op == opcode_of(inst)
                        &&& op != OPCODE_AUIPC
                        &&& final(self).regs() == old(self).regs()
                        &&& final(self).space() == old(self).space()
                    },
                }
            }),
    {
        let pc = self.reg(Register::Pc);
        if pc > usize::MAX as u64 {
            return Err(ExecFault::MemoryFault(MemError::OutOfBounds));
        }
        let inst = match self.mmu.read_perms(VirtAddr(pc as usize), Perm(PERM_EXEC)) {
            Ok(v) => v,
            Err(e) => {
                return Err(ExecFault::MemoryFault(e));
            },
        };
        let opcode = inst & 0x7f;
        if opcode == OPCODE_AUIPC {
            // AUIPC: rd gets the program counter plus the sign-extended
            // upper immediate.
            let rd_bits = (inst >> 7) & 0x1f;
            proof {
                assert((inst >> 7) & 0x1f < 32) by (bit_vector);
            }
            let rd = match Register::from_index(rd_bits) {
                Some(r) => r,
                None => {
                    proof {
                        assert(false);
                    }
                    Register::Zero
                },
            };
            let imm = inst & 0xfffff000;
            let ext: u64 = if imm >= 0x80000000 {
                imm as u64 + 0xffffffff00000000
            } else {
                imm as u64
            };
            let value = pc.wrapping_add(ext);
            self.set_reg(rd, value);
            let next_pc = pc.wrapping_add(4);
            self.set_reg(Register::Pc, next_pc);
            Ok(())
        } else {
            Err(ExecFault::UnknownOpcode(opcode))
        }
    }

    /// Maps every section of a program image into the space, in order, as
    /// `load_section` describes, and leaves the registers alone. Any failure
    /// aborts the whole load with the failing operation's error; the space
    /// may then be partially populated and must be discarded rather than
    /// partially trusted.
    pub fn load(&mut self, image: &[u8], sections: &[Section]) -> (r: Result<(), MemError>)
        requires
            old(self).wf(),
        ensures
            final(self).wf(),
            final(self).regs() == old(self).regs(),
            match r {
                Ok(()) => load_sections(old(self).space(), image@, sections@) == Some(
                    final(self).space(),
                ),
                Err(_) => load_sections(old(self).space(), image@, sections@) is None,
            },
    {
        let n = sections.len();
        proof {
            assert(sections@.subrange(0, n as int) =~= sections@);
        }
        let mut si: usize = 0;
        while si < n
            invariant
                si <= n == sections@.len(),
                self.wf(),
                self.regs() == old(self).regs(),
                load_sections(old(self).space(), image@, sections@) == load_sections(
                    self.space(),
                    image@,
                    sections@.subrange(si as int, n as int),
                ),
            decreases n - si,
        {
            let s = sections[si];
            let ghost m0 = self.space();
            let ghost ss = sections@.subrange(si as int, n as int);
            proof {
                self.mmu.wf_bounds();
                assert(ss[0] == sections@[si as int]);
                assert(ss.drop_first() =~= sections@.subrange(si as int + 1, n as int));
            }
            // Grant write access over the whole region.
            match self.mmu.set_permissions(s.virt_addr, s.mem_size, Perm(PERM_WRITE)) {
                Ok(()) => {},
                Err(e) => {
                    proof {
                        assert(load_section(m0, image@, ss[0]) is None);
                        assert(load_sections(m0, image@, ss) is None);
                    }
                    return Err(e);
                },
            }
            let ghost granted = self.space();
            // The image must actually hold the section's file bytes.
            let ilen = image.len();
            let fend = match s.file_off.checked_add(s.file_size) {
                Some(v) => v,
                None => {
                    proof {
                        assert(load_section(m0, image@, ss[0]) is None);
                        assert(load_sections(m0, image@, ss) is None);
                    }
                    return Err(MemError::OutOfBounds);
                },
            };
            if fend > ilen {
                proof {
                    assert(load_section(m0, image@, ss[0]) is None);
                    assert(load_sections(m0, image@, ss) is None);
                }
                return Err(MemError::OutOfBounds);
            }
            // Copy the section's bytes from the image.
            match self.mmu.write_from(s.virt_addr, &image[s.file_off..fend]) {
                Ok(()) => {},
                Err(e) => {
                    proof {
                        assert(load_section(m0, image@, ss[0]) is None);
                        assert(load_sections(m0, image@, ss) is None);
                    }
                    return Err(e);
                },
            }
            let ghost written = self.space();
            // Zero-fill the remainder of the region (bss).
            if s.mem_size > s.file_size {
                let padding = zero_bytes(s.mem_size - s.file_size);
                let pad_addr = VirtAddr(s.virt_addr.0 + s.file_size);
                match self.mmu.write_from(pad_addr, padding.as_slice()) {
                    Ok(()) => {
                        proof {
                            assert(padding@ =~= zeros(s.mem_size as int - s.file_size as int));
                        }
                    },
                    Err(e) => {
                        proof {
                            assert(padding@ =~= zeros(s.mem_size as int - s.file_size as int));
                            assert(load_section(m0, image@, ss[0]) is None);
                            assert(load_sections(m0, image@, ss) is None);
                        }
                        return Err(e);
                    },
                }
            }
            let ghost padded = self.space();
            // Apply the section's declared final permissions.
            match self.mmu.set_permissions(s.virt_addr, s.mem_size, s.permissions) {
                Ok(()) => {},
                Err(_) => {
                    proof {
                        assert(false);
                    }
                },
            }
            let ghost sealed = self.space();
            // Advance the allocator cursor past the section, aligned, so
            // dynamic allocation never collides with loaded sections.
            match self.mmu.raise_cursor(s.virt_addr.0 + s.mem_size) {
                Ok(()) => {},
                Err(e) => {
                    proof {
                        assert(load_section(m0, image@, ss[0]) is None);
                        assert(load_sections(m0, image@, ss) is None);
                    }
                    return Err(e);
                },
            }
            proof {
                assert(self.space() =~= SpaceModel {
                    cursor: vstd::math::max(
                        sealed.cursor,
                        round_up_align(s.virt_addr.0 as int + s.mem_size as int),
                    ),
                    ..sealed
                });
                assert(load_section(m0, image@, ss[0]) == Some(self.space()));
                assert(load_sections(m0, image@, ss) == load_sections(
                    self.space(),
                    image@,
                    ss.drop_first(),
                ));
            }
            si = si + 1;
        }
        proof {
            assert(sections@.subrange(n as int, n as int) =~= Seq::<Section>::empty());
            assert(load_sections(self.space(), image@, sections@.subrange(n as int, n as int))
                == Some(self.space()));
        }
        Ok(())
    }
}

/// A sequence of `n` zero bytes.
pub open spec fn zeros(n: int) -> Seq<u8> {
    Seq::new(n as nat, |i: int| 0u8)
}

/// The state after loading one section from `image`, or `None` when the
/// load fails: write access is granted over the whole region, `file_size`
/// bytes are copied from the image, the remainder of the region is
/// zero-filled, the section's declared permissions are applied, and the
/// allocator cursor is advanced past the region (aligned) so later
/// allocations never collide with it.
pub open spec fn load_section(m: SpaceModel, image: Seq<u8>, s: Section) -> Option<SpaceModel> {
    let va = s.virt_addr.0 as int;
    let off = s.file_off as int;
    let fsize = s.file_size as int;
    let msize = s.mem_size as int;
    if !m.in_bounds(va, msize) {
        None
    } else {
        let granted = m.after_set_perms(va, msize, Perm(PERM_WRITE));
        if off + fsize > image.len() {
            None
        } else if !granted.can_write(va, fsize) {
            None
        } else {
            let written = granted.after_write(va, image.subrange(off, off + fsize));
            if msize > fsize && !written.can_write(va + fsize, msize - fsize) {
                None
            } else {
                let padded = if msize > fsize {
                    written.after_write(va + fsize, zeros(msize - fsize))
                } else {
                    written
                };
                let sealed = padded.after_set_perms(va, msize, s.permissions);
                if round_up_align(va + msize) > usize::MAX {
                    None
                } else {
                    Some(
                        SpaceModel {
                            cursor: vstd::math::max(sealed.cursor, round_up_align(va + msize)),
                            ..sealed
                        },
                    )
                }
            }
        }
    }
}

/// The state after loading every section in order, or `None` when any of
/// them fails.
pub open spec fn load_sections(m: SpaceModel, image: Seq<u8>, sections: Seq<Section>) -> Option<
    SpaceModel,
>
    decreases sections.len(),
{
    if sections.len() == 0 {
        Some(m)
    } else {
        match load_section(m, image, sections[0]) {
            None => None,
            Some(m1) => load_sections(m1, image, sections.drop_first()),
        }
    }
}

/// A fault raised by one executor step: a permission-checked memory access
/// failed during the fetch, or the opcode has no entry in the dispatch
/// table. Either ends the current run and is surfaced to the harness as a
/// classified outcome, not a panic.
#[derive(Clone, Copy, Debug, PartialEq, Eq, Structural)]
pub enum ExecFault {
    MemoryFault(MemError),
    UnknownOpcode(u32),
}

/// The opcode bits of the one instruction in the dispatch table.
pub const OPCODE_AUIPC: u32 = 0x17;

/// The low seven bits of an instruction word select its handler.
pub open spec fn opcode_of(inst: u32) -> u32 {
    inst & 0x7f
}

/// The destination-register slot encoded in an instruction word.
pub open spec fn rd_of(inst: u32) -> int {
    ((inst >> 7) & 0x1f) as int
}

/// The upper-immediate bits of an instruction word.
pub open spec fn utype_imm(inst: u32) -> u32 {
    inst & 0xfffff000
}

/// The immediate widened to 64 bits with its sign bit propagated.
pub open spec fn sign_extend_32(x: u32) -> u64 {
    if x >= 0x80000000 {
        ((x as u64) + 0xffffffff00000000) as u64
    } else {
        x as u64
    }
}

/// 64-bit addition that wraps around on overflow.
pub open spec fn wrap_add_64(a: u64, b: u64) -> u64 {
    vstd::wrapping::u64_specs::wrapping_add(a, b)
}

/// Can an instruction word be fetched at `pc`: the four bytes lie in the
/// space and each carries `PERM_EXEC`.
pub open spec fn can_fetch(m: SpaceModel, pc: u64) -> bool {
    pc <= usize::MAX && m.in_bounds(pc as int, 4) && m.allows(pc as int, 4, PERM_EXEC)
}

/// The instruction word at `pc`: four bytes read little-endian.
pub open spec fn fetched_inst(m: SpaceModel, pc: u64) -> u32 {
    le32(m.mem, pc as int) as u32
}

/// The register file after executing AUIPC: the destination register gets
/// the program counter plus the sign-extended upper immediate, and the
/// program counter advances by the instruction width.
pub open spec fn auipc_regs(regs: Seq<u64>, inst: u32) -> Seq<u64> {
    let pc = regs[PC_INDEX as int];
    regs.update(rd_of(inst), wrap_add_64(pc, sign_extend_32(utype_imm(inst)))).update(
        PC_INDEX as int,
        wrap_add_64(pc, 4),
    )
}

} // verus!
