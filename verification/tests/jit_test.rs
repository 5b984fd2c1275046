use lar::arch::context::Arm64CpuContext;
use lar::arch::HostArch;
use lar::jit::backend_riscv::RiscvBackend;
use lar::jit::backend_x86::X86Backend;
use lar::jit::cache::{hash_arm64_block, hash_arm64_block_with_context, CacheError, CompiledBlock, MmapExecutionCache};
use lar::jit::decoder::{Arm64Decoder, Arm64Inst, Arm64Op};
use lar::jit::ir::{IrBlock, IrInstruction, IrOpcode, IrOperand, IrReg};
use lar::jit::tier0::Tier0FastJit;
use lar::memory::mmap::{MemoryRegion, ProtFlags};
use lar::memory::page::is_16k_aligned;

#[test]
fn test_decode_basic_instructions() {
    let nop = Arm64Decoder::decode(0xd503201f);
    assert_eq!(nop.op, Arm64Op::Nop);

    let ret = Arm64Decoder::decode(0xd65f03c0);
    assert_eq!(ret.op, Arm64Op::Ret);
    assert_eq!(ret.rn, 30);

    let svc = Arm64Decoder::decode(0xd4000001);
    assert_eq!(svc.op, Arm64Op::Svc);
    assert_eq!(svc.imm, 0);

    let dmb = Arm64Decoder::decode(0xd5033bbf);
    assert_eq!(dmb.op, Arm64Op::Dmb);
}

#[test]
fn test_decode_arithmetic_and_branch() {
    let add = Arm64Decoder::decode(0x9100a820);
    assert_eq!(add.op, Arm64Op::Add);
    assert_eq!(add.rd, 0);
    assert_eq!(add.rn, 1);
    assert_eq!(add.imm, 42);

    let b = Arm64Decoder::decode(0x14000004);
    assert_eq!(b.op, Arm64Op::B);
    assert_eq!(b.imm, 16);
}

#[test]
fn backward_branch_offset_is_negative() {
    let b = Arm64Decoder::decode(0x17ffffff);
    assert_eq!(b.op, Arm64Op::B);
    assert_eq!(b.imm, -4);
}

#[test]
fn test_ir_translation() {
    let mut block = IrBlock::new(0x1000);
    let inst = Arm64Inst {
        op: Arm64Op::Add,
        rd: 0,
        rn: 1,
        rm: 0,
        imm: 100,
        shift: 0,
        is_64bit: true,
        raw: 0,
    };

    block.translate_arm64_inst(&inst);
    assert_eq!(block.instructions.len(), 1);
    assert_eq!(block.instructions[0].opcode, IrOpcode::Add);
    assert_eq!(block.instructions[0].dst, Some(IrReg::X(0)));
    assert_eq!(block.instructions[0].src1, IrOperand::Reg(IrReg::X(1)));
    assert_eq!(block.instructions[0].src2, Some(IrOperand::Imm(100)));
}

#[test]
fn unsupported_instruction_is_reported() {
    let mut block = IrBlock::new(0x2000);
    let inst = Arm64Decoder::decode(0x0000_0000);
    assert!(block.translate_arm64_inst_checked(&inst).is_err());
    assert_eq!(block.instructions.len(), 0);
}

#[test]
fn test_tier0_execution() {
    let mut ctx = Arm64CpuContext::new();
    let mut memory = MemoryRegion::allocate_16k(0x4000, ProtFlags::read_write()).unwrap();
    let opcodes = [0xd2800140, 0x91003c00, 0xf100641f, 0xd65f03c0];

    let steps = Tier0FastJit::execute_block(&mut ctx, &mut memory, &opcodes, 10);
    assert_eq!(steps, 4);
    assert_eq!(ctx.get_arg(0), 25);
    assert!(ctx.flag_z());
}

#[test]
fn tier0_stops_at_the_step_limit() {
    let mut ctx = Arm64CpuContext::new();
    let mut memory = MemoryRegion::allocate_16k(0x4000, ProtFlags::read_write()).unwrap();
    let opcodes = [0xd2800140, 0x91003c00, 0xf100641f, 0xd65f03c0];
    let steps = Tier0FastJit::execute_block(&mut ctx, &mut memory, &opcodes, 1);
    assert_eq!(steps, 1);
    assert_eq!(ctx.get_arg(0), 10);
}

fn riscv_block() -> IrBlock {
    let mut block = IrBlock::new(0x1000);
    block.push(IrInstruction::new(IrOpcode::Mov, Some(IrReg::X(0)), IrOperand::Imm(55), None));
    block.push(IrInstruction::new(
        IrOpcode::Add,
        Some(IrReg::X(0)),
        IrOperand::Reg(IrReg::X(0)),
        Some(IrOperand::Reg(IrReg::X(1))),
    ));
    block.push(IrInstruction::new(IrOpcode::MemoryBarrier, None, IrOperand::Imm(0), None));
    block.push(IrInstruction::new(IrOpcode::Return, None, IrOperand::Reg(IrReg::X(0)), None));
    block
}

#[test]
fn test_riscv_codegen_basic() {
    let block = riscv_block();
    let riscv_code = RiscvBackend::compile_block(&block);
    assert_eq!(riscv_code.len(), 4);
    assert_eq!(riscv_code[2], 0x0ff0000f);
    assert_eq!(riscv_code[3], 0x00008067);
}

#[test]
fn riscv_immediate_and_add_encodings() {
    let riscv_code = RiscvBackend::compile_block(&riscv_block());
    // addi a0, zero, 55 and add a0, a0, a1
    assert_eq!(riscv_code[0], 0x03700513);
    assert_eq!(riscv_code[1], 0x00b50533);
    let bytes = RiscvBackend::compile_to_bytes(&riscv_block());
    assert_eq!(bytes.len(), 16);
    assert_eq!(&bytes[12..16], &0x00008067u32.to_le_bytes());
}

fn x86_block() -> IrBlock {
    let mut block = IrBlock::new(0x1000);
    block.push(IrInstruction::new(IrOpcode::Mov, Some(IrReg::X(0)), IrOperand::Imm(42), None));
    block.push(IrInstruction::new(
        IrOpcode::Add,
        Some(IrReg::X(0)),
        IrOperand::Reg(IrReg::X(0)),
        Some(IrOperand::Imm(58)),
    ));
    block.push(IrInstruction::new(IrOpcode::Return, None, IrOperand::Reg(IrReg::X(0)), None));
    block
}

#[test]
fn test_x86_compile_and_execute() {
    let block = x86_block();
    let exec_region = X86Backend::emit_executable(&block).expect("Failed to emit executable block");
    let code = X86Backend::compile_block(&block);
    assert!(!code.is_empty());
    assert_eq!(exec_region.prot(), ProtFlags::read_exec());
    assert_eq!(exec_region.read_at(0, code.len()).unwrap(), code);
    assert_eq!(*code.last().unwrap(), 0xc3);
}

#[test]
fn test_block_hashing() {
    let h1 = hash_arm64_block(0x1000, &[0x9100a820, 0xd65f03c0]);
    let h2 = hash_arm64_block(0x1000, &[0x9100a820, 0xd65f03c0]);
    let h3 = hash_arm64_block(0x2000, &[0x9100a820, 0xd65f03c0]);

    assert_eq!(h1, h2);
    assert_ne!(h1, h3);
}

#[test]
fn test_context_hash_includes_register_state() {
    let first = Arm64CpuContext::new();
    let mut second = first;
    second.regs[0] = 1;

    assert_ne!(
        hash_arm64_block_with_context(&first, &[0xd503201f]),
        hash_arm64_block_with_context(&second, &[0xd503201f])
    );
}

#[test]
fn test_mmap_execution_cache_save_and_load() {
    let block1 = CompiledBlock {
        block_hash: 0x1234_5678,
        guest_pc: 0x0040_0000,
        machine_code: vec![0x48, 0x31, 0xc0, 0xc3],
    };
    let image = MmapExecutionCache::serialize(HostArch::X86_64, &[block1]);
    let loaded_cache = MmapExecutionCache::load_from_bytes(&image, HostArch::X86_64).expect("Failed to load cache");
    let ptr = loaded_cache.lookup_block(0x1234_5678);
    assert!(ptr.is_some());
    assert!(loaded_cache.lookup_block(0x9999).is_none());
    assert!(is_16k_aligned(loaded_cache.region.as_ptr()));
}

#[test]
fn test_mmap_execution_cache_rejects_architecture_mismatch() {
    let block = CompiledBlock { block_hash: 1, guest_pc: 0, machine_code: vec![0xc3] };
    let image = MmapExecutionCache::serialize(HostArch::X86_64, &[block]);
    let result = MmapExecutionCache::load_from_bytes(&image, HostArch::Riscv64);
    assert!(matches!(result, Err(CacheError::ArchMismatch { .. })));
}

#[test]
fn truncated_cache_image_is_rejected() {
    let block = CompiledBlock { block_hash: 1, guest_pc: 0, machine_code: vec![0xc3] };
    let image = MmapExecutionCache::serialize(HostArch::X86_64, &[block]);
    assert!(MmapExecutionCache::load_from_bytes(&image[..20], HostArch::X86_64).is_err());
    assert!(MmapExecutionCache::load_from_bytes(&image[..image.len() - 1], HostArch::X86_64).is_ok());
    assert!(MmapExecutionCache::load_from_bytes(&[], HostArch::X86_64).is_err());
}

#[test]
fn loaded_cache_holds_each_blocks_code_where_the_table_says() {
    let blocks = [
        CompiledBlock { block_hash: 11, guest_pc: 0x1000, machine_code: vec![0x90, 0xc3] },
        CompiledBlock { block_hash: 22, guest_pc: 0x2000, machine_code: vec![0x48, 0x31, 0xc0, 0xc3] },
    ];
    let image = MmapExecutionCache::serialize(HostArch::Riscv64, &blocks);
    let cache = MmapExecutionCache::load_from_bytes(&image, HostArch::Riscv64).unwrap();
    let base = cache.region.as_ptr();
    for b in &blocks {
        let addr = cache.lookup_block(b.block_hash).unwrap();
        let code = cache.region.read_at(addr - base, b.machine_code.len()).unwrap();
        assert_eq!(code, b.machine_code);
    }
    assert_eq!(cache.lookup_block(22).unwrap() - cache.lookup_block(11).unwrap(), 2);
}

struct ReplaceMovImmediate(i64);

impl lar::jit::IrHook for ReplaceMovImmediate {
    fn apply(&self, block: &mut IrBlock) -> Result<(), lar::jit::IrHookError> {
        for inst in block.instructions.iter_mut() {
            if inst.opcode == IrOpcode::Mov {
                inst.src1 = IrOperand::Imm(self.0);
            }
        }
        Ok(())
    }
}

#[test]
fn ir_hook_hides_cached_blocks() {
    let opcodes = [0xd2800140u32];
    let mut ctx = Arm64CpuContext::new();
    ctx.pc = 0x2000;
    let hash = hash_arm64_block_with_context(&ctx, &opcodes);
    let block = CompiledBlock { block_hash: hash, guest_pc: ctx.pc, machine_code: vec![0xc3] };
    let image = MmapExecutionCache::serialize(HostArch::X86_64, &[block]);
    let mut engine = lar::jit::JitEngine::new(HostArch::X86_64);
    engine.load_cache(&image).unwrap();
    assert!(engine.has_cached_block(&ctx, &opcodes));
    assert!(!engine.has_cached_block_for_library(0x1000, &ctx, &opcodes));
    let mut moved = ctx.clone();
    moved.pc = 0x3000;
    assert!(engine.has_cached_block_for_library(0x1000, &moved, &opcodes));
    assert!(!engine.has_ir_hooks());
    engine.add_ir_hook(ReplaceMovImmediate(77));
    assert!(engine.has_ir_hooks());
    assert!(!engine.has_cached_block(&ctx, &opcodes));
    engine.clear_ir_hooks();
    assert!(engine.has_cached_block(&ctx, &opcodes));
}

#[test]
fn tier0_checked_run_matches_and_refuses_overflowing_pc() {
    let mut ctx = Arm64CpuContext::new();
    let mut memory = MemoryRegion::allocate_16k(0x4000, ProtFlags::read_write()).unwrap();
    let opcodes = [0xd2800140, 0x91003c00, 0xf100641f, 0xd65f03c0];
    assert_eq!(Tier0FastJit::execute_block_checked(&mut ctx, &mut memory, &opcodes, 10), Some(4));
    assert_eq!(ctx.get_arg(0), 25);

    let mut high = Arm64CpuContext::new();
    high.pc = u64::MAX - 2;
    assert_eq!(Tier0FastJit::execute_block_checked(&mut high, &mut memory, &[0xd503201f], 10), None);
}

#[test]
fn context_compiler_names_what_it_cannot_compile() {
    let mut cmp = IrBlock::new(0x1000);
    cmp.push(IrInstruction::new(IrOpcode::Cmp, None, IrOperand::Reg(IrReg::X(0)), Some(IrOperand::Imm(1))));
    assert_eq!(X86Backend::compile_context_block(&cmp), Err("context CMP requires Tier-0 fallback".to_string()));

    let mut mul = IrBlock::new(0x1000);
    mul.push(IrInstruction::new(IrOpcode::Mov, Some(IrReg::X(0)), IrOperand::Imm(2), None));
    mul.push(IrInstruction::new(IrOpcode::Mul, Some(IrReg::X(0)), IrOperand::Reg(IrReg::X(0)), None));
    assert_eq!(X86Backend::compile_context_block(&mul), Err("unsupported context IR opcode: Mul".to_string()));

    let mut cond = IrBlock::new(0x1000);
    cond.push(IrInstruction::new(IrOpcode::CondBranch(lar::jit::decoder::ConditionCode::EQ), None, IrOperand::Imm(8), None));
    assert_eq!(
        X86Backend::compile_context_block(&cond),
        Err("unsupported context IR opcode: CondBranch(EQ)".to_string())
    );
}

#[test]
fn riscv_block_gives_at_most_one_word_per_instruction() {
    let block = riscv_block();
    let words = RiscvBackend::compile_block(&block);
    assert!(words.len() <= block.instructions.len());
    let bytes = RiscvBackend::compile_to_bytes(&block);
    assert_eq!(bytes.len(), 4 * words.len());
    for (i, w) in words.iter().enumerate() {
        assert_eq!(&bytes[4 * i..4 * i + 4], &w.to_le_bytes());
    }
}
