use euralios::message::SyscallError;
use euralios::sched::{
    load_user_thread, new_kernel_thread, new_user_thread, schedule_next, ElfImage, ElfSegment,
    Scheduler, INTERRUPT_CONTEXT_SIZE, KERNEL_CODE_SELECTOR, KERNEL_STACK_SIZE,
    RFLAGS_INTERRUPT_ENABLE, USER_CODE_SELECTOR, USER_STACK_SIZE, USER_STACK_START,
};

#[test]
fn kernel_thread_layout() {
    let mut s = Scheduler::new();
    let tid = new_kernel_thread(&mut s, 0xdead_0000);
    assert_eq!(tid, 1);
    let t = &s.runnable[0];
    assert_eq!(t.tid, 1);
    assert_eq!(t.page_table_physaddr, 0);
    assert_eq!(t.kernel_stack_end, t.kernel_stack_start + KERNEL_STACK_SIZE);
    assert_eq!(t.context, t.kernel_stack_end - INTERRUPT_CONTEXT_SIZE);
    assert_eq!(t.frame.rip, 0xdead_0000);
    assert_eq!(t.frame.cs, KERNEL_CODE_SELECTOR);
    // The kernel thread's working stack sits right after its kernel
    // stack and the stack pointer starts at its end.
    assert_eq!(t.user_stack_start, t.kernel_stack_end);
    assert_eq!(t.frame.rsp, t.user_stack_end);
}

#[test]
fn two_kernel_threads_alternate() {
    let mut s = Scheduler::new();
    let tid_a = new_kernel_thread(&mut s, 0x1000);
    let tid_b = new_kernel_thread(&mut s, 0x2000);
    assert_ne!(tid_a, tid_b);

    // First timer interrupt comes from the boot context.
    let ctx = schedule_next(&mut s, 0);
    let mut observed = Vec::new();
    observed.push(s.current.as_ref().unwrap().tid);
    // The returned address is where the thread's frame lives, inside
    // its own kernel stack; later interrupts push frames there again.
    let mut ctx = ctx;
    for _ in 0..5 {
        ctx = schedule_next(&mut s, ctx);
        observed.push(s.current.as_ref().unwrap().tid);
    }
    assert_eq!(observed, vec![tid_a, tid_b, tid_a, tid_b, tid_a, tid_b]);
}

#[test]
fn schedule_returns_context_inside_kernel_stack() {
    let mut s = Scheduler::new();
    new_kernel_thread(&mut s, 0x1000);
    let ctx = schedule_next(&mut s, 0);
    let t = s.current.as_ref().unwrap();
    assert_eq!(ctx, t.context);
    assert!(t.kernel_stack_start <= ctx && ctx < t.kernel_stack_end);
}

#[test]
fn idle_when_no_thread_can_run() {
    let mut s = Scheduler::new();
    assert_eq!(schedule_next(&mut s, 0), 0);
    assert!(s.current.is_none());
}

#[test]
fn truncated_magic_is_bad_elf() {
    let mut s = Scheduler::new();
    assert_eq!(new_user_thread(&mut s, &[0x7f, b'E', b'L']), Err(SyscallError::BadElf));
    assert_eq!(new_user_thread(&mut s, &[]), Err(SyscallError::BadElf));
    assert_eq!(
        new_user_thread(&mut s, &[0x7f, b'E', b'L', b'G', 0, 0, 0, 0]),
        Err(SyscallError::BadElf)
    );
}

#[test]
fn user_thread_from_image() {
    let mut s = Scheduler::new();
    let image = ElfImage {
        entry: 0x400000,
        segments: vec![ElfSegment { vaddr: 0x400000, data: vec![0x90, 0x90, 0xC3] }],
    };
    let active_before = s.active_pagetable;
    let tid = load_user_thread(&mut s, image).unwrap();
    assert!(tid > 0);
    assert_eq!(s.active_pagetable, active_before);

    let t = s.runnable.last().unwrap();
    assert_ne!(t.page_table_physaddr, 0);
    let pt = t.page_table.as_ref().unwrap();
    assert_eq!(pt.physaddr, t.page_table_physaddr);
    assert_eq!(pt.mappings.len(), 2);
    assert_eq!(pt.mappings[0].vaddr, 0x400000);
    assert_eq!(pt.mappings[0].data, vec![0x90, 0x90, 0xC3]);
    assert_eq!(pt.mappings[1].vaddr, USER_STACK_START);
    assert_eq!(pt.mappings[1].data, vec![0u8; USER_STACK_SIZE as usize]);
    assert_eq!(pt.mappings[1].vaddr + pt.mappings[1].data.len() as u64, 0x520_5000);
    assert_eq!(t.frame.rip, 0x400000);
    assert_eq!(t.frame.rsp, 0x520_5000);
    assert_eq!(t.frame.rflags, RFLAGS_INTERRUPT_ENABLE);
    assert_eq!(t.frame.cs, USER_CODE_SELECTOR);
}

#[test]
fn user_thread_table_is_distinct() {
    let mut s = Scheduler::new();
    let image_one = ElfImage {
        entry: 0x400000,
        segments: vec![ElfSegment { vaddr: 0x400000, data: vec![0xC3] }],
    };
    let image_two = ElfImage {
        entry: 0x400000,
        segments: vec![ElfSegment { vaddr: 0x400000, data: vec![0xC3] }],
    };
    load_user_thread(&mut s, image_one).unwrap();
    load_user_thread(&mut s, image_two).unwrap();
    let a = s.runnable[0].page_table_physaddr;
    let b = s.runnable[1].page_table_physaddr;
    assert_ne!(a, 0);
    assert_ne!(b, 0);
    assert_ne!(a, b);
}

#[test]
fn segment_reaching_kernel_half_is_rejected() {
    let mut s = Scheduler::new();
    let image = ElfImage {
        entry: 0x400000,
        segments: vec![ElfSegment { vaddr: 0x7fff_ffff_ffff, data: vec![1, 2, 3] }],
    };
    assert_eq!(load_user_thread(&mut s, image), Err(SyscallError::BadElf));
    assert!(s.runnable.is_empty());
}

fn push_u16(v: &mut Vec<u8>, x: u16) {
    v.extend_from_slice(&x.to_le_bytes());
}

fn push_u32(v: &mut Vec<u8>, x: u32) {
    v.extend_from_slice(&x.to_le_bytes());
}

fn push_u64(v: &mut Vec<u8>, x: u64) {
    v.extend_from_slice(&x.to_le_bytes());
}

/// A minimal 64-bit little-endian ELF executable with one loadable
/// segment of three bytes at 0x400000.
fn tiny_elf() -> Vec<u8> {
    let mut v = Vec::new();
    v.extend_from_slice(&[0x7f, b'E', b'L', b'F', 2, 1, 1, 0]);
    v.extend_from_slice(&[0u8; 8]);
    push_u16(&mut v, 2); // ET_EXEC
    push_u16(&mut v, 0x3e); // x86_64
    push_u32(&mut v, 1);
    push_u64(&mut v, 0x400000); // entry
    push_u64(&mut v, 64); // program header offset
    push_u64(&mut v, 0); // no section headers
    push_u32(&mut v, 0);
    push_u16(&mut v, 64);
    push_u16(&mut v, 56);
    push_u16(&mut v, 1); // one program header
    push_u16(&mut v, 0);
    push_u16(&mut v, 0);
    push_u16(&mut v, 0);
    assert_eq!(v.len(), 64);
    push_u32(&mut v, 1); // PT_LOAD
    push_u32(&mut v, 5); // R+X
    push_u64(&mut v, 120); // file offset of the segment
    push_u64(&mut v, 0x400000);
    push_u64(&mut v, 0x400000);
    push_u64(&mut v, 3);
    push_u64(&mut v, 3);
    push_u64(&mut v, 0x1000);
    assert_eq!(v.len(), 120);
    v.extend_from_slice(&[0x90, 0x90, 0xC3]);
    v
}

#[test]
fn user_thread_from_elf_bytes() {
    let mut s = Scheduler::new();
    let elf = tiny_elf();
    let tid = new_user_thread(&mut s, &elf).unwrap();
    assert!(tid > 0);
    let t = s.runnable.last().unwrap();
    let pt = t.page_table.as_ref().unwrap();
    assert_eq!(t.frame.rip, 0x400000);
    assert!(pt
        .mappings
        .iter()
        .any(|m| m.vaddr == 0x400000 && m.data == vec![0x90, 0x90, 0xC3]));
    assert!(pt
        .mappings
        .iter()
        .any(|m| m.vaddr == USER_STACK_START && m.data.len() == USER_STACK_SIZE as usize));
}
