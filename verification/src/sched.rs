//! Thread control blocks and the preemptive round-robin scheduler.
//!
//! The runnable queue, the current-thread slot and the CPU state that the
//! scheduler touches (the active page table root, the interrupt stack
//! table entry for the timer vector, the flags captured for new kernel
//! threads) form one aggregate, `Scheduler`.  On hardware its mutators
//! run with interrupts masked; here they are plain functions of the
//! aggregate, so the queue discipline, the stack layout and the
//! page-table bookkeeping are all proved.
//!
//! Kernel stacks are heap-owned regions whose addresses must stay stable
//! and disjoint for the lifetime of a thread; the model allocates them
//! from a bump region and carries start and end addresses, with the
//! saved-context address always strictly inside the owning stack.

use vstd::prelude::*;
use crate::message::SyscallError;
use object::{Object, ObjectSegment};

verus! {

/// Size of the kernel stack of each thread, in bytes.
pub const KERNEL_STACK_SIZE: u64 = 8192;

/// Size of the working (user) stack of each thread, in bytes.
pub const USER_STACK_SIZE: u64 = 20480;

/// Fixed virtual address at which a user process's stack is mapped.
pub const USER_STACK_START: u64 = 0x520_0000;

/// Size of the register frame the interrupt prologue pushes.
pub const INTERRUPT_CONTEXT_SIZE: u64 = 160;

/// Code segment selector for kernel threads.
pub const KERNEL_CODE_SELECTOR: u64 = 8;

/// Code and data segment selectors for user threads.
pub const USER_CODE_SELECTOR: u64 = 0x2b;
pub const USER_DATA_SELECTOR: u64 = 0x23;

/// RFLAGS value with only the interrupt-enable bit set.
pub const RFLAGS_INTERRUPT_ENABLE: u64 = 0x200;

/// Lowest virtual address of the kernel half; loadable segments must lie
/// entirely below it.
pub const USER_SPACE_END: u64 = 0x8000_0000_0000;

/// Base of the model's kernel-heap region that stacks are carved from.
pub const STACK_REGION_BASE: u64 = 0x4444_0000_0000;

/// Base of the model's physical-frame region that page-table roots are
/// handed out from.
pub const PAGE_TABLE_REGION_BASE: u64 = 0x1000;

/// The architectural register frame saved at interrupt entry, as far as
/// the scheduler reads or prepares it.
#[derive(Clone, Copy)]
pub struct Context {
    pub rip: u64,
    pub cs: u64,
    pub rflags: u64,
    pub rsp: u64,
    pub ss: u64,
}

/// One mapped range of a user page table: pages at `vaddr`, mapped
/// present, writable and user-accessible, holding `data`.
pub struct Mapping {
    pub vaddr: u64,
    pub data: Vec<u8>,
}

/// A user process's page table: the physical address of its root frame
/// and the ranges mapped into the user half.
pub struct PageTable {
    pub physaddr: u64,
    pub mappings: Vec<Mapping>,
}

/// One loadable segment of a program image.
pub struct ElfSegment {
    pub vaddr: u64,
    pub data: Vec<u8>,
}

/// A parsed program image: the entry point and the loadable segments.
pub struct ElfImage {
    pub entry: u64,
    pub segments: Vec<ElfSegment>,
}

/// Per-thread state.
pub struct Thread {
    /// Thread id; 0 is reserved for "unassigned", so live threads have a
    /// positive id.
    pub tid: u64,
    /// Physical address of the thread's page-table root as the scheduler
    /// last saw it; 0 means "kernel thread, do not switch page tables".
    pub page_table_physaddr: u64,
    /// The page table the thread owns, for threads created with one.
    pub page_table: Option<PageTable>,
    /// Kernel stack region, for system calls and interrupts.
    pub kernel_stack_start: u64,
    /// One past the last byte of the kernel stack; stacks grow downward,
    /// so this is what the interrupt stack table is pointed at.
    pub kernel_stack_end: u64,
    /// Address inside the kernel stack at which the saved register frame
    /// currently lives.
    pub context: u64,
    /// Working stack region: a kernel-heap region for kernel threads, the
    /// fixed user mapping for user threads.
    pub user_stack_start: u64,
    pub user_stack_end: u64,
    /// The register frame the thread resumes with.
    pub frame: Context,
}

/// The scheduler aggregate: the runnable queue, the current thread, the
/// id and region allocators, and the CPU state the scheduler drives.
pub struct Scheduler {
    /// Threads that can run, in first-in-first-out order; the front is
    /// the next to run.  The current thread is not in the queue.
    pub runnable: Vec<Thread>,
    /// The thread that is running now, if any.
    pub current: Option<Thread>,
    /// Next thread id to assign.
    pub next_tid: u64,
    /// Bump allocator for kernel-heap stack regions.
    pub next_stack_base: u64,
    /// Bump allocator for page-table root frames.
    pub next_pagetable_addr: u64,
    /// Physical address of the page-table root the CPU is using (the
    /// model of CR3); 0 names the boot kernel table.
    pub active_pagetable: u64,
    /// The kernel stack programmed into the interrupt stack table for
    /// the timer vector.
    pub ist_timer_stack: u64,
    /// The flags a new kernel thread starts with, as captured from the
    /// creating context.
    pub cpu_rflags: u64,
}

/// End of the kernel-heap region a thread occupies: kernel threads carry
/// their working stack right after their kernel stack.
pub open spec fn heap_region_end(t: Thread) -> int {
    if t.user_stack_start == t.kernel_stack_end {
        t.user_stack_end as int
    } else {
        t.kernel_stack_end as int
    }
}

/// Well-formedness of one thread.
pub open spec fn thread_wf(t: Thread) -> bool {
    &&& 0 < t.tid
    &&& STACK_REGION_BASE <= t.kernel_stack_start
    &&& t.kernel_stack_end == t.kernel_stack_start + KERNEL_STACK_SIZE
    &&& t.kernel_stack_start <= t.context < t.kernel_stack_end
    &&& (t.page_table matches Some(pt) ==> {
        &&& t.page_table_physaddr == pt.physaddr
        &&& PAGE_TABLE_REGION_BASE <= pt.physaddr
    })
    &&& (t.user_stack_start == t.kernel_stack_end ==> t.user_stack_end == t.kernel_stack_end
        + USER_STACK_SIZE)
}

/// All live threads: the current one first, then the queue.
pub open spec fn threads_seq(s: Scheduler) -> Seq<Thread> {
    match s.current {
        Some(c) => seq![c] + s.runnable@,
        None => s.runnable@,
    }
}

/// Two threads do not own the same page table.
pub open spec fn distinct_tables(a: Thread, b: Thread) -> bool {
    a.page_table matches Some(p) ==> (b.page_table matches Some(q) ==> p.physaddr != q.physaddr)
}

/// A page-table root address the scheduler may observe: the boot kernel
/// table, or a frame this scheduler has handed out.
pub open spec fn table_addr_ok(s: Scheduler, addr: u64) -> bool {
    addr == 0 || (PAGE_TABLE_REGION_BASE <= addr < s.next_pagetable_addr)
}

/// Scheduler invariant: every thread is well formed, ids are unique,
/// stack regions are disjoint, owned page tables are distinct, and the
/// active page table of a running user thread is its own.
pub open spec fn sched_wf(s: Scheduler) -> bool {
    let ts = threads_seq(s);
    &&& STACK_REGION_BASE <= s.next_stack_base
    &&& PAGE_TABLE_REGION_BASE <= s.next_pagetable_addr
    &&& 0 < s.next_tid
    &&& table_addr_ok(s, s.active_pagetable)
    &&& (forall|i: int| 0 <= i < ts.len() ==> thread_wf(#[trigger] ts[i]))
    &&& (forall|i: int|
        0 <= i < ts.len() ==> heap_region_end(#[trigger] ts[i]) <= s.next_stack_base)
    &&& (forall|i: int| 0 <= i < ts.len() ==> (#[trigger] ts[i]).tid < s.next_tid)
    &&& (forall|i: int|
        0 <= i < ts.len() ==> table_addr_ok(s, (#[trigger] ts[i]).page_table_physaddr))
    &&& (forall|i: int|
        0 <= i < ts.len() ==> ((#[trigger] ts[i]).page_table matches Some(pt) ==> pt.physaddr
            < s.next_pagetable_addr))
    &&& (forall|i: int, j: int|
        0 <= i < ts.len() && 0 <= j < ts.len() && i != j ==> (#[trigger] ts[i]).tid != (
        #[trigger] ts[j]).tid)
    &&& (forall|i: int, j: int|
        0 <= i < ts.len() && 0 <= j < ts.len() && i != j ==> heap_region_end(#[trigger] ts[i])
            <= (#[trigger] ts[j]).kernel_stack_start || heap_region_end(ts[j])
            <= ts[i].kernel_stack_start)
    &&& (forall|i: int, j: int|
        0 <= i < ts.len() && 0 <= j < ts.len() && i != j ==> distinct_tables(
            #[trigger] ts[i],
            #[trigger] ts[j],
        ))
    &&& (s.current matches Some(c) ==> (c.page_table matches Some(pt)
        ==> s.active_pagetable == pt.physaddr))
}

impl Scheduler {
    /// The scheduler as it is at boot: no threads, the boot kernel page
    /// table active, interrupts-enabled flags for new kernel threads.
    pub fn new() -> (s: Scheduler)
        ensures
            sched_wf(s),
            s.runnable@ =~= Seq::<Thread>::empty(),
            s.current is None,
            s.next_tid == 1,
            s.active_pagetable == 0,
            s.cpu_rflags == RFLAGS_INTERRUPT_ENABLE,
    {
        Scheduler {
            runnable: Vec::new(),
            current: None,
            next_tid: 1,
            next_stack_base: STACK_REGION_BASE,
            next_pagetable_addr: PAGE_TABLE_REGION_BASE,
            active_pagetable: 0,
            ist_timer_stack: 0,
            cpu_rflags: RFLAGS_INTERRUPT_ENABLE,
        }
    }
}

/// The thread `new_kernel_thread` builds: a fresh kernel and working
/// stack at the bump base, the saved frame prepared so that the first
/// switch into it looks like a return from a timer interrupt.
pub open spec fn kernel_thread_spec(s: Scheduler, function: u64) -> Thread {
    Thread {
        tid: s.next_tid,
        page_table_physaddr: 0,
        page_table: None,
        kernel_stack_start: s.next_stack_base,
        kernel_stack_end: (s.next_stack_base + KERNEL_STACK_SIZE) as u64,
        context: (s.next_stack_base + KERNEL_STACK_SIZE - INTERRUPT_CONTEXT_SIZE) as u64,
        user_stack_start: (s.next_stack_base + KERNEL_STACK_SIZE) as u64,
        user_stack_end: (s.next_stack_base + KERNEL_STACK_SIZE + USER_STACK_SIZE) as u64,
        frame: Context {
            rip: function,
            cs: KERNEL_CODE_SELECTOR,
            rflags: s.cpu_rflags,
            rsp: (s.next_stack_base + KERNEL_STACK_SIZE + USER_STACK_SIZE) as u64,
            ss: 0,
        },
    }
}

/// Start a new kernel thread: allocate its stacks, prepare a register
/// frame whose instruction pointer is the entry point, and enqueue it at
/// the tail.  It runs when the scheduler next selects it.  Returns the
/// new thread's id.
pub fn new_kernel_thread(s: &mut Scheduler, function: u64) -> (tid: u64)
    requires
        sched_wf(*old(s)),
        old(s).next_tid < u64::MAX,
        old(s).next_stack_base + KERNEL_STACK_SIZE + USER_STACK_SIZE <= u64::MAX,
    ensures
        sched_wf(*final(s)),
        final(s).runnable@ == old(s).runnable@.push(kernel_thread_spec(*old(s), function)),
        final(s).current == old(s).current,
        final(s).next_tid == old(s).next_tid + 1,
        final(s).next_stack_base == old(s).next_stack_base + KERNEL_STACK_SIZE
            + USER_STACK_SIZE,
        final(s).next_pagetable_addr == old(s).next_pagetable_addr,
        final(s).active_pagetable == old(s).active_pagetable,
        final(s).ist_timer_stack == old(s).ist_timer_stack,
        final(s).cpu_rflags == old(s).cpu_rflags,
        tid == old(s).next_tid,
{
    let kernel_stack_start = s.next_stack_base;
    let kernel_stack_end = kernel_stack_start + KERNEL_STACK_SIZE;
    let user_stack_end = kernel_stack_end + USER_STACK_SIZE;

    let new_thread = Thread {
        tid: s.next_tid,
        page_table_physaddr: 0,
        page_table: None,
        kernel_stack_start,
        kernel_stack_end,
        context: kernel_stack_end - INTERRUPT_CONTEXT_SIZE,
        user_stack_start: kernel_stack_end,
        user_stack_end,
        frame: Context {
            rip: function,
            cs: KERNEL_CODE_SELECTOR,
            rflags: s.cpu_rflags,
            rsp: user_stack_end,
            ss: 0,
        },
    };
    let tid = new_thread.tid;
    s.next_tid = s.next_tid + 1;
    s.next_stack_base = user_stack_end;
    s.runnable.push(new_thread);

    proof {
        lemma_wf_after_enqueue(*old(s), *s, kernel_thread_spec(*old(s), function));
    }
    tid
}

/// Enqueueing one fresh thread whose stack region starts at the old bump
/// base, whose id is the old id bound, and whose page table (if any) is
/// the old frame bound, preserves the scheduler invariant.
proof fn lemma_wf_after_enqueue(pre: Scheduler, post: Scheduler, t: Thread)
    requires
        sched_wf(pre),
        post.runnable@ == pre.runnable@.push(t),
        post.current == pre.current,
        post.next_tid >= pre.next_tid + 1,
        post.next_stack_base >= pre.next_stack_base,
        post.next_pagetable_addr >= pre.next_pagetable_addr,
        post.active_pagetable == pre.active_pagetable,
        thread_wf(t),
        t.tid == pre.next_tid,
        t.kernel_stack_start == pre.next_stack_base,
        heap_region_end(t) <= post.next_stack_base,
        t.tid < post.next_tid,
        table_addr_ok(post, t.page_table_physaddr),
        (t.page_table matches Some(pt) ==> pre.next_pagetable_addr <= pt.physaddr
            < post.next_pagetable_addr),
    ensures
        sched_wf(post),
{
    let pre_ts = threads_seq(pre);
    let post_ts = threads_seq(post);
    assert(post_ts =~= pre_ts.push(t));
    let n = pre_ts.len() as int;
    assert forall|i: int| 0 <= i < post_ts.len() implies thread_wf(#[trigger] post_ts[i])
        && heap_region_end(post_ts[i]) <= post.next_stack_base && post_ts[i].tid
        < post.next_tid && table_addr_ok(post, post_ts[i].page_table_physaddr)
        && (post_ts[i].page_table matches Some(pt) ==> pt.physaddr
        < post.next_pagetable_addr) by {
        if i < n {
            assert(post_ts[i] == pre_ts[i]);
            assert(table_addr_ok(pre, pre_ts[i].page_table_physaddr));
        }
    }
    assert forall|i: int, j: int|
        0 <= i < post_ts.len() && 0 <= j < post_ts.len() && i != j implies (
    #[trigger] post_ts[i]).tid != (#[trigger] post_ts[j]).tid && (heap_region_end(post_ts[i])
        <= post_ts[j].kernel_stack_start || heap_region_end(post_ts[j])
        <= post_ts[i].kernel_stack_start) && distinct_tables(post_ts[i], post_ts[j]) by {
        if i < n && j < n {
            assert(post_ts[i] == pre_ts[i]);
            assert(post_ts[j] == pre_ts[j]);
        } else if i < n {
            assert(post_ts[i] == pre_ts[i]);
            assert(post_ts[j] == t);
            assert(heap_region_end(pre_ts[i]) <= pre.next_stack_base);
        } else {
            assert(post_ts[i] == t);
            assert(post_ts[j] == pre_ts[j]);
            assert(heap_region_end(pre_ts[j]) <= pre.next_stack_base);
        }
    }
}

/// A sequence of `n` zero bytes.
pub open spec fn zero_seq(n: nat) -> Seq<u8> {
    Seq::new(n, |i: int| 0u8)
}

/// Allocate a zero-filled byte region of the given size.
fn zero_bytes(n: usize) -> (v: Vec<u8>)
    ensures
        v@ == zero_seq(n as nat),
{
    let v: Vec<u8> = vec![0u8; n];
    proof {
        assert(v@ =~= zero_seq(n as nat));
    }
    v
}

/// A byte string starts with the four ELF magic bytes.
pub open spec fn has_elf_magic(b: Seq<u8>) -> bool {
    b.len() >= 4 && b[0] == 0x7fu8 && b[1] == 0x45u8 && b[2] == 0x4cu8 && b[3] == 0x46u8
}

/// The view of a parsed image: the entry point and each segment's
/// address and bytes.
pub open spec fn image_segments_view(segments: Seq<ElfSegment>) -> Seq<(u64, Seq<u8>)> {
    segments.map(|i: int, seg: ElfSegment| (seg.vaddr, seg.data@))
}

pub open spec fn image_view(r: Option<ElfImage>) -> Option<(u64, Seq<(u64, Seq<u8>)>)> {
    match r {
        Some(img) => Some((img.entry, image_segments_view(img.segments@))),
        None => None,
    }
}

/// What the ELF reader extracts from a byte string: the entry point and
/// the loadable segments, a function of the bytes alone; `None` where
/// the bytes do not parse as an object file or a segment's data cannot
/// be read.
pub uninterp spec fn elf_image_of(bin: Seq<u8>) -> Option<(u64, Seq<(u64, Seq<u8>)>)>;

/// Relies on object::File::parse and the Object/ObjectSegment accessors
/// entry, address and data: what they return is a function of the bytes
/// alone.
#[verifier::external_body]
fn parse_elf(bin: &[u8]) -> (r: Option<ElfImage>)
    ensures
        image_view(r) == elf_image_of(bin@),
{
    let obj = match object::File::parse(bin) {
        Ok(obj) => obj,
        Err(_) => return None,
    };
    let entry = obj.entry();
    let mut segments: Vec<ElfSegment> = Vec::new();
    for segment in obj.segments() {
        match segment.data() {
            Ok(data) => segments.push(ElfSegment { vaddr: segment.address(), data: data.to_vec() }),
            Err(_) => return None,
        }
    }
    Some(ElfImage { entry, segments })
}

/// Every segment lies entirely below the kernel half.
pub open spec fn segments_fit(segs: Seq<(u64, Seq<u8>)>) -> bool {
    forall|i: int|
        0 <= i < segs.len() ==> (#[trigger] segs[i]).0 + segs[i].1.len() <= USER_SPACE_END
}

/// The mapped ranges of a freshly loaded process: each loadable segment
/// in order, then the user stack, zero-filled, at its fixed address.
pub open spec fn loaded_mappings(segs: Seq<(u64, Seq<u8>)>) -> Seq<(u64, Seq<u8>)> {
    segs.push((USER_STACK_START, zero_seq(USER_STACK_SIZE as nat)))
}

/// The view of a sequence of mapped ranges.
pub open spec fn mapping_pairs(ms: Seq<Mapping>) -> Seq<(u64, Seq<u8>)> {
    ms.map(|i: int, m: Mapping| (m.vaddr, m.data@))
}

/// The view of a page table's mapped ranges.
pub open spec fn mappings_view(pt: PageTable) -> Seq<(u64, Seq<u8>)> {
    mapping_pairs(pt.mappings@)
}

/// How a scheduler changes when a user thread is loaded from an image
/// with entry point `entry` and segments `segs`, and `tid` is returned.
pub open spec fn user_thread_loaded(
    pre: Scheduler,
    post: Scheduler,
    entry: u64,
    segs: Seq<(u64, Seq<u8>)>,
    tid: u64,
) -> bool {
    &&& post.runnable@.len() == pre.runnable@.len() + 1
    &&& post.runnable@.subrange(0, pre.runnable@.len() as int) == pre.runnable@
    &&& {
        let t = post.runnable@.last();
        &&& t.tid == pre.next_tid
        &&& tid == pre.next_tid
        &&& t.page_table_physaddr == pre.next_pagetable_addr
        &&& (t.page_table matches Some(pt) && pt.physaddr == pre.next_pagetable_addr
            && mappings_view(pt) == loaded_mappings(segs))
        &&& t.kernel_stack_start == pre.next_stack_base
        &&& t.kernel_stack_end == pre.next_stack_base + KERNEL_STACK_SIZE
        &&& t.context == t.kernel_stack_end - INTERRUPT_CONTEXT_SIZE
        &&& t.user_stack_start == USER_STACK_START
        &&& t.user_stack_end == USER_STACK_START + USER_STACK_SIZE
        &&& t.frame.rip == entry
        &&& t.frame.rflags == RFLAGS_INTERRUPT_ENABLE
        &&& t.frame.cs == USER_CODE_SELECTOR
        &&& t.frame.ss == USER_DATA_SELECTOR
        &&& t.frame.rsp == USER_STACK_START + USER_STACK_SIZE
    }
    &&& post.current == pre.current
    &&& post.next_tid == pre.next_tid + 1
    &&& post.next_stack_base == pre.next_stack_base + KERNEL_STACK_SIZE
    &&& post.next_pagetable_addr == pre.next_pagetable_addr + 0x1000
    &&& post.active_pagetable == pre.active_pagetable
    &&& post.ist_timer_stack == pre.ist_timer_stack
    &&& post.cpu_rflags == pre.cpu_rflags
}

/// Load a parsed program image as a new user thread: allocate a fresh
/// page table holding only the kernel half, map and fill each loadable
/// segment and the user stack, prepare a user-mode register frame, and
/// enqueue the thread.  Rejects an image with a segment that reaches
/// into the kernel half.  The caller's active page table is the same on
/// return as on entry, on every path.
#[verifier::loop_isolation(false)]
pub fn load_user_thread(s: &mut Scheduler, image: ElfImage) -> (r: Result<u64, SyscallError>)
    requires
        sched_wf(*old(s)),
        old(s).next_tid < u64::MAX,
        old(s).next_stack_base + KERNEL_STACK_SIZE <= u64::MAX,
        old(s).next_pagetable_addr + 0x1000 <= u64::MAX,
    ensures
        sched_wf(*final(s)),
        segments_fit(image_segments_view(image.segments@)) ==> (r matches Ok(tid)
            && user_thread_loaded(
            *old(s),
            *final(s),
            image.entry,
            image_segments_view(image.segments@),
            tid,
        )),
        !segments_fit(image_segments_view(image.segments@)) ==> r == Err::<u64,
            SyscallError,
        >(SyscallError::BadElf) && *final(s) == *old(s),
        final(s).active_pagetable == old(s).active_pagetable,
{
    let ghost segs = image_segments_view(image.segments@);
    let mut image = image;
    let entry = image.entry;

    // Check every segment against the kernel half before touching any
    // state, so a bad image leaves the scheduler exactly as it was.
    let mut i: usize = 0;
    while i < image.segments.len()
        invariant
            i <= image.segments@.len(),
            segs == image_segments_view(image.segments@),
            *s == *old(s),
            sched_wf(*old(s)),
            forall|k: int|
                0 <= k < i ==> (#[trigger] segs[k]).0 + segs[k].1.len() <= USER_SPACE_END,
        decreases image.segments@.len() - i,
    {
        let seg = &image.segments[i];
        proof {
            assert(segs[i as int] == (image.segments@[i as int].vaddr,
            image.segments@[i as int].data@));
        }
        if seg.vaddr > USER_SPACE_END || seg.data.len() as u64 > USER_SPACE_END - seg.vaddr {
            proof {
                assert(!segments_fit(segs));
                assert(!segments_fit(image_segments_view(image.segments@)));
            }
            return Err(SyscallError::BadElf);
        }
        i = i + 1;
    }
    assert(segments_fit(segs));

    // Allocate the page-table root frame, and target it while the
    // segment copies run; the switch is restored below on every path.
    let original_page_table = s.active_pagetable;
    let physaddr = s.next_pagetable_addr;
    s.next_pagetable_addr = s.next_pagetable_addr + 0x1000;
    s.active_pagetable = physaddr;

    // Map each loadable segment, then the user stack.
    let mut mappings: Vec<Mapping> = Vec::new();
    let ghost total = segs.len() as int;
    proof {
        assert(image_segments_view(image.segments@) =~= segs.subrange(
            total - image.segments@.len(),
            total,
        ));
        assert(mapping_pairs(mappings@) =~= segs.subrange(0, total - image.segments@.len()));
    }
    while image.segments.len() > 0
        invariant
            image.segments@.len() <= total,
            total == segs.len() as int,
            image_segments_view(image.segments@) == segs.subrange(
                total - image.segments@.len(),
                total,
            ),
            mapping_pairs(mappings@) == segs.subrange(0, total - image.segments@.len()),
        decreases image.segments@.len(),
    {
        let ghost done = total - image.segments@.len();
        let ghost pre_segments = image.segments@;
        let ghost pre_mappings = mappings@;
        proof {
            assert(pre_mappings.len() == mapping_pairs(pre_mappings).len());
            assert(pre_mappings.len() == done);
        }
        let seg = image.segments.remove(0);
        let ghost pushed = (seg.vaddr, seg.data@);
        proof {
            assert(seg == pre_segments[0]);
            assert(image_segments_view(pre_segments)[0] == (pre_segments[0].vaddr,
            pre_segments[0].data@));
            assert(image_segments_view(pre_segments)[0] == segs.subrange(done, total)[0]);
            assert(segs[done] == pushed);
        }
        mappings.push(Mapping { vaddr: seg.vaddr, data: seg.data });
        proof {
            let cur = image.segments@;
            assert forall|k: int| 0 <= k < cur.len() implies image_segments_view(cur)[k]
                == segs[done + 1 + k] by {
                assert(cur[k] == pre_segments[k + 1]);
                assert(image_segments_view(cur)[k] == (cur[k].vaddr, cur[k].data@));
                assert(image_segments_view(pre_segments)[k + 1] == (pre_segments[k + 1].vaddr,
                pre_segments[k + 1].data@));
                assert(image_segments_view(pre_segments)[k + 1] == segs.subrange(done, total)[k
                    + 1]);
            }
            assert(image_segments_view(cur) =~= segs.subrange(total - cur.len(), total));
            assert forall|k: int| 0 <= k < mappings@.len() implies mapping_pairs(mappings@)[k]
                == segs[k] by {
                assert(mapping_pairs(mappings@)[k] == (mappings@[k].vaddr, mappings@[k].data@));
                if k < done {
                    assert(mappings@[k] == pre_mappings[k]);
                    assert(mapping_pairs(pre_mappings)[k] == (pre_mappings[k].vaddr,
                    pre_mappings[k].data@));
                    assert(mapping_pairs(pre_mappings)[k] == segs.subrange(0, done)[k]);
                } else {
                    assert((mappings@[k].vaddr, mappings@[k].data@) == pushed);
                }
            }
            assert(mapping_pairs(mappings@) =~= segs.subrange(0, total - cur.len()));
        }
    }
    let ghost pre_mappings = mappings@;
    let stack_data = zero_bytes(USER_STACK_SIZE as usize);
    let ghost stack_view = stack_data@;
    mappings.push(Mapping { vaddr: USER_STACK_START, data: stack_data });
    let page_table = PageTable { physaddr, mappings };
    proof {
        assert forall|k: int| 0 <= k < mappings_view(page_table).len() implies mappings_view(
            page_table,
        )[k] == loaded_mappings(segs)[k] by {
            assert(mapping_pairs(page_table.mappings@)[k] == (page_table.mappings@[k].vaddr,
            page_table.mappings@[k].data@));
            if k < total {
                assert(page_table.mappings@[k] == pre_mappings[k]);
                assert(mapping_pairs(pre_mappings)[k] == (pre_mappings[k].vaddr,
                pre_mappings[k].data@));
                assert(mapping_pairs(pre_mappings)[k] == segs.subrange(0, total)[k]);
                assert(segs.subrange(0, total) =~= segs);
            } else {
                assert((page_table.mappings@[k].vaddr, page_table.mappings@[k].data@) == (
                USER_STACK_START,
                stack_view,
                ));
            }
        }
        assert(mappings_view(page_table) =~= loaded_mappings(segs));
    }

    // The copies are done; switch back to the original page table.
    s.active_pagetable = original_page_table;

    let kernel_stack_start = s.next_stack_base;
    let kernel_stack_end = kernel_stack_start + KERNEL_STACK_SIZE;
    let new_thread = Thread {
        tid: s.next_tid,
        page_table_physaddr: physaddr,
        page_table: Some(page_table),
        kernel_stack_start,
        kernel_stack_end,
        context: kernel_stack_end - INTERRUPT_CONTEXT_SIZE,
        user_stack_start: USER_STACK_START,
        user_stack_end: USER_STACK_START + USER_STACK_SIZE,
        frame: Context {
            rip: entry,
            cs: USER_CODE_SELECTOR,
            rflags: RFLAGS_INTERRUPT_ENABLE,
            rsp: USER_STACK_START + USER_STACK_SIZE,
            ss: USER_DATA_SELECTOR,
        },
    };
    let tid = new_thread.tid;
    s.next_tid = s.next_tid + 1;
    s.next_stack_base = kernel_stack_end;
    let ghost spec_thread = new_thread;
    s.runnable.push(new_thread);

    proof {
        assert(s.runnable@.subrange(0, old(s).runnable@.len() as int) =~= old(s).runnable@);
        lemma_wf_after_enqueue(*old(s), *s, spec_thread);
    }
    Ok(tid)
}

/// Start a new user process from an ELF binary: verify the magic, parse
/// the image, and load it.  Returns `BadElf` for a missing or truncated
/// magic, an unparseable binary, or a segment reaching into the kernel
/// half; the caller's active page table is unchanged on every path.
pub fn new_user_thread(s: &mut Scheduler, bin: &[u8]) -> (r: Result<u64, SyscallError>)
    requires
        sched_wf(*old(s)),
        old(s).next_tid < u64::MAX,
        old(s).next_stack_base + KERNEL_STACK_SIZE <= u64::MAX,
        old(s).next_pagetable_addr + 0x1000 <= u64::MAX,
    ensures
        sched_wf(*final(s)),
        final(s).active_pagetable == old(s).active_pagetable,
        !has_elf_magic(bin@) ==> r == Err::<u64, SyscallError>(SyscallError::BadElf)
            && *final(s) == *old(s),
        has_elf_magic(bin@) ==> match elf_image_of(bin@) {
            None => r == Err::<u64, SyscallError>(SyscallError::BadElf) && *final(s) == *old(
                s,
            ),
            Some((entry, segs)) => {
                &&& segments_fit(segs) ==> (r matches Ok(tid) && user_thread_loaded(
                    *old(s),
                    *final(s),
                    entry,
                    segs,
                    tid,
                ))
                &&& !segments_fit(segs) ==> r == Err::<u64, SyscallError>(
                    SyscallError::BadElf,
                ) && *final(s) == *old(s)
            },
        },
{
    if bin.len() < 4 || bin[0] != 0x7f || bin[1] != 0x45 || bin[2] != 0x4c || bin[3] != 0x46 {
        return Err(SyscallError::BadElf);
    }
    match parse_elf(bin) {
        Some(image) => load_user_thread(s, image),
        None => Err(SyscallError::BadElf),
    }
}

/// The current thread as it is re-enqueued at a timer interrupt: the
/// saved-frame address is wherever the interrupt prologue pushed the
/// frame, and the page table is whatever was active, so that a thread
/// that was manipulating page tables resumes under its own.
pub open spec fn preempted_thread(c: Thread, context: u64, active: u64) -> Thread {
    Thread { context, page_table_physaddr: active, ..c }
}

/// The queue as it is after the current thread (if any) has been moved
/// to the tail.
pub open spec fn rotated_queue(s: Scheduler, context: u64) -> Seq<Thread> {
    match s.current {
        Some(c) => s.runnable@.push(preempted_thread(c, context, s.active_pagetable)),
        None => s.runnable@,
    }
}

/// Called by the timer interrupt handler after the prologue has pushed a
/// register frame at `context` on the current kernel stack.  Re-enqueues
/// the current thread, selects the head of the queue, points the
/// interrupt stack table at its kernel stack, switches the page table if
/// the thread carries one, and returns the address of the frame to
/// restore — 0 if no thread can run, in which case the caller idles on
/// the existing frame.
pub fn schedule_next(s: &mut Scheduler, context: u64) -> (r: u64)
    requires
        sched_wf(*old(s)),
        old(s).current matches Some(c) ==> c.kernel_stack_start <= context
            < c.kernel_stack_end,
    ensures
        sched_wf(*final(s)),
        rotated_queue(*old(s), context).len() == 0 ==> r == 0 && final(s).current is None
            && final(s).runnable@ == old(s).runnable@ && final(s).active_pagetable == old(
            s,
        ).active_pagetable && final(s).ist_timer_stack == old(s).ist_timer_stack,
        rotated_queue(*old(s), context).len() > 0 ==> {
            let q = rotated_queue(*old(s), context);
            &&& final(s).current == Some(q[0])
            &&& final(s).runnable@ == q.subrange(1, q.len() as int)
            &&& final(s).ist_timer_stack == q[0].kernel_stack_end
            &&& final(s).active_pagetable == (if q[0].page_table_physaddr != 0 {
                q[0].page_table_physaddr
            } else {
                old(s).active_pagetable
            })
            &&& r == q[0].context
            &&& q[0].kernel_stack_start <= r < q[0].kernel_stack_end
        },
        final(s).next_tid == old(s).next_tid,
        final(s).next_stack_base == old(s).next_stack_base,
        final(s).next_pagetable_addr == old(s).next_pagetable_addr,
        final(s).cpu_rflags == old(s).cpu_rflags,
{
    let ghost pre = *old(s);
    let taken = s.current.take();
    match taken {
        Some(thread) => {
            let mut thread = thread;
            // Record where the prologue left the frame, and which page
            // table this thread was running under.
            thread.context = context;
            thread.page_table_physaddr = s.active_pagetable;
            s.runnable.push(thread);
        },
        None => {},
    }
    let ghost q = rotated_queue(pre, context);
    proof {
        assert(s.runnable@ =~= q);
    }

    if s.runnable.len() == 0 {
        return 0;
    }

    let thread = s.runnable.remove(0);
    // Next interrupt on this thread lands on its own kernel stack.
    s.ist_timer_stack = thread.kernel_stack_end;
    if thread.page_table_physaddr != 0 {
        s.active_pagetable = thread.page_table_physaddr;
    }
    let r = thread.context;
    s.current = Some(thread);

    proof {
        assert(s.runnable@ =~= q.subrange(1, q.len() as int));
        lemma_wf_after_rotation(pre, *s, context);
        assert(thread_wf(threads_seq(*s)[0]));
    }
    r
}

/// Rotating the queue at a timer interrupt preserves the scheduler
/// invariant: the re-enqueued thread keeps its id, stacks and owned page
/// table, and only its saved-frame address (still inside its own kernel
/// stack) and observed page-table root change.
proof fn lemma_wf_after_rotation(pre: Scheduler, post: Scheduler, context: u64)
    requires
        sched_wf(pre),
        pre.current matches Some(c) ==> c.kernel_stack_start <= context < c.kernel_stack_end,
        rotated_queue(pre, context).len() > 0,
        post.current == Some(rotated_queue(pre, context)[0]),
        post.runnable@ == rotated_queue(pre, context).subrange(
            1,
            rotated_queue(pre, context).len() as int,
        ),
        post.next_tid == pre.next_tid,
        post.next_stack_base == pre.next_stack_base,
        post.next_pagetable_addr == pre.next_pagetable_addr,
        post.active_pagetable == (if rotated_queue(pre, context)[0].page_table_physaddr != 0 {
            rotated_queue(pre, context)[0].page_table_physaddr
        } else {
            pre.active_pagetable
        }),
    ensures
        sched_wf(post),
{
    let pre_ts = threads_seq(pre);
    let q = rotated_queue(pre, context);
    let post_ts = threads_seq(post);
    let n = pre_ts.len() as int;
    assert(post_ts =~= q);

    // Each rotated thread is one of the old threads, with at most the
    // saved-frame address and observed root changed.
    assert forall|i: int| 0 <= i < q.len() implies exists|k: int|
        0 <= k < n && same_thread_modulo_preemption(#[trigger] q[i], pre_ts[k], pre, context) by {
        match pre.current {
            Some(c) => {
                if i < q.len() - 1 {
                    assert(q[i] == pre_ts[i + 1]);
                    assert(same_thread_modulo_preemption(q[i], pre_ts[i + 1], pre, context));
                } else {
                    assert(q[i] == preempted_thread(c, context, pre.active_pagetable));
                    assert(pre_ts[0] == c);
                    assert(same_thread_modulo_preemption(q[i], pre_ts[0], pre, context));
                }
            },
            None => {
                assert(q[i] == pre_ts[i]);
                assert(same_thread_modulo_preemption(q[i], pre_ts[i], pre, context));
            },
        }
    }

    assert forall|i: int| 0 <= i < post_ts.len() implies thread_wf(#[trigger] post_ts[i])
        && heap_region_end(post_ts[i]) <= post.next_stack_base && post_ts[i].tid
        < post.next_tid && table_addr_ok(post, post_ts[i].page_table_physaddr)
        && (post_ts[i].page_table matches Some(pt) ==> pt.physaddr
        < post.next_pagetable_addr) by {
        let k = choose|k: int|
            0 <= k < n && same_thread_modulo_preemption(post_ts[i], pre_ts[k], pre, context);
        assert(thread_wf(pre_ts[k]));
        assert(table_addr_ok(pre, pre_ts[k].page_table_physaddr));
        assert(table_addr_ok(pre, pre.active_pagetable));
    }

    assert forall|i: int, j: int|
        0 <= i < post_ts.len() && 0 <= j < post_ts.len() && i != j implies (
    #[trigger] post_ts[i]).tid != (#[trigger] post_ts[j]).tid && (heap_region_end(post_ts[i])
        <= post_ts[j].kernel_stack_start || heap_region_end(post_ts[j])
        <= post_ts[i].kernel_stack_start) && distinct_tables(post_ts[i], post_ts[j]) by {
        let ki = rotation_source(pre, context, i);
        let kj = rotation_source(pre, context, j);
        assert(same_thread_modulo_preemption(post_ts[i], pre_ts[ki], pre, context));
        assert(same_thread_modulo_preemption(post_ts[j], pre_ts[kj], pre, context));
        assert(ki != kj);
    }

    // The newly selected thread, if it owns a page table, now has it
    // active.
    assert(post.current matches Some(c2) ==> (c2.page_table matches Some(pt)
        ==> post.active_pagetable == pt.physaddr)) by {
        let c2 = q[0];
        if c2.page_table is Some {
            let k = rotation_source(pre, context, 0);
            assert(same_thread_modulo_preemption(c2, pre_ts[k], pre, context));
            assert(thread_wf(pre_ts[k]));
        }
    }
}

/// The rotated thread at index `i` came from this index of the old
/// thread sequence.
pub open spec fn rotation_source(pre: Scheduler, context: u64, i: int) -> int {
    match pre.current {
        Some(c) => if i < rotated_queue(pre, context).len() - 1 {
            i + 1
        } else {
            0
        },
        None => i,
    }
}

/// `t` is `u` after at most a preemption: only the saved-frame address
/// (still inside the thread's own kernel stack) and the observed
/// page-table root (then the active one) may differ.
pub open spec fn same_thread_modulo_preemption(
    t: Thread,
    u: Thread,
    pre: Scheduler,
    context: u64,
) -> bool {
    &&& t.tid == u.tid
    &&& t.kernel_stack_start == u.kernel_stack_start
    &&& t.kernel_stack_end == u.kernel_stack_end
    &&& t.user_stack_start == u.user_stack_start
    &&& t.user_stack_end == u.user_stack_end
    &&& t.page_table == u.page_table
    &&& t.frame == u.frame
    &&& u.kernel_stack_start <= t.context < u.kernel_stack_end
    &&& (t.page_table_physaddr == u.page_table_physaddr || t.page_table_physaddr
        == pre.active_pagetable)
    &&& (t.page_table matches Some(pt) ==> t.page_table_physaddr == pt.physaddr)
}


/// A thread just created from a program image owns a page table whose
/// root is non-zero and distinct from every other thread's, and the
/// creator's active page table is the same after the call as before.
pub proof fn lemma_user_table_distinct(
    pre: Scheduler,
    post: Scheduler,
    entry: u64,
    segs: Seq<(u64, Seq<u8>)>,
    tid: u64,
)
    requires
        sched_wf(pre),
        user_thread_loaded(pre, post, entry, segs, tid),
    ensures
        post.runnable@.last().page_table_physaddr != 0,
        forall|i: int|
            0 <= i < threads_seq(pre).len() ==> (#[trigger] threads_seq(pre)[i]).page_table_physaddr
                != post.runnable@.last().page_table_physaddr,
        post.active_pagetable == pre.active_pagetable,
{
    let t = post.runnable@.last();
    assert forall|i: int|
        0 <= i < threads_seq(pre).len() implies (#[trigger] threads_seq(
        pre,
    )[i]).page_table_physaddr != t.page_table_physaddr by {
        assert(table_addr_ok(pre, threads_seq(pre)[i].page_table_physaddr));
    }
}

/// At most one thread occupies the current-thread slot, and the ids of
/// all live threads — the current one and the runnable queue — are
/// pairwise distinct, so the queue holds no duplicates.
pub proof fn lemma_no_duplicate_threads(s: Scheduler)
    requires
        sched_wf(s),
    ensures
        forall|i: int, j: int|
            0 <= i < threads_seq(s).len() && 0 <= j < threads_seq(s).len() && i != j ==> (
            #[trigger] threads_seq(s)[i]).tid != (#[trigger] threads_seq(s)[j]).tid,
{
}

} // verus!
