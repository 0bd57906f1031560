//! Multiprocessor bring-up: the INIT/STARTUP wake-up protocol for the
//! secondary processors.
//!
//! The primary walks the candidate processor identifiers one at a time:
//! it computes the exact sequence of controller writes and delays that
//! wakes one processor (`start_ap_commands`), then polls the shared
//! handshake counter a bounded number of times.  A processor that never
//! acknowledges is skipped, never waited for indefinitely, and bring-up
//! carries on with the next identifier, so the machine still boots with
//! absent or unresponsive processors.  The hardware layer only performs
//! the computed writes and reports whether the counter moved.

use vstd::prelude::*;

verus! {

/// Physical base address of the local interrupt controller.
pub const LAPIC_BASE: u64 = 0xfee0_0000;

/// Byte offset of the interrupt-command register, low half.
pub const ICR_LOW: u32 = 0x300;

/// Byte offset of the interrupt-command register, high half.
pub const ICR_HIGH: u32 = 0x310;

/// INIT delivery mode.
pub const CMD_INIT: u32 = 0x0000_0500;

/// Level-triggered delivery.
pub const CMD_LEVEL: u32 = 0x0000_8000;

/// Assert the interrupt, as opposed to de-asserting it.
pub const CMD_ASSERT: u32 = 0x0000_4000;

/// STARTUP delivery mode; the low byte carries the entry page number.
pub const CMD_STARTUP: u32 = 0x0000_0600;

/// CMOS index port.
pub const CMOS_PORT: u16 = 0x70;

/// CMOS data port.
pub const CMOS_RETURN: u16 = 0x71;

/// Physical address of the warm-reset vector.
pub const WARM_RESET_VECTOR: u64 = 0x467;

/// Polls of the handshake counter before a processor is given up on.
pub const SPIN_BOUND: u64 = 1_000_000;

/// Bytes of kernel stack each processor core receives.
pub const KSTACK_BYTES_PER_CORE: u64 = 0x4000;

/// One step of the wake-up sequence, performed by the hardware layer.
#[derive(Clone, Copy, PartialEq, Eq, Structural, Debug)]
pub enum ApCommand {
    /// Write a byte to an I/O port.
    PortWrite {
        /// The port to write.
        port: u16,
        /// The byte to write.
        value: u8,
    },
    /// Write a 16-bit value to physical memory.
    MemWrite {
        /// Physical address of the write.
        addr: u64,
        /// The value to write.
        value: u16,
    },
    /// Write a value to a local interrupt controller register.
    LapicWrite {
        /// Byte offset of the register.
        reg: u32,
        /// The value to write.
        value: u32,
    },
    /// Busy-wait for the given number of microseconds.
    Delay {
        /// How long to wait.
        us: u64,
    },
}

/// Protocol state of one secondary processor.
#[derive(Clone, Copy, PartialEq, Eq, Structural, Debug)]
pub enum ApState {
    /// No interrupt sent yet.
    NotStarted,
    /// The INIT interrupt was sent and de-asserted.
    InitSent,
    /// Both STARTUP interrupts were sent; waiting for the handshake.
    StartupSent,
    /// The processor incremented the handshake counter.
    Acknowledged,
}

/// Idle loop for a bounded busy-wait; the hardware layer calibrates real
/// delays around it.
pub fn microdelay(_ms: usize) {
}

/// The exact wake-up sequence for one processor: initialize the CMOS
/// shutdown code and warm-reset vector, send a level-triggered INIT and
/// de-assert it, then send the STARTUP interrupt twice, as the hardware
/// protocol requires, with the entry page in the low byte.
pub fn start_ap_commands(apic_id: u8, addr: u16) -> (r: Vec<ApCommand>)
    requires
        addr % 4096 == 0,
    ensures
        r@ == seq![
            ApCommand::PortWrite { port: CMOS_PORT, value: 0xf },
            ApCommand::PortWrite { port: CMOS_RETURN, value: 0xa },
            ApCommand::MemWrite { addr: WARM_RESET_VECTOR, value: 0 },
            ApCommand::MemWrite { addr: (WARM_RESET_VECTOR + 2) as u64, value: addr >> 4 },
            ApCommand::LapicWrite { reg: ICR_HIGH, value: (apic_id as u32) << 24 },
            ApCommand::LapicWrite { reg: ICR_LOW, value: CMD_INIT | CMD_LEVEL | CMD_ASSERT },
            ApCommand::Delay { us: 200 },
            ApCommand::LapicWrite { reg: ICR_LOW, value: CMD_INIT | CMD_LEVEL },
            ApCommand::Delay { us: 10000 },
            ApCommand::LapicWrite { reg: ICR_HIGH, value: (apic_id as u32) << 24 },
            ApCommand::LapicWrite { reg: ICR_LOW, value: CMD_STARTUP | ((addr >> 12) as u32) },
            ApCommand::Delay { us: 200 },
            ApCommand::LapicWrite { reg: ICR_HIGH, value: (apic_id as u32) << 24 },
            ApCommand::LapicWrite { reg: ICR_LOW, value: CMD_STARTUP | ((addr >> 12) as u32) },
            ApCommand::Delay { us: 200 },
        ],
{
    let icr_high = ApCommand::LapicWrite { reg: ICR_HIGH, value: (apic_id as u32) << 24 };
    let sipi = ApCommand::LapicWrite { reg: ICR_LOW, value: CMD_STARTUP | ((addr >> 12) as u32) };
    let commands = vec![
        ApCommand::PortWrite { port: CMOS_PORT, value: 0xf },
        ApCommand::PortWrite { port: CMOS_RETURN, value: 0xa },
        ApCommand::MemWrite { addr: WARM_RESET_VECTOR, value: 0 },
        ApCommand::MemWrite { addr: WARM_RESET_VECTOR + 2, value: addr >> 4 },
        icr_high,
        ApCommand::LapicWrite { reg: ICR_LOW, value: CMD_INIT | CMD_LEVEL | CMD_ASSERT },
        ApCommand::Delay { us: 200 },
        ApCommand::LapicWrite { reg: ICR_LOW, value: CMD_INIT | CMD_LEVEL },
        ApCommand::Delay { us: 10000 },
        icr_high,
        sipi,
        ApCommand::Delay { us: 200 },
        icr_high,
        sipi,
        ApCommand::Delay { us: 200 },
    ];
    commands
}

/// Walks one processor through the protocol states with a bounded wait:
/// after the wake-up sequence, the handshake is polled at most
/// `SPIN_BOUND` times.  A responsive processor ends `Acknowledged`; an
/// unresponsive one is left `StartupSent` after the bound runs out, so
/// the caller can move on and no wait is indefinite.
pub fn wake_processor(responsive: bool) -> (r: ApState)
    ensures
        r == if responsive { ApState::Acknowledged } else { ApState::StartupSent },
{
    let mut state = ApState::NotStarted;
    state = ApState::InitSent;
    state = ApState::StartupSent;
    let mut spins: u64 = 0;
    while spins < SPIN_BOUND && !responsive
        invariant
            spins <= SPIN_BOUND,
            state == ApState::StartupSent,
        decreases SPIN_BOUND - spins,
    {
        spins += 1;
    }
    if responsive {
        state = ApState::Acknowledged;
    }
    state
}

/// Number of `true` entries of `s` in the index range `[from, to)`.
pub open spec fn count_range(s: Seq<bool>, from: int, to: int) -> int
    decreases to - from,
{
    if from >= to {
        0
    } else {
        (if s[from] { 1int } else { 0int }) + count_range(s, from + 1, to)
    }
}

/// Extending the range by one index adds that index's contribution.
proof fn lemma_count_range_extend(s: Seq<bool>, from: int, to: int)
    requires
        from <= to,
    ensures
        count_range(s, from, to + 1)
            == count_range(s, from, to) + (if s[to] { 1int } else { 0int }),
    decreases to - from,
{
    if from < to {
        lemma_count_range_extend(s, from + 1, to);
    } else {
        assert(count_range(s, from + 1, to + 1) == 0);
        assert(count_range(s, from, to) == 0);
    }
}

/// The outcome of bring-up: how many processors run, and where each one
/// ended.
pub struct BringUpReport {
    /// Number of processors running the kernel, the primary included.
    pub acknowledged: u64,
    /// Final protocol state per processor identifier; the primary is
    /// identifier zero and always runs.
    pub outcomes: Vec<ApState>,
}

/// Wakes every secondary processor in identifier order.  `responsive`
/// says, per identifier, whether the processor acknowledges within the
/// spin bound; identifier zero is the primary.  An unresponsive
/// processor is skipped and the ones after it are still reached: the
/// count of running processors is exactly one for the primary plus one
/// per responsive secondary.
pub fn wake_secondaries(responsive: &Vec<bool>) -> (r: BringUpReport)
    requires
        1 <= responsive@.len() <= 128,
    ensures
        r.outcomes@.len() == responsive@.len(),
        r.outcomes@[0] == ApState::Acknowledged,
        forall|i: int| 1 <= i < responsive@.len()
            ==> r.outcomes@[i] == (if responsive@[i] { ApState::Acknowledged }
                else { ApState::StartupSent }),
        r.acknowledged == 1 + count_range(responsive@, 1, responsive@.len() as int),
    {
        let n = responsive.len();
        let mut outcomes: Vec<ApState> = Vec::new();
        outcomes.push(ApState::Acknowledged);
        let mut acknowledged: u64 = 1;
        let mut i: usize = 1;
        while i < n
            invariant
                1 <= i <= n,
                n == responsive@.len(),
                n <= 128,
                outcomes@.len() == i,
                outcomes@[0] == ApState::Acknowledged,
                forall|j: int| 1 <= j < i
                    ==> outcomes@[j] == (if responsive@[j] { ApState::Acknowledged }
                        else { ApState::StartupSent }),
                acknowledged == 1 + count_range(responsive@, 1, i as int),
                acknowledged <= i,
            decreases n - i,
        {
            let state = wake_processor(responsive[i]);
            outcomes.push(state);
            if matches!(state, ApState::Acknowledged) {
                acknowledged += 1;
            }
            proof {
                lemma_count_range_extend(responsive@, 1, i as int);
            }
            i += 1;
        }
        BringUpReport { acknowledged, outcomes }
    }

/// The stack top for a processor core: each core's stack lies a fixed
/// distance below the shared stack top, so cores get disjoint stacks.
pub fn get_kstack_top(stack_top: u64, core_id: u8) -> (r: u64)
    requires
        stack_top >= KSTACK_BYTES_PER_CORE * (core_id as u64),
    ensures
        r == stack_top - KSTACK_BYTES_PER_CORE * (core_id as u64),
{
    stack_top - KSTACK_BYTES_PER_CORE * (core_id as u64)
}

} // verus!
