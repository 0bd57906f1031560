//! Tests of multiprocessor bring-up: the wake-up command sequence and
//! the bounded, skip-and-continue scan of the processors.

use bootcore::bringup::{
    start_ap_commands, wake_secondaries, get_kstack_top, microdelay, ApCommand, ApState,
    ICR_HIGH, ICR_LOW, CMOS_PORT, CMOS_RETURN, WARM_RESET_VECTOR,
};

#[test]
fn wake_sequence_follows_the_protocol() {
    let commands = start_ap_commands(3, 0x8000);
    assert_eq!(commands.len(), 15);
    assert_eq!(commands[0], ApCommand::PortWrite { port: CMOS_PORT, value: 0xf });
    assert_eq!(commands[1], ApCommand::PortWrite { port: CMOS_RETURN, value: 0xa });
    assert_eq!(commands[2], ApCommand::MemWrite { addr: WARM_RESET_VECTOR, value: 0 });
    assert_eq!(commands[3], ApCommand::MemWrite { addr: WARM_RESET_VECTOR + 2, value: 0x800 });
    assert_eq!(commands[4], ApCommand::LapicWrite { reg: ICR_HIGH, value: 3 << 24 });
    // Level-triggered INIT, asserted, then de-asserted after a delay.
    assert_eq!(commands[5], ApCommand::LapicWrite { reg: ICR_LOW, value: 0xc500 });
    assert_eq!(commands[6], ApCommand::Delay { us: 200 });
    assert_eq!(commands[7], ApCommand::LapicWrite { reg: ICR_LOW, value: 0x8500 });
    assert_eq!(commands[8], ApCommand::Delay { us: 10000 });
    // The STARTUP interrupt carries the entry page and is sent twice.
    assert_eq!(commands[10], ApCommand::LapicWrite { reg: ICR_LOW, value: 0x608 });
    assert_eq!(commands[13], ApCommand::LapicWrite { reg: ICR_LOW, value: 0x608 });
    assert_eq!(commands[9], commands[12]);
    assert_eq!(commands[11], commands[14]);
}

#[test]
fn unresponsive_processor_is_skipped() {
    // Four logical processors; processor 2 never acknowledges.  The scan
    // still reaches processor 3 and counts three running processors: the
    // primary plus processors 1 and 3.
    let responsive = vec![true, true, false, true];
    let report = wake_secondaries(&responsive);
    assert_eq!(report.acknowledged, 3);
    assert_eq!(report.outcomes.len(), 4);
    assert_eq!(report.outcomes[0], ApState::Acknowledged);
    assert_eq!(report.outcomes[1], ApState::Acknowledged);
    assert_eq!(report.outcomes[2], ApState::StartupSent);
    assert_eq!(report.outcomes[3], ApState::Acknowledged);
}

#[test]
fn lone_primary_boots_alone() {
    let responsive = vec![true];
    let report = wake_secondaries(&responsive);
    assert_eq!(report.acknowledged, 1);
    assert_eq!(report.outcomes.len(), 1);
}

#[test]
fn cores_get_disjoint_stacks() {
    let top = 0xffff_8000_0010_0000;
    assert_eq!(get_kstack_top(top, 0), top);
    assert_eq!(get_kstack_top(top, 1), top - 0x4000);
    assert_eq!(get_kstack_top(top, 5), top - 5 * 0x4000);
    microdelay(10);
}
