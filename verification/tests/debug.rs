//! Hardware breakpoint/watchpoint values, single-step arming and replay divergence.
use retrace_box::debug::{
    arm_step, disarm_step, first_divergence, mdscr_with, watch_hit, watchpoint_regs, DBGWCR_BASE, MDSCR_MDE, MDSCR_SS,
    PSTATE_SS, frame_readable, frame_step, FrameStep,
};

#[test]
fn mde_follows_whether_anything_is_armed() {
    assert_eq!(mdscr_with(0x1, true), 0x1 | MDSCR_MDE);
    assert_eq!(mdscr_with(0x1 | MDSCR_MDE, false), 0x1);
}

#[test]
fn a_step_is_armed_and_disarmed_on_both_registers() {
    assert_eq!(arm_step(0, 0x3c0), (MDSCR_SS, 0x3c0 | PSTATE_SS));
    assert_eq!(disarm_step(MDSCR_SS | MDSCR_MDE, PSTATE_SS | 4), (MDSCR_MDE, 4));
}

#[test]
fn a_watch_selects_its_bytes_within_the_doubleword() {
    assert_eq!(watchpoint_regs(0x1000, 8), (0x1000, DBGWCR_BASE | (0xff << 5)));
    assert_eq!(watchpoint_regs(0x1006, 2), (0x1000, DBGWCR_BASE | ((0b11 << 6) << 5)));
    assert_eq!(watchpoint_regs(0x1003, 1), (0x1000, DBGWCR_BASE | ((1 << 3) << 5)));
}

#[test]
fn a_replayed_write_hits_the_first_watch_it_meets() {
    let watches = [(0x7000, 8, None), (0x8000, 4, Some(0x2_0000)), (0x9000, 8, Some(0x2_0002))];
    assert_eq!(watch_hit(&watches, 0x2_0002, 2), Some(0x8000));
    assert_eq!(watch_hit(&watches, 0x2_0004, 2), Some(0x9000));
    assert_eq!(watch_hit(&watches, 0x2_000a, 2), None);
    assert_eq!(watch_hit(&watches, 0x1_fffc, 4), None, "ends just before the watch");
}

#[test]
fn divergence_is_the_first_differing_byte_of_the_common_length() {
    assert_eq!(first_divergence(&[1, 2, 3], &[1, 2, 4]), Some(2));
    assert_eq!(first_divergence(&[1, 2, 3], &[1, 2]), None);
    assert_eq!(first_divergence(&[9], &[1, 2]), Some(0));
    assert_eq!(first_divergence(&[], &[]), None);
}

#[test]
fn a_backtrace_follows_frames_upward_and_strips_signatures() {
    assert!(frame_readable(0x1000, true));
    assert!(!frame_readable(0x1004, true), "misaligned");
    assert!(!frame_readable(0x1000, false), "unmapped");
    assert!(!frame_readable(0, true));
    assert_eq!(frame_step(0x1000, 0x2000, 0x1234_0001_0000_4000), FrameStep::Next(0x1_0000_4000, 0x2000));
    assert_eq!(frame_step(0x2000, 0x1000, 0x1_0000_4000), FrameStep::Last(0x1_0000_4000));
    assert_eq!(frame_step(0x2000, 0x3000, 0xff00_0000_0000_0000), FrameStep::End);
}
