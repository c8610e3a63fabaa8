use devx::ports::{
    apply_offset, offset_for_suffix, worktree_port_offset, BindOutcome, PortAllocator,
    WORKTREE_PORT_SLOTS, WORKTREE_PORT_STRIDE,
};

#[test]
fn backward_compat_zero_offset_is_byte_for_byte() {
    for port in [80u16, 3001, 3100, 9001, 9003, 65535] {
        assert_eq!(apply_offset(port, 0), port);
    }
}

#[test]
fn offset_is_deterministic() {
    assert_eq!(
        offset_for_suffix("new-world-wt-devx"),
        offset_for_suffix("new-world-wt-devx")
    );
}

#[test]
fn offset_is_a_positive_multiple_of_stride() {
    for i in 0..2000 {
        let suffix = format!("wt-{i}");
        let off = offset_for_suffix(&suffix);
        assert!(off >= WORKTREE_PORT_STRIDE, "offset {off} below one stride");
        assert!(
            off <= WORKTREE_PORT_SLOTS * WORKTREE_PORT_STRIDE,
            "offset {off} above the SLOTS band"
        );
        assert_eq!(
            off % WORKTREE_PORT_STRIDE,
            0,
            "offset {off} not a stride multiple"
        );
    }
}

#[test]
fn distinct_suffixes_generally_get_distinct_slots() {
    let names = [
        "new-world",
        "new-world-wt-devx",
        "new-world-wt-domain-migration",
        "adoring-hofstadter-29bf34",
        "frosty-allen-bc8374",
    ];
    let offsets: std::collections::HashSet<u16> =
        names.iter().map(|n| offset_for_suffix(n)).collect();
    assert!(
        offsets.len() >= names.len() - 1,
        "expected near-distinct slots, got {offsets:?}"
    );
}

#[test]
fn apply_offset_saturates_instead_of_wrapping() {
    assert_eq!(apply_offset(u16::MAX, WORKTREE_PORT_STRIDE), u16::MAX);
    assert_eq!(apply_offset(65530, 100), u16::MAX);
}

fn fnv1a(s: &str) -> u64 {
    let mut h: u64 = 0xcbf2_9ce4_8422_2325;
    for b in s.bytes() {
        h ^= b as u64;
        h = h.wrapping_mul(0x0000_0100_0000_01b3);
    }
    h
}

#[test]
fn offset_matches_fnv1a_formula() {
    for s in ["", "a", "new-world", "wt-17", "ünï"] {
        let expected = ((fnv1a(s) % 16) as u16 + 1) * 10;
        assert_eq!(offset_for_suffix(s), expected);
    }
    assert_eq!(offset_for_suffix(""), ((0xcbf2_9ce4_8422_2325u64 % 16) as u16 + 1) * 10);
}

#[test]
fn worktree_offset_only_in_linked_worktrees() {
    assert_eq!(worktree_port_offset(false, Some("wt")), 0);
    assert_eq!(worktree_port_offset(true, None), 0);
    assert_eq!(worktree_port_offset(true, Some("wt")), offset_for_suffix("wt"));
    assert_eq!(apply_offset(3000, 20), 3020);
}

#[test]
fn allocator_records_and_retries() {
    let mut a = PortAllocator::new();
    assert!(!a.is_allocated(4000));
    let p = a.record_preferred(8000, BindOutcome::Preferred(8000)).unwrap();
    assert_eq!((p.preferred, p.actual, p.remapped), (Some(8000), 8000, false));
    let f = a.record_preferred(8001, BindOutcome::Fallback(41000)).unwrap();
    assert_eq!((f.preferred, f.actual, f.remapped), (Some(8001), 41000, true));
    assert!(a.is_allocated(41000));
    // A fallback port already handed out this session is refused.
    assert!(a.record_preferred(8002, BindOutcome::Fallback(41000)).is_none());
    assert!(a.record_preferred(8002, BindOutcome::Fallback(8000)).is_none());
    // A preferred bind that got another port counts as a fallback.
    let h = a.record_preferred(9000, BindOutcome::Preferred(9001)).unwrap();
    assert_eq!((h.preferred, h.actual, h.remapped), (Some(9000), 9001, true));
    assert!(a.record_preferred(9002, BindOutcome::Preferred(9001)).is_none());
    let g = a.record_preferred(8002, BindOutcome::Fallback(41001)).unwrap();
    assert_eq!((g.preferred, g.actual, g.remapped), (Some(8002), 41001, true));
    let first = a.accept_any(50000, 0).unwrap();
    assert_eq!((first.preferred, first.actual, first.remapped), (None, 50000, false));
    assert!(a.accept_any(50000, 0).is_none());
    assert!(a.accept_any(50000, 2).is_none());
    assert!(a.accept_any(50000, PortAllocator::RETRIES).is_some());
}

/// Drives `accept_any` with the ports `os` hands out, one per bind, the way
/// the orchestrator does, and reports the port taken and the binds used.
fn allocate_any_with(a: &mut PortAllocator, os: &[u16]) -> (u16, usize) {
    let mut attempt: u32 = 0;
    for (i, &p) in os.iter().enumerate() {
        if let Some(got) = a.accept_any(p, attempt) {
            assert_eq!(got.preferred, None);
            assert!(!got.remapped);
            return (got.actual, i + 1);
        }
        attempt += 1;
    }
    panic!("ran out of ports");
}

#[test]
fn allocate_any_takes_the_first_fresh_port_within_four_binds() {
    let mut a = PortAllocator::new();
    assert_eq!(allocate_any_with(&mut a, &[50000]), (50000, 1));
    assert_eq!(allocate_any_with(&mut a, &[50000, 50001]), (50001, 2));
    // Three binds that hand back taken ports, then the fourth is accepted.
    assert_eq!(allocate_any_with(&mut a, &[50000, 50001, 50000, 50001]), (50001, 4));
    assert!(a.is_allocated(50000) && a.is_allocated(50001));
    assert_eq!(allocate_any_with(&mut a, &[50000, 50001, 50002, 50000]), (50002, 3));
}
