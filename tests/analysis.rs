use role_audit::analysis::{
    analyze, holds_role, is_flagged, is_over_threshold, role_holders, sweep, Member, Role,
    RoleRiskReport,
};
use role_audit::permissions::{PermissionSet, ADMINISTRATOR, BAN_MEMBERS};

const SEND_MESSAGES: u64 = 0x800;

fn role(id: u64, bits: u64, mentionable: bool) -> Role {
    Role {
        id,
        name: format!("role-{}", id),
        permissions: PermissionSet::from_bits(bits),
        mentionable,
    }
}

/// `total` members, the first `holding` of whom hold each role of `ids`.
fn roster(total: u64, holding: u64, ids: &[u64]) -> Vec<Member> {
    (0..total)
        .map(|u| Member {
            user: 1000 + u,
            roles: if u < holding { ids.to_vec() } else { vec![99] },
        })
        .collect()
}

fn percentage(r: &RoleRiskReport) -> f64 {
    if r.total_members == 0 {
        0.0
    } else {
        r.holder_count as f64 / r.total_members as f64
    }
}

#[test]
fn ten_members_six_holders_ban_mentionable() {
    let r = role(7, BAN_MEMBERS, true);
    let members = roster(10, 6, &[7]);
    let rep = analyze(&r, &members);
    assert_eq!(rep.role_id, 7);
    assert_eq!(rep.holder_count, 6);
    assert_eq!(rep.total_members, 10);
    assert!((percentage(&rep) - 0.6).abs() < 1e-9);
    assert_eq!(rep.percent_hundredths(), 6000);
    assert!(rep.over_percentage_threshold);
    assert_eq!(rep.dangerous_permissions_matched, vec!["Ban Members".to_string()]);
    assert!(rep.has_dangerous_permissions);
    assert!(rep.false_everyone_ping_risk);
    assert_eq!(rep.holders.len(), 6);
    assert_eq!(rep.holders, vec![1000, 1001, 1002, 1003, 1004, 1005]);
    assert_eq!(rep.permissions.bits(), BAN_MEMBERS);
}

#[test]
fn percentage_is_holders_over_members() {
    let rep = analyze(&role(1, 0, false), &roster(3, 1, &[1]));
    assert!((percentage(&rep) - 1.0 / 3.0).abs() < 1e-9);
    assert_eq!(rep.percent_hundredths(), 3333);
}

#[test]
fn empty_roster_gives_zero_and_no_flags() {
    let rep = analyze(&role(1, ADMINISTRATOR, true), &[]);
    assert_eq!(rep.holder_count, 0);
    assert_eq!(rep.total_members, 0);
    assert_eq!(percentage(&rep), 0.0);
    assert_eq!(rep.percent_hundredths(), 0);
    assert!(!rep.over_percentage_threshold);
    assert!(!rep.false_everyone_ping_risk);
    assert!(rep.has_dangerous_permissions);
}

#[test]
fn threshold_boundary_is_inclusive() {
    let at = analyze(&role(1, 0, false), &roster(10, 5, &[1]));
    assert!(at.over_percentage_threshold);
    let below = analyze(&role(1, 0, false), &roster(10, 4, &[1]));
    assert!(!below.over_percentage_threshold);
    assert!(is_over_threshold(1, 2));
    assert!(!is_over_threshold(1, 3));
    assert!(!is_over_threshold(0, 0));
    assert!(is_over_threshold(usize::MAX, usize::MAX));
}

#[test]
fn unknown_role_has_no_holders() {
    let rep = analyze(&role(42, 0, true), &roster(4, 4, &[1]));
    assert_eq!(rep.holder_count, 0);
    assert!(rep.holders.is_empty());
    assert!(!rep.over_percentage_threshold);
}

#[test]
fn no_dangerous_permissions() {
    let rep = analyze(&role(1, SEND_MESSAGES, false), &roster(2, 2, &[1]));
    assert!(!rep.has_dangerous_permissions);
    assert!(rep.dangerous_permissions_matched.is_empty());
}

#[test]
fn ping_risk_needs_mentionable_and_threshold() {
    let members = roster(4, 3, &[1]);
    let not_mentionable = analyze(&role(1, ADMINISTRATOR | BAN_MEMBERS, false), &members);
    assert!(not_mentionable.over_percentage_threshold);
    assert!(!not_mentionable.false_everyone_ping_risk);
    let under = analyze(&role(1, ADMINISTRATOR, true), &roster(4, 1, &[1]));
    assert!(!under.false_everyone_ping_risk);
    let both = analyze(&role(1, 0, true), &members);
    assert!(both.false_everyone_ping_risk);
}

#[test]
fn analyze_twice_gives_same_report() {
    let r = role(3, ADMINISTRATOR | BAN_MEMBERS, true);
    let members = roster(5, 3, &[3]);
    let a = analyze(&r, &members);
    let b = analyze(&r, &members);
    assert_eq!(a.role_id, b.role_id);
    assert_eq!(a.holder_count, b.holder_count);
    assert_eq!(a.total_members, b.total_members);
    assert_eq!(a.over_percentage_threshold, b.over_percentage_threshold);
    assert_eq!(a.dangerous_permissions_matched, b.dangerous_permissions_matched);
    assert_eq!(a.has_dangerous_permissions, b.has_dangerous_permissions);
    assert_eq!(a.false_everyone_ping_risk, b.false_everyone_ping_risk);
    assert_eq!(a.holders, b.holders);
    assert_eq!(a.permissions, b.permissions);
}

#[test]
fn sweep_keeps_flagged_roles_in_order() {
    let roles = vec![
        role(1, BAN_MEMBERS, false),
        role(2, SEND_MESSAGES, false),
        role(3, SEND_MESSAGES, true),
    ];
    let members = roster(10, 6, &[1, 2, 3]);
    let out = sweep(&roles, &members);
    let ids: Vec<u64> = out.iter().map(|r| r.role_id).collect();
    assert_eq!(ids, vec![1, 3]);
    assert!(out.iter().all(is_flagged));
}

#[test]
fn sweep_drops_dangerous_role_under_threshold() {
    let roles = vec![role(1, ADMINISTRATOR, false)];
    let out = sweep(&roles, &roster(10, 2, &[1]));
    assert!(out.is_empty());
    assert!(sweep(&[], &roster(3, 3, &[1])).is_empty());
}

#[test]
fn holders_in_roster_order() {
    let members = vec![
        Member { user: 5, roles: vec![1, 2] },
        Member { user: 3, roles: vec![] },
        Member { user: 9, roles: vec![2] },
    ];
    assert!(holds_role(&members[0], 2));
    assert!(!holds_role(&members[1], 2));
    assert_eq!(role_holders(&members, 2), vec![5, 9]);
    assert_eq!(role_holders(&members, 1), vec![5]);
    assert!(role_holders(&members, 4).is_empty());
}
