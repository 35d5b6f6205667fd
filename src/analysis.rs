//! Risk analysis of one role over a membership roster, and the sweep over
//! every role of a group.
use vstd::prelude::*;

use crate::permissions::{dangerous_of, dangerous_permissions, strings_view, PermissionSet};

verus! {

/// Numerator of the share of members above which a role is widespread.
pub const THRESHOLD_NUMERATOR: u64 = 1;
/// Denominator of the share of members above which a role is widespread.
pub const THRESHOLD_DENOMINATOR: u64 = 2;

/// A named bundle of permissions that members can hold.
pub struct Role {
    pub id: u64,
    pub name: String,
    pub permissions: PermissionSet,
    /// Whether mentioning the role notifies all its holders.
    pub mentionable: bool,
}

/// A member of the group and the ids of the roles they hold.
pub struct Member {
    pub user: u64,
    pub roles: Vec<u64>,
}

/// The risk findings for one role over one roster.
pub struct RoleRiskReport {
    pub role_id: u64,
    pub permissions: PermissionSet,
    pub holder_count: usize,
    pub total_members: usize,
    pub over_percentage_threshold: bool,
    pub dangerous_permissions_matched: Vec<String>,
    pub has_dangerous_permissions: bool,
    pub false_everyone_ping_risk: bool,
    pub holders: Vec<u64>,
}

/// The mathematical content of a `RoleRiskReport`.
pub struct ReportView {
    pub role_id: u64,
    pub permissions: u64,
    pub holder_count: nat,
    pub total_members: nat,
    pub over_percentage_threshold: bool,
    pub dangerous_permissions_matched: Seq<Seq<char>>,
    pub has_dangerous_permissions: bool,
    pub false_everyone_ping_risk: bool,
    pub holders: Seq<u64>,
}

impl View for RoleRiskReport {
    type V = ReportView;

    open spec fn view(&self) -> ReportView {
        ReportView {
            role_id: self.role_id,
            permissions: self.permissions.bits,
            holder_count: self.holder_count as nat,
            total_members: self.total_members as nat,
            over_percentage_threshold: self.over_percentage_threshold,
            dangerous_permissions_matched: strings_view(self.dangerous_permissions_matched@),
            has_dangerous_permissions: self.has_dangerous_permissions,
            false_everyone_ping_risk: self.false_everyone_ping_risk,
            holders: self.holders@,
        }
    }
}

/// Whether `holders` out of `total` members reach the threshold share
/// (inclusive); never for an empty roster.
pub open spec fn over_threshold(holders: nat, total: nat) -> bool {
    total > 0 && holders * THRESHOLD_DENOMINATOR >= total * THRESHOLD_NUMERATOR
}

/// The users among the first `n` members of `roster` that hold role `id`,
/// in roster order.
pub open spec fn holders_prefix(roster: Seq<Member>, id: u64, n: nat) -> Seq<u64>
    decreases n,
{
    if n == 0 {
        seq![]
    } else {
        let prev = holders_prefix(roster, id, (n - 1) as nat);
        if roster[n - 1].roles@.contains(id) {
            prev.push(roster[n - 1].user)
        } else {
            prev
        }
    }
}

/// The users of `roster` that hold role `id`, in roster order.
pub open spec fn holders_of(roster: Seq<Member>, id: u64) -> Seq<u64> {
    holders_prefix(roster, id, roster.len())
}

/// The report that `analyze` gives for `role` over `roster`.
pub open spec fn analysis(role: Role, roster: Seq<Member>) -> ReportView {
    let holders = holders_of(roster, role.id);
    let over = over_threshold(holders.len(), roster.len());
    let dangerous = dangerous_of(role.permissions.bits);
    ReportView {
        role_id: role.id,
        permissions: role.permissions.bits,
        holder_count: holders.len(),
        total_members: roster.len(),
        over_percentage_threshold: over,
        dangerous_permissions_matched: dangerous,
        has_dangerous_permissions: dangerous.len() > 0,
        false_everyone_ping_risk: role.mentionable && over,
        holders,
    }
}

proof fn lemma_holders_prefix_len(roster: Seq<Member>, id: u64, n: nat)
    ensures
        holders_prefix(roster, id, n).len() <= n,
    decreases n,
{
    if n > 0 {
        lemma_holders_prefix_len(roster, id, (n - 1) as nat);
    }
}

/// Whether `member` holds the role `id`.
pub fn holds_role(member: &Member, id: u64) -> (r: bool)
    ensures
        r == member.roles@.contains(id),
{
    let mut i: usize = 0;
    while i < member.roles.len()
        invariant
            i <= member.roles@.len(),
            forall|j: int| 0 <= j < i ==> member.roles@[j] != id,
        decreases member.roles@.len() - i,
    {
        if member.roles[i] == id {
            return true;
        }
        i = i + 1;
    }
    false
}

/// Whether `holders` out of `total` members reach the threshold share.
pub fn is_over_threshold(holders: usize, total: usize) -> (r: bool)
    ensures
        r == over_threshold(holders as nat, total as nat),
{
    let h: u128 = holders as u128;
    let t: u128 = total as u128;
    let num: u128 = THRESHOLD_NUMERATOR as u128;
    let den: u128 = THRESHOLD_DENOMINATOR as u128;
    assert(h * den <= u64::MAX * u64::MAX) by (nonlinear_arith)
        requires
            h <= u64::MAX,
            den <= u64::MAX,
    ;
    assert(t * num <= u64::MAX * u64::MAX) by (nonlinear_arith)
        requires
            t <= u64::MAX,
            num <= u64::MAX,
    ;
    total > 0 && h * den >= t * num
}

/// The users of `roster` that hold role `id`, in roster order.
pub fn role_holders(roster: &[Member], id: u64) -> (r: Vec<u64>)
    ensures
        r@ == holders_of(roster@, id),
{
    let mut out: Vec<u64> = Vec::new();
    let mut i: usize = 0;
    while i < roster.len()
        invariant
            i <= roster@.len(),
            out@ == holders_prefix(roster@, id, i as nat),
        decreases roster@.len() - i,
    {
        if holds_role(&roster[i], id) {
            out.push(roster[i].user);
        }
        i = i + 1;
    }
    out
}

/// Analyzes `role` against `roster`: who holds it, whether they reach the
/// threshold share, which dangerous capabilities it grants, and whether it
/// can ping a threshold share of the group.
pub fn analyze(role: &Role, roster: &[Member]) -> (r: RoleRiskReport)
    ensures
        r@ == analysis(*role, roster@),
{
    let holders = role_holders(roster, role.id);
    proof {
        lemma_holders_prefix_len(roster@, role.id, roster@.len());
    }
    let holder_count = holders.len();
    let total_members = roster.len();
    let over = is_over_threshold(holder_count, total_members);
    let dangerous = dangerous_permissions(&role.permissions);
    let has_dangerous = dangerous.len() > 0;
    proof {
        assert(strings_view(dangerous@).len() == dangerous@.len());
    }
    RoleRiskReport {
        role_id: role.id,
        permissions: role.permissions,
        holder_count,
        total_members,
        over_percentage_threshold: over,
        dangerous_permissions_matched: dangerous,
        has_dangerous_permissions: has_dangerous,
        false_everyone_ping_risk: role.mentionable && over,
        holders,
    }
}

/// Whether a report marks its role as a risk: dangerous and widespread, or
/// able to ping a threshold share of the group.
pub open spec fn flagged(r: ReportView) -> bool {
    (r.has_dangerous_permissions && r.over_percentage_threshold) || r.false_everyone_ping_risk
}

/// The reports of the flagged roles among the first `n` of `roles`, in role order.
pub open spec fn sweep_prefix(roles: Seq<Role>, roster: Seq<Member>, n: nat) -> Seq<ReportView>
    decreases n,
{
    if n == 0 {
        seq![]
    } else {
        let prev = sweep_prefix(roles, roster, (n - 1) as nat);
        let report = analysis(roles[n - 1], roster);
        if flagged(report) {
            prev.push(report)
        } else {
            prev
        }
    }
}

/// The reports of the flagged roles among `roles`, in role order.
pub open spec fn sweep_of(roles: Seq<Role>, roster: Seq<Member>) -> Seq<ReportView> {
    sweep_prefix(roles, roster, roles.len())
}

/// The views of a sequence of reports.
pub open spec fn reports_view(v: Seq<RoleRiskReport>) -> Seq<ReportView> {
    v.map_values(|r: RoleRiskReport| r@)
}

impl RoleRiskReport {
    /// The share of members holding the role, in hundredths of a percent,
    /// rounded down; zero for an empty roster.
    pub fn percent_hundredths(&self) -> (r: u128)
        ensures
            self.total_members == 0 ==> r == 0,
            self.total_members > 0 ==> r == (self.holder_count as int * 10000) / (
            self.total_members as int),
    {
        if self.total_members == 0 {
            0
        } else {
            let h: u128 = self.holder_count as u128;
            assert(h * 10000 <= u64::MAX * 10000) by (nonlinear_arith)
                requires
                    h <= u64::MAX,
            ;
            (h * 10000) / (self.total_members as u128)
        }
    }
}

/// Whether `report` marks its role as a risk.
pub fn is_flagged(report: &RoleRiskReport) -> (r: bool)
    ensures
        r == flagged(report@),
{
    (report.has_dangerous_permissions && report.over_percentage_threshold)
        || report.false_everyone_ping_risk
}

/// Analyzes every role of `roles` against `roster` and keeps the reports of
/// the flagged ones, in the order of `roles`.
pub fn sweep(roles: &[Role], roster: &[Member]) -> (r: Vec<RoleRiskReport>)
    ensures
        reports_view(r@) == sweep_of(roles@, roster@),
{
    let mut out: Vec<RoleRiskReport> = Vec::new();
    let mut i: usize = 0;
    while i < roles.len()
        invariant
            i <= roles@.len(),
            reports_view(out@) == sweep_prefix(roles@, roster@, i as nat),
        decreases roles@.len() - i,
    {
        let report = analyze(&roles[i], roster);
        if is_flagged(&report) {
            let ghost before = out@;
            out.push(report);
            assert(reports_view(out@) =~= reports_view(before).push(report@));
        }
        i = i + 1;
    }
    out
}

/// The threshold is a share of one half, boundary included: it is reached
/// exactly when a non-empty roster has at least as many holders as
/// non-holders, and more holders never fall back below it.
pub proof fn lemma_threshold_is_half(holders: nat, total: nat)
    ensures
        over_threshold(holders, total) <==> (total > 0 && 2 * holders >= total),
        total > 0 && 2 * holders == total ==> over_threshold(holders, total),
        total == 0 ==> !over_threshold(holders, total),
        forall|more: nat| holders <= more && #[trigger] over_threshold(holders, total) ==> over_threshold(more, total),
{
}

/// A role is a false everyone-ping exactly when it is mentionable and over
/// the threshold, whatever its permissions.
pub proof fn lemma_false_everyone_ping(role: Role, roster: Seq<Member>)
    ensures
        analysis(role, roster).false_everyone_ping_risk <==> (role.mentionable
            && analysis(role, roster).over_percentage_threshold),
        !role.mentionable ==> !analysis(role, roster).false_everyone_ping_risk,
        roster.len() == 0 ==> !analysis(role, roster).false_everyone_ping_risk,
{
}

/// Analysis is a function of its inputs: two reports on the same role and
/// roster are equal.
pub proof fn lemma_analysis_is_pure(
    first: RoleRiskReport,
    second: RoleRiskReport,
    role: Role,
    roster: Seq<Member>,
)
    requires
        first@ == analysis(role, roster),
        second@ == analysis(role, roster),
    ensures
        first@ == second@,
{
}

proof fn lemma_sweep_prefix_grows(roles: Seq<Role>, roster: Seq<Member>, m: nat, n: nat)
    requires
        m <= n,
    ensures
        sweep_prefix(roles, roster, m).len() <= sweep_prefix(roles, roster, n).len(),
        forall|i: int|
            0 <= i < sweep_prefix(roles, roster, m).len() ==> #[trigger] sweep_prefix(
                roles,
                roster,
                n,
            )[i] == sweep_prefix(roles, roster, m)[i],
    decreases n - m,
{
    if m < n {
        lemma_sweep_prefix_grows(roles, roster, m, (n - 1) as nat);
    }
}

proof fn lemma_sweep_prefix_all_flagged(roles: Seq<Role>, roster: Seq<Member>, n: nat)
    ensures
        forall|i: int|
            0 <= i < sweep_prefix(roles, roster, n).len() ==> flagged(
                #[trigger] sweep_prefix(roles, roster, n)[i],
            ),
    decreases n,
{
    if n > 0 {
        lemma_sweep_prefix_all_flagged(roles, roster, (n - 1) as nat);
        let prev = sweep_prefix(roles, roster, (n - 1) as nat);
        let report = analysis(roles[n - 1], roster);
        if flagged(report) {
            assert forall|i: int| 0 <= i < prev.push(report).len() implies flagged(
                #[trigger] prev.push(report)[i],
            ) by {
                if i < prev.len() {
                    assert(prev.push(report)[i] == prev[i]);
                }
            }
        }
    }
}

/// The sweep keeps only flagged reports, keeps the report of every flagged
/// role, and keeps them in the order of the roles.
pub proof fn lemma_sweep_filter(roles: Seq<Role>, roster: Seq<Member>)
    ensures
        forall|i: int|
            0 <= i < sweep_of(roles, roster).len() ==> flagged(#[trigger] sweep_of(roles, roster)[i]),
        forall|i: int|
            0 <= i < roles.len() && flagged(#[trigger] analysis(roles[i], roster)) ==> sweep_of(
                roles,
                roster,
            ).contains(analysis(roles[i], roster)),
        forall|i: int, j: int|
            0 <= i < j < roles.len() && #[trigger] flagged(analysis(roles[i], roster))
                && #[trigger] flagged(analysis(roles[j], roster)) ==> exists|p: int, q: int|
                0 <= p < q < sweep_of(roles, roster).len() && sweep_of(roles, roster)[p]
                    == analysis(roles[i], roster) && sweep_of(roles, roster)[q] == analysis(
                    roles[j],
                    roster,
                ),
{
    let n = roles.len();
    lemma_sweep_prefix_all_flagged(roles, roster, n);
    assert forall|i: int|
        0 <= i < roles.len() && flagged(#[trigger] analysis(roles[i], roster)) implies sweep_of(
            roles,
            roster,
        ).contains(analysis(roles[i], roster)) by {
        let p = sweep_prefix(roles, roster, i as nat).len() as int;
        lemma_sweep_prefix_grows(roles, roster, (i + 1) as nat, n);
        assert(sweep_of(roles, roster)[p] == analysis(roles[i], roster));
    }
    assert forall|i: int, j: int|
        0 <= i < j < roles.len() && #[trigger] flagged(analysis(roles[i], roster))
            && #[trigger] flagged(analysis(roles[j], roster)) implies exists|p: int, q: int|
            0 <= p < q < sweep_of(roles, roster).len() && sweep_of(roles, roster)[p] == analysis(
                roles[i],
                roster,
            ) && sweep_of(roles, roster)[q] == analysis(roles[j], roster) by {
        let p = sweep_prefix(roles, roster, i as nat).len() as int;
        let q = sweep_prefix(roles, roster, j as nat).len() as int;
        lemma_sweep_prefix_grows(roles, roster, (i + 1) as nat, j as nat);
        lemma_sweep_prefix_grows(roles, roster, (i + 1) as nat, n);
        lemma_sweep_prefix_grows(roles, roster, (j + 1) as nat, n);
        assert(sweep_of(roles, roster)[p] == analysis(roles[i], roster));
        assert(sweep_of(roles, roster)[q] == analysis(roles[j], roster));
    }
}

} // verus!
