//! Permission sets, the fixed catalog of dangerous capabilities, and the
//! name-based matching of one against the other.
use vstd::prelude::*;

verus! {

/// Kick members from the group.
pub const KICK_MEMBERS: u64 = 0x2;
/// Ban members from the group.
pub const BAN_MEMBERS: u64 = 0x4;
/// Every capability, bypassing channel overrides.
pub const ADMINISTRATOR: u64 = 0x8;
/// Create, edit and delete channels.
pub const MANAGE_CHANNELS: u64 = 0x10;
/// Change the group's settings.
pub const MANAGE_GUILD: u64 = 0x20;
/// Read the audit log.
pub const VIEW_AUDIT_LOG: u64 = 0x80;
/// Delete and pin other members' messages.
pub const MANAGE_MESSAGES: u64 = 0x2000;
/// Read the group's insights.
pub const VIEW_GUILD_INSIGHTS: u64 = 0x8_0000;
/// Mute members in voice channels.
pub const MUTE_MEMBERS: u64 = 0x40_0000;
/// Deafen members in voice channels.
pub const DEAFEN_MEMBERS: u64 = 0x80_0000;
/// Move members between voice channels.
pub const MOVE_MEMBERS: u64 = 0x100_0000;
/// Change other members' nicknames.
pub const MANAGE_NICKNAMES: u64 = 0x800_0000;
/// Create, edit and assign roles.
pub const MANAGE_ROLES: u64 = 0x1000_0000;
/// Create, edit and delete webhooks.
pub const MANAGE_WEBHOOKS: u64 = 0x2000_0000;
/// Create, edit and delete scheduled events.
pub const MANAGE_EVENTS: u64 = 0x2_0000_0000;
/// Manage and delete threads.
pub const MANAGE_THREADS: u64 = 0x4_0000_0000;
/// Time members out.
pub const MODERATE_MEMBERS: u64 = 0x100_0000_0000;

/// The dangerous capabilities, in catalog order, each as its single flag bit.
pub open spec fn catalog_bits() -> Seq<u64> {
    seq![
        KICK_MEMBERS, BAN_MEMBERS, ADMINISTRATOR, MANAGE_CHANNELS, MANAGE_GUILD,
        VIEW_AUDIT_LOG, MANAGE_MESSAGES, VIEW_GUILD_INSIGHTS, MUTE_MEMBERS,
        DEAFEN_MEMBERS, MOVE_MEMBERS, MANAGE_NICKNAMES, MANAGE_ROLES,
        MANAGE_WEBHOOKS, MANAGE_EVENTS, MANAGE_THREADS, MODERATE_MEMBERS,
    ]
}

/// The canonical names of the flags set in `bits`, in the platform's flag order.
pub uninterp spec fn permission_names_of(bits: u64) -> Seq<Seq<char>>;

/// The platform's display text for the permission set `bits`.
pub uninterp spec fn permission_display_of(bits: u64) -> Seq<char>;

/// The views of a sequence of strings.
pub open spec fn strings_view(v: Seq<String>) -> Seq<Seq<char>> {
    v.map_values(|s: String| s@)
}

/// The canonical names of the catalog entries, in catalog order.
pub open spec fn catalog_names_spec() -> Seq<Seq<char>> {
    catalog_bits().map_values(|b: u64| permission_display_of(b))
}

/// Whether every flag of `flag` is set in `bits`.
pub open spec fn has_flags(bits: u64, flag: u64) -> bool {
    bits & flag == flag
}

/// The names of the first `n` catalog entries that `bits` holds and whose
/// name is among `present`, in catalog order. `labels` gives each entry's name.
pub open spec fn matched_prefix(
    bits: u64,
    present: Seq<Seq<char>>,
    labels: Seq<Seq<char>>,
    n: nat,
) -> Seq<Seq<char>>
    decreases n,
{
    if n == 0 {
        seq![]
    } else {
        let prev = matched_prefix(bits, present, labels, (n - 1) as nat);
        if has_flags(bits, catalog_bits()[n - 1]) && present.contains(labels[n - 1]) {
            prev.push(labels[n - 1])
        } else {
            prev
        }
    }
}

/// The catalog entries that `bits` holds and whose name is among `present`.
pub open spec fn matched_dangerous(
    bits: u64,
    present: Seq<Seq<char>>,
    labels: Seq<Seq<char>>,
) -> Seq<Seq<char>> {
    matched_prefix(bits, present, labels, catalog_bits().len())
}

/// The dangerous capabilities that the permission set `bits` grants, by name,
/// in catalog order.
pub open spec fn dangerous_of(bits: u64) -> Seq<Seq<char>> {
    matched_dangerous(bits, permission_names_of(bits), catalog_names_spec())
}

/// Relies on serenity's `Permissions::get_permission_names` (after
/// `Permissions::from_bits_truncate`): the names of the flags set in `bits`.
/// An empty set has no names.
#[verifier::external_body]
fn permission_names(bits: u64) -> (r: Vec<String>)
    ensures
        strings_view(r@) == permission_names_of(bits),
        bits == 0 ==> r@.len() == 0,
{
    serenity::model::permissions::Permissions::from_bits_truncate(bits)
        .get_permission_names()
        .into_iter()
        .map(|name| name.to_string())
        .collect()
}

/// Relies on serenity's `Display` for `Permissions` (after
/// `Permissions::from_bits_truncate`): the display text of the set `bits`.
#[verifier::external_body]
fn permission_display(bits: u64) -> (r: String)
    ensures
        r@ == permission_display_of(bits),
{
    serenity::model::permissions::Permissions::from_bits_truncate(bits).to_string()
}

/// A role's permissions as the platform's raw flag bits.
#[derive(Clone, Copy, Debug, PartialEq, Eq, Structural)]
pub struct PermissionSet {
    pub bits: u64,
}

impl PermissionSet {
    /// The set with exactly the flags of `bits`.
    pub fn from_bits(bits: u64) -> (r: PermissionSet)
        ensures
            r.bits == bits,
    {
        PermissionSet { bits }
    }

    /// The raw flag bits, as shown to an operator.
    pub fn bits(&self) -> (r: u64)
        ensures
            r == self.bits,
    {
        self.bits
    }

    /// Whether every flag of `flag` is set.
    pub fn contains(&self, flag: u64) -> (r: bool)
        ensures
            r == has_flags(self.bits, flag),
    {
        self.bits & flag == flag
    }

    /// The canonical names of the flags that are set.
    pub fn names(&self) -> (r: Vec<String>)
        ensures
            strings_view(r@) == permission_names_of(self.bits),
    {
        permission_names(self.bits)
    }
}

/// The dangerous capabilities, in catalog order, each as its flag bit.
pub fn dangerous_catalog() -> (r: Vec<u64>)
    ensures
        r@ == catalog_bits(),
{
    let mut v: Vec<u64> = Vec::new();
    v.push(KICK_MEMBERS);
    v.push(BAN_MEMBERS);
    v.push(ADMINISTRATOR);
    v.push(MANAGE_CHANNELS);
    v.push(MANAGE_GUILD);
    v.push(VIEW_AUDIT_LOG);
    v.push(MANAGE_MESSAGES);
    v.push(VIEW_GUILD_INSIGHTS);
    v.push(MUTE_MEMBERS);
    v.push(DEAFEN_MEMBERS);
    v.push(MOVE_MEMBERS);
    v.push(MANAGE_NICKNAMES);
    v.push(MANAGE_ROLES);
    v.push(MANAGE_WEBHOOKS);
    v.push(MANAGE_EVENTS);
    v.push(MANAGE_THREADS);
    v.push(MODERATE_MEMBERS);
    assert(v@ =~= catalog_bits());
    v
}

/// The canonical names of the dangerous capabilities, in catalog order.
pub fn catalog_names() -> (r: Vec<String>)
    ensures
        strings_view(r@) == catalog_names_spec(),
{
    let bits = dangerous_catalog();
    let mut names: Vec<String> = Vec::new();
    let mut i: usize = 0;
    while i < bits.len()
        invariant
            bits@ == catalog_bits(),
            i <= bits@.len(),
            strings_view(names@) == catalog_names_spec().take(i as int),
        decreases bits@.len() - i,
    {
        let name = permission_display(bits[i]);
        let ghost before = names@;
        names.push(name);
        assert(names@ == before.push(name));
        assert(strings_view(names@) =~= strings_view(before).push(name@));
        assert(catalog_names_spec()[i as int] == permission_display_of(catalog_bits()[i as int]));
        assert(strings_view(names@) =~= catalog_names_spec().take(i + 1));
        i = i + 1;
    }
    assert(catalog_names_spec().take(i as int) =~= catalog_names_spec());
    names
}

/// Whether `list` holds a string equal to `s`.
pub fn contains_name(list: &Vec<String>, s: &String) -> (r: bool)
    ensures
        r == strings_view(list@).contains(s@),
{
    let mut i: usize = 0;
    while i < list.len()
        invariant
            i <= list@.len(),
            forall|j: int| 0 <= j < i ==> list@[j]@ != s@,
        decreases list@.len() - i,
    {
        if list[i] == *s {
            assert(strings_view(list@)[i as int] == s@);
            return true;
        }
        i = i + 1;
    }
    assert forall|j: int| 0 <= j < strings_view(list@).len() implies strings_view(list@)[j] != s@ by {
        assert(strings_view(list@)[j] == list@[j]@);
    }
    false
}

/// Whether `name` is the canonical name of a dangerous capability.
pub fn is_dangerous(name: &String) -> (r: bool)
    ensures
        r == catalog_names_spec().contains(name@),
{
    let names = catalog_names();
    contains_name(&names, name)
}

/// The catalog entries that the set `bits` holds and whose name is among
/// `present`, in catalog order; `labels` gives the name of each entry.
pub fn select_dangerous(bits: u64, present: &Vec<String>, labels: &Vec<String>) -> (r: Vec<String>)
    requires
        labels@.len() == catalog_bits().len(),
    ensures
        strings_view(r@) == matched_dangerous(bits, strings_view(present@), strings_view(labels@)),
{
    let catalog = dangerous_catalog();
    let ghost pv = strings_view(present@);
    let ghost lv = strings_view(labels@);
    let mut out: Vec<String> = Vec::new();
    let mut i: usize = 0;
    while i < catalog.len()
        invariant
            catalog@ == catalog_bits(),
            labels@.len() == catalog_bits().len(),
            pv == strings_view(present@),
            lv == strings_view(labels@),
            i <= catalog@.len(),
            strings_view(out@) == matched_prefix(bits, pv, lv, i as nat),
        decreases catalog@.len() - i,
    {
        let flag = catalog[i];
        if bits & flag == flag && contains_name(present, &labels[i]) {
            out.push(labels[i].clone());
            assert(strings_view(out@) =~= matched_prefix(bits, pv, lv, (i + 1) as nat));
        }
        i = i + 1;
    }
    out
}

/// The dangerous capabilities that `perms` grants, by canonical name, in
/// catalog order.
pub fn dangerous_permissions(perms: &PermissionSet) -> (r: Vec<String>)
    ensures
        strings_view(r@) == dangerous_of(perms.bits),
{
    let present = perms.names();
    let labels = catalog_names();
    assert(labels@.len() == strings_view(labels@).len());
    select_dangerous(perms.bits, &present, &labels)
}

proof fn lemma_no_flag_prefix(bits: u64, present: Seq<Seq<char>>, labels: Seq<Seq<char>>, n: nat)
    requires
        n <= catalog_bits().len(),
        forall|i: int| 0 <= i < catalog_bits().len() ==> !has_flags(bits, #[trigger] catalog_bits()[i]),
    ensures
        matched_prefix(bits, present, labels, n) == Seq::<Seq<char>>::empty(),
    decreases n,
{
    if n > 0 {
        lemma_no_flag_prefix(bits, present, labels, (n - 1) as nat);
        assert(!has_flags(bits, catalog_bits()[n - 1]));
    }
}

/// A permission set that holds no flag of the catalog matches no dangerous
/// capability, whatever names it enumerates.
pub proof fn lemma_no_catalog_flag_no_match(bits: u64, present: Seq<Seq<char>>, labels: Seq<Seq<char>>)
    requires
        forall|i: int| 0 <= i < catalog_bits().len() ==> !has_flags(bits, #[trigger] catalog_bits()[i]),
    ensures
        matched_dangerous(bits, present, labels) == Seq::<Seq<char>>::empty(),
        dangerous_of(bits) == Seq::<Seq<char>>::empty(),
{
    lemma_no_flag_prefix(bits, present, labels, catalog_bits().len());
    lemma_no_flag_prefix(bits, permission_names_of(bits), catalog_names_spec(), catalog_bits().len());
}

proof fn lemma_single_flag_prefix(
    bits: u64,
    present: Seq<Seq<char>>,
    labels: Seq<Seq<char>>,
    k: int,
    n: nat,
)
    requires
        0 <= k < catalog_bits().len(),
        n <= catalog_bits().len(),
        has_flags(bits, catalog_bits()[k]),
        present.contains(labels[k]),
        forall|i: int|
            0 <= i < catalog_bits().len() && i != k ==> !has_flags(bits, #[trigger] catalog_bits()[i]),
    ensures
        matched_prefix(bits, present, labels, n) == (if n <= k {
            Seq::<Seq<char>>::empty()
        } else {
            seq![labels[k]]
        }),
    decreases n,
{
    if n > 0 {
        lemma_single_flag_prefix(bits, present, labels, k, (n - 1) as nat);
        if n - 1 != k {
            assert(!has_flags(bits, catalog_bits()[n - 1]));
        } else {
            assert(Seq::<Seq<char>>::empty().push(labels[k]) =~= seq![labels[k]]);
        }
    }
}

/// A permission set that holds exactly one flag of the catalog, whose name it
/// enumerates, matches exactly that capability's name.
pub proof fn lemma_single_catalog_flag(
    bits: u64,
    present: Seq<Seq<char>>,
    labels: Seq<Seq<char>>,
    k: int,
)
    requires
        0 <= k < catalog_bits().len(),
        has_flags(bits, catalog_bits()[k]),
        present.contains(labels[k]),
        forall|i: int|
            0 <= i < catalog_bits().len() && i != k ==> !has_flags(bits, #[trigger] catalog_bits()[i]),
    ensures
        matched_dangerous(bits, present, labels) == seq![labels[k]],
{
    lemma_single_flag_prefix(bits, present, labels, k, catalog_bits().len());
}

proof fn lemma_matched_prefix_grows(
    bits: u64,
    present: Seq<Seq<char>>,
    labels: Seq<Seq<char>>,
    m: nat,
    n: nat,
)
    requires
        m <= n,
    ensures
        matched_prefix(bits, present, labels, m).len() <= matched_prefix(bits, present, labels, n).len(),
        forall|i: int|
            0 <= i < matched_prefix(bits, present, labels, m).len() ==> #[trigger] matched_prefix(
                bits,
                present,
                labels,
                n,
            )[i] == matched_prefix(bits, present, labels, m)[i],
    decreases n - m,
{
    if m < n {
        lemma_matched_prefix_grows(bits, present, labels, m, (n - 1) as nat);
    }
}

/// Matches come in catalog order: where the catalog lists entry `j` before
/// entry `k` and the set holds both, by flag and by name, the name of `j`
/// comes before the name of `k`.
pub proof fn lemma_catalog_order(
    bits: u64,
    present: Seq<Seq<char>>,
    labels: Seq<Seq<char>>,
    j: int,
    k: int,
)
    requires
        0 <= j < k < catalog_bits().len(),
        has_flags(bits, catalog_bits()[j]),
        has_flags(bits, catalog_bits()[k]),
        present.contains(labels[j]),
        present.contains(labels[k]),
    ensures
        exists|p: int, q: int|
            0 <= p < q < matched_dangerous(bits, present, labels).len()
                && matched_dangerous(bits, present, labels)[p] == labels[j]
                && matched_dangerous(bits, present, labels)[q] == labels[k],
{
    let full = matched_dangerous(bits, present, labels);
    let p = matched_prefix(bits, present, labels, j as nat).len() as int;
    let q = matched_prefix(bits, present, labels, k as nat).len() as int;
    lemma_matched_prefix_grows(bits, present, labels, (j + 1) as nat, k as nat);
    lemma_matched_prefix_grows(bits, present, labels, (j + 1) as nat, catalog_bits().len());
    lemma_matched_prefix_grows(bits, present, labels, (k + 1) as nat, catalog_bits().len());
    assert(matched_prefix(bits, present, labels, (j + 1) as nat)[p] == labels[j]);
    assert(matched_prefix(bits, present, labels, (k + 1) as nat)[q] == labels[k]);
    assert(full[p] == labels[j]);
    assert(full[q] == labels[k]);
}

} // verus!
