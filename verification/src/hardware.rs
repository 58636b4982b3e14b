//! What a machine has, and what share of it a node may use.
use crate::comments::option_text;
use crate::json;
use crate::metric;
use crate::text;
use vstd::prelude::*;
use vstd::string::*;

verus! {

/// The system that a machine runs.
#[derive(Clone, Copy, Debug, PartialEq, Eq, Structural)]
pub enum Platform {
    MacOS,
    Linux,
    Other,
}

impl Platform {
    /// The word for the system.
    pub open spec fn word(self) -> Seq<char> {
        match self {
            Platform::MacOS => "macos"@,
            Platform::Linux => "linux"@,
            Platform::Other => "other"@,
        }
    }

    /// The word for the system.
    pub fn as_str(&self) -> (r: &'static str)
        ensures
            r@ == self.word(),
    {
        match self {
            Platform::MacOS => "macos",
            Platform::Linux => "linux",
            Platform::Other => "other",
        }
    }
}

/// Who made a graphics processor.
#[derive(Clone, Copy, Debug, PartialEq, Eq, Structural)]
pub enum GpuVendor {
    Nvidia,
    AppleSilicon,
    Amd,
    Unknown,
}

/// A graphics processor.
#[derive(Debug)]
pub struct GpuInfo {
    pub vendor: GpuVendor,
    pub name: String,
    /// Its memory in gigabytes, as it is shown.
    pub memory_gb: Option<String>,
}

/// What a machine has, and what of it is free.
#[derive(Debug)]
pub struct HardwareSnapshot {
    pub logical_cores: usize,
    pub physical_cores: usize,
    /// The memory in gigabytes, as it is shown.
    pub total_memory_gb: String,
    pub gpus: Vec<GpuInfo>,
    pub platform: Platform,
    /// The load of the last minute, as it is shown.
    pub load_avg_1m: String,
    /// The free memory in gigabytes, as it is shown.
    pub available_memory_gb: String,
}

/// What a node may use.
#[derive(Debug)]
pub struct HardwareBudget {
    pub cores: usize,
    /// The memory in gigabytes, as it is shown.
    pub memory_gb: String,
    pub gpus: usize,
    pub capacity_pct: u8,
}

/// A share in percent: at least one, and at most all.
pub open spec fn percent(capacity: u8) -> nat {
    if capacity < 1 {
        1
    } else if capacity > 100 {
        100
    } else {
        capacity as nat
    }
}

/// The share of a number of things, rounded down, but at least one.
pub open spec fn share(count: nat, pct: nat) -> nat {
    if count * pct / 100 >= 1 {
        count * pct / 100
    } else {
        1
    }
}

/// A share in percent: at least one, and at most all.
pub fn capacity_percent(capacity_pct: u8) -> (r: u8)
    ensures
        r == percent(capacity_pct),
{
    if capacity_pct < 1 {
        1
    } else if capacity_pct > 100 {
        100
    } else {
        capacity_pct
    }
}

fn share_of(count: usize, pct: u8) -> (r: usize)
    requires
        pct <= 100,
    ensures
        r == share(count as nat, pct as nat),
{
    assert(0 <= count * pct <= count * 100) by (nonlinear_arith)
        requires
            pct <= 100,
    ;
    let part: u128 = count as u128 * pct as u128 / 100;
    if part >= 1 {
        part as usize
    } else {
        1
    }
}

/// What a node may use of a machine. The share of the memory, as it is shown, comes with the call.
pub fn budget(snapshot: &HardwareSnapshot, capacity_pct: u8, memory_gb: String) -> (r:
    HardwareBudget)
    ensures
        r.capacity_pct == percent(capacity_pct),
        r.cores == share(snapshot.physical_cores as nat, percent(capacity_pct)),
        r.memory_gb == memory_gb,
        r.gpus == (if snapshot.gpus@.len() == 0 {
            0
        } else {
            share(snapshot.gpus@.len(), percent(capacity_pct))
        }),
{
    let pct: u8 = capacity_percent(capacity_pct);
    let gpus: usize = if snapshot.gpus.len() == 0 {
        0
    } else {
        share_of(snapshot.gpus.len(), pct)
    };
    HardwareBudget {
        cores: share_of(snapshot.physical_cores, pct),
        memory_gb,
        gpus,
        capacity_pct: pct,
    }
}

/// A share is never more than there is, where there is anything, and never nothing.
pub proof fn share_stays_within(count: nat, capacity: u8)
    requires
        count >= 1,
    ensures
        1 <= share(count, percent(capacity)) <= count,
{
    let pct = percent(capacity);
    assert(count * pct / 100 <= count) by (nonlinear_arith)
        requires
            pct <= 100,
    ;
}

/// A larger share gives no less.
pub proof fn share_grows_with_capacity(count: nat, a: u8, b: u8)
    requires
        a <= b,
    ensures
        share(count, percent(a)) <= share(count, percent(b)),
{
    let x = percent(a);
    let y = percent(b);
    assert(count * x <= count * y) by (nonlinear_arith)
        requires
            x <= y,
    ;
}

/// A processor as the driver's tool lists it: its name, and its memory in megabytes as written.
#[derive(Debug)]
pub struct ListedGpu {
    pub name: String,
    pub memory_mb: String,
}

/// What a line of the driver's tool lists: a name and a number behind a comma.
pub open spec fn listed_in(line: Seq<char>) -> Option<(Seq<char>, Seq<char>)> {
    match text::cut(line, ","@) {
        Some((name, memory)) => if text::trimmed(name).len() > 0 && metric::number_literal(
            text::trimmed(memory),
        ) {
            Some((text::trimmed(name), text::trimmed(memory)))
        } else {
            None
        },
        None => None,
    }
}

/// What lines of the driver's tool list.
pub open spec fn listed(lines: Seq<Seq<char>>) -> Seq<(Seq<char>, Seq<char>)>
    decreases lines.len(),
{
    if lines.len() == 0 {
        Seq::empty()
    } else {
        let rest = listed(lines.drop_last());
        match listed_in(lines.last()) {
            Some(g) => rest.push(g),
            None => rest,
        }
    }
}

/// The contents of listed processors.
pub open spec fn listed_views(v: Seq<ListedGpu>) -> Seq<(Seq<char>, Seq<char>)> {
    v.map_values(|g: ListedGpu| (g.name@, g.memory_mb@))
}

/// The processors that the driver's tool lists.
pub fn parse_nvidia_smi(output: &str) -> (r: Vec<ListedGpu>)
    ensures
        listed_views(r@) == listed(text::lines_of(output@)),
{
    let lines = text::lines(output);
    let ghost all = text::lines_of(output@);
    let mut r: Vec<ListedGpu> = Vec::new();
    let mut i: usize = 0;
    proof {
        assert(all.take(0).len() == 0);
        assert(listed_views(r@) =~= Seq::<(Seq<char>, Seq<char>)>::empty());
    }
    while i < lines.len()
        invariant
            i <= lines.len(),
            text::texts(lines@) == all,
            listed_views(r@) == listed(all.take(i as int)),
        decreases lines.len() - i,
    {
        proof {
            assert(all.take(i + 1).drop_last() =~= all.take(i as int));
            assert(all.take(i + 1).last() == all[i as int]);
            assert(all[i as int] == lines@[i as int]@);
        }
        if let Some((name, memory)) = text::split_once(lines[i].as_str(), ",") {
            let name = text::trim(name);
            let memory = text::trim(memory);
            if name.unicode_len() > 0 && metric::is_number_literal(memory) {
                let ghost before = r@;
                r.push(ListedGpu { name: name.to_owned(), memory_mb: memory.to_owned() });
                assert(listed_views(r@) =~= listed_views(before).push((name@, memory@)));
            }
        }
        i = i + 1;
    }
    assert(all.take(i as int) =~= all);
    r
}

/// Who made a display's processor, by the vendor's name and the processor's.
pub open spec fn vendor_of(vendor: Seq<char>, name: Seq<char>) -> GpuVendor {
    if text::holds(vendor, "Apple"@) || text::holds(name, "Apple"@) {
        GpuVendor::AppleSilicon
    } else if text::holds(vendor, "NVIDIA"@) {
        GpuVendor::Nvidia
    } else if text::holds(vendor, "AMD"@) || text::holds(vendor, "ATI"@) {
        GpuVendor::Amd
    } else {
        GpuVendor::Unknown
    }
}

impl GpuInfo {
    /// The processor is that of a display with this model and vendor, as the system describes it.
    pub open spec fn of_display(&self, model: Option<Seq<char>>, vendor: Option<Seq<char>>) -> bool {
        let name = match model {
            Some(m) => m,
            None => "Unknown GPU"@,
        };
        let made_by = match vendor {
            Some(v) => v,
            None => Seq::empty(),
        };
        self.name@ == name && self.vendor == vendor_of(made_by, name) && self.memory_gb is None
    }
}

/// The processors of the displays that the system describes in JSON, in order; none where it
/// describes none.
pub fn parse_display_gpus(output: &str) -> (r: Vec<GpuInfo>)
    ensures
        match json::array_length(output@, "SPDisplaysDataType"@) {
            Some(n) => r@.len() == n && forall|i: usize|
                i < n ==> (#[trigger] r@[i as int]).of_display(
                    json::element_text(output@, "SPDisplaysDataType"@, i, "sppci_model"@),
                    json::element_text(output@, "SPDisplaysDataType"@, i, "sppci_vendor"@),
                ),
            None => r@.len() == 0,
        },
{
    let mut r: Vec<GpuInfo> = Vec::new();
    let n: usize = match json::length_under(output, "SPDisplaysDataType") {
        Some(n) => n,
        None => {
            return r;
        },
    };
    let mut i: usize = 0;
    while i < n
        invariant
            i <= n,
            r@.len() == i,
            forall|k: usize|
                k < i ==> (#[trigger] r@[k as int]).of_display(
                    json::element_text(output@, "SPDisplaysDataType"@, k, "sppci_model"@),
                    json::element_text(output@, "SPDisplaysDataType"@, k, "sppci_vendor"@),
                ),
        decreases n - i,
    {
        let model = json::text_of_element(output, "SPDisplaysDataType", i, "sppci_model");
        let vendor = json::text_of_element(output, "SPDisplaysDataType", i, "sppci_vendor");
        r.push(display_gpu(&model, &vendor));
        i = i + 1;
    }
    r
}

/// The processor of a display, as the system describes it.
pub fn display_gpu(model: &Option<String>, vendor: &Option<String>) -> (r: GpuInfo)
    ensures
        r.of_display(option_text(*model), option_text(*vendor)),
{
    let name = match model {
        Some(m) => m.clone(),
        None => "Unknown GPU".to_owned(),
    };
    let made_by = match vendor {
        Some(v) => v.clone(),
        None => {
            let none = String::new();
            assert(none@ =~= Seq::<char>::empty());
            none
        },
    };
    let vendor = if text::contains(made_by.as_str(), "Apple") || text::contains(
        name.as_str(),
        "Apple",
    ) {
        GpuVendor::AppleSilicon
    } else if text::contains(made_by.as_str(), "NVIDIA") {
        GpuVendor::Nvidia
    } else if text::contains(made_by.as_str(), "AMD") || text::contains(made_by.as_str(), "ATI") {
        GpuVendor::Amd
    } else {
        GpuVendor::Unknown
    };
    GpuInfo { vendor, name, memory_gb: None }
}

/// Processors of one name: the name, how many there are, and the memory of the first.
#[derive(Debug)]
pub struct GpuGroup {
    pub name: String,
    pub count: usize,
    pub memory_gb: Option<String>,
}

/// The contents of a group.
pub struct GroupView {
    pub name: Seq<char>,
    pub count: nat,
    pub memory_gb: Option<Seq<char>>,
}

impl View for GpuGroup {
    type V = GroupView;

    open spec fn view(&self) -> GroupView {
        GroupView {
            name: self.name@,
            count: self.count as nat,
            memory_gb: match self.memory_gb {
                Some(m) => Some(m@),
                None => None,
            },
        }
    }
}

/// The contents of groups.
pub open spec fn group_views(v: Seq<GpuGroup>) -> Seq<GroupView> {
    v.map_values(|g: GpuGroup| g@)
}

/// The place of the group of a name.
pub open spec fn group_at(groups: Seq<GroupView>, name: Seq<char>, i: int) -> Option<int>
    decreases groups.len() - i,
{
    if i >= groups.len() {
        None
    } else if groups[i].name == name {
        Some(i)
    } else {
        group_at(groups, name, i + 1)
    }
}

/// Groups with one more processor.
pub open spec fn with_gpu(groups: Seq<GroupView>, gpu: GpuInfo) -> Seq<GroupView> {
    match group_at(groups, gpu.name@, 0) {
        Some(i) => groups.update(i, GroupView { count: groups[i].count + 1, ..groups[i] }),
        None => groups.push(
            GroupView {
                name: gpu.name@,
                count: 1,
                memory_gb: match gpu.memory_gb {
                    Some(m) => Some(m@),
                    None => None,
                },
            },
        ),
    }
}

/// The processors by their names, in the order in which the names first stand.
pub open spec fn grouped(gpus: Seq<GpuInfo>) -> Seq<GroupView>
    decreases gpus.len(),
{
    if gpus.len() == 0 {
        Seq::empty()
    } else {
        with_gpu(grouped(gpus.drop_last()), gpus.last())
    }
}

/// How many processors groups hold.
pub open spec fn held(groups: Seq<GroupView>) -> nat
    decreases groups.len(),
{
    if groups.len() == 0 {
        0
    } else {
        held(groups.drop_last()) + groups.last().count
    }
}

proof fn lemma_held_update(groups: Seq<GroupView>, i: int, g: GroupView)
    requires
        0 <= i < groups.len(),
        g.count == groups[i].count + 1,
    ensures
        held(groups.update(i, g)) == held(groups) + 1,
    decreases groups.len(),
{
    let after = groups.update(i, g);
    if i == groups.len() - 1 {
        assert(after.drop_last() =~= groups.drop_last());
    } else {
        lemma_held_update(groups.drop_last(), i, g);
        assert(after.drop_last() =~= groups.drop_last().update(i, g));
    }
}

proof fn lemma_group_at(groups: Seq<GroupView>, name: Seq<char>, i: int)
    requires
        0 <= i,
    ensures
        match group_at(groups, name, i) {
            Some(k) => i <= k < groups.len() && groups[k].name == name,
            None => true,
        },
    decreases groups.len() - i,
{
    if i < groups.len() && groups[i].name != name {
        lemma_group_at(groups, name, i + 1);
    }
}

proof fn lemma_count_at_most(groups: Seq<GroupView>, i: int)
    requires
        0 <= i < groups.len(),
    ensures
        groups[i].count <= held(groups),
    decreases groups.len(),
{
    if i < groups.len() - 1 {
        lemma_count_at_most(groups.drop_last(), i);
        assert(groups.drop_last()[i] == groups[i]);
    }
}

/// Each processor is in one group.
pub proof fn groups_hold_all(gpus: Seq<GpuInfo>)
    ensures
        held(grouped(gpus)) == gpus.len(),
    decreases gpus.len(),
{
    if gpus.len() > 0 {
        groups_hold_all(gpus.drop_last());
        let before = grouped(gpus.drop_last());
        lemma_group_at(before, gpus.last().name@, 0);
        match group_at(before, gpus.last().name@, 0) {
            Some(i) => {
                lemma_held_update(
                    before,
                    i,
                    GroupView { count: before[i].count + 1, ..before[i] },
                );
            },
            None => {
                assert(grouped(gpus).drop_last() =~= before);
            },
        }
    }
}

/// A group as it is shown.
pub open spec fn shown_group(g: GroupView) -> Seq<char> {
    let start = text::decimal(g.count) + " x "@ + g.name;
    match g.memory_gb {
        Some(m) => start + " ("@ + m + (if g.count == 1 {
            " GB)"@
        } else {
            " GB each)"@
        }),
        None => start,
    }
}

fn find_group(groups: &Vec<GpuGroup>, name: &str) -> (r: Option<usize>)
    ensures
        match r {
            Some(i) => group_at(group_views(groups@), name@, 0) == Some(i as int) && i
                < groups@.len(),
            None => group_at(group_views(groups@), name@, 0) is None,
        },
{
    let ghost all = group_views(groups@);
    let mut i: usize = 0;
    while i < groups.len()
        invariant
            i <= groups.len(),
            all == group_views(groups@),
            group_at(all, name@, 0) == group_at(all, name@, i as int),
        decreases groups.len() - i,
    {
        assert(all[i as int] == groups@[i as int]@);
        if text::same(groups[i].name.as_str(), name) {
            return Some(i);
        }
        i = i + 1;
    }
    None
}

/// The processors by their names, in the order in which the names first stand.
pub fn group_gpus(gpus: &Vec<GpuInfo>) -> (r: Vec<GpuGroup>)
    ensures
        group_views(r@) == grouped(gpus@),
{
    let mut r: Vec<GpuGroup> = Vec::new();
    let mut i: usize = 0;
    proof {
        assert(gpus@.take(0).len() == 0);
        assert(group_views(r@) =~= Seq::<GroupView>::empty());
    }
    while i < gpus.len()
        invariant
            i <= gpus.len(),
            group_views(r@) == grouped(gpus@.take(i as int)),
        decreases gpus.len() - i,
    {
        let ghost before = r@;
        proof {
            assert(gpus@.take(i + 1).drop_last() =~= gpus@.take(i as int));
            assert(gpus@.take(i + 1).last() == gpus@[i as int]);
            groups_hold_all(gpus@.take(i as int));
        }
        match find_group(&r, gpus[i].name.as_str()) {
            Some(k) => {
                proof {
                    lemma_count_at_most(group_views(r@), k as int);
                    assert(group_views(r@)[k as int] == r@[k as int]@);
                }
                let name = r[k].name.clone();
                let count: usize = r[k].count + 1;
                let memory_gb = text::copy(&r[k].memory_gb);
                r.set(k, GpuGroup { name, count, memory_gb });
                assert(group_views(r@) =~= group_views(before).update(k as int, r@[k as int]@));
            },
            None => {
                r.push(
                    GpuGroup {
                        name: gpus[i].name.clone(),
                        count: 1,
                        memory_gb: text::copy(&gpus[i].memory_gb),
                    },
                );
                assert(group_views(r@) =~= group_views(before).push(r@.last()@));
            },
        }
        i = i + 1;
    }
    assert(gpus@.take(i as int) =~= gpus@);
    r
}

fn show_group(g: &GpuGroup) -> (r: String)
    ensures
        r@ == shown_group(g@),
{
    let mut r = text::number(g.count as u64);
    r.append(" x ");
    r.append(g.name.as_str());
    if let Some(m) = &g.memory_gb {
        r.append(" (");
        r.append(m.as_str());
        if g.count == 1 {
            r.append(" GB)");
        } else {
            r.append(" GB each)");
        }
    }
    r
}

/// The processors as they are shown.
pub open spec fn shown_gpus(gpus: Seq<GpuInfo>) -> Seq<char> {
    if gpus.len() == 0 {
        "0 GPUs"@
    } else {
        text::joined(grouped(gpus).map_values(|g: GroupView| shown_group(g)), ", "@)
    }
}

fn show_gpus(gpus: &Vec<GpuInfo>) -> (r: String)
    ensures
        r@ == shown_gpus(gpus@),
{
    if gpus.len() == 0 {
        return "0 GPUs".to_owned();
    }
    let groups = group_gpus(gpus);
    let ghost all = grouped(gpus@).map_values(|g: GroupView| shown_group(g));
    let mut parts: Vec<String> = Vec::new();
    let mut i: usize = 0;
    assert(text::texts(parts@) =~= all.take(0));
    while i < groups.len()
        invariant
            i <= groups.len(),
            group_views(groups@) == grouped(gpus@),
            all == grouped(gpus@).map_values(|g: GroupView| shown_group(g)),
            text::texts(parts@) == all.take(i as int),
        decreases groups.len() - i,
    {
        let ghost before = parts@;
        parts.push(show_group(&groups[i]));
        proof {
            text::lemma_texts_push(before, parts@.last());
            assert(group_views(groups@)[i as int] == groups@[i as int]@);
            assert(all.take(i + 1) =~= all.take(i as int).push(all[i as int]));
        }
        i = i + 1;
    }
    assert(all.take(i as int) =~= all);
    text::join(&parts, ", ")
}

/// What a machine has, as it is shown.
pub fn format_machine_line(snapshot: &HardwareSnapshot) -> (r: String)
    ensures
        r@ == text::decimal(snapshot.physical_cores as nat) + " physical cores ("@ + text::decimal(
            snapshot.logical_cores as nat,
        ) + " logical), "@ + snapshot.total_memory_gb@ + " GB RAM, "@ + shown_gpus(snapshot.gpus@)
            + " ("@ + snapshot.platform.word() + ")"@,
{
    let mut r = text::number(snapshot.physical_cores as u64);
    r.append(" physical cores (");
    r.append(text::number(snapshot.logical_cores as u64).as_str());
    r.append(" logical), ");
    r.append(snapshot.total_memory_gb.as_str());
    r.append(" GB RAM, ");
    r.append(show_gpus(&snapshot.gpus).as_str());
    r.append(" (");
    r.append(snapshot.platform.as_str());
    r.append(")");
    r
}

/// What a node may use, as it is shown.
pub fn format_share_line(budget: &HardwareBudget) -> (r: String)
    ensures
        r@ == text::decimal(budget.capacity_pct as nat) + "% -> "@ + text::decimal(
            budget.cores as nat,
        ) + " cores, "@ + budget.memory_gb@ + " GB, "@ + text::decimal(budget.gpus as nat)
            + (if budget.gpus == 1 {
            " GPU"@
        } else {
            " GPUs"@
        }),
{
    let mut r = text::number(budget.capacity_pct as u64);
    r.append("% -> ");
    r.append(text::number(budget.cores as u64).as_str());
    r.append(" cores, ");
    r.append(budget.memory_gb.as_str());
    r.append(" GB, ");
    r.append(text::number(budget.gpus as u64).as_str());
    if budget.gpus == 1 {
        r.append(" GPU");
    } else {
        r.append(" GPUs");
    }
    r
}

/// What of a machine is free, as it is shown.
pub fn format_live_line(snapshot: &HardwareSnapshot) -> (r: String)
    ensures
        r@ == "load avg "@ + snapshot.load_avg_1m@ + "/"@ + text::decimal(
            snapshot.logical_cores as nat,
        ) + ", "@ + snapshot.available_memory_gb@ + " GB available"@,
{
    let mut r = "load avg ".to_owned();
    r.append(snapshot.load_avg_1m.as_str());
    r.append("/");
    r.append(text::number(snapshot.logical_cores as u64).as_str());
    r.append(", ");
    r.append(snapshot.available_memory_gb.as_str());
    r.append(" GB available");
    r
}

} // verus!
