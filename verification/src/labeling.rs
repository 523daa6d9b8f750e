//! The labeling statements of a policy (initial SIDs, file-system, port,
//! interface, node and device contexts) as the policy information tool lists
//! them: which statements a query selects, and how each is written.
use vstd::prelude::*;
use crate::text::{texts, owned, push_str, push_char, joined_by, join_texts, text_order, sort_texts};
use crate::scan::{decimal_text, push_count, push_wide_signed};
use crate::numbers::{hex_text, push_hex, range_text, decimal_range, hex_range, BuildError, error_view,
    checked_range, decimal_render, hex_render, python_int, int_error, parse_port_range, parse_pkey_range,
    parse_iomem_range, parse_ioport_range, parse_python_int};
use crate::seinfo::{Selection, Section, section_views, chosen};

verus! {

/// An MLS level: a sensitivity and its categories, each with its number
/// and name, in ascending order of number.
#[derive(Debug)]
pub struct Level {
    /// The sensitivity's name.
    pub sensitivity: String,
    /// The categories as number and name.
    pub categories: Vec<(u32, String)>,
}

/// An MLS range from a low to a high level.
#[derive(Debug)]
pub struct MlsRange {
    /// The low level.
    pub low: Level,
    /// The high level.
    pub high: Level,
}

/// A security context by name: user, role, type and optional range.
#[derive(Debug)]
pub struct SecurityContext {
    /// The user's name.
    pub user: String,
    /// The role's name.
    pub role: String,
    /// The type's name.
    pub target: String,
    /// The MLS range, where the policy has MLS.
    pub range: Option<MlsRange>,
}

/// How a file system is labeled by `fs_use_*`.
#[derive(Debug, Clone, Copy, PartialEq, Eq, Structural)]
pub enum FsUseKind {
    /// Labels from extended attributes.
    Xattr,
    /// Labels from the creating task.
    Task,
    /// Labels by transition from the creating task.
    Trans,
}

/// The transport protocol of a port context.
#[derive(Debug, Clone, Copy, PartialEq, Eq, Structural)]
pub enum Protocol {
    /// TCP.
    Tcp,
    /// UDP.
    Udp,
    /// DCCP.
    Dccp,
    /// SCTP.
    Sctp,
}

/// One labeling statement of a policy, as plain values.
#[derive(Debug)]
pub enum LabelingRule {
    /// `sid NAME CONTEXT`.
    InitialSid { name: String, context: SecurityContext },
    /// `fs_use_* FILESYSTEM CONTEXT;`.
    FsUse { kind: FsUseKind, filesystem: String, context: SecurityContext },
    /// `genfscon FILESYSTEM PATH [FILETYPE] CONTEXT`; the file type comes
    /// from the name of the object class the statement is limited to.
    Genfscon { filesystem: String, path: String, file_class: Option<String>, context: SecurityContext },
    /// `portcon PROTOCOL PORTS CONTEXT`.
    Portcon { protocol: Protocol, low: u16, high: u16, context: SecurityContext },
    /// `netifcon INTERFACE CONTEXT CONTEXT`.
    Netifcon { interface: String, interface_context: SecurityContext, packet_context: SecurityContext },
    /// `nodecon NETWORK MASK CONTEXT`, with the network's address (the
    /// address with its host bits cleared) and mask as written, and the
    /// number of bits set in the mask.
    Nodecon { network: String, mask: String, prefix: u8, context: SecurityContext },
    /// `ibpkeycon SUBNET KEYS CONTEXT`.
    Ibpkeycon { subnet_prefix: String, low: u16, high: u16, context: SecurityContext },
    /// `ibendportcon DEVICE PORT CONTEXT`.
    Ibendportcon { device: String, port: u8, context: SecurityContext },
    /// `devicetreecon PATH CONTEXT`.
    Devicetreecon { path: String, context: SecurityContext },
    /// `iomemcon ADDRESSES CONTEXT`.
    Iomemcon { low: u64, high: u64, context: SecurityContext },
    /// `ioportcon PORTS CONTEXT`.
    Ioportcon { low: u32, high: u32, context: SecurityContext },
    /// `pcidevicecon DEVICE CONTEXT`.
    Pcidevicecon { device: u32, context: SecurityContext },
    /// `pirqcon IRQ CONTEXT`.
    Pirqcon { irq: u16, context: SecurityContext },
}

/// The runs of consecutively numbered categories, each as its first and
/// last name and whether it holds one category.
pub open spec fn category_runs(categories: Seq<(u32, String)>) -> Seq<(Seq<char>, Seq<char>, bool)>
    decreases categories.len(),
{
    if categories.len() == 0 {
        Seq::empty()
    } else {
        let before = category_runs(categories.drop_last());
        let c = categories.last();
        if categories.len() >= 2 && c.0 as int == categories[categories.len() - 2].0 as int + 1 {
            before.update(before.len() - 1, (before.last().0, c.1@, false))
        } else {
            before.push((c.1@, c.1@, true))
        }
    }
}

/// A run written as one name, or as its first and last name joined by a dot.
pub open spec fn run_text(run: (Seq<char>, Seq<char>, bool)) -> Seq<char> {
    if run.2 { run.0 } else { run.0 + seq!['.'] + run.1 }
}

/// The runs written one by one.
pub open spec fn run_texts(runs: Seq<(Seq<char>, Seq<char>, bool)>) -> Seq<Seq<char>> {
    runs.map_values(|r: (Seq<char>, Seq<char>, bool)| run_text(r))
}

/// A level written as its sensitivity, then a colon and its category runs
/// separated by commas where it has categories.
pub open spec fn level_text(level: Level) -> Seq<char> {
    if level.categories@.len() == 0 {
        level.sensitivity@
    } else {
        level.sensitivity@ + seq![':'] + joined_by(run_texts(category_runs(level.categories@)), seq![','])
    }
}

/// A range written as one level when both ends read the same, else as the
/// two levels joined by ` - `.
pub open spec fn mls_range_text(range: MlsRange) -> Seq<char> {
    if level_text(range.low) == level_text(range.high) {
        level_text(range.low)
    } else {
        level_text(range.low) + " - "@ + level_text(range.high)
    }
}

/// A context written as `user:role:type`, then a colon and its range.
pub open spec fn context_text(context: SecurityContext) -> Seq<char> {
    let base = context.user@ + seq![':'] + context.role@ + seq![':'] + context.target@;
    match context.range {
        Some(range) => base + seq![':'] + mls_range_text(range),
        None => base,
    }
}

/// The statement keyword of an `fs_use_*` kind.
pub open spec fn fs_use_keyword(kind: FsUseKind) -> Seq<char> {
    match kind {
        FsUseKind::Xattr => "fs_use_xattr"@,
        FsUseKind::Task => "fs_use_task"@,
        FsUseKind::Trans => "fs_use_trans"@,
    }
}

/// The keyword of a protocol.
pub open spec fn protocol_keyword(protocol: Protocol) -> Seq<char> {
    match protocol {
        Protocol::Tcp => "tcp"@,
        Protocol::Udp => "udp"@,
        Protocol::Dccp => "dccp"@,
        Protocol::Sctp => "sctp"@,
    }
}

/// The `genfscon` file-type flag of an object class.
pub open spec fn file_type_flag(class: Option<String>) -> Seq<char> {
    match class {
        None => Seq::empty(),
        Some(name) => if name@ == "blk_file"@ {
            "-b"@
        } else if name@ == "chr_file"@ {
            "-c"@
        } else if name@ == "dir"@ {
            "-d"@
        } else if name@ == "fifo_file"@ {
            "-p"@
        } else if name@ == "file"@ {
            "--"@
        } else if name@ == "lnk_file"@ {
            "-l"@
        } else if name@ == "sock_file"@ {
            "-s"@
        } else {
            Seq::empty()
        },
    }
}

/// A labeling statement as written in policy language.
pub open spec fn rule_text(rule: LabelingRule) -> Seq<char> {
    match rule {
        LabelingRule::InitialSid { name, context } => "sid "@ + name@ + " "@ + context_text(context),
        LabelingRule::FsUse { kind, filesystem, context } =>
            fs_use_keyword(kind) + " "@ + filesystem@ + " "@ + context_text(context) + ";"@,
        LabelingRule::Genfscon { filesystem, path, file_class, context } =>
            "genfscon "@ + filesystem@ + " "@ + path@ + " "@ + file_type_flag(file_class) + " "@ + context_text(context),
        LabelingRule::Portcon { protocol, low, high, context } =>
            "portcon "@ + protocol_keyword(protocol) + " "@
                + range_text(decimal_text(low as int), decimal_text(high as int), low == high) + " "@ + context_text(context),
        LabelingRule::Netifcon { interface, interface_context, packet_context } =>
            "netifcon "@ + interface@ + " "@ + context_text(interface_context) + " "@ + context_text(packet_context),
        LabelingRule::Nodecon { network, mask, prefix, context } =>
            "nodecon "@ + network@ + " "@ + mask@ + " "@ + context_text(context),
        LabelingRule::Ibpkeycon { subnet_prefix, low, high, context } =>
            "ibpkeycon "@ + subnet_prefix@ + " "@
                + range_text(hex_text(low as int, 4), hex_text(high as int, 4), low == high) + " "@ + context_text(context),
        LabelingRule::Ibendportcon { device, port, context } =>
            "ibendportcon "@ + device@ + " "@ + decimal_text(port as int) + " "@ + context_text(context),
        LabelingRule::Devicetreecon { path, context } => "devicetreecon "@ + path@ + " "@ + context_text(context),
        LabelingRule::Iomemcon { low, high, context } =>
            "iomemcon "@ + range_text(hex_text(low as int, 4), hex_text(high as int, 4), low == high) + " "@
                + context_text(context),
        LabelingRule::Ioportcon { low, high, context } =>
            "ioportcon "@ + range_text(hex_text(low as int, 4), hex_text(high as int, 4), low == high) + " "@
                + context_text(context),
        LabelingRule::Pcidevicecon { device, context } =>
            "pcidevicecon "@ + hex_text(device as int, 4) + " "@ + context_text(context),
        LabelingRule::Pirqcon { irq, context } => "pirqcon "@ + decimal_text(irq as int) + " "@ + context_text(context),
    }
}

proof fn lemma_runs_nonempty(categories: Seq<(u32, String)>)
    requires
        categories.len() > 0,
    ensures
        category_runs(categories).len() > 0,
    decreases categories.len(),
{
    if categories.len() >= 2 {
        lemma_runs_nonempty(categories.drop_last());
    }
}

/// The plain values of a list of runs.
spec fn runs_view(runs: Seq<(String, String, bool)>) -> Seq<(Seq<char>, Seq<char>, bool)> {
    runs.map_values(|r: (String, String, bool)| (r.0@, r.1@, r.2))
}

/// Writes a level.
pub fn write_level(output: &mut String, level: &Level)
    ensures
        final(output)@ == old(output)@ + level_text(*level),
{
    let categories = &level.categories;
    let mut runs: Vec<(String, String, bool)> = Vec::new();
    let mut index: usize = 0;
    assert(categories@.take(0) =~= Seq::<(u32, String)>::empty());
    assert(runs_view(runs@) =~= Seq::<(Seq<char>, Seq<char>, bool)>::empty());
    while index < categories.len()
        invariant
            index <= categories@.len(),
            runs_view(runs@) == category_runs(categories@.take(index as int)),
        decreases categories.len() - index,
    {
        let ghost taken = categories@.take(index as int + 1);
        proof {
            assert(taken.drop_last() =~= categories@.take(index as int));
            assert(taken.last() == categories@[index as int]);
            if index >= 1 {
                assert(taken[taken.len() - 2] == categories@[index - 1]);
                lemma_runs_nonempty(categories@.take(index as int));
            }
        }
        let name = &categories[index].1;
        if index >= 1 && (categories[index - 1].0 as u64) + 1 == categories[index].0 as u64 {
            let k = runs.len() - 1;
            let first = owned(runs[k].0.as_str());
            let ghost before = runs_view(runs@);
            runs.set(k, (first, owned(name.as_str()), false));
            assert(runs_view(runs@) =~= before.update(before.len() - 1, (before.last().0, name@, false)));
        } else {
            let ghost before = runs_view(runs@);
            runs.push((owned(name.as_str()), owned(name.as_str()), true));
            assert(runs_view(runs@) =~= before.push((name@, name@, true)));
        }
        index = index + 1;
    }
    assert(categories@.take(categories.len() as int) =~= categories@);
    push_str(output, level.sensitivity.as_str());
    if categories.len() > 0 {
        let mut parts: Vec<String> = Vec::new();
        let mut k: usize = 0;
        while k < runs.len()
            invariant
                k <= runs@.len(),
                texts(parts@) == run_texts(runs_view(runs@)).take(k as int),
            decreases runs.len() - k,
        {
            let run = &runs[k];
            let mut text = owned(run.0.as_str());
            if !run.2 {
                push_char(&mut text, '.');
                push_str(&mut text, run.1.as_str());
            }
            proof {
                let r = runs_view(runs@)[k as int];
                assert(r == (run.0@, run.1@, run.2));
                assert(text@ == run_text(r));
            }
            let ghost before = texts(parts@);
            parts.push(text);
            assert(texts(parts@) =~= before.push(run_texts(runs_view(runs@))[k as int]));
            assert(run_texts(runs_view(runs@)).take(k as int + 1) =~= run_texts(runs_view(runs@)).take(k as int).push(run_texts(runs_view(runs@))[k as int]));
            k = k + 1;
        }
        assert(run_texts(runs_view(runs@)).take(runs@.len() as int) =~= run_texts(runs_view(runs@)));
        let joined = join_texts(&parts, ",");
        proof {
            reveal_strlit(",");
            assert(","@ =~= seq![',']);
            assert(texts(parts@) == run_texts(category_runs(level.categories@)));
            assert(joined@ == joined_by(run_texts(category_runs(level.categories@)), seq![',']));
        }
        push_char(output, ':');
        push_str(output, joined.as_str());
    }
    assert(output@ =~= old(output)@ + level_text(*level));
}

/// Writes a range.
pub fn write_range(output: &mut String, range: &MlsRange)
    ensures
        final(output)@ == old(output)@ + mls_range_text(*range),
{
    let mut low = String::new();
    write_level(&mut low, &range.low);
    let mut high = String::new();
    write_level(&mut high, &range.high);
    assert(low@ =~= level_text(range.low));
    assert(high@ =~= level_text(range.high));
    push_str(output, low.as_str());
    if !crate::text::same_text(low.as_str(), high.as_str()) {
        push_str(output, " - ");
        push_str(output, high.as_str());
    }
    assert(output@ =~= old(output)@ + mls_range_text(*range));
}

/// Writes a context.
fn write_context(output: &mut String, context: &SecurityContext)
    ensures
        final(output)@ == old(output)@ + context_text(*context),
{
    push_str(output, context.user.as_str());
    push_char(output, ':');
    push_str(output, context.role.as_str());
    push_char(output, ':');
    push_str(output, context.target.as_str());
    match &context.range {
        Some(range) => {
            push_char(output, ':');
            write_range(output, range);
        },
        None => {},
    }
    assert(output@ =~= old(output)@ + context_text(*context));
}


/// Writes a labeling statement.
pub fn write_rule(rule: &LabelingRule) -> (result: String)
    ensures
        result@ == rule_text(*rule),
{
    let mut out = String::new();
    match rule {
        LabelingRule::InitialSid { name, context } => {
            push_str(&mut out, "sid ");
            push_str(&mut out, name.as_str());
            push_str(&mut out, " ");
            write_context(&mut out, context);
        },
        LabelingRule::FsUse { kind, filesystem, context } => {
            match kind {
                FsUseKind::Xattr => push_str(&mut out, "fs_use_xattr"),
                FsUseKind::Task => push_str(&mut out, "fs_use_task"),
                FsUseKind::Trans => push_str(&mut out, "fs_use_trans"),
            }
            push_str(&mut out, " ");
            push_str(&mut out, filesystem.as_str());
            push_str(&mut out, " ");
            write_context(&mut out, context);
            push_str(&mut out, ";");
        },
        LabelingRule::Genfscon { filesystem, path, file_class, context } => {
            push_str(&mut out, "genfscon ");
            push_str(&mut out, filesystem.as_str());
            push_str(&mut out, " ");
            push_str(&mut out, path.as_str());
            push_str(&mut out, " ");
            write_file_type(&mut out, file_class);
            push_str(&mut out, " ");
            write_context(&mut out, context);
        },
        LabelingRule::Portcon { protocol, low, high, context } => {
            push_str(&mut out, "portcon ");
            match protocol {
                Protocol::Tcp => push_str(&mut out, "tcp"),
                Protocol::Udp => push_str(&mut out, "udp"),
                Protocol::Dccp => push_str(&mut out, "dccp"),
                Protocol::Sctp => push_str(&mut out, "sctp"),
            }
            push_str(&mut out, " ");
            let ports = decimal_range(*low, *high);
            push_str(&mut out, ports.as_str());
            push_str(&mut out, " ");
            write_context(&mut out, context);
        },
        LabelingRule::Netifcon { interface, interface_context, packet_context } => {
            push_str(&mut out, "netifcon ");
            push_str(&mut out, interface.as_str());
            push_str(&mut out, " ");
            write_context(&mut out, interface_context);
            push_str(&mut out, " ");
            write_context(&mut out, packet_context);
        },
        LabelingRule::Nodecon { network, mask, prefix, context } => {
            push_str(&mut out, "nodecon ");
            push_str(&mut out, network.as_str());
            push_str(&mut out, " ");
            push_str(&mut out, mask.as_str());
            push_str(&mut out, " ");
            write_context(&mut out, context);
        },
        LabelingRule::Ibpkeycon { subnet_prefix, low, high, context } => {
            push_str(&mut out, "ibpkeycon ");
            push_str(&mut out, subnet_prefix.as_str());
            push_str(&mut out, " ");
            let keys = hex_range(*low as u64, *high as u64);
            push_str(&mut out, keys.as_str());
            push_str(&mut out, " ");
            write_context(&mut out, context);
        },
        LabelingRule::Ibendportcon { device, port, context } => {
            push_str(&mut out, "ibendportcon ");
            push_str(&mut out, device.as_str());
            push_str(&mut out, " ");
            push_count(&mut out, *port as usize);
            push_str(&mut out, " ");
            write_context(&mut out, context);
        },
        LabelingRule::Devicetreecon { path, context } => {
            push_str(&mut out, "devicetreecon ");
            push_str(&mut out, path.as_str());
            push_str(&mut out, " ");
            write_context(&mut out, context);
        },
        LabelingRule::Iomemcon { low, high, context } => {
            push_str(&mut out, "iomemcon ");
            let addresses = hex_range(*low, *high);
            push_str(&mut out, addresses.as_str());
            push_str(&mut out, " ");
            write_context(&mut out, context);
        },
        LabelingRule::Ioportcon { low, high, context } => {
            push_str(&mut out, "ioportcon ");
            let ports = hex_range(*low as u64, *high as u64);
            push_str(&mut out, ports.as_str());
            push_str(&mut out, " ");
            write_context(&mut out, context);
        },
        LabelingRule::Pcidevicecon { device, context } => {
            push_str(&mut out, "pcidevicecon ");
            push_hex(&mut out, *device as u128, 4);
            push_str(&mut out, " ");
            write_context(&mut out, context);
        },
        LabelingRule::Pirqcon { irq, context } => {
            push_str(&mut out, "pirqcon ");
            push_count(&mut out, *irq as usize);
            push_str(&mut out, " ");
            write_context(&mut out, context);
        },
    }
    assert(out@ =~= rule_text(*rule));
    out
}

/// Writes the `genfscon` file-type flag of an object class.
fn write_file_type(output: &mut String, class: &Option<String>)
    ensures
        final(output)@ == old(output)@ + file_type_flag(*class),
{
    match class {
        None => {},
        Some(name) => {
            let n = name.as_str();
            if crate::text::same_text(n, "blk_file") {
                push_str(output, "-b");
            } else if crate::text::same_text(n, "chr_file") {
                push_str(output, "-c");
            } else if crate::text::same_text(n, "dir") {
                push_str(output, "-d");
            } else if crate::text::same_text(n, "fifo_file") {
                push_str(output, "-p");
            } else if crate::text::same_text(n, "file") {
                push_str(output, "--");
            } else if crate::text::same_text(n, "lnk_file") {
                push_str(output, "-l");
            } else if crate::text::same_text(n, "sock_file") {
                push_str(output, "-s");
            }
        },
    }
    assert(output@ =~= old(output)@ + file_type_flag(*class));
}


/// The labeling listings of the tool, in its order.
#[derive(Debug, Clone, Copy, PartialEq, Eq, Structural)]
pub enum LabelKind {
    /// `fs_use_*` statements.
    FsUse,
    /// `genfscon` statements.
    Genfscon,
    /// `ibendportcon` statements.
    Ibendportcon,
    /// `ibpkeycon` statements.
    Ibpkeycon,
    /// Initial SIDs.
    InitialSid,
    /// `netifcon` statements.
    Netifcon,
    /// `nodecon` statements.
    Nodecon,
    /// `portcon` statements.
    Portcon,
    /// `devicetreecon` statements.
    Devicetreecon,
    /// `iomemcon` statements.
    Iomemcon,
    /// `ioportcon` statements.
    Ioportcon,
    /// `pcidevicecon` statements.
    Pcidevicecon,
    /// `pirqcon` statements.
    Pirqcon,
}

/// The heading of a listing.
pub open spec fn description(kind: LabelKind) -> Seq<char> {
    match kind {
        LabelKind::FsUse => "Fs_use"@,
        LabelKind::Genfscon => "Genfscon"@,
        LabelKind::Ibendportcon => "Ibendportcon"@,
        LabelKind::Ibpkeycon => "Ibpkeycon"@,
        LabelKind::InitialSid => "Initial SIDs"@,
        LabelKind::Netifcon => "Netifcon"@,
        LabelKind::Nodecon => "Nodecon"@,
        LabelKind::Portcon => "Portcon"@,
        LabelKind::Devicetreecon => "Devicetreecon"@,
        LabelKind::Iomemcon => "Iomemcon"@,
        LabelKind::Ioportcon => "Ioportcon"@,
        LabelKind::Pcidevicecon => "Pcidevicecon"@,
        LabelKind::Pirqcon => "Pirqcon"@,
    }
}

/// What a labeling query asks for.
#[derive(Debug)]
pub enum LabelQuery {
    /// Every statement of the listing.
    Any,
    /// The statements with this name (file system, interface, device, path
    /// or SID name).
    Name(String),
    /// The statements whose range is exactly this one.
    Exact(u64, u64),
    /// The statements whose range holds this one.
    Within(u64, u64),
    /// The node statements of this network address and prefix length.
    Network(String, u8),
    /// The statements of this device or IRQ number.
    Number(i128),
}

/// A labeling query as plain values.
pub enum QueryView {
    /// Every statement.
    Any,
    /// A name.
    Name(Seq<char>),
    /// An exact range.
    Exact(int, int),
    /// A range to be held.
    Within(int, int),
    /// A network and prefix length.
    Network(Seq<char>, int),
    /// A number.
    Number(int),
}

/// The plain values of a query.
pub open spec fn query_view(query: LabelQuery) -> QueryView {
    match query {
        LabelQuery::Any => QueryView::Any,
        LabelQuery::Name(name) => QueryView::Name(name@),
        LabelQuery::Exact(low, high) => QueryView::Exact(low as int, high as int),
        LabelQuery::Within(low, high) => QueryView::Within(low as int, high as int),
        LabelQuery::Network(address, prefix) => QueryView::Network(address@, prefix as int),
        LabelQuery::Number(value) => QueryView::Number(value as int),
    }
}

/// A name satisfies a query that names nothing, or names it.
pub open spec fn name_fits(name: Seq<char>, query: QueryView) -> bool {
    match query {
        QueryView::Name(wanted) => wanted == name,
        _ => true,
    }
}

/// A range satisfies the query: equal to an exact range, holding a range
/// to be held.
pub open spec fn range_fits(low: int, high: int, query: QueryView) -> bool {
    match query {
        QueryView::Exact(a, b) => low == a && high == b,
        QueryView::Within(a, b) => low <= a && b <= high,
        _ => true,
    }
}

/// Whether a listing with a query selects a statement.
pub open spec fn rule_selected(kind: LabelKind, query: QueryView, rule: LabelingRule) -> bool {
    match rule {
        LabelingRule::InitialSid { name, .. } => kind == LabelKind::InitialSid && name_fits(name@, query),
        LabelingRule::FsUse { filesystem, .. } => kind == LabelKind::FsUse && name_fits(filesystem@, query),
        LabelingRule::Genfscon { filesystem, .. } => kind == LabelKind::Genfscon && name_fits(filesystem@, query),
        LabelingRule::Portcon { low, high, .. } => kind == LabelKind::Portcon && range_fits(low as int, high as int, query),
        LabelingRule::Netifcon { interface, .. } => kind == LabelKind::Netifcon && name_fits(interface@, query),
        LabelingRule::Nodecon { network, prefix, .. } => kind == LabelKind::Nodecon && match query {
            QueryView::Network(address, length) => network@ == address && prefix as int == length,
            _ => true,
        },
        LabelingRule::Ibpkeycon { low, high, .. } => kind == LabelKind::Ibpkeycon && range_fits(low as int, high as int, query),
        LabelingRule::Ibendportcon { device, .. } => kind == LabelKind::Ibendportcon && name_fits(device@, query),
        LabelingRule::Devicetreecon { path, .. } => kind == LabelKind::Devicetreecon && name_fits(path@, query),
        LabelingRule::Iomemcon { low, high, .. } => kind == LabelKind::Iomemcon && range_fits(low as int, high as int, query),
        LabelingRule::Ioportcon { low, high, .. } => kind == LabelKind::Ioportcon && range_fits(low as int, high as int, query),
        LabelingRule::Pcidevicecon { device, .. } => kind == LabelKind::Pcidevicecon && match query {
            QueryView::Number(value) => device as int == value,
            _ => true,
        },
        LabelingRule::Pirqcon { irq, .. } => kind == LabelKind::Pirqcon && match query {
            QueryView::Number(value) => irq as int == value,
            _ => true,
        },
    }
}

/// How a selected statement is listed: an initial SID by its name unless
/// expanded, every other statement as written.
pub open spec fn item_text(rule: LabelingRule, expand: bool) -> Seq<char> {
    match rule {
        LabelingRule::InitialSid { name, .. } => if expand { rule_text(rule) } else { name@ },
        _ => rule_text(rule),
    }
}

/// The items of the selected statements, in statement order.
pub open spec fn selected_items(rules: Seq<LabelingRule>, kind: LabelKind, query: QueryView, expand: bool) -> Seq<Seq<char>>
    decreases rules.len(),
{
    if rules.len() == 0 {
        Seq::empty()
    } else {
        let before = selected_items(rules.drop_last(), kind, query, expand);
        if rule_selected(kind, query, rules.last()) {
            before.push(item_text(rules.last(), expand))
        } else {
            before
        }
    }
}

/// Whether a listing with a query selects a statement.
fn selects(kind: LabelKind, query: &LabelQuery, rule: &LabelingRule) -> (result: bool)
    ensures
        result == rule_selected(kind, query_view(*query), *rule),
{
    let wanted_name: Option<&str> = match query {
        LabelQuery::Name(name) => Some(name.as_str()),
        _ => None,
    };
    let name_ok = |name: &str| -> (r: bool)
        ensures
            r == name_fits(name@, query_view(*query)),
        {
            match wanted_name {
                Some(wanted) => crate::text::same_text(wanted, name),
                None => true,
            }
        };
    let range_ok = |low: u64, high: u64| -> (r: bool)
        ensures
            r == range_fits(low as int, high as int, query_view(*query)),
        {
            match query {
                LabelQuery::Exact(a, b) => low == *a && high == *b,
                LabelQuery::Within(a, b) => low <= *a && *b <= high,
                _ => true,
            }
        };
    let number_ok = |value: u32| -> (r: bool)
        ensures
            r == (match query_view(*query) {
                QueryView::Number(n) => value as int == n,
                _ => true,
            }),
        {
            match query {
                LabelQuery::Number(n) => (value as i128) == *n,
                _ => true,
            }
        };
    match rule {
        LabelingRule::InitialSid { name, .. } => kind == LabelKind::InitialSid && name_ok(name.as_str()),
        LabelingRule::FsUse { filesystem, .. } => kind == LabelKind::FsUse && name_ok(filesystem.as_str()),
        LabelingRule::Genfscon { filesystem, .. } => kind == LabelKind::Genfscon && name_ok(filesystem.as_str()),
        LabelingRule::Portcon { low, high, .. } => kind == LabelKind::Portcon && range_ok(*low as u64, *high as u64),
        LabelingRule::Netifcon { interface, .. } => kind == LabelKind::Netifcon && name_ok(interface.as_str()),
        LabelingRule::Nodecon { network, prefix, .. } => kind == LabelKind::Nodecon && match query {
            LabelQuery::Network(address, length) => crate::text::same_text(network.as_str(), address.as_str())
                && *prefix == *length,
            _ => true,
        },
        LabelingRule::Ibpkeycon { low, high, .. } => kind == LabelKind::Ibpkeycon && range_ok(*low as u64, *high as u64),
        LabelingRule::Ibendportcon { device, .. } => kind == LabelKind::Ibendportcon && name_ok(device.as_str()),
        LabelingRule::Devicetreecon { path, .. } => kind == LabelKind::Devicetreecon && name_ok(path.as_str()),
        LabelingRule::Iomemcon { low, high, .. } => kind == LabelKind::Iomemcon && range_ok(*low, *high),
        LabelingRule::Ioportcon { low, high, .. } => kind == LabelKind::Ioportcon && range_ok(*low as u64, *high as u64),
        LabelingRule::Pcidevicecon { device, .. } => kind == LabelKind::Pcidevicecon && number_ok(*device),
        LabelingRule::Pirqcon { irq, .. } => kind == LabelKind::Pirqcon && number_ok(*irq as u32),
    }
}

/// The sorted items a listing with a query selects from the statements.
pub fn listing_items(rules: &Vec<LabelingRule>, kind: LabelKind, query: &LabelQuery, expand: bool) -> (result: Vec<String>)
    ensures
        texts(result@) == selected_items(rules@, kind, query_view(*query), expand).sort_by(text_order()),
{
    let mut items: Vec<String> = Vec::new();
    let mut index: usize = 0;
    assert(rules@.take(0) =~= Seq::<LabelingRule>::empty());
    assert(texts(items@) =~= Seq::<Seq<char>>::empty());
    while index < rules.len()
        invariant
            index <= rules@.len(),
            texts(items@) == selected_items(rules@.take(index as int), kind, query_view(*query), expand),
        decreases rules.len() - index,
    {
        let rule = &rules[index];
        let ghost taken = rules@.take(index as int + 1);
        assert(taken.drop_last() =~= rules@.take(index as int));
        assert(taken.last() == rules@[index as int]);
        if selects(kind, query, rule) {
            let text = match rule {
                LabelingRule::InitialSid { name, .. } => if expand { write_rule(rule) } else { owned(name.as_str()) },
                _ => write_rule(rule),
            };
            let ghost before = texts(items@);
            items.push(text);
            assert(texts(items@) =~= before.push(item_text(*rule, expand)));
        }
        index = index + 1;
    }
    assert(rules@.take(rules.len() as int) =~= rules@);
    sort_texts(&items)
}


/// How a node-context query arrives: every statement, a network address
/// (with its host bits cleared, written as the statements write theirs)
/// and prefix length, or the message of a network that could not be read.
#[derive(Debug)]
pub enum NetworkSelection {
    /// Every statement.
    All,
    /// The network address and its prefix length.
    Network(String, u8),
    /// The text was not a network; the message says why.
    Invalid(String),
}

/// The labeling queries asked for, and how items are written.
#[derive(Debug)]
pub struct LabelingOptions {
    /// `fs_use_*` statements.
    pub fs_use: Option<Selection>,
    /// `genfscon` statements.
    pub genfscon: Option<Selection>,
    /// `ibendportcon` statements.
    pub ibendportcon: Option<Selection>,
    /// `ibpkeycon` statements.
    pub ibpkeycon: Option<Selection>,
    /// Initial SIDs.
    pub initialsid: Option<Selection>,
    /// `netifcon` statements.
    pub netifcon: Option<Selection>,
    /// `nodecon` statements.
    pub nodecon: Option<NetworkSelection>,
    /// `portcon` statements.
    pub portcon: Option<Selection>,
    /// `devicetreecon` statements.
    pub devicetreecon: Option<Selection>,
    /// `iomemcon` statements.
    pub iomemcon: Option<Selection>,
    /// `ioportcon` statements.
    pub ioportcon: Option<Selection>,
    /// `pcidevicecon` statements.
    pub pcidevicecon: Option<Selection>,
    /// `pirqcon` statements.
    pub pirqcon: Option<Selection>,
    /// Every listing of the policy's platform runs.
    pub all: bool,
    /// Initial SIDs are written as statements.
    pub expand: bool,
    /// The policy is for Xen rather than SELinux.
    pub xen: bool,
}

/// A positive device or IRQ number read in a radix; zero asks for every
/// statement.
pub open spec fn number_query(value: Seq<char>, radix: int, negative: Seq<char>) -> Result<QueryView, (bool, Seq<char>)> {
    match python_int(value, radix) {
        None => Err((false, int_error(value, radix))),
        Some(n) => if n == 0 {
            Ok(QueryView::Any)
        } else if n < 0 {
            Err((false, negative + decimal_text(n)))
        } else {
            Ok(QueryView::Number(n))
        },
    }
}

/// A range query read from its text, or the error reading it gives.
pub open spec fn range_query(checked: Result<(int, int), (bool, Seq<char>)>, exact: bool) -> Result<QueryView, (bool, Seq<char>)> {
    match checked {
        Ok((low, high)) => Ok(if exact { QueryView::Exact(low, high) } else { QueryView::Within(low, high) }),
        Err(e) => Err(e),
    }
}

/// The query a listing's criterion gives, or the error reading it gives.
pub open spec fn query_spec(kind: LabelKind, crit: Option<Seq<char>>) -> Result<QueryView, (bool, Seq<char>)> {
    match crit {
        None => Ok(QueryView::Any),
        Some(v) => match kind {
            LabelKind::Ibpkeycon => range_query(checked_range(v, 16, "Enter a pkey number or range, e.g. 0x22 or 0x6000-0x6020"@,
                0xffff, "Partition keys must be >= 0x0001: "@, "Partition keys must be <= 0xffff: "@,
                "The low partition key must be <= the high partition key: "@, hex_render()), true),
            LabelKind::Portcon => range_query(checked_range(v, 10, "Enter a port number or range, e.g. 22 or 6000-6020"@, 0xffff,
                "Port numbers must be >= 1: "@, "Port numbers must be <= 65535: "@, "The low port must be <= the high port: "@,
                decimal_render()), false),
            LabelKind::Iomemcon => range_query(checked_range(v, 16,
                "Enter an IO memory address or range, e.g. 0x22 or 0x6000-0x6020"@, 0xffff,
                "Memory address must be >= 0x0001: "@, "Memory address must be <= 0xffff: "@,
                "The low mem addr must be smaller than the high mem addr: "@, hex_render()), true),
            LabelKind::Ioportcon => range_query(checked_range(v, 16,
                "Enter an IO port number or range, e.g. 0x22 or 0x6000-0x6020"@, 0xffff,
                "Port numbers must be >= 0x0001: "@, "Port numbers must be <= 0xffff: "@,
                "The low port must be smaller than the high port: "@, hex_render()), false),
            LabelKind::Pcidevicecon => number_query(v, 16, "PCI device ID must be positive: "@),
            LabelKind::Pirqcon => number_query(v, 10, "The IRQ must be positive: "@),
            _ => Ok(QueryView::Name(v)),
        },
    }
}

/// The criterion text of a selection that runs, and whether it runs.
fn chosen_text(selection: &Option<Selection>, all: bool) -> (result: (bool, Option<String>))
    ensures
        result.0 == (chosen(*selection, all) is Some),
        chosen(*selection, all) is Some ==> crate::arguments::text_view(result.1) == chosen(*selection, all)->Some_0,
{
    match selection {
        Some(Selection::All) => (true, None),
        Some(Selection::Named(name)) => (true, Some(owned(name.as_str()))),
        None => (all, None),
    }
}

/// A number criterion whose reading would leave the 128-bit range.
pub open spec fn number_overflows(selection: Option<Selection>, radix: int) -> bool {
    match selection {
        Some(Selection::Named(text)) => python_int(text@, radix) == Some(-(i128::MIN as int)),
        _ => false,
    }
}

/// Reads a number query.
fn read_number_query(value: &str, radix: u32, negative: &str) -> (result: Result<LabelQuery, BuildError>)
    requires
        radix == 10 || radix == 16,
        !(python_int(value@, radix as int) == Some(-(i128::MIN as int))),
    ensures
        match result {
            Ok(q) => number_query(value@, radix as int, negative@) == Ok::<QueryView, (bool, Seq<char>)>(query_view(q)),
            Err(e) => number_query(value@, radix as int, negative@) == Err::<QueryView, (bool, Seq<char>)>(error_view(e)),
        },
{
    match parse_python_int(value, radix) {
        Err(message) => Err(BuildError::Analysis(message)),
        Ok(n) => if n == 0 {
            Ok(LabelQuery::Any)
        } else if n < 0 {
            let mut message = owned(negative);
            push_wide_signed(&mut message, n);
            Err(BuildError::Analysis(message))
        } else {
            Ok(LabelQuery::Number(n))
        },
    }
}

/// Reads the query of a listing from its criterion.
fn read_query(kind: LabelKind, crit: &Option<String>) -> (result: Result<LabelQuery, BuildError>)
    requires
        kind == LabelKind::Pcidevicecon && crit is Some ==> !(python_int(crit->Some_0@, 16) == Some(-(i128::MIN as int))),
        kind == LabelKind::Pirqcon && crit is Some ==> !(python_int(crit->Some_0@, 10) == Some(-(i128::MIN as int))),
    ensures
        match result {
            Ok(q) => query_spec(kind, crate::arguments::text_view(*crit)) == Ok::<QueryView, (bool, Seq<char>)>(query_view(q)),
            Err(e) => query_spec(kind, crate::arguments::text_view(*crit)) == Err::<QueryView, (bool, Seq<char>)>(error_view(e)),
        },
{
    match crit {
        None => Ok(LabelQuery::Any),
        Some(v) => {
            let value = v.as_str();
            match kind {
                LabelKind::Ibpkeycon => match parse_pkey_range(value) {
                    Ok((low, high)) => Ok(LabelQuery::Exact(low as u64, high as u64)),
                    Err(e) => Err(e),
                },
                LabelKind::Portcon => match parse_port_range(value) {
                    Ok((low, high)) => Ok(LabelQuery::Within(low as u64, high as u64)),
                    Err(e) => Err(e),
                },
                LabelKind::Iomemcon => match parse_iomem_range(value) {
                    Ok((low, high)) => Ok(LabelQuery::Exact(low, high)),
                    Err(e) => Err(e),
                },
                LabelKind::Ioportcon => match parse_ioport_range(value) {
                    Ok((low, high)) => Ok(LabelQuery::Within(low as u64, high as u64)),
                    Err(e) => Err(e),
                },
                LabelKind::Pcidevicecon => read_number_query(value, 16, "PCI device ID must be positive: "),
                LabelKind::Pirqcon => read_number_query(value, 10, "The IRQ must be positive: "),
                _ => Ok(LabelQuery::Name(owned(value))),
            }
        },
    }
}


/// What one listing does: nothing when it does not run, else its query or
/// the error reading its criterion gives.
pub type StepView = (LabelKind, Option<Result<QueryView, (bool, Seq<char>)>>);

/// The step of a listing with a named criterion.
pub open spec fn step(kind: LabelKind, selection: Option<Selection>, all: bool) -> StepView {
    (kind, match chosen(selection, all) {
        None => None,
        Some(crit) => Some(query_spec(kind, crit)),
    })
}

/// The step of the node listing.
pub open spec fn node_step(selection: Option<NetworkSelection>, all: bool) -> StepView {
    (LabelKind::Nodecon, match selection {
        None => if all { Some(Ok(QueryView::Any)) } else { None },
        Some(NetworkSelection::All) => Some(Ok(QueryView::Any)),
        Some(NetworkSelection::Network(address, prefix)) => Some(Ok(QueryView::Network(address@, prefix as int))),
        Some(NetworkSelection::Invalid(message)) => Some(Err((false, message@))),
    })
}

/// The listings of the policy's platform, in the tool's order.
pub open spec fn steps(o: LabelingOptions) -> Seq<StepView> {
    if o.xen {
        seq![
            step(LabelKind::Devicetreecon, o.devicetreecon, o.all),
            step(LabelKind::Iomemcon, o.iomemcon, o.all),
            step(LabelKind::Ioportcon, o.ioportcon, o.all),
            step(LabelKind::Pcidevicecon, o.pcidevicecon, o.all),
            step(LabelKind::Pirqcon, o.pirqcon, o.all),
        ]
    } else {
        seq![
            step(LabelKind::FsUse, o.fs_use, o.all),
            step(LabelKind::Genfscon, o.genfscon, o.all),
            step(LabelKind::Ibendportcon, o.ibendportcon, o.all),
            step(LabelKind::Ibpkeycon, o.ibpkeycon, o.all),
            step(LabelKind::InitialSid, o.initialsid, o.all),
            step(LabelKind::Netifcon, o.netifcon, o.all),
            node_step(o.nodecon, o.all),
            step(LabelKind::Portcon, o.portcon, o.all),
        ]
    }
}

/// The sections the steps list, or the first error a criterion gives.
pub open spec fn listings(rules: Seq<LabelingRule>, steps: Seq<StepView>, expand: bool)
    -> Result<Seq<(Seq<char>, Seq<Seq<char>>)>, (bool, Seq<char>)>
    decreases steps.len(),
{
    if steps.len() == 0 {
        Ok(Seq::empty())
    } else {
        match listings(rules, steps.drop_last(), expand) {
            Err(e) => Err(e),
            Ok(done) => {
                let (kind, query) = steps.last();
                match query {
                    None => Ok(done),
                    Some(Err(e)) => Err(e),
                    Some(Ok(q)) => Ok(done.push(
                        (description(kind), selected_items(rules, kind, q, expand).sort_by(text_order())))),
                }
            },
        }
    }
}

/// The number criteria can be read without leaving the 128-bit range.
pub open spec fn labeling_options_fit(o: LabelingOptions) -> bool {
    !number_overflows(o.pcidevicecon, 16) && !number_overflows(o.pirqcon, 10)
}

/// What the labeling listings of the options give: their sections, or the
/// first error reading a criterion gives.
pub open spec fn labeling_spec(rules: Seq<LabelingRule>, o: LabelingOptions)
    -> Result<Seq<(Seq<char>, Seq<Seq<char>>)>, (bool, Seq<char>)>
{
    listings(rules, steps(o), o.expand)
}

/// A step as plain values.
pub open spec fn step_view(s: (LabelKind, Option<Result<LabelQuery, BuildError>>)) -> StepView {
    (s.0, match s.1 {
        None => None,
        Some(Ok(q)) => Some(Ok(query_view(q))),
        Some(Err(e)) => Some(Err(error_view(e))),
    })
}

/// Builds the step of a listing with a named criterion.
fn make_step(kind: LabelKind, selection: &Option<Selection>, all: bool)
    -> (result: (LabelKind, Option<Result<LabelQuery, BuildError>>))
    requires
        kind == LabelKind::Pcidevicecon ==> !number_overflows(*selection, 16),
        kind == LabelKind::Pirqcon ==> !number_overflows(*selection, 10),
    ensures
        step_view(result) == step(kind, *selection, all),
{
    let (runs, crit) = chosen_text(selection, all);
    if runs {
        (kind, Some(read_query(kind, &crit)))
    } else {
        (kind, None)
    }
}

/// Builds the step of the node listing.
fn make_node_step(selection: &Option<NetworkSelection>, all: bool)
    -> (result: (LabelKind, Option<Result<LabelQuery, BuildError>>))
    ensures
        step_view(result) == node_step(*selection, all),
{
    match selection {
        None => (LabelKind::Nodecon, if all { Some(Ok(LabelQuery::Any)) } else { None }),
        Some(NetworkSelection::All) => (LabelKind::Nodecon, Some(Ok(LabelQuery::Any))),
        Some(NetworkSelection::Network(address, prefix)) =>
            (LabelKind::Nodecon, Some(Ok(LabelQuery::Network(owned(address.as_str()), *prefix)))),
        Some(NetworkSelection::Invalid(message)) =>
            (LabelKind::Nodecon, Some(Err(BuildError::Analysis(owned(message.as_str()))))),
    }
}

/// A copy of an error.
fn copy_error(error: &BuildError) -> (result: BuildError)
    ensures
        error_view(result) == error_view(*error),
{
    match error {
        BuildError::Usage(message) => BuildError::Usage(owned(message.as_str())),
        BuildError::Analysis(message) => BuildError::Analysis(owned(message.as_str())),
    }
}

/// Once a step fails, the steps after it change nothing.
proof fn lemma_listing_error_stays(rules: Seq<LabelingRule>, steps: Seq<StepView>, expand: bool, k: int)
    requires
        0 <= k <= steps.len(),
        listings(rules, steps.take(k), expand) is Err,
    ensures
        listings(rules, steps, expand) == listings(rules, steps.take(k), expand),
    decreases steps.len(),
{
    if steps.len() > k {
        assert(steps.drop_last().take(k) =~= steps.take(k));
        lemma_listing_error_stays(rules, steps.drop_last(), expand, k);
    } else {
        assert(steps.take(k) =~= steps);
    }
}

/// The plain values of a plan of steps.
pub open spec fn plan_view(plan: Seq<(LabelKind, Option<Result<LabelQuery, BuildError>>)>) -> Seq<StepView> {
    plan.map_values(|s: (LabelKind, Option<Result<LabelQuery, BuildError>>)| step_view(s))
}

/// Appends a step to a plan.
fn push_step(plan: &mut Vec<(LabelKind, Option<Result<LabelQuery, BuildError>>)>,
    item: (LabelKind, Option<Result<LabelQuery, BuildError>>))
    ensures
        plan_view(final(plan)@) == plan_view(old(plan)@).push(step_view(item)),
{
    let ghost view = step_view(item);
    plan.push(item);
    assert(plan_view(plan@) =~= plan_view(old(plan)@).push(view));
}

/// The steps the options ask for.
#[verifier::rlimit(40)]
fn make_plan(o: &LabelingOptions) -> (plan: Vec<(LabelKind, Option<Result<LabelQuery, BuildError>>)>)
    requires
        labeling_options_fit(*o),
    ensures
        plan_view(plan@) == steps(*o),
{
    let mut plan: Vec<(LabelKind, Option<Result<LabelQuery, BuildError>>)> = Vec::new();
    assert(plan_view(plan@) =~= Seq::<StepView>::empty());
    if o.xen {
        push_step(&mut plan, make_step(LabelKind::Devicetreecon, &o.devicetreecon, o.all));
        push_step(&mut plan, make_step(LabelKind::Iomemcon, &o.iomemcon, o.all));
        push_step(&mut plan, make_step(LabelKind::Ioportcon, &o.ioportcon, o.all));
        push_step(&mut plan, make_step(LabelKind::Pcidevicecon, &o.pcidevicecon, o.all));
        push_step(&mut plan, make_step(LabelKind::Pirqcon, &o.pirqcon, o.all));
    } else {
        push_step(&mut plan, make_step(LabelKind::FsUse, &o.fs_use, o.all));
        push_step(&mut plan, make_step(LabelKind::Genfscon, &o.genfscon, o.all));
        push_step(&mut plan, make_step(LabelKind::Ibendportcon, &o.ibendportcon, o.all));
        push_step(&mut plan, make_step(LabelKind::Ibpkeycon, &o.ibpkeycon, o.all));
        push_step(&mut plan, make_step(LabelKind::InitialSid, &o.initialsid, o.all));
        push_step(&mut plan, make_step(LabelKind::Netifcon, &o.netifcon, o.all));
        push_step(&mut plan, make_node_step(&o.nodecon, o.all));
        push_step(&mut plan, make_step(LabelKind::Portcon, &o.portcon, o.all));
    }
    assert(plan_view(plan@) =~= steps(*o));
    plan
}

/// The heading of a listing.
fn heading(kind: LabelKind) -> (result: String)
    ensures
        result@ == description(kind),
{
    let mut text = String::new();
    match kind {
        LabelKind::FsUse => push_str(&mut text, "Fs_use"),
        LabelKind::Genfscon => push_str(&mut text, "Genfscon"),
        LabelKind::Ibendportcon => push_str(&mut text, "Ibendportcon"),
        LabelKind::Ibpkeycon => push_str(&mut text, "Ibpkeycon"),
        LabelKind::InitialSid => push_str(&mut text, "Initial SIDs"),
        LabelKind::Netifcon => push_str(&mut text, "Netifcon"),
        LabelKind::Nodecon => push_str(&mut text, "Nodecon"),
        LabelKind::Portcon => push_str(&mut text, "Portcon"),
        LabelKind::Devicetreecon => push_str(&mut text, "Devicetreecon"),
        LabelKind::Iomemcon => push_str(&mut text, "Iomemcon"),
        LabelKind::Ioportcon => push_str(&mut text, "Ioportcon"),
        LabelKind::Pcidevicecon => push_str(&mut text, "Pcidevicecon"),
        LabelKind::Pirqcon => push_str(&mut text, "Pirqcon"),
    }
    assert(text@ =~= description(kind));
    text
}

/// Runs the steps of a plan in order.
fn run_plan(rules: &Vec<LabelingRule>, plan: &Vec<(LabelKind, Option<Result<LabelQuery, BuildError>>)>, expand: bool)
    -> (result: Result<Vec<Section>, BuildError>)
    ensures
        match result {
            Ok(sections) => listings(rules@, plan_view(plan@), expand)
                == Ok::<Seq<(Seq<char>, Seq<Seq<char>>)>, (bool, Seq<char>)>(section_views(sections@)),
            Err(e) => listings(rules@, plan_view(plan@), expand)
                == Err::<Seq<(Seq<char>, Seq<Seq<char>>)>, (bool, Seq<char>)>(error_view(e)),
        },
{
    let ghost all_steps = plan_view(plan@);
    let mut sections: Vec<Section> = Vec::new();
    let mut index: usize = 0;
    assert(all_steps.take(0) =~= Seq::<StepView>::empty());
    assert(section_views(sections@) =~= Seq::<(Seq<char>, Seq<Seq<char>>)>::empty());
    while index < plan.len()
        invariant
            index <= plan@.len(),
            all_steps == plan_view(plan@),
            listings(rules@, all_steps.take(index as int), expand)
                == Ok::<Seq<(Seq<char>, Seq<Seq<char>>)>, (bool, Seq<char>)>(section_views(sections@)),
        decreases plan.len() - index,
    {
        let ghost taken = all_steps.take(index as int + 1);
        assert(taken.drop_last() =~= all_steps.take(index as int));
        assert(taken.last() == step_view(plan@[index as int]));
        let kind = plan[index].0;
        match &plan[index].1 {
            None => {},
            Some(Err(e)) => {
                proof {
                    lemma_listing_error_stays(rules@, all_steps, expand, index as int + 1);
                }
                return Err(copy_error(e));
            },
            Some(Ok(q)) => {
                let items = listing_items(rules, kind, q, expand);
                let title = heading(kind);
                let ghost before = section_views(sections@);
                let ghost view = (title@, texts(items@));
                sections.push(Section { description: title, items });
                assert(section_views(sections@) =~= before.push(view));
            },
        }
        index = index + 1;
    }
    assert(all_steps.take(plan.len() as int) =~= all_steps);
    Ok(sections)
}

/// Lists the labeling statements the options ask for, in the tool's order:
/// for each listing that runs, the statements its query selects, written
/// as policy language (initial SIDs by name unless expanded) and sorted;
/// or the first error a criterion gives.
pub fn labeling_sections(rules: &Vec<LabelingRule>, options: &LabelingOptions) -> (result: Result<Vec<Section>, BuildError>)
    requires
        labeling_options_fit(*options),
    ensures
        match result {
            Ok(sections) => labeling_spec(rules@, *options)
                == Ok::<Seq<(Seq<char>, Seq<Seq<char>>)>, (bool, Seq<char>)>(section_views(sections@)),
            Err(e) => labeling_spec(rules@, *options)
                == Err::<Seq<(Seq<char>, Seq<Seq<char>>)>, (bool, Seq<char>)>(error_view(e)),
        },
{
    let plan = make_plan(options);
    run_plan(rules, &plan, options.expand)
}



/// A selection that names nothing: absent, or asking for every statement.
pub open spec fn unnamed(selection: Option<Selection>) -> bool {
    match selection {
        Some(Selection::Named(_)) => false,
        _ => true,
    }
}

/// No labeling criterion names anything.
pub open spec fn labeling_unnamed(o: LabelingOptions) -> bool {
    &&& unnamed(o.fs_use) && unnamed(o.genfscon) && unnamed(o.ibendportcon) && unnamed(o.ibpkeycon)
    &&& unnamed(o.initialsid) && unnamed(o.netifcon) && unnamed(o.portcon)
    &&& unnamed(o.devicetreecon) && unnamed(o.iomemcon) && unnamed(o.ioportcon) && unnamed(o.pcidevicecon)
    &&& unnamed(o.pirqcon)
    &&& match o.nodecon {
        Some(NetworkSelection::Network(_, _)) | Some(NetworkSelection::Invalid(_)) => false,
        _ => true,
    }
}

proof fn lemma_steps_without_errors_list(rules: Seq<LabelingRule>, steps: Seq<StepView>, expand: bool)
    requires
        forall|i: int| 0 <= i < steps.len() ==> !((#[trigger] steps[i]).1 matches Some(Err(_))),
    ensures
        listings(rules, steps, expand) is Ok,
    decreases steps.len(),
{
    if steps.len() > 0 {
        let shorter = steps.drop_last();
        assert forall|i: int| 0 <= i < shorter.len() implies !((#[trigger] shorter[i]).1 matches Some(Err(_))) by {
            assert(shorter[i] == steps[i]);
        }
        lemma_steps_without_errors_list(rules, shorter, expand);
        assert(steps.last() == steps[steps.len() - 1]);
    }
}

/// Listing labeling statements without naming any never fails: every
/// listing that runs lists what it selects.
pub proof fn law_unnamed_labeling_succeeds(rules: Seq<LabelingRule>, o: LabelingOptions)
    requires
        labeling_unnamed(o),
    ensures
        labeling_spec(rules, o) is Ok,
{
    let all = steps(o);
    assert forall|i: int| 0 <= i < all.len() implies !((#[trigger] all[i]).1 matches Some(Err(_))) by {}
    lemma_steps_without_errors_list(rules, all, o.expand);
}

} // verus!
