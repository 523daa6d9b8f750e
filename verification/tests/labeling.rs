use setools::labeling::{
    labeling_sections, write_rule, FsUseKind, LabelingOptions, LabelingRule, Level, MlsRange, NetworkSelection,
    Protocol, SecurityContext,
};
use setools::numbers::BuildError;
use setools::seinfo::{Section, Selection};

fn level(sensitivity: &str, categories: &[(u32, &str)]) -> Level {
    Level {
        sensitivity: sensitivity.to_owned(),
        categories: categories.iter().map(|(id, name)| (*id, (*name).to_owned())).collect(),
    }
}

fn context(target: &str) -> SecurityContext {
    SecurityContext {
        user: "system_u".to_owned(),
        role: "object_r".to_owned(),
        target: target.to_owned(),
        range: Some(MlsRange { low: level("s0", &[]), high: level("s0", &[]) }),
    }
}

fn no_options() -> LabelingOptions {
    LabelingOptions {
        fs_use: None,
        genfscon: None,
        ibendportcon: None,
        ibpkeycon: None,
        initialsid: None,
        netifcon: None,
        nodecon: None,
        portcon: None,
        devicetreecon: None,
        iomemcon: None,
        ioportcon: None,
        pcidevicecon: None,
        pirqcon: None,
        all: false,
        expand: false,
        xen: false,
    }
}

fn selinux_rules() -> Vec<LabelingRule> {
    vec![
        LabelingRule::Portcon { protocol: Protocol::Tcp, low: 6000, high: 6020, context: context("x_port_t") },
        LabelingRule::InitialSid { name: "kernel".to_owned(), context: context("kernel_t") },
        LabelingRule::FsUse { kind: FsUseKind::Xattr, filesystem: "ext4".to_owned(), context: context("fs_t") },
        LabelingRule::Genfscon {
            filesystem: "proc".to_owned(),
            path: "/".to_owned(),
            file_class: Some("dir".to_owned()),
            context: context("proc_t"),
        },
        LabelingRule::Portcon { protocol: Protocol::Tcp, low: 80, high: 80, context: context("http_port_t") },
        LabelingRule::InitialSid { name: "devnull".to_owned(), context: context("null_device_t") },
        LabelingRule::Ibendportcon { device: "mlx4_0".to_owned(), port: 1, context: context("ib_t") },
        LabelingRule::Nodecon {
            network: "10.0.0.0".to_owned(),
            mask: "255.0.0.0".to_owned(),
            prefix: 8,
            context: context("node_t"),
        },
    ]
}

fn items(section: &Section) -> Vec<&str> {
    section.items.iter().map(String::as_str).collect()
}

#[test]
fn contexts_write_category_runs_and_ranges() {
    let mut ctx = context("tmp_t");
    ctx.range = Some(MlsRange {
        low: level("s0", &[]),
        high: level("s15", &[(0, "c0"), (1, "c1"), (2, "c2"), (5, "c5")]),
    });
    let rule = LabelingRule::Devicetreecon { path: "/soc".to_owned(), context: ctx };
    assert_eq!(write_rule(&rule), "devicetreecon /soc system_u:object_r:tmp_t:s0 - s15:c0.c2,c5");
    let mut plain = context("tmp_t");
    plain.range = None;
    let rule = LabelingRule::Pirqcon { irq: 33, context: plain };
    assert_eq!(write_rule(&rule), "pirqcon 33 system_u:object_r:tmp_t");
}

#[test]
fn statements_are_written_in_policy_language() {
    let rules = selinux_rules();
    let written: Vec<String> = rules.iter().map(write_rule).collect();
    assert_eq!(written[0], "portcon tcp 6000-6020 system_u:object_r:x_port_t:s0");
    assert_eq!(written[2], "fs_use_xattr ext4 system_u:object_r:fs_t:s0;");
    assert_eq!(written[3], "genfscon proc / -d system_u:object_r:proc_t:s0");
    assert_eq!(written[4], "portcon tcp 80 system_u:object_r:http_port_t:s0");
    assert_eq!(written[6], "ibendportcon mlx4_0 1 system_u:object_r:ib_t:s0");
    assert_eq!(written[7], "nodecon 10.0.0.0 255.0.0.0 system_u:object_r:node_t:s0");
    let unclassed = LabelingRule::Genfscon {
        filesystem: "sysfs".to_owned(),
        path: "/".to_owned(),
        file_class: None,
        context: context("sysfs_t"),
    };
    assert_eq!(write_rule(&unclassed), "genfscon sysfs /  system_u:object_r:sysfs_t:s0");
    let keys = LabelingRule::Ibpkeycon {
        subnet_prefix: "fe80::".to_owned(),
        low: 0x10,
        high: 0x20,
        context: context("ibpkey_t"),
    };
    assert_eq!(write_rule(&keys), "ibpkeycon fe80:: 0x0010-0x0020 system_u:object_r:ibpkey_t:s0");
}

#[test]
fn all_selinux_listings_in_order_sorted() {
    let mut options = no_options();
    options.all = true;
    let sections = labeling_sections(&selinux_rules(), &options).unwrap();
    let headings: Vec<&str> = sections.iter().map(|s| s.description.as_str()).collect();
    assert_eq!(
        headings,
        vec!["Fs_use", "Genfscon", "Ibendportcon", "Ibpkeycon", "Initial SIDs", "Netifcon", "Nodecon", "Portcon"]
    );
    assert_eq!(items(&sections[4]), vec!["devnull", "kernel"]);
    assert!(sections[3].items.is_empty());
    assert_eq!(
        items(&sections[7]),
        vec![
            "portcon tcp 6000-6020 system_u:object_r:x_port_t:s0",
            "portcon tcp 80 system_u:object_r:http_port_t:s0",
        ]
    );
}

#[test]
fn expanded_initial_sids_are_statements() {
    let mut options = no_options();
    options.initialsid = Some(Selection::Named("kernel".to_owned()));
    options.expand = true;
    let sections = labeling_sections(&selinux_rules(), &options).unwrap();
    assert_eq!(sections.len(), 1);
    assert_eq!(sections[0].description, "Initial SIDs");
    assert_eq!(items(&sections[0]), vec!["sid kernel system_u:object_r:kernel_t:s0"]);
}

#[test]
fn port_queries_select_ranges_holding_them() {
    let mut options = no_options();
    options.portcon = Some(Selection::Named("6010".to_owned()));
    let sections = labeling_sections(&selinux_rules(), &options).unwrap();
    assert_eq!(items(&sections[0]), vec!["portcon tcp 6000-6020 system_u:object_r:x_port_t:s0"]);
    options.portcon = Some(Selection::Named("99999".to_owned()));
    assert_eq!(
        labeling_sections(&selinux_rules(), &options).unwrap_err(),
        BuildError::Analysis("Port numbers must be <= 65535: 99999".to_owned())
    );
    options.portcon = Some(Selection::Named("http".to_owned()));
    assert_eq!(
        labeling_sections(&selinux_rules(), &options).unwrap_err(),
        BuildError::Usage("Enter a port number or range, e.g. 22 or 6000-6020".to_owned())
    );
}

#[test]
fn node_queries_compare_network_and_prefix() {
    let mut options = no_options();
    options.nodecon = Some(NetworkSelection::Network("10.0.0.0".to_owned(), 8));
    let sections = labeling_sections(&selinux_rules(), &options).unwrap();
    assert_eq!(items(&sections[0]), vec!["nodecon 10.0.0.0 255.0.0.0 system_u:object_r:node_t:s0"]);
    options.nodecon = Some(NetworkSelection::Network("10.0.0.0".to_owned(), 16));
    let sections = labeling_sections(&selinux_rules(), &options).unwrap();
    assert!(sections[0].items.is_empty());
    options.nodecon = Some(NetworkSelection::Invalid("10.0.0.1/8 has host bits set".to_owned()));
    options.fs_use = Some(Selection::All);
    assert_eq!(
        labeling_sections(&selinux_rules(), &options).unwrap_err(),
        BuildError::Analysis("10.0.0.1/8 has host bits set".to_owned())
    );
}

#[test]
fn xen_listings_read_numbers() {
    let rules = vec![
        LabelingRule::Pcidevicecon { device: 16, context: context("pci_t") },
        LabelingRule::Pcidevicecon { device: 17, context: context("pci_t") },
        LabelingRule::Iomemcon { low: 0x100, high: 0x1ff, context: context("iomem_t") },
        LabelingRule::Ioportcon { low: 0x60, high: 0x64, context: context("ioport_t") },
    ];
    let mut options = no_options();
    options.xen = true;
    options.pcidevicecon = Some(Selection::Named("0x10".to_owned()));
    let sections = labeling_sections(&rules, &options).unwrap();
    assert_eq!(sections[0].description, "Pcidevicecon");
    assert_eq!(items(&sections[0]), vec!["pcidevicecon 0x0010 system_u:object_r:pci_t:s0"]);
    options.pcidevicecon = Some(Selection::Named("-1".to_owned()));
    assert_eq!(
        labeling_sections(&rules, &options).unwrap_err(),
        BuildError::Analysis("PCI device ID must be positive: -1".to_owned())
    );
    options.pcidevicecon = None;
    options.ioportcon = Some(Selection::Named("0x62".to_owned()));
    options.iomemcon = Some(Selection::Named("0x100-0x1ff".to_owned()));
    let sections = labeling_sections(&rules, &options).unwrap();
    assert_eq!(sections[0].description, "Iomemcon");
    assert_eq!(items(&sections[0]), vec!["iomemcon 0x0100-0x01ff system_u:object_r:iomem_t:s0"]);
    assert_eq!(items(&sections[1]), vec!["ioportcon 0x0060-0x0064 system_u:object_r:ioport_t:s0"]);
    options.pirqcon = Some(Selection::Named("abc".to_owned()));
    assert_eq!(
        labeling_sections(&rules, &options).unwrap_err(),
        BuildError::Analysis("invalid literal for int() with base 10: 'abc'".to_owned())
    );
}

fn system_context(sensitivity: &str, categories: &[(u32, &str)]) -> SecurityContext {
    SecurityContext {
        user: "system".to_owned(),
        role: "system".to_owned(),
        target: "system".to_owned(),
        range: Some(MlsRange { low: level(sensitivity, categories), high: level(sensitivity, categories) }),
    }
}

#[test]
fn xen_statements_read_as_the_tool_writes_them() {
    let rules = vec![
        LabelingRule::Devicetreecon { path: "/soc/device".to_owned(), context: system_context("s0", &[(0, "c0")]) },
        LabelingRule::Iomemcon { low: 0x10, high: 0x12, context: system_context("s0", &[(0, "c0")]) },
        LabelingRule::Ioportcon { low: 0x20, high: 0x22, context: system_context("s0", &[(0, "c0")]) },
        LabelingRule::Pcidevicecon { device: 0x30, context: system_context("s0", &[(0, "c0")]) },
        LabelingRule::Pirqcon { irq: 40, context: system_context("s0", &[(0, "c0")]) },
    ];
    let mut options = no_options();
    options.xen = true;
    options.all = true;
    options.expand = true;
    let sections = labeling_sections(&rules, &options).unwrap();
    let lines: Vec<&str> = sections.iter().flat_map(|s| s.items.iter().map(String::as_str)).collect();
    assert_eq!(
        lines,
        vec![
            "devicetreecon /soc/device system:system:system:s0:c0",
            "iomemcon 0x0010-0x0012 system:system:system:s0:c0",
            "ioportcon 0x0020-0x0022 system:system:system:s0:c0",
            "pcidevicecon 0x0030 system:system:system:s0:c0",
            "pirqcon 40 system:system:system:s0:c0",
        ]
    );
}
