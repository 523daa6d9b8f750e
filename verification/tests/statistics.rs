use setools::policy::{HandleUnknown, PolicyMetadata, TargetPlatform};
use setools::statistics::{render_statistics, PolicyStatistics};

fn statistics(target: TargetPlatform) -> PolicyStatistics {
    PolicyStatistics {
        metadata: PolicyMetadata { version: 33, mls: true, target, handle_unknown: HandleUnknown::Allow },
        classes: 2,
        permissions: 10,
        sensitivities: 1,
        categories: 1024,
        types: 1234567,
        attributes: 3,
        users: 0,
        roles: 0,
        booleans: 0,
        conditionals: 0,
        allow: 0,
        neverallow: 0,
        auditallow: 0,
        dontaudit: 0,
        type_transitions: 0,
        type_changes: 0,
        type_members: 0,
        range_transitions: 0,
        role_allows: 0,
        role_transitions: 0,
        constraints: 0,
        validatetrans: 0,
        mls_constraints: 0,
        mls_validatetrans: 0,
        permissives: 0,
        polcaps: 0,
        defaults: 0,
        typebounds: 0,
        allowxperm: 0,
        neverallowxperm: 0,
        auditallowxperm: 0,
        dontauditxperm: 0,
        ibendportcons: 0,
        ibpkeycons: 0,
        initial_sids: 27,
        fs_uses: 0,
        genfscons: 0,
        portcons: 0,
        netifcons: 0,
        nodecons: 0,
        devicetreecons: 0,
        iomemcons: 0,
        ioportcons: 0,
        pcidevicecons: 0,
        pirqcons: 5,
    }
}

#[test]
fn statistics_align_labels_and_counts() {
    let text = render_statistics(&statistics(TargetPlatform::Selinux), "policy.33");
    assert!(text.starts_with(
        "Statistics for policy file: policy.33\nPolicy Version:             33 (MLS enabled)\n\
         Target Policy:              selinux\nHandle unknown classes:     allow\n"
    ));
    assert!(text.contains("\n  Classes:               2    Permissions:          10\n"));
    assert!(text.contains("\n  Sensitivities:         1    Categories:         1024\n"));
    assert!(text.contains("\n  Types:           1234567    Attributes:            3\n"));
    assert!(text.contains("\n  Initial SIDs:         27    Fs_use:                0\n"));
    assert!(text.ends_with("\n  Netifcon:              0    Nodecon:               0\n"));
    assert_eq!(text.lines().count(), 4 + 14 + 6);
}

#[test]
fn xen_statistics_list_xen_labeling() {
    let text = render_statistics(&statistics(TargetPlatform::Xen), "xen.policy");
    assert!(text.contains("Target Policy:              xen\n"));
    assert!(text.contains("\n  Initial SIDs:         27    Devicetreecon:         0\n"));
    assert!(text.ends_with("\n  Pcidevicecon:          0    Pirqcon:               5\n"));
    assert!(!text.contains("Allowxperm"));
    assert_eq!(text.lines().count(), 4 + 14 + 3);
}
