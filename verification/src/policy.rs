//! The owned policy model read by the analyses.
//!
//! Symbols are numbered by their position in the policy's tables: a type or
//! attribute by its position in `types`, a class by its position in
//! `classes`, a permission by its position in its class's list, a Boolean by
//! its position in `booleans`, and a rule by its position in `te_rules`.
use vstd::prelude::*;
use crate::text::{same_text, texts};

verus! {

/// How the kernel handles classes and permissions it does not know.
#[derive(PartialEq, Eq, Structural, Clone, Copy, Debug)]
pub enum HandleUnknown {
    /// Deny unknown permissions.
    Deny,
    /// Refuse to load the policy.
    Reject,
    /// Allow unknown permissions.
    Allow,
}

/// The platform a policy targets.
#[derive(PartialEq, Eq, Structural, Clone, Copy, Debug)]
pub enum TargetPlatform {
    /// A Linux SELinux policy.
    Selinux,
    /// A Xen policy.
    Xen,
}

/// Policy-wide properties.
#[derive(Debug)]
pub struct PolicyMetadata {
    /// The binary policy version.
    pub version: u32,
    /// Whether MLS is enabled.
    pub mls: bool,
    /// The target platform.
    pub target: TargetPlatform,
    /// Unknown-class and unknown-permission handling.
    pub handle_unknown: HandleUnknown,
}

/// A type or type attribute.
pub struct TypeSymbol {
    /// Canonical name.
    pub name: String,
    /// Whether the symbol is an attribute rather than a concrete type.
    pub attribute: bool,
    /// For an attribute, the numbers of its member types.
    pub members: Vec<usize>,
    /// Alias names.
    pub aliases: Vec<String>,
    /// Whether the type is permissive.
    pub permissive: bool,
}

/// An object class and its permissions, numbered by position.
pub struct ObjectClass {
    /// Class name.
    pub name: String,
    /// Permission names.
    pub permissions: Vec<String>,
}

/// A policy Boolean and its default state.
pub struct Boolean {
    /// Boolean name.
    pub name: String,
    /// Default state.
    pub state: bool,
}

/// A category or sensitivity with its aliases.
pub struct AliasedSymbol {
    /// Canonical name.
    pub name: String,
    /// Alias names.
    pub aliases: Vec<String>,
}

/// One token of a conditional expression in postfix order.
#[derive(PartialEq, Eq, Structural, Clone, Copy)]
pub enum ConditionalToken {
    /// The value of the numbered Boolean.
    Boolean(usize),
    /// Logical negation of the top value.
    Not,
    /// Disjunction of the top two values.
    Or,
    /// Conjunction of the top two values.
    And,
    /// Exclusive disjunction of the top two values.
    Xor,
    /// Equality of the top two values.
    Equal,
    /// Inequality of the top two values.
    NotEqual,
}

/// Places a rule in one branch of a conditional expression.
#[derive(PartialEq, Eq, Structural, Clone, Copy)]
pub struct RuleCondition {
    /// The number of the conditional expression.
    pub conditional: usize,
    /// The branch: the rule applies when the expression has this value.
    pub block: bool,
}

/// The kind of a type-enforcement rule.
#[derive(PartialEq, Eq, Structural, Clone, Copy)]
pub enum TeRuleKind {
    /// `allow`
    Allow,
    /// `auditallow`
    AuditAllow,
    /// `dontaudit`
    DontAudit,
    /// `neverallow`
    NeverAllow,
    /// `type_transition`
    TypeTransition,
    /// `type_change`
    TypeChange,
    /// `type_member`
    TypeMember,
}

/// What a type-enforcement rule grants.
pub enum TeRuleData {
    /// Numbered permissions of the rule's class.
    Permissions(Vec<usize>),
    /// A default type, by number.
    DefaultType(usize),
}

/// A type-enforcement rule.
pub struct TeRule {
    /// The rule kind.
    pub kind: TeRuleKind,
    /// The source type or attribute, by number.
    pub source: usize,
    /// The target type or attribute, by number.
    pub target: usize,
    /// The target class, by number.
    pub target_class: usize,
    /// Permissions or default type.
    pub data: TeRuleData,
    /// The conditional branch, for a conditional rule.
    pub condition: Option<RuleCondition>,
}

/// A role or role attribute.
pub struct RoleSymbol {
    /// Role name.
    pub name: String,
    /// Whether the symbol is a role attribute rather than a role.
    pub attribute: bool,
    /// For an attribute, the numbers of its member roles.
    pub members: Vec<usize>,
}

/// A role `allow` rule.
pub struct RoleAllow {
    /// The source role or role attribute, by number.
    pub source: usize,
    /// The target role or role attribute, by number.
    pub target: usize,
}

/// An owned policy.
pub struct Policy {
    /// Policy-wide properties.
    pub metadata: PolicyMetadata,
    /// Types and attributes.
    pub types: Vec<TypeSymbol>,
    /// Object classes.
    pub classes: Vec<ObjectClass>,
    /// Booleans.
    pub booleans: Vec<Boolean>,
    /// Conditional expressions, each in postfix order.
    pub conditionals: Vec<Vec<ConditionalToken>>,
    /// Type-enforcement rules.
    pub te_rules: Vec<TeRule>,
    /// Policy capability names.
    pub capabilities: Vec<String>,
    /// Categories.
    pub categories: Vec<AliasedSymbol>,
    /// Sensitivities.
    pub sensitivities: Vec<AliasedSymbol>,
    /// Roles and role attributes.
    pub roles: Vec<RoleSymbol>,
    /// Role `allow` rules.
    pub role_allows: Vec<RoleAllow>,
}

/// The concrete types a type or attribute stands for.
pub open spec fn expansion(policy: Policy, symbol: int) -> Seq<usize> {
    if 0 <= symbol < policy.types@.len() {
        if policy.types@[symbol].attribute {
            policy.types@[symbol].members@
        } else {
            seq![symbol as usize]
        }
    } else {
        Seq::empty()
    }
}

/// The policy's tables are consistent: names are unique, attribute members
/// are concrete types listed once.
pub open spec fn well_formed(policy: Policy) -> bool {
    &&& forall|i: int, j: int| 0 <= i < policy.types@.len() && 0 <= j < policy.types@.len() && i != j
        ==> policy.types@[i].name@ != policy.types@[j].name@
    &&& forall|i: int, j: int| 0 <= i < policy.classes@.len() && 0 <= j < policy.classes@.len() && i != j
        ==> policy.classes@[i].name@ != policy.classes@[j].name@
    &&& forall|i: int, j: int| 0 <= i < policy.booleans@.len() && 0 <= j < policy.booleans@.len() && i != j
        ==> policy.booleans@[i].name@ != policy.booleans@[j].name@
    &&& forall|i: int| 0 <= i < policy.types@.len() ==> {
        let symbol = #[trigger] policy.types@[i];
        &&& symbol.members@.no_duplicates()
        &&& forall|k: int| 0 <= k < symbol.members@.len() ==> {
            let m = #[trigger] symbol.members@[k];
            &&& m < policy.types@.len()
            &&& !policy.types@[m as int].attribute
        }
    }
}

/// The number of the concrete type with the given name, if there is one.
pub open spec fn concrete_type_named(policy: Policy, name: Seq<char>) -> Option<usize> {
    if exists|i: int| 0 <= i < policy.types@.len() && policy.types@[i].name@ == name {
        let i = choose|i: int| 0 <= i < policy.types@.len() && policy.types@[i].name@ == name;
        if policy.types@[i].attribute { None } else { Some(i as usize) }
    } else {
        None
    }
}

/// Returns the concrete types a type or attribute stands for.
pub fn expand(policy: &Policy, symbol: usize) -> (result: Vec<usize>)
    ensures
        result@ == expansion(*policy, symbol as int),
{
    let mut result: Vec<usize> = Vec::new();
    if symbol < policy.types.len() {
        let entry = &policy.types[symbol];
        if entry.attribute {
            let mut index: usize = 0;
            while index < entry.members.len()
                invariant
                    index <= entry.members@.len(),
                    result@ == entry.members@.take(index as int),
                decreases entry.members@.len() - index,
            {
                result.push(entry.members[index]);
                index = index + 1;
                assert(result@ =~= entry.members@.take(index as int));
            }
            assert(entry.members@.take(entry.members@.len() as int) =~= entry.members@);
        } else {
            result.push(symbol);
            assert(result@ =~= seq![symbol]);
        }
    } else {
        assert(result@ =~= Seq::<usize>::empty());
    }
    result
}

/// Finds a type or attribute by name.
pub fn type_symbol_by_name(policy: &Policy, name: &str) -> (result: Option<usize>)
    ensures
        match result {
            Some(i) => i < policy.types@.len() && policy.types@[i as int].name@ == name@,
            None => forall|i: int| 0 <= i < policy.types@.len() ==> policy.types@[i].name@ != name@,
        },
{
    let mut index: usize = 0;
    while index < policy.types.len()
        invariant
            index <= policy.types@.len(),
            forall|i: int| 0 <= i < index ==> policy.types@[i].name@ != name@,
        decreases policy.types@.len() - index,
    {
        if same_text(policy.types[index].name.as_str(), name) {
            return Some(index);
        }
        index = index + 1;
    }
    None
}

/// Finds the concrete type with the given name.
pub fn resolve_concrete_type(policy: &Policy, name: &str) -> (result: Option<usize>)
    requires
        well_formed(*policy),
    ensures
        result == concrete_type_named(*policy, name@),
{
    match type_symbol_by_name(policy, name) {
        Some(i) => {
            proof {
                let k = choose|k: int| 0 <= k < policy.types@.len() && policy.types@[k].name@ == name@;
                assert(k == i);
            }
            if policy.types[i].attribute { None } else { Some(i) }
        },
        None => None,
    }
}

/// The class's permission named `permission` is among the numbered
/// permissions of a rule.
pub open spec fn grants(policy: Policy, rule: TeRule, permission: Seq<char>) -> bool {
    &&& rule.target_class < policy.classes@.len()
    &&& rule.data matches TeRuleData::Permissions(permissions)
    &&& exists|k: int| 0 <= k < permissions@.len() && {
        let id = #[trigger] permissions@[k];
        &&& id < policy.classes@[rule.target_class as int].permissions@.len()
        &&& policy.classes@[rule.target_class as int].permissions@[id as int]@ == permission
    }
}

/// The rule's target class is named `class`.
pub open spec fn on_class(policy: Policy, rule: TeRule, class: Seq<char>) -> bool {
    rule.target_class < policy.classes@.len() && policy.classes@[rule.target_class as int].name@ == class
}

/// Whether a rule grants a named permission.
pub fn has_permission(policy: &Policy, rule: &TeRule, permission: &str) -> (result: bool)
    ensures
        result == grants(*policy, *rule, permission@),
{
    if rule.target_class >= policy.classes.len() {
        return false;
    }
    let class = &policy.classes[rule.target_class];
    match &rule.data {
        TeRuleData::Permissions(permissions) => {
            let mut index: usize = 0;
            while index < permissions.len()
                invariant
                    index <= permissions@.len(),
                    rule.target_class < policy.classes@.len(),
                    *class == policy.classes@[rule.target_class as int],
                    rule.data == TeRuleData::Permissions(*permissions),
                    forall|k: int| 0 <= k < index ==> {
                        let id = #[trigger] permissions@[k];
                        !(id < class.permissions@.len() && class.permissions@[id as int]@ == permission@)
                    },
                decreases permissions@.len() - index,
            {
                let id = permissions[index];
                if id < class.permissions.len() && same_text(class.permissions[id].as_str(), permission) {
                    proof {
                        let k = index as int;
                        assert(permissions@[k] == id);
                        assert(class.permissions@[id as int]@ == permission@);
                        assert(exists|k: int| 0 <= k < permissions@.len() && {
                            let id = #[trigger] permissions@[k];
                            &&& id < policy.classes@[rule.target_class as int].permissions@.len()
                            &&& policy.classes@[rule.target_class as int].permissions@[id as int]@ == permission@
                        });
                        assert(rule.data matches TeRuleData::Permissions(p) && p == *permissions);
                        assert(grants(*policy, *rule, permission@));
                    }
                    return true;
                }
                index = index + 1;
            }
            false
        },
        TeRuleData::DefaultType(_) => false,
    }
}

/// Whether a rule's target class has the given name.
pub fn class_is(policy: &Policy, rule: &TeRule, class: &str) -> (result: bool)
    ensures
        result == on_class(*policy, *rule, class@),
{
    rule.target_class < policy.classes.len() && same_text(policy.classes[rule.target_class].name.as_str(), class)
}


/// Whether the names are pairwise distinct.
fn distinct_names(names: &Vec<String>) -> (result: bool)
    ensures
        result == (forall|i: int, j: int| 0 <= i < names@.len() && 0 <= j < names@.len() && i != j
            ==> names@[i]@ != names@[j]@),
{
    let mut i: usize = 0;
    while i < names.len()
        invariant
            i <= names@.len(),
            forall|a: int, b: int| 0 <= a < i && 0 <= b < names@.len() && a != b ==> names@[a]@ != names@[b]@,
        decreases names.len() - i,
    {
        let mut j: usize = 0;
        while j < names.len()
            invariant
                i < names@.len(),
                j <= names@.len(),
                forall|a: int, b: int| 0 <= a < i && 0 <= b < names@.len() && a != b ==> names@[a]@ != names@[b]@,
                forall|b: int| 0 <= b < j && b != i ==> names@[i as int]@ != names@[b]@,
            decreases names.len() - j,
        {
            if j != i && same_text(names[i].as_str(), names[j].as_str()) {
                return false;
            }
            j = j + 1;
        }
        i = i + 1;
    }
    true
}

/// Whether the members of every attribute are concrete types listed once.
fn members_consistent(types: &Vec<TypeSymbol>) -> (result: bool)
    ensures
        result == (forall|i: int| 0 <= i < types@.len() ==> {
            let symbol = #[trigger] types@[i];
            &&& symbol.members@.no_duplicates()
            &&& forall|k: int| 0 <= k < symbol.members@.len() ==> {
                let m = #[trigger] symbol.members@[k];
                &&& m < types@.len()
                &&& !types@[m as int].attribute
            }
        }),
{
    let mut i: usize = 0;
    while i < types.len()
        invariant
            i <= types@.len(),
            forall|a: int| 0 <= a < i ==> {
                let symbol = #[trigger] types@[a];
                &&& symbol.members@.no_duplicates()
                &&& forall|k: int| 0 <= k < symbol.members@.len() ==> {
                    let m = #[trigger] symbol.members@[k];
                    &&& m < types@.len()
                    &&& !types@[m as int].attribute
                }
            },
        decreases types.len() - i,
    {
        let members = &types[i].members;
        let mut k: usize = 0;
        while k < members.len()
            invariant
                i < types@.len(),
                members@ == types@[i as int].members@,
                k <= members@.len(),
                forall|x: int, y: int| 0 <= x < k && 0 <= y < k && x != y ==> members@[x] != members@[y],
                forall|x: int| 0 <= x < k ==> {
                    let m = #[trigger] members@[x];
                    &&& m < types@.len()
                    &&& !types@[m as int].attribute
                },
            decreases members.len() - k,
        {
            let m = members[k];
            if m >= types.len() || types[m].attribute {
                return false;
            }
            let mut x: usize = 0;
            while x < k
                invariant
                    i < types@.len(),
                    members@ == types@[i as int].members@,
                    k < members@.len(),
                    m == members@[k as int],
                    x <= k,
                    forall|y: int| 0 <= y < x ==> members@[y] != members@[k as int],
                decreases k - x,
            {
                if members[x] == m {
                    proof {
                        let s = members@;
                        assert(!s.no_duplicates()) by {
                            assert(s[x as int] == s[k as int]);
                        }
                        assert(types@[i as int].members@ == s);
                    }
                    return false;
                }
                x = x + 1;
            }
            k = k + 1;
        }
        i = i + 1;
    }
    true
}

/// Whether the policy's tables are consistent, as the analyses require.
pub fn is_well_formed(policy: &Policy) -> (result: bool)
    ensures
        result == well_formed(*policy),
{
    let mut types: Vec<String> = Vec::new();
    let mut i: usize = 0;
    while i < policy.types.len()
        invariant
            i <= policy.types@.len(),
            types@.len() == i,
            forall|k: int| 0 <= k < i ==> #[trigger] types@[k]@ == policy.types@[k].name@,
        decreases policy.types.len() - i,
    {
        types.push(policy.types[i].name.clone());
        i = i + 1;
    }
    let mut classes: Vec<String> = Vec::new();
    i = 0;
    while i < policy.classes.len()
        invariant
            i <= policy.classes@.len(),
            classes@.len() == i,
            forall|k: int| 0 <= k < i ==> #[trigger] classes@[k]@ == policy.classes@[k].name@,
        decreases policy.classes.len() - i,
    {
        classes.push(policy.classes[i].name.clone());
        i = i + 1;
    }
    let mut booleans: Vec<String> = Vec::new();
    i = 0;
    while i < policy.booleans.len()
        invariant
            i <= policy.booleans@.len(),
            booleans@.len() == i,
            forall|k: int| 0 <= k < i ==> #[trigger] booleans@[k]@ == policy.booleans@[k].name@,
        decreases policy.booleans.len() - i,
    {
        booleans.push(policy.booleans[i].name.clone());
        i = i + 1;
    }
    let a = distinct_names(&types);
    let b = distinct_names(&classes);
    let c = distinct_names(&booleans);
    let d = members_consistent(&policy.types);
    proof {
        if a {
            assert forall|x: int, y: int| 0 <= x < policy.types@.len() && 0 <= y < policy.types@.len() && x != y
                implies policy.types@[x].name@ != policy.types@[y].name@ by {
                assert(types@[x]@ == policy.types@[x].name@ && types@[y]@ == policy.types@[y].name@);
            }
        } else {
            let (x, y) = choose|x: int, y: int| 0 <= x < types@.len() && 0 <= y < types@.len() && x != y
                && !(types@[x]@ != types@[y]@);
            assert(types@[x]@ == policy.types@[x].name@ && types@[y]@ == policy.types@[y].name@);
        }
        if b {
            assert forall|x: int, y: int| 0 <= x < policy.classes@.len() && 0 <= y < policy.classes@.len() && x != y
                implies policy.classes@[x].name@ != policy.classes@[y].name@ by {
                assert(classes@[x]@ == policy.classes@[x].name@ && classes@[y]@ == policy.classes@[y].name@);
            }
        } else {
            let (x, y) = choose|x: int, y: int| 0 <= x < classes@.len() && 0 <= y < classes@.len() && x != y
                && !(classes@[x]@ != classes@[y]@);
            assert(classes@[x]@ == policy.classes@[x].name@ && classes@[y]@ == policy.classes@[y].name@);
        }
        if c {
            assert forall|x: int, y: int| 0 <= x < policy.booleans@.len() && 0 <= y < policy.booleans@.len() && x != y
                implies policy.booleans@[x].name@ != policy.booleans@[y].name@ by {
                assert(booleans@[x]@ == policy.booleans@[x].name@ && booleans@[y]@ == policy.booleans@[y].name@);
            }
        } else {
            let (x, y) = choose|x: int, y: int| 0 <= x < booleans@.len() && 0 <= y < booleans@.len() && x != y
                && !(booleans@[x]@ != booleans@[y]@);
            assert(booleans@[x]@ == policy.booleans@[x].name@ && booleans@[y]@ == policy.booleans@[y].name@);
        }
    }
    a && b && c && d
}

} // verus!
