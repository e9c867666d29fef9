//! The flag data model: flags, filter groups, property filters,
//! multivariate variants — and the pure helpers over them, including
//! cross-flag dependency extraction.

use vstd::prelude::*;
use std::collections::HashSet;
use crate::errors::FlagError;
use crate::json::{jobj_get, obj_lookup, clone_value, JsonNumber, JsonValue, JVal, wf_jval};
use crate::numtext::{i32_of_text, i64_of_num_text, parse_int_i32, valid_number};

verus! {

pub type FeatureFlagId = i32;

pub type CohortId = i32;

pub type TeamId = i32;

/// The entity kind a property filter tests.
#[derive(Clone, Copy, Debug, PartialEq, Eq, Structural)]
pub enum PropertyType {
    Person,
    Event,
    Group,
    Cohort,
    Flag,
}

/// The comparison a property filter applies.
#[derive(Clone, Copy, Debug, PartialEq, Eq, Structural)]
pub enum OperatorType {
    Exact,
    IsNot,
    Icontains,
    NotIcontains,
    Regex,
    NotRegex,
    Gt,
    Lt,
    Gte,
    Lte,
    IsSet,
    IsNotSet,
    IsDateExact,
    IsDateAfter,
    IsDateBefore,
}

// --- the mathematical models ---

#[verifier::ext_equal]
pub struct PropertyFilterModel {
    pub key: Seq<char>,
    pub value: Option<JVal>,
    pub operator: Option<OperatorType>,
    pub prop_type: PropertyType,
    pub group_type_index: Option<int>,
}

#[verifier::ext_equal]
pub struct GroupModel {
    pub properties: Option<Seq<PropertyFilterModel>>,
    pub rollout_percentage: Option<Seq<char>>,
}

#[verifier::ext_equal]
pub struct VariantModel {
    pub key: Seq<char>,
    pub name: Option<Seq<char>>,
    pub rollout_percentage: Seq<char>,
}

#[verifier::ext_equal]
pub struct FiltersModel {
    pub groups: Seq<GroupModel>,
    pub multivariate: Option<Seq<VariantModel>>,
    pub aggregation_group_type_index: Option<int>,
    pub payloads: Option<JVal>,
    pub super_groups: Option<Seq<GroupModel>>,
    pub holdout_groups: Option<Seq<GroupModel>>,
}

#[verifier::ext_equal]
pub struct FlagModel {
    pub id: int,
    pub team_id: int,
    pub name: Option<Seq<char>>,
    pub key: Seq<char>,
    pub filters: FiltersModel,
    pub deleted: bool,
    pub active: bool,
    pub ensure_experience_continuity: bool,
    pub version: Option<int>,
}

// --- the executable values ---

/// A predicate over a person, group, event, cohort or flag attribute.
#[derive(Debug, PartialEq, Eq)]
pub struct PropertyFilter {
    pub key: String,
    pub value: Option<JsonValue>,
    pub operator: Option<OperatorType>,
    pub prop_type: PropertyType,
    pub group_type_index: Option<i32>,
}

/// One rollout group: its filters and an optional rollout percentage.
/// Absent filters and an empty filter list are distinct.
#[derive(Debug, PartialEq, Eq)]
pub struct FlagPropertyGroup {
    pub properties: Option<Vec<PropertyFilter>>,
    pub rollout_percentage: Option<JsonNumber>,
}

/// One multivariate variant and its rollout share.
#[derive(Debug, PartialEq, Eq)]
pub struct MultivariateFlagVariant {
    pub key: String,
    pub name: Option<String>,
    pub rollout_percentage: JsonNumber,
}

/// The multivariate block of a flag.
#[derive(Debug, PartialEq, Eq)]
pub struct MultivariateFlagOptions {
    pub variants: Vec<MultivariateFlagVariant>,
}

/// A flag's whole filter specification.
#[derive(Debug, PartialEq, Eq)]
pub struct FlagFilters {
    pub groups: Vec<FlagPropertyGroup>,
    pub multivariate: Option<MultivariateFlagOptions>,
    pub aggregation_group_type_index: Option<i32>,
    pub payloads: Option<JsonValue>,
    pub super_groups: Option<Vec<FlagPropertyGroup>>,
    pub holdout_groups: Option<Vec<FlagPropertyGroup>>,
}

/// A feature flag as stored for one team.
#[derive(Debug, PartialEq, Eq)]
pub struct FeatureFlag {
    pub id: FeatureFlagId,
    pub team_id: TeamId,
    pub name: Option<String>,
    pub key: String,
    pub filters: FlagFilters,
    pub deleted: bool,
    pub active: bool,
    pub ensure_experience_continuity: bool,
    pub version: Option<i32>,
}

/// The flags of one project.
#[derive(Debug, PartialEq, Eq)]
pub struct FeatureFlagList {
    pub flags: Vec<FeatureFlag>,
}

// --- views ---

pub open spec fn view_opt_i32(o: Option<i32>) -> Option<int> {
    match o {
        Some(x) => Some(x as int),
        None => None,
    }
}

pub open spec fn view_opt_string(o: Option<String>) -> Option<Seq<char>> {
    match o {
        Some(s) => Some(s@),
        None => None,
    }
}

impl View for PropertyFilter {
    type V = PropertyFilterModel;

    open spec fn view(&self) -> PropertyFilterModel {
        PropertyFilterModel {
            key: self.key@,
            value: match self.value {
                Some(v) => Some(v@),
                None => None,
            },
            operator: self.operator,
            prop_type: self.prop_type,
            group_type_index: view_opt_i32(self.group_type_index),
        }
    }
}

pub open spec fn filters_mv(s: Seq<PropertyFilter>) -> Seq<PropertyFilterModel> {
    Seq::new(s.len(), |i: int| s[i]@)
}

impl View for FlagPropertyGroup {
    type V = GroupModel;

    open spec fn view(&self) -> GroupModel {
        GroupModel {
            properties: match self.properties {
                Some(ps) => Some(filters_mv(ps@)),
                None => None,
            },
            rollout_percentage: match self.rollout_percentage {
                Some(n) => Some(n.text@),
                None => None,
            },
        }
    }
}

pub open spec fn groups_mv(s: Seq<FlagPropertyGroup>) -> Seq<GroupModel> {
    Seq::new(s.len(), |i: int| s[i]@)
}

impl View for MultivariateFlagVariant {
    type V = VariantModel;

    open spec fn view(&self) -> VariantModel {
        VariantModel {
            key: self.key@,
            name: view_opt_string(self.name),
            rollout_percentage: self.rollout_percentage.text@,
        }
    }
}

pub open spec fn variants_mv(s: Seq<MultivariateFlagVariant>) -> Seq<VariantModel> {
    Seq::new(s.len(), |i: int| s[i]@)
}

impl View for FlagFilters {
    type V = FiltersModel;

    open spec fn view(&self) -> FiltersModel {
        FiltersModel {
            groups: groups_mv(self.groups@),
            multivariate: match self.multivariate {
                Some(m) => Some(variants_mv(m.variants@)),
                None => None,
            },
            aggregation_group_type_index: view_opt_i32(self.aggregation_group_type_index),
            payloads: match self.payloads {
                Some(p) => Some(p@),
                None => None,
            },
            super_groups: match self.super_groups {
                Some(gs) => Some(groups_mv(gs@)),
                None => None,
            },
            holdout_groups: match self.holdout_groups {
                Some(gs) => Some(groups_mv(gs@)),
                None => None,
            },
        }
    }
}

impl View for FeatureFlag {
    type V = FlagModel;

    open spec fn view(&self) -> FlagModel {
        FlagModel {
            id: self.id as int,
            team_id: self.team_id as int,
            name: view_opt_string(self.name),
            key: self.key@,
            filters: self.filters@,
            deleted: self.deleted,
            active: self.active,
            ensure_experience_continuity: self.ensure_experience_continuity,
            version: view_opt_i32(self.version),
        }
    }
}

pub open spec fn flags_mv(s: Seq<FeatureFlag>) -> Seq<FlagModel> {
    Seq::new(s.len(), |i: int| s[i]@)
}

impl View for FeatureFlagList {
    type V = Seq<FlagModel>;

    open spec fn view(&self) -> Seq<FlagModel> {
        flags_mv(self.flags@)
    }
}

// --- well-formedness: every number literal held in a flag is valid ---

pub open spec fn wf_filter_model(f: PropertyFilterModel) -> bool {
    &&& match f.value {
        Some(j) => wf_jval(j) && j != JVal::Null,
        None => true,
    }
    &&& match f.group_type_index {
        Some(g) => i32::MIN <= g <= i32::MAX,
        None => true,
    }
}

pub open spec fn wf_group_model(g: GroupModel) -> bool {
    &&& match g.properties {
        Some(ps) => forall|i: int| 0 <= i < ps.len() ==> wf_filter_model(#[trigger] ps[i]),
        None => true,
    }
    &&& match g.rollout_percentage {
        Some(t) => valid_number(t),
        None => true,
    }
}

pub open spec fn wf_groups_model(gs: Seq<GroupModel>) -> bool {
    forall|i: int| 0 <= i < gs.len() ==> wf_group_model(#[trigger] gs[i])
}

pub open spec fn wf_variant_model(v: VariantModel) -> bool {
    valid_number(v.rollout_percentage)
}

pub open spec fn wf_filters_model(f: FiltersModel) -> bool {
    &&& wf_groups_model(f.groups)
    &&& match f.multivariate {
        Some(vs) => forall|i: int| 0 <= i < vs.len() ==> wf_variant_model(#[trigger] vs[i]),
        None => true,
    }
    &&& match f.payloads {
        Some(p) => wf_jval(p) && p != JVal::Null,
        None => true,
    }
    &&& match f.aggregation_group_type_index {
        Some(g) => i32::MIN <= g <= i32::MAX,
        None => true,
    }
    &&& match f.super_groups {
        Some(gs) => wf_groups_model(gs),
        None => true,
    }
    &&& match f.holdout_groups {
        Some(gs) => wf_groups_model(gs),
        None => true,
    }
}

/// A flag model that an executable `FeatureFlag` can hold: integer fields
/// in `i32` range and every number literal valid.
pub open spec fn wf_flag_model(m: FlagModel) -> bool {
    &&& wf_filters_model(m.filters)
    &&& i32::MIN <= m.id <= i32::MAX
    &&& i32::MIN <= m.team_id <= i32::MAX
    &&& match m.version {
        Some(x) => i32::MIN <= x <= i32::MAX,
        None => true,
    }
}

pub open spec fn wf_flags_model(ms: Seq<FlagModel>) -> bool {
    forall|i: int| 0 <= i < ms.len() ==> wf_flag_model(#[trigger] ms[i])
}

// --- filter helpers ---

/// A filter is a cohort reference exactly when its key is `id` and its
/// type is `cohort`.
pub open spec fn is_cohort_model(f: PropertyFilterModel) -> bool {
    f.key == "id"@ && f.prop_type == PropertyType::Cohort
}

/// The cohort id a cohort-reference filter carries: its value read as an
/// integer, whether the value is a JSON number or a JSON string holding
/// an integer; none when the value is absent, non-numeric or out of
/// range.
pub open spec fn cohort_id_of(f: PropertyFilterModel) -> Option<int> {
    if !is_cohort_model(f) {
        None
    } else {
        match f.value {
            Some(JVal::Num(t)) => match i64_of_num_text(t) {
                Some(x) => if i32::MIN <= x <= i32::MAX {
                    Some(x)
                } else {
                    None
                },
                None => None,
            },
            Some(JVal::Str(t)) => i32_of_text(t),
            _ => None,
        }
    }
}

/// The flag id a flag-dependency filter carries: its key read as an
/// integer, none when the key does not parse.
pub open spec fn flag_dep_id_of(f: PropertyFilterModel) -> Option<int> {
    if f.prop_type != PropertyType::Flag {
        None
    } else {
        i32_of_text(f.key)
    }
}

impl PropertyFilter {
    /// Whether the filter is a cohort reference.
    pub fn is_cohort(&self) -> (r: bool)
        ensures
            r == is_cohort_model(self@),
    {
        let id_key = String::from_str("id");
        self.key == id_key && self.prop_type == PropertyType::Cohort
    }

    /// The referenced cohort id, or none if the filter is not a cohort
    /// reference or its value cannot be read as a cohort id. The value
    /// may be a JSON number or a JSON string holding an integer.
    pub fn get_cohort_id(&self) -> (r: Option<CohortId>)
        ensures
            match cohort_id_of(self@) {
                Some(x) => r matches Some(y) && y as int == x,
                None => r is None,
            },
    {
        if !self.is_cohort() {
            return None;
        }
        match &self.value {
            Some(JsonValue::Num(n)) => match n.as_i64() {
                Some(x) => {
                    if -2147483648i64 <= x && x <= 2147483647i64 {
                        Some(x as i32)
                    } else {
                        None
                    }
                },
                None => None,
            },
            Some(JsonValue::Str(s)) => {
                let cs = crate::json::chars_of(s.as_str());
                parse_int_i32(&cs)
            },
            _ => None,
        }
    }

    /// Whether the filter depends on another feature flag.
    pub fn depends_on_feature_flag(&self) -> (r: bool)
        ensures
            r == (self@.prop_type == PropertyType::Flag),
    {
        self.prop_type == PropertyType::Flag
    }

    /// The referenced flag id, or none if the filter is not a flag
    /// dependency or its key cannot be read as a flag id.
    pub fn get_feature_flag_id(&self) -> (r: Option<FeatureFlagId>)
        ensures
            match flag_dep_id_of(self@) {
                Some(x) => r matches Some(y) && y as int == x,
                None => r is None,
            },
    {
        if !self.depends_on_feature_flag() {
            return None;
        }
        let cs = crate::json::chars_of(self.key.as_str());
        parse_int_i32(&cs)
    }
}

/// The flag id `filter` depends on, if it is a flag-dependency filter
/// with a readable id.
pub fn extract_feature_flag_dependency(filter: &PropertyFilter) -> (r: Option<FeatureFlagId>)
    ensures
        match flag_dep_id_of(filter@) {
            Some(x) => r matches Some(y) && y as int == x,
            None => r is None,
        },
{
    if filter.depends_on_feature_flag() {
        filter.get_feature_flag_id()
    } else {
        None
    }
}

// --- dependency extraction ---

/// The flag ids referenced by the filters of `ps` from index `j` on.
pub open spec fn deps_of_filters(ps: Seq<PropertyFilterModel>, j: int) -> Set<i32>
    decreases ps.len() - j,
{
    if j < 0 || j >= ps.len() {
        Set::empty()
    } else {
        match flag_dep_id_of(ps[j]) {
            Some(x) => deps_of_filters(ps, j + 1).insert(x as i32),
            None => deps_of_filters(ps, j + 1),
        }
    }
}

/// The flag ids referenced by the groups of `gs` from index `i` on.
pub open spec fn deps_of_groups(gs: Seq<GroupModel>, i: int) -> Set<i32>
    decreases gs.len() - i,
{
    if i < 0 || i >= gs.len() {
        Set::empty()
    } else {
        let here = match gs[i].properties {
            Some(ps) => deps_of_filters(ps, 0),
            None => Set::empty(),
        };
        here.union(deps_of_groups(gs, i + 1))
    }
}

/// The set of flag ids a flag depends on: every readable flag-dependency
/// id across every property filter of every rollout group.
pub open spec fn flag_dependencies(m: FlagModel) -> Set<i32> {
    deps_of_groups(m.filters.groups, 0)
}

/// The payload stored for `match_val`, if the flag has a payload object
/// with that key.
pub open spec fn payload_of(m: FlagModel, match_val: Seq<char>) -> Option<JVal> {
    match m.filters.payloads {
        Some(JVal::Obj(ms)) => jobj_get(ms, match_val),
        _ => None,
    }
}

impl FeatureFlag {
    /// The entity type the flag aggregates over, if any.
    pub fn get_group_type_index(&self) -> (r: Option<i32>)
        ensures
            view_opt_i32(r) == self@.filters.aggregation_group_type_index,
    {
        self.filters.aggregation_group_type_index
    }

    /// The flag's rollout groups.
    pub fn get_conditions(&self) -> (r: &Vec<FlagPropertyGroup>)
        ensures
            groups_mv(r@) == self@.filters.groups,
    {
        &self.filters.groups
    }

    /// The flag's multivariate variants, or an empty list when the flag
    /// has no multivariate block.
    pub fn get_variants(&self) -> (r: Vec<MultivariateFlagVariant>)
        ensures
            variants_mv(r@) == match self@.filters.multivariate {
                Some(vs) => vs,
                None => Seq::<VariantModel>::empty(),
            },
    {
        match &self.filters.multivariate {
            None => {
                let r: Vec<MultivariateFlagVariant> = Vec::new();
                proof {
                    assert(variants_mv(r@) =~= Seq::<VariantModel>::empty());
                }
                r
            },
            Some(m) => {
                let vs = &m.variants;
                let mut out: Vec<MultivariateFlagVariant> = Vec::new();
                let mut j: usize = 0;
                while j < vs.len()
                    invariant
                        j <= vs.len(),
                        out.len() == j,
                        forall|k: int| 0 <= k < j ==> #[trigger] out@[k]@ == vs@[k]@,
                    decreases vs.len() - j,
                {
                    let v = &vs[j];
                    let name: Option<String> = match &v.name {
                        Some(n) => Some(n.clone()),
                        None => None,
                    };
                    out.push(
                        MultivariateFlagVariant {
                            key: v.key.clone(),
                            name,
                            rollout_percentage: JsonNumber {
                                text: v.rollout_percentage.text.clone(),
                            },
                        },
                    );
                    j = j + 1;
                }
                proof {
                    assert(variants_mv(out@) =~= variants_mv(vs@));
                }
                out
            },
        }
    }

    /// The payload stored for `match_val`, if any.
    pub fn get_payload(&self, match_val: &str) -> (r: Option<JsonValue>)
        ensures
            match payload_of(self@, match_val@) {
                Some(j) => r matches Some(v) && v@ == j,
                None => r is None,
            },
    {
        match &self.filters.payloads {
            Some(JsonValue::Obj(ms)) => {
                let key = String::from_str(match_val);
                match obj_lookup(ms, &key) {
                    Some(v) => Some(clone_value(v)),
                    None => None,
                }
            },
            _ => None,
        }
    }

    /// Every flag id referenced by the flag's property filters, as a set.
    /// Cohort references are not flag dependencies and never appear here;
    /// a filter whose id does not parse contributes nothing. Always
    /// succeeds on the defined filter grammar; the error side is kept for
    /// stricter parsing modes.
    pub fn extract_dependencies(&self) -> (r: Result<HashSet<FeatureFlagId>, FlagError>)
        ensures
            r matches Ok(s) && s@ == flag_dependencies(self@),
    {
        broadcast use vstd::std_specs::hash::group_hash_axioms;

        let gs = &self.filters.groups;
        let ghost gsm = groups_mv(gs@);
        let mut deps: HashSet<FeatureFlagId> = HashSet::new();
        let mut gi: usize = 0;
        while gi < gs.len()
            invariant
                gi <= gs.len(),
                gsm == groups_mv(gs@),
                vstd::std_specs::hash::obeys_key_model::<i32>(),
                vstd::std_specs::hash::builds_valid_hashers::<std::hash::RandomState>(),
                deps@.union(deps_of_groups(gsm, gi as int)) == deps_of_groups(gsm, 0),
            decreases gs.len() - gi,
        {
            let ghost entry = deps@;
            let ghost here = match gsm[gi as int].properties {
                Some(psm2) => deps_of_filters(psm2, 0),
                None => Set::<i32>::empty(),
            };
            let g = &gs[gi];
            match &g.properties {
                None => {
                    proof {
                        assert(gsm[gi as int] == gs@[gi as int]@);
                        assert(gsm[gi as int].properties is None);
                    }
                },
                Some(ps) => {
                    let ghost psm = filters_mv(ps@);
                    proof {
                        assert(gsm[gi as int] == gs@[gi as int]@);
                        assert(gsm[gi as int].properties == Some(psm));
                        assert(here == deps_of_filters(psm, 0));
                    }
                    let mut fj: usize = 0;
                    while fj < ps.len()
                        invariant
                            fj <= ps.len(),
                            psm == filters_mv(ps@),
                            vstd::std_specs::hash::obeys_key_model::<i32>(),
                            vstd::std_specs::hash::builds_valid_hashers::<std::hash::RandomState>(),
                            deps@.union(deps_of_filters(psm, fj as int)) == entry.union(
                                deps_of_filters(psm, 0),
                            ),
                        decreases ps.len() - fj,
                    {
                        proof {
                            assert(psm[fj as int] == ps@[fj as int]@);
                        }
                        let ghost before = deps@;
                        match extract_feature_flag_dependency(&ps[fj]) {
                            Some(id) => {
                                deps.insert(id);
                                proof {
                                    assert(deps_of_filters(psm, fj as int) == deps_of_filters(
                                        psm,
                                        fj + 1,
                                    ).insert(id));
                                    assert(deps@.union(deps_of_filters(psm, fj + 1))
                                        =~= before.union(deps_of_filters(psm, fj as int)));
                                }
                            },
                            None => {
                                proof {
                                    assert(deps_of_filters(psm, fj as int) == deps_of_filters(
                                        psm,
                                        fj + 1,
                                    ));
                                }
                            },
                        }
                        fj = fj + 1;
                    }
                    proof {
                        assert(deps_of_filters(psm, ps@.len() as int) =~= Set::<i32>::empty());
                        assert(deps@.union(deps_of_filters(psm, ps@.len() as int)) =~= deps@);
                        assert(deps@ == entry.union(here));
                    }
                },
            }
            proof {
                assert(deps@ =~= entry.union(here));
                assert(deps_of_groups(gsm, gi as int) == here.union(deps_of_groups(gsm, gi + 1)));
                assert(deps@.union(deps_of_groups(gsm, gi + 1)) =~= entry.union(
                    deps_of_groups(gsm, gi as int),
                ));
            }
            gi = gi + 1;
        }
        proof {
            assert(deps_of_groups(gsm, gs@.len() as int) =~= Set::<i32>::empty());
            assert(deps@.union(deps_of_groups(gsm, gs@.len() as int)) =~= deps@);
        }
        Ok(deps)
    }
}

/// The kind of reference a dependency edge represents.
#[derive(Clone, Copy, Debug, PartialEq, Eq, Structural)]
pub enum DependencyType {
    Flag,
    Cohort,
}

/// What a generic dependency-graph builder needs from an entity: its own
/// id, the set of ids it depends on, and a tag naming the dependency
/// kind. One implementation per entity kind keeps the graph machinery
/// entity-agnostic.
pub trait DependencyProvider: Sized {
    type Id: core::cmp::Eq + core::hash::Hash;

    type Error;

    /// The entity's id.
    spec fn spec_id(&self) -> Self::Id;

    /// The ids the entity depends on.
    spec fn spec_dependencies(&self) -> Set<Self::Id>;

    /// The static tag naming the dependency kind this entity produces.
    spec fn spec_dependency_type() -> DependencyType;

    fn get_id(&self) -> (r: Self::Id)
        ensures
            r == self.spec_id(),
    ;

    fn extract_dependencies(&self) -> (r: Result<HashSet<Self::Id>, Self::Error>)
        ensures
            r matches Ok(s) ==> s@ == self.spec_dependencies(),
    ;

    fn dependency_type() -> (r: DependencyType)
        ensures
            r == Self::spec_dependency_type(),
    ;
}

impl DependencyProvider for FeatureFlag {
    type Id = FeatureFlagId;

    type Error = FlagError;

    open spec fn spec_id(&self) -> FeatureFlagId {
        self.id
    }

    open spec fn spec_dependencies(&self) -> Set<FeatureFlagId> {
        flag_dependencies(self@)
    }

    open spec fn spec_dependency_type() -> DependencyType {
        DependencyType::Flag
    }

    fn get_id(&self) -> (r: FeatureFlagId) {
        self.id
    }

    fn extract_dependencies(&self) -> (r: Result<HashSet<FeatureFlagId>, FlagError>) {
        self.extract_dependencies()
    }

    fn dependency_type() -> (r: DependencyType) {
        DependencyType::Flag
    }
}

/// Whether some property filter of `m` is a flag dependency on `id`.
pub open spec fn is_dependency_of(m: FlagModel, id: FeatureFlagId) -> bool {
    exists|gi: int, fi: int|
        {
            &&& 0 <= gi < m.filters.groups.len()
            &&& (#[trigger] m.filters.groups[gi]).properties is Some
            &&& 0 <= fi < m.filters.groups[gi].properties->Some_0.len()
            &&& flag_dep_id_of(#[trigger] m.filters.groups[gi].properties->Some_0[fi]) == Some(
                id as int,
            )
        }
}

proof fn lemma_deps_filters_members(ps: Seq<PropertyFilterModel>, j: int, id: FeatureFlagId)
    requires
        0 <= j <= ps.len(),
    ensures
        deps_of_filters(ps, j).contains(id) <==> exists|fi: int|
            j <= fi < ps.len() && flag_dep_id_of(#[trigger] ps[fi]) == Some(id as int),
    decreases ps.len() - j,
{
    if j < ps.len() {
        lemma_deps_filters_members(ps, j + 1, id);
        match flag_dep_id_of(ps[j]) {
            Some(x) => {
                assert(i32::MIN <= x <= i32::MAX);
                if x == id as int {
                    assert(deps_of_filters(ps, j).contains(id));
                    assert(flag_dep_id_of(ps[j]) == Some(id as int));
                } else {
                    assert((x as i32) != id);
                }
            },
            None => {},
        }
        if exists|fi: int| j <= fi < ps.len() && flag_dep_id_of(#[trigger] ps[fi]) == Some(
            id as int,
        ) {
            let fi = choose|fi: int|
                j <= fi < ps.len() && flag_dep_id_of(#[trigger] ps[fi]) == Some(id as int);
            if fi == j {
                assert(deps_of_filters(ps, j).contains(id));
            } else {
                assert(exists|fk: int|
                    j + 1 <= fk < ps.len() && flag_dep_id_of(#[trigger] ps[fk]) == Some(
                        id as int,
                    ));
            }
        }
    }
}

proof fn lemma_deps_groups_members(gs: Seq<GroupModel>, i: int, id: FeatureFlagId)
    requires
        0 <= i <= gs.len(),
    ensures
        deps_of_groups(gs, i).contains(id) <==> exists|gi: int, fi: int|
            {
                &&& i <= gi < gs.len()
                &&& (#[trigger] gs[gi]).properties is Some
                &&& 0 <= fi < gs[gi].properties->Some_0.len()
                &&& flag_dep_id_of(#[trigger] gs[gi].properties->Some_0[fi]) == Some(id as int)
            },
    decreases gs.len() - i,
{
    if i < gs.len() {
        lemma_deps_groups_members(gs, i + 1, id);
        match gs[i].properties {
            Some(ps) => {
                lemma_deps_filters_members(ps, 0, id);
            },
            None => {},
        }
        if deps_of_groups(gs, i).contains(id) {
            if match gs[i].properties {
                Some(ps) => deps_of_filters(ps, 0).contains(id),
                None => false,
            } {
                let ps = gs[i].properties->Some_0;
                let fi = choose|fi: int|
                    0 <= fi < ps.len() && flag_dep_id_of(#[trigger] ps[fi]) == Some(id as int);
                assert(gs[i].properties is Some && 0 <= fi < gs[i].properties->Some_0.len()
                    && flag_dep_id_of(gs[i].properties->Some_0[fi]) == Some(id as int));
            } else {
                assert(deps_of_groups(gs, i + 1).contains(id));
            }
        }
        if exists|gi: int, fi: int|
            {
                &&& i <= gi < gs.len()
                &&& (#[trigger] gs[gi]).properties is Some
                &&& 0 <= fi < gs[gi].properties->Some_0.len()
                &&& flag_dep_id_of(#[trigger] gs[gi].properties->Some_0[fi]) == Some(id as int)
            } {
            let (gi, fi) = choose|gi: int, fi: int|
                {
                    &&& i <= gi < gs.len()
                    &&& (#[trigger] gs[gi]).properties is Some
                    &&& 0 <= fi < gs[gi].properties->Some_0.len()
                    &&& flag_dep_id_of(#[trigger] gs[gi].properties->Some_0[fi]) == Some(
                        id as int,
                    )
                };
            if gi == i {
                let ps = gs[i].properties->Some_0;
                assert(flag_dep_id_of(ps[fi]) == Some(id as int));
                assert(deps_of_filters(ps, 0).contains(id));
                assert(deps_of_groups(gs, i).contains(id));
            } else {
                assert(deps_of_groups(gs, i + 1).contains(id));
                assert(deps_of_groups(gs, i).contains(id));
            }
        }
    }
}

/// Dependency extraction is exact: the extracted set holds an id exactly
/// when some property filter is a flag dependency whose key reads as that
/// id. Filters of other types are ignored, and duplicates collapse, since
/// the result is a set.
pub proof fn lemma_flag_dependencies_exact(m: FlagModel, id: FeatureFlagId)
    ensures
        flag_dependencies(m).contains(id) <==> is_dependency_of(m, id),
{
    lemma_deps_groups_members(m.filters.groups, 0, id);
}

} // verus!
