//! The wire format of flags: how a flag maps to a JSON document and back,
//! with the proof that encoding and then decoding yields the flag again.

use vstd::prelude::*;
use crate::json::{
    elems_jv, jobj_get, jobj_get_from, jval_view, lemma_elems_jv, lemma_members_jv, members_jv,
    obj_lookup, wf_jval, wf_jvals, wf_jmembers, JsonNumber, JsonValue, JVal,
};
use crate::model::{
    FeatureFlag, FiltersModel, FlagFilters, FlagModel, FlagPropertyGroup, GroupModel,
    MultivariateFlagOptions, MultivariateFlagVariant, OperatorType, PropertyFilter,
    PropertyFilterModel, PropertyType, VariantModel, filters_mv, groups_mv, variants_mv, flags_mv,
    wf_filter_model, wf_filters_model, wf_flag_model, wf_flags_model, wf_group_model,
    wf_groups_model, wf_variant_model,
};
use crate::numtext::{i64_of_num_text, render_int, valid_number};

verus! {

// --- names on the wire ---

pub open spec fn op_name(op: OperatorType) -> Seq<char> {
    match op {
        OperatorType::Exact => "exact"@,
        OperatorType::IsNot => "is_not"@,
        OperatorType::Icontains => "icontains"@,
        OperatorType::NotIcontains => "not_icontains"@,
        OperatorType::Regex => "regex"@,
        OperatorType::NotRegex => "not_regex"@,
        OperatorType::Gt => "gt"@,
        OperatorType::Lt => "lt"@,
        OperatorType::Gte => "gte"@,
        OperatorType::Lte => "lte"@,
        OperatorType::IsSet => "is_set"@,
        OperatorType::IsNotSet => "is_not_set"@,
        OperatorType::IsDateExact => "is_date_exact"@,
        OperatorType::IsDateAfter => "is_date_after"@,
        OperatorType::IsDateBefore => "is_date_before"@,
    }
}

pub open spec fn op_of_name(s: Seq<char>) -> Option<OperatorType> {
    if s == "exact"@ {
        Some(OperatorType::Exact)
    } else if s == "is_not"@ {
        Some(OperatorType::IsNot)
    } else if s == "icontains"@ {
        Some(OperatorType::Icontains)
    } else if s == "not_icontains"@ {
        Some(OperatorType::NotIcontains)
    } else if s == "regex"@ {
        Some(OperatorType::Regex)
    } else if s == "not_regex"@ {
        Some(OperatorType::NotRegex)
    } else if s == "gt"@ {
        Some(OperatorType::Gt)
    } else if s == "lt"@ {
        Some(OperatorType::Lt)
    } else if s == "gte"@ {
        Some(OperatorType::Gte)
    } else if s == "lte"@ {
        Some(OperatorType::Lte)
    } else if s == "is_set"@ {
        Some(OperatorType::IsSet)
    } else if s == "is_not_set"@ {
        Some(OperatorType::IsNotSet)
    } else if s == "is_date_exact"@ {
        Some(OperatorType::IsDateExact)
    } else if s == "is_date_after"@ {
        Some(OperatorType::IsDateAfter)
    } else if s == "is_date_before"@ {
        Some(OperatorType::IsDateBefore)
    } else {
        None
    }
}

pub open spec fn ptype_name(t: PropertyType) -> Seq<char> {
    match t {
        PropertyType::Person => "person"@,
        PropertyType::Event => "event"@,
        PropertyType::Group => "group"@,
        PropertyType::Cohort => "cohort"@,
        PropertyType::Flag => "flag"@,
    }
}

pub open spec fn ptype_of_name(s: Seq<char>) -> Option<PropertyType> {
    if s == "person"@ {
        Some(PropertyType::Person)
    } else if s == "event"@ {
        Some(PropertyType::Event)
    } else if s == "group"@ {
        Some(PropertyType::Group)
    } else if s == "cohort"@ {
        Some(PropertyType::Cohort)
    } else if s == "flag"@ {
        Some(PropertyType::Flag)
    } else {
        None
    }
}

// --- encoding: model to document ---

/// A member present only when the option is.
pub open spec fn opt_member(name: Seq<char>, o: Option<JVal>) -> Seq<(Seq<char>, JVal)> {
    match o {
        Some(v) => seq![(name, v)],
        None => Seq::empty(),
    }
}

pub open spec fn jval_of_filter(f: PropertyFilterModel) -> JVal {
    JVal::Obj(
        seq![("key"@, JVal::Str(f.key))] + opt_member("value"@, f.value) + opt_member(
            "operator"@,
            match f.operator {
                Some(op) => Some(JVal::Str(op_name(op))),
                None => None,
            },
        ) + seq![("type"@, JVal::Str(ptype_name(f.prop_type)))] + opt_member(
            "group_type_index"@,
            match f.group_type_index {
                Some(g) => Some(JVal::Num(render_int(g))),
                None => None,
            },
        ),
    )
}

/// The elements of a filter list, encoded, from index `i` on.
pub open spec fn jvals_of_filters(ps: Seq<PropertyFilterModel>, i: int) -> Seq<JVal>
    decreases ps.len() - i,
{
    if i < 0 || i >= ps.len() {
        Seq::empty()
    } else {
        seq![jval_of_filter(ps[i])] + jvals_of_filters(ps, i + 1)
    }
}

pub open spec fn jval_of_group(g: GroupModel) -> JVal {
    JVal::Obj(
        opt_member(
            "properties"@,
            match g.properties {
                Some(ps) => Some(JVal::Arr(jvals_of_filters(ps, 0))),
                None => None,
            },
        ) + opt_member(
            "rollout_percentage"@,
            match g.rollout_percentage {
                Some(t) => Some(JVal::Num(t)),
                None => None,
            },
        ),
    )
}

pub open spec fn jvals_of_groups(gs: Seq<GroupModel>, i: int) -> Seq<JVal>
    decreases gs.len() - i,
{
    if i < 0 || i >= gs.len() {
        Seq::empty()
    } else {
        seq![jval_of_group(gs[i])] + jvals_of_groups(gs, i + 1)
    }
}

pub open spec fn jval_of_variant(v: VariantModel) -> JVal {
    JVal::Obj(
        seq![("key"@, JVal::Str(v.key))] + opt_member(
            "name"@,
            match v.name {
                Some(n) => Some(JVal::Str(n)),
                None => None,
            },
        ) + seq![("rollout_percentage"@, JVal::Num(v.rollout_percentage))],
    )
}

pub open spec fn jvals_of_variants(vs: Seq<VariantModel>, i: int) -> Seq<JVal>
    decreases vs.len() - i,
{
    if i < 0 || i >= vs.len() {
        Seq::empty()
    } else {
        seq![jval_of_variant(vs[i])] + jvals_of_variants(vs, i + 1)
    }
}

pub open spec fn jval_of_filters(f: FiltersModel) -> JVal {
    JVal::Obj(
        seq![("groups"@, JVal::Arr(jvals_of_groups(f.groups, 0)))] + opt_member(
            "multivariate"@,
            match f.multivariate {
                Some(vs) => Some(
                    JVal::Obj(seq![("variants"@, JVal::Arr(jvals_of_variants(vs, 0)))]),
                ),
                None => None,
            },
        ) + opt_member(
            "aggregation_group_type_index"@,
            match f.aggregation_group_type_index {
                Some(g) => Some(JVal::Num(render_int(g))),
                None => None,
            },
        ) + opt_member("payloads"@, f.payloads) + opt_member(
            "super_groups"@,
            match f.super_groups {
                Some(gs) => Some(JVal::Arr(jvals_of_groups(gs, 0))),
                None => None,
            },
        ) + opt_member(
            "holdout_groups"@,
            match f.holdout_groups {
                Some(gs) => Some(JVal::Arr(jvals_of_groups(gs, 0))),
                None => None,
            },
        ),
    )
}

pub open spec fn jval_of_flag(m: FlagModel) -> JVal {
    JVal::Obj(
        seq![("id"@, JVal::Num(render_int(m.id))), ("team_id"@, JVal::Num(render_int(m.team_id)))]
            + opt_member(
            "name"@,
            match m.name {
                Some(n) => Some(JVal::Str(n)),
                None => None,
            },
        ) + seq![
            ("key"@, JVal::Str(m.key)),
            ("filters"@, jval_of_filters(m.filters)),
            ("deleted"@, JVal::Bool(m.deleted)),
            ("active"@, JVal::Bool(m.active)),
            ("ensure_experience_continuity"@, JVal::Bool(m.ensure_experience_continuity)),
        ] + opt_member(
            "version"@,
            match m.version {
                Some(v) => Some(JVal::Num(render_int(v))),
                None => None,
            },
        ),
    )
}

pub open spec fn jvals_of_flags(ms: Seq<FlagModel>, i: int) -> Seq<JVal>
    decreases ms.len() - i,
{
    if i < 0 || i >= ms.len() {
        Seq::empty()
    } else {
        seq![jval_of_flag(ms[i])] + jvals_of_flags(ms, i + 1)
    }
}

/// A project's flag list as one JSON document: an array of flags.
pub open spec fn jval_of_flag_list(ms: Seq<FlagModel>) -> JVal {
    JVal::Arr(jvals_of_flags(ms, 0))
}

// --- decoding: document to model ---

/// An optional field: absent and `null` both mean none; a present value
/// is kept.
pub open spec fn opt_field(ms: Seq<(Seq<char>, JVal)>, name: Seq<char>) -> Option<JVal> {
    match jobj_get(ms, name) {
        Some(JVal::Null) => None,
        Some(v) => Some(v),
        None => None,
    }
}

/// A number field read as an `i32`-ranged integer: the result, or `None`
/// for anything else than an in-range plain integer.
pub open spec fn int_field_of(v: JVal) -> Option<int> {
    match v {
        JVal::Num(t) => match i64_of_num_text(t) {
            Some(x) => if i32::MIN <= x <= i32::MAX {
                Some(x)
            } else {
                None
            },
            None => None,
        },
        _ => None,
    }
}

pub open spec fn filter_of_jval(j: JVal) -> Option<PropertyFilterModel> {
    match j {
        JVal::Obj(ms) => {
            let key = match jobj_get(ms, "key"@) {
                Some(JVal::Str(k)) => Some(k),
                _ => None,
            };
            let prop_type = match jobj_get(ms, "type"@) {
                Some(JVal::Str(tn)) => ptype_of_name(tn),
                _ => None,
            };
            let operator_ok = match opt_field(ms, "operator"@) {
                Some(JVal::Str(on)) => op_of_name(on) is Some,
                Some(_) => false,
                None => true,
            };
            let gti_ok = match opt_field(ms, "group_type_index"@) {
                Some(v) => int_field_of(v) is Some,
                None => true,
            };
            if key is Some && prop_type is Some && operator_ok && gti_ok {
                Some(
                    PropertyFilterModel {
                        key: key->Some_0,
                        value: opt_field(ms, "value"@),
                        operator: match opt_field(ms, "operator"@) {
                            Some(JVal::Str(on)) => op_of_name(on),
                            _ => None,
                        },
                        prop_type: prop_type->Some_0,
                        group_type_index: match opt_field(ms, "group_type_index"@) {
                            Some(v) => int_field_of(v),
                            None => None,
                        },
                    },
                )
            } else {
                None
            }
        },
        _ => None,
    }
}

pub open spec fn filters_of_jvals(es: Seq<JVal>, i: int) -> Option<Seq<PropertyFilterModel>>
    decreases es.len() - i,
{
    if i < 0 || i >= es.len() {
        Some(Seq::empty())
    } else {
        match filter_of_jval(es[i]) {
            Some(f) => match filters_of_jvals(es, i + 1) {
                Some(rest) => Some(seq![f] + rest),
                None => None,
            },
            None => None,
        }
    }
}

pub open spec fn group_of_jval(j: JVal) -> Option<GroupModel> {
    match j {
        JVal::Obj(ms) => {
            let properties = match opt_field(ms, "properties"@) {
                Some(JVal::Arr(es)) => match filters_of_jvals(es, 0) {
                    Some(fs) => Some(Some(fs)),
                    None => None,
                },
                Some(_) => None,
                None => Some(None),
            };
            let rollout = match opt_field(ms, "rollout_percentage"@) {
                Some(JVal::Num(t)) => Some(Some(t)),
                Some(_) => None,
                None => Some(None),
            };
            match (properties, rollout) {
                (Some(p), Some(r)) => Some(GroupModel { properties: p, rollout_percentage: r }),
                _ => None,
            }
        },
        _ => None,
    }
}

pub open spec fn groups_of_jvals(es: Seq<JVal>, i: int) -> Option<Seq<GroupModel>>
    decreases es.len() - i,
{
    if i < 0 || i >= es.len() {
        Some(Seq::empty())
    } else {
        match group_of_jval(es[i]) {
            Some(g) => match groups_of_jvals(es, i + 1) {
                Some(rest) => Some(seq![g] + rest),
                None => None,
            },
            None => None,
        }
    }
}

pub open spec fn variant_of_jval(j: JVal) -> Option<VariantModel> {
    match j {
        JVal::Obj(ms) => {
            let key = match jobj_get(ms, "key"@) {
                Some(JVal::Str(k)) => Some(k),
                _ => None,
            };
            let name = match opt_field(ms, "name"@) {
                Some(JVal::Str(n)) => Some(Some(n)),
                Some(_) => None,
                None => Some(None),
            };
            let rollout = match jobj_get(ms, "rollout_percentage"@) {
                Some(JVal::Num(t)) => Some(t),
                _ => None,
            };
            match (key, name, rollout) {
                (Some(k), Some(n), Some(r)) => Some(
                    VariantModel { key: k, name: n, rollout_percentage: r },
                ),
                _ => None,
            }
        },
        _ => None,
    }
}

pub open spec fn variants_of_jvals(es: Seq<JVal>, i: int) -> Option<Seq<VariantModel>>
    decreases es.len() - i,
{
    if i < 0 || i >= es.len() {
        Some(Seq::empty())
    } else {
        match variant_of_jval(es[i]) {
            Some(v) => match variants_of_jvals(es, i + 1) {
                Some(rest) => Some(seq![v] + rest),
                None => None,
            },
            None => None,
        }
    }
}

pub open spec fn filters_model_of_jval(j: JVal) -> Option<FiltersModel> {
    match j {
        JVal::Obj(ms) => {
            let groups = match jobj_get(ms, "groups"@) {
                Some(JVal::Arr(es)) => groups_of_jvals(es, 0),
                Some(_) => None,
                None => Some(Seq::empty()),
            };
            let multivariate = match opt_field(ms, "multivariate"@) {
                Some(JVal::Obj(mm)) => match jobj_get(mm, "variants"@) {
                    Some(JVal::Arr(es)) => match variants_of_jvals(es, 0) {
                        Some(vs) => Some(Some(vs)),
                        None => None,
                    },
                    _ => None,
                },
                Some(_) => None,
                None => Some(None),
            };
            let agg = match opt_field(ms, "aggregation_group_type_index"@) {
                Some(v) => match int_field_of(v) {
                    Some(x) => Some(Some(x)),
                    None => None,
                },
                None => Some(None),
            };
            let super_groups = match opt_field(ms, "super_groups"@) {
                Some(JVal::Arr(es)) => match groups_of_jvals(es, 0) {
                    Some(gs) => Some(Some(gs)),
                    None => None,
                },
                Some(_) => None,
                None => Some(None),
            };
            let holdout_groups = match opt_field(ms, "holdout_groups"@) {
                Some(JVal::Arr(es)) => match groups_of_jvals(es, 0) {
                    Some(gs) => Some(Some(gs)),
                    None => None,
                },
                Some(_) => None,
                None => Some(None),
            };
            if groups is Some && multivariate is Some && agg is Some && super_groups is Some
                && holdout_groups is Some {
                Some(
                    FiltersModel {
                        groups: groups->Some_0,
                        multivariate: multivariate->Some_0,
                        aggregation_group_type_index: agg->Some_0,
                        payloads: opt_field(ms, "payloads"@),
                        super_groups: super_groups->Some_0,
                        holdout_groups: holdout_groups->Some_0,
                    },
                )
            } else {
                None
            }
        },
        _ => None,
    }
}

/// A boolean field that defaults to false when absent.
pub open spec fn bool_field(ms: Seq<(Seq<char>, JVal)>, name: Seq<char>) -> Option<bool> {
    match jobj_get(ms, name) {
        Some(JVal::Bool(b)) => Some(b),
        Some(_) => None,
        None => Some(false),
    }
}

pub open spec fn flag_of_jval(j: JVal) -> Option<FlagModel> {
    match j {
        JVal::Obj(ms) => {
            let id = match jobj_get(ms, "id"@) {
                Some(v) => int_field_of(v),
                None => None,
            };
            let team_id = match jobj_get(ms, "team_id"@) {
                Some(v) => int_field_of(v),
                None => None,
            };
            let name = match opt_field(ms, "name"@) {
                Some(JVal::Str(n)) => Some(Some(n)),
                Some(_) => None,
                None => Some(None),
            };
            let key = match jobj_get(ms, "key"@) {
                Some(JVal::Str(k)) => Some(k),
                _ => None,
            };
            let filters = match jobj_get(ms, "filters"@) {
                Some(v) => filters_model_of_jval(v),
                None => None,
            };
            let version = match opt_field(ms, "version"@) {
                Some(v) => match int_field_of(v) {
                    Some(x) => Some(Some(x)),
                    None => None,
                },
                None => Some(None),
            };
            let deleted = bool_field(ms, "deleted"@);
            let active = bool_field(ms, "active"@);
            let continuity = bool_field(ms, "ensure_experience_continuity"@);
            if id is Some && team_id is Some && name is Some && key is Some && filters is Some
                && version is Some && deleted is Some && active is Some && continuity is Some {
                Some(
                    FlagModel {
                        id: id->Some_0,
                        team_id: team_id->Some_0,
                        name: name->Some_0,
                        key: key->Some_0,
                        filters: filters->Some_0,
                        deleted: deleted->Some_0,
                        active: active->Some_0,
                        ensure_experience_continuity: continuity->Some_0,
                        version: version->Some_0,
                    },
                )
            } else {
                None
            }
        },
        _ => None,
    }
}

pub open spec fn flags_of_jvals(es: Seq<JVal>, i: int) -> Option<Seq<FlagModel>>
    decreases es.len() - i,
{
    if i < 0 || i >= es.len() {
        Some(Seq::empty())
    } else {
        match flag_of_jval(es[i]) {
            Some(m) => match flags_of_jvals(es, i + 1) {
                Some(rest) => Some(seq![m] + rest),
                None => None,
            },
            None => None,
        }
    }
}

/// A flag list read from one JSON document.
pub open spec fn flag_list_of_jval(j: JVal) -> Option<Seq<FlagModel>> {
    match j {
        JVal::Arr(es) => flags_of_jvals(es, 0),
        _ => None,
    }
}

// --- object lookup over concatenated member lists ---

proof fn lemma_jobj_from_shift(a: Seq<(Seq<char>, JVal)>, b: Seq<(Seq<char>, JVal)>, k: Seq<
    char,
>, j: int)
    requires
        0 <= j <= b.len(),
    ensures
        jobj_get_from(a + b, k, a.len() + j) == jobj_get_from(b, k, j),
    decreases b.len() - j,
{
    if j < b.len() {
        assert((a + b)[a.len() + j] == b[j]);
        lemma_jobj_from_shift(a, b, k, j + 1);
    }
}

/// Looking a name up in a concatenation: the left part wins.
proof fn lemma_jobj_get_concat(a: Seq<(Seq<char>, JVal)>, b: Seq<(Seq<char>, JVal)>, k: Seq<
    char,
>, i: int)
    requires
        0 <= i <= a.len(),
    ensures
        jobj_get_from(a + b, k, i) == match jobj_get_from(a, k, i) {
            Some(v) => Some(v),
            None => jobj_get_from(b, k, 0),
        },
    decreases a.len() - i,
{
    if i == a.len() {
        lemma_jobj_from_shift(a, b, k, 0);
    } else {
        assert((a + b)[i] == a[i]);
        lemma_jobj_get_concat(a, b, k, i + 1);
    }
}

// --- wire names decode back ---

proof fn lemma_op_name_round(op: OperatorType)
    ensures
        op_of_name(op_name(op)) == Some(op),
{
    reveal_strlit("exact");
    reveal_strlit("is_not");
    reveal_strlit("icontains");
    reveal_strlit("not_icontains");
    reveal_strlit("regex");
    reveal_strlit("not_regex");
    reveal_strlit("gt");
    reveal_strlit("lt");
    reveal_strlit("gte");
    reveal_strlit("lte");
    reveal_strlit("is_set");
    reveal_strlit("is_not_set");
    reveal_strlit("is_date_exact");
    reveal_strlit("is_date_after");
    reveal_strlit("is_date_before");
    assert("is_not"@.len() == 6);
    assert("exact"@.len() == 5);
    assert("is_not"@ != "exact"@);
    assert("icontains"@.len() == 9);
    assert("exact"@.len() == 5);
    assert("icontains"@ != "exact"@);
    assert("icontains"@.len() == 9);
    assert("is_not"@.len() == 6);
    assert("icontains"@ != "is_not"@);
    assert("not_icontains"@.len() == 13);
    assert("exact"@.len() == 5);
    assert("not_icontains"@ != "exact"@);
    assert("not_icontains"@.len() == 13);
    assert("is_not"@.len() == 6);
    assert("not_icontains"@ != "is_not"@);
    assert("not_icontains"@.len() == 13);
    assert("icontains"@.len() == 9);
    assert("not_icontains"@ != "icontains"@);
    assert("regex"@[0] == 'r');
    assert("exact"@[0] == 'e');
    assert("regex"@ != "exact"@);
    assert("regex"@.len() == 5);
    assert("is_not"@.len() == 6);
    assert("regex"@ != "is_not"@);
    assert("regex"@.len() == 5);
    assert("icontains"@.len() == 9);
    assert("regex"@ != "icontains"@);
    assert("regex"@.len() == 5);
    assert("not_icontains"@.len() == 13);
    assert("regex"@ != "not_icontains"@);
    assert("not_regex"@.len() == 9);
    assert("exact"@.len() == 5);
    assert("not_regex"@ != "exact"@);
    assert("not_regex"@.len() == 9);
    assert("is_not"@.len() == 6);
    assert("not_regex"@ != "is_not"@);
    assert("not_regex"@[0] == 'n');
    assert("icontains"@[0] == 'i');
    assert("not_regex"@ != "icontains"@);
    assert("not_regex"@.len() == 9);
    assert("not_icontains"@.len() == 13);
    assert("not_regex"@ != "not_icontains"@);
    assert("not_regex"@.len() == 9);
    assert("regex"@.len() == 5);
    assert("not_regex"@ != "regex"@);
    assert("gt"@.len() == 2);
    assert("exact"@.len() == 5);
    assert("gt"@ != "exact"@);
    assert("gt"@.len() == 2);
    assert("is_not"@.len() == 6);
    assert("gt"@ != "is_not"@);
    assert("gt"@.len() == 2);
    assert("icontains"@.len() == 9);
    assert("gt"@ != "icontains"@);
    assert("gt"@.len() == 2);
    assert("not_icontains"@.len() == 13);
    assert("gt"@ != "not_icontains"@);
    assert("gt"@.len() == 2);
    assert("regex"@.len() == 5);
    assert("gt"@ != "regex"@);
    assert("gt"@.len() == 2);
    assert("not_regex"@.len() == 9);
    assert("gt"@ != "not_regex"@);
    assert("lt"@.len() == 2);
    assert("exact"@.len() == 5);
    assert("lt"@ != "exact"@);
    assert("lt"@.len() == 2);
    assert("is_not"@.len() == 6);
    assert("lt"@ != "is_not"@);
    assert("lt"@.len() == 2);
    assert("icontains"@.len() == 9);
    assert("lt"@ != "icontains"@);
    assert("lt"@.len() == 2);
    assert("not_icontains"@.len() == 13);
    assert("lt"@ != "not_icontains"@);
    assert("lt"@.len() == 2);
    assert("regex"@.len() == 5);
    assert("lt"@ != "regex"@);
    assert("lt"@.len() == 2);
    assert("not_regex"@.len() == 9);
    assert("lt"@ != "not_regex"@);
    assert("lt"@[0] == 'l');
    assert("gt"@[0] == 'g');
    assert("lt"@ != "gt"@);
    assert("gte"@.len() == 3);
    assert("exact"@.len() == 5);
    assert("gte"@ != "exact"@);
    assert("gte"@.len() == 3);
    assert("is_not"@.len() == 6);
    assert("gte"@ != "is_not"@);
    assert("gte"@.len() == 3);
    assert("icontains"@.len() == 9);
    assert("gte"@ != "icontains"@);
    assert("gte"@.len() == 3);
    assert("not_icontains"@.len() == 13);
    assert("gte"@ != "not_icontains"@);
    assert("gte"@.len() == 3);
    assert("regex"@.len() == 5);
    assert("gte"@ != "regex"@);
    assert("gte"@.len() == 3);
    assert("not_regex"@.len() == 9);
    assert("gte"@ != "not_regex"@);
    assert("gte"@.len() == 3);
    assert("gt"@.len() == 2);
    assert("gte"@ != "gt"@);
    assert("gte"@.len() == 3);
    assert("lt"@.len() == 2);
    assert("gte"@ != "lt"@);
    assert("lte"@.len() == 3);
    assert("exact"@.len() == 5);
    assert("lte"@ != "exact"@);
    assert("lte"@.len() == 3);
    assert("is_not"@.len() == 6);
    assert("lte"@ != "is_not"@);
    assert("lte"@.len() == 3);
    assert("icontains"@.len() == 9);
    assert("lte"@ != "icontains"@);
    assert("lte"@.len() == 3);
    assert("not_icontains"@.len() == 13);
    assert("lte"@ != "not_icontains"@);
    assert("lte"@.len() == 3);
    assert("regex"@.len() == 5);
    assert("lte"@ != "regex"@);
    assert("lte"@.len() == 3);
    assert("not_regex"@.len() == 9);
    assert("lte"@ != "not_regex"@);
    assert("lte"@.len() == 3);
    assert("gt"@.len() == 2);
    assert("lte"@ != "gt"@);
    assert("lte"@.len() == 3);
    assert("lt"@.len() == 2);
    assert("lte"@ != "lt"@);
    assert("lte"@[0] == 'l');
    assert("gte"@[0] == 'g');
    assert("lte"@ != "gte"@);
    assert("is_set"@.len() == 6);
    assert("exact"@.len() == 5);
    assert("is_set"@ != "exact"@);
    assert("is_set"@[3] == 's');
    assert("is_not"@[3] == 'n');
    assert("is_set"@ != "is_not"@);
    assert("is_set"@.len() == 6);
    assert("icontains"@.len() == 9);
    assert("is_set"@ != "icontains"@);
    assert("is_set"@.len() == 6);
    assert("not_icontains"@.len() == 13);
    assert("is_set"@ != "not_icontains"@);
    assert("is_set"@.len() == 6);
    assert("regex"@.len() == 5);
    assert("is_set"@ != "regex"@);
    assert("is_set"@.len() == 6);
    assert("not_regex"@.len() == 9);
    assert("is_set"@ != "not_regex"@);
    assert("is_set"@.len() == 6);
    assert("gt"@.len() == 2);
    assert("is_set"@ != "gt"@);
    assert("is_set"@.len() == 6);
    assert("lt"@.len() == 2);
    assert("is_set"@ != "lt"@);
    assert("is_set"@.len() == 6);
    assert("gte"@.len() == 3);
    assert("is_set"@ != "gte"@);
    assert("is_set"@.len() == 6);
    assert("lte"@.len() == 3);
    assert("is_set"@ != "lte"@);
    assert("is_not_set"@.len() == 10);
    assert("exact"@.len() == 5);
    assert("is_not_set"@ != "exact"@);
    assert("is_not_set"@.len() == 10);
    assert("is_not"@.len() == 6);
    assert("is_not_set"@ != "is_not"@);
    assert("is_not_set"@.len() == 10);
    assert("icontains"@.len() == 9);
    assert("is_not_set"@ != "icontains"@);
    assert("is_not_set"@.len() == 10);
    assert("not_icontains"@.len() == 13);
    assert("is_not_set"@ != "not_icontains"@);
    assert("is_not_set"@.len() == 10);
    assert("regex"@.len() == 5);
    assert("is_not_set"@ != "regex"@);
    assert("is_not_set"@.len() == 10);
    assert("not_regex"@.len() == 9);
    assert("is_not_set"@ != "not_regex"@);
    assert("is_not_set"@.len() == 10);
    assert("gt"@.len() == 2);
    assert("is_not_set"@ != "gt"@);
    assert("is_not_set"@.len() == 10);
    assert("lt"@.len() == 2);
    assert("is_not_set"@ != "lt"@);
    assert("is_not_set"@.len() == 10);
    assert("gte"@.len() == 3);
    assert("is_not_set"@ != "gte"@);
    assert("is_not_set"@.len() == 10);
    assert("lte"@.len() == 3);
    assert("is_not_set"@ != "lte"@);
    assert("is_not_set"@.len() == 10);
    assert("is_set"@.len() == 6);
    assert("is_not_set"@ != "is_set"@);
    assert("is_date_exact"@.len() == 13);
    assert("exact"@.len() == 5);
    assert("is_date_exact"@ != "exact"@);
    assert("is_date_exact"@.len() == 13);
    assert("is_not"@.len() == 6);
    assert("is_date_exact"@ != "is_not"@);
    assert("is_date_exact"@.len() == 13);
    assert("icontains"@.len() == 9);
    assert("is_date_exact"@ != "icontains"@);
    assert("is_date_exact"@[0] == 'i');
    assert("not_icontains"@[0] == 'n');
    assert("is_date_exact"@ != "not_icontains"@);
    assert("is_date_exact"@.len() == 13);
    assert("regex"@.len() == 5);
    assert("is_date_exact"@ != "regex"@);
    assert("is_date_exact"@.len() == 13);
    assert("not_regex"@.len() == 9);
    assert("is_date_exact"@ != "not_regex"@);
    assert("is_date_exact"@.len() == 13);
    assert("gt"@.len() == 2);
    assert("is_date_exact"@ != "gt"@);
    assert("is_date_exact"@.len() == 13);
    assert("lt"@.len() == 2);
    assert("is_date_exact"@ != "lt"@);
    assert("is_date_exact"@.len() == 13);
    assert("gte"@.len() == 3);
    assert("is_date_exact"@ != "gte"@);
    assert("is_date_exact"@.len() == 13);
    assert("lte"@.len() == 3);
    assert("is_date_exact"@ != "lte"@);
    assert("is_date_exact"@.len() == 13);
    assert("is_set"@.len() == 6);
    assert("is_date_exact"@ != "is_set"@);
    assert("is_date_exact"@.len() == 13);
    assert("is_not_set"@.len() == 10);
    assert("is_date_exact"@ != "is_not_set"@);
    assert("is_date_after"@.len() == 13);
    assert("exact"@.len() == 5);
    assert("is_date_after"@ != "exact"@);
    assert("is_date_after"@.len() == 13);
    assert("is_not"@.len() == 6);
    assert("is_date_after"@ != "is_not"@);
    assert("is_date_after"@.len() == 13);
    assert("icontains"@.len() == 9);
    assert("is_date_after"@ != "icontains"@);
    assert("is_date_after"@[0] == 'i');
    assert("not_icontains"@[0] == 'n');
    assert("is_date_after"@ != "not_icontains"@);
    assert("is_date_after"@.len() == 13);
    assert("regex"@.len() == 5);
    assert("is_date_after"@ != "regex"@);
    assert("is_date_after"@.len() == 13);
    assert("not_regex"@.len() == 9);
    assert("is_date_after"@ != "not_regex"@);
    assert("is_date_after"@.len() == 13);
    assert("gt"@.len() == 2);
    assert("is_date_after"@ != "gt"@);
    assert("is_date_after"@.len() == 13);
    assert("lt"@.len() == 2);
    assert("is_date_after"@ != "lt"@);
    assert("is_date_after"@.len() == 13);
    assert("gte"@.len() == 3);
    assert("is_date_after"@ != "gte"@);
    assert("is_date_after"@.len() == 13);
    assert("lte"@.len() == 3);
    assert("is_date_after"@ != "lte"@);
    assert("is_date_after"@.len() == 13);
    assert("is_set"@.len() == 6);
    assert("is_date_after"@ != "is_set"@);
    assert("is_date_after"@.len() == 13);
    assert("is_not_set"@.len() == 10);
    assert("is_date_after"@ != "is_not_set"@);
    assert("is_date_after"@[8] == 'a');
    assert("is_date_exact"@[8] == 'e');
    assert("is_date_after"@ != "is_date_exact"@);
    assert("is_date_before"@.len() == 14);
    assert("exact"@.len() == 5);
    assert("is_date_before"@ != "exact"@);
    assert("is_date_before"@.len() == 14);
    assert("is_not"@.len() == 6);
    assert("is_date_before"@ != "is_not"@);
    assert("is_date_before"@.len() == 14);
    assert("icontains"@.len() == 9);
    assert("is_date_before"@ != "icontains"@);
    assert("is_date_before"@.len() == 14);
    assert("not_icontains"@.len() == 13);
    assert("is_date_before"@ != "not_icontains"@);
    assert("is_date_before"@.len() == 14);
    assert("regex"@.len() == 5);
    assert("is_date_before"@ != "regex"@);
    assert("is_date_before"@.len() == 14);
    assert("not_regex"@.len() == 9);
    assert("is_date_before"@ != "not_regex"@);
    assert("is_date_before"@.len() == 14);
    assert("gt"@.len() == 2);
    assert("is_date_before"@ != "gt"@);
    assert("is_date_before"@.len() == 14);
    assert("lt"@.len() == 2);
    assert("is_date_before"@ != "lt"@);
    assert("is_date_before"@.len() == 14);
    assert("gte"@.len() == 3);
    assert("is_date_before"@ != "gte"@);
    assert("is_date_before"@.len() == 14);
    assert("lte"@.len() == 3);
    assert("is_date_before"@ != "lte"@);
    assert("is_date_before"@.len() == 14);
    assert("is_set"@.len() == 6);
    assert("is_date_before"@ != "is_set"@);
    assert("is_date_before"@.len() == 14);
    assert("is_not_set"@.len() == 10);
    assert("is_date_before"@ != "is_not_set"@);
    assert("is_date_before"@.len() == 14);
    assert("is_date_exact"@.len() == 13);
    assert("is_date_before"@ != "is_date_exact"@);
    assert("is_date_before"@.len() == 14);
    assert("is_date_after"@.len() == 13);
    assert("is_date_before"@ != "is_date_after"@);
    match op {
        OperatorType::Exact => {
            assert(op_of_name(op_name(op)) == Some(op));
        },
        OperatorType::IsNot => {
            assert(op_of_name(op_name(op)) == Some(op));
        },
        OperatorType::Icontains => {
            assert(op_of_name(op_name(op)) == Some(op));
        },
        OperatorType::NotIcontains => {
            assert(op_of_name(op_name(op)) == Some(op));
        },
        OperatorType::Regex => {
            assert(op_of_name(op_name(op)) == Some(op));
        },
        OperatorType::NotRegex => {
            assert(op_of_name(op_name(op)) == Some(op));
        },
        OperatorType::Gt => {
            assert(op_of_name(op_name(op)) == Some(op));
        },
        OperatorType::Lt => {
            assert(op_of_name(op_name(op)) == Some(op));
        },
        OperatorType::Gte => {
            assert(op_of_name(op_name(op)) == Some(op));
        },
        OperatorType::Lte => {
            assert(op_of_name(op_name(op)) == Some(op));
        },
        OperatorType::IsSet => {
            assert(op_of_name(op_name(op)) == Some(op));
        },
        OperatorType::IsNotSet => {
            assert(op_of_name(op_name(op)) == Some(op));
        },
        OperatorType::IsDateExact => {
            assert(op_of_name(op_name(op)) == Some(op));
        },
        OperatorType::IsDateAfter => {
            assert(op_of_name(op_name(op)) == Some(op));
        },
        OperatorType::IsDateBefore => {
            assert(op_of_name(op_name(op)) == Some(op));
        },
    }
}

proof fn lemma_ptype_name_round(t: PropertyType)
    ensures
        ptype_of_name(ptype_name(t)) == Some(t),
{
    reveal_strlit("person");
    reveal_strlit("event");
    reveal_strlit("group");
    reveal_strlit("cohort");
    reveal_strlit("flag");
    assert("event"@.len() == 5);
    assert("person"@.len() == 6);
    assert("event"@ != "person"@);
    assert("group"@.len() == 5);
    assert("person"@.len() == 6);
    assert("group"@ != "person"@);
    assert("group"@[0] == 'g');
    assert("event"@[0] == 'e');
    assert("group"@ != "event"@);
    assert("cohort"@[0] == 'c');
    assert("person"@[0] == 'p');
    assert("cohort"@ != "person"@);
    assert("cohort"@.len() == 6);
    assert("event"@.len() == 5);
    assert("cohort"@ != "event"@);
    assert("cohort"@.len() == 6);
    assert("group"@.len() == 5);
    assert("cohort"@ != "group"@);
    assert("flag"@.len() == 4);
    assert("person"@.len() == 6);
    assert("flag"@ != "person"@);
    assert("flag"@.len() == 4);
    assert("event"@.len() == 5);
    assert("flag"@ != "event"@);
    assert("flag"@.len() == 4);
    assert("group"@.len() == 5);
    assert("flag"@ != "group"@);
    assert("flag"@.len() == 4);
    assert("cohort"@.len() == 6);
    assert("flag"@ != "cohort"@);
    match t {
        PropertyType::Person => {
            assert(ptype_of_name(ptype_name(t)) == Some(t));
        },
        PropertyType::Event => {
            assert(ptype_of_name(ptype_name(t)) == Some(t));
        },
        PropertyType::Group => {
            assert(ptype_of_name(ptype_name(t)) == Some(t));
        },
        PropertyType::Cohort => {
            assert(ptype_of_name(ptype_name(t)) == Some(t));
        },
        PropertyType::Flag => {
            assert(ptype_of_name(ptype_name(t)) == Some(t));
        },
    }
}


// --- well-formedness of encoded documents, over concatenations ---

proof fn lemma_wf_jm_shift(a: Seq<(Seq<char>, JVal)>, b: Seq<(Seq<char>, JVal)>, j: int)
    requires
        0 <= j <= b.len(),
    ensures
        wf_jmembers(a + b, a.len() + j) == wf_jmembers(b, j),
    decreases b.len() - j,
{
    if j < b.len() {
        assert((a + b)[a.len() + j] == b[j]);
        lemma_wf_jm_shift(a, b, j + 1);
    }
}

proof fn lemma_wf_jm_concat(a: Seq<(Seq<char>, JVal)>, b: Seq<(Seq<char>, JVal)>, i: int)
    requires
        0 <= i <= a.len(),
    ensures
        wf_jmembers(a + b, i) == (wf_jmembers(a, i) && wf_jmembers(b, 0)),
    decreases a.len() - i,
{
    if i == a.len() {
        lemma_wf_jm_shift(a, b, 0);
    } else {
        assert((a + b)[i] == a[i]);
        lemma_wf_jm_concat(a, b, i + 1);
    }
}

proof fn lemma_wf_jv_shift(v: JVal, rest: Seq<JVal>, j: int)
    requires
        0 <= j <= rest.len(),
    ensures
        wf_jvals(seq![v] + rest, 1 + j) == wf_jvals(rest, j),
    decreases rest.len() - j,
{
    if j < rest.len() {
        assert((seq![v] + rest)[1 + j] == rest[j]);
        lemma_wf_jv_shift(v, rest, j + 1);
    }
}

// --- decoding shifts over a prepended element ---

proof fn lemma_filters_decode_shift(v: JVal, rest: Seq<JVal>, j: int)
    requires
        0 <= j <= rest.len(),
    ensures
        filters_of_jvals(seq![v] + rest, 1 + j) == filters_of_jvals(rest, j),
    decreases rest.len() - j,
{
    if j < rest.len() {
        assert((seq![v] + rest)[1 + j] == rest[j]);
        lemma_filters_decode_shift(v, rest, j + 1);
    }
}

proof fn lemma_groups_decode_shift(v: JVal, rest: Seq<JVal>, j: int)
    requires
        0 <= j <= rest.len(),
    ensures
        groups_of_jvals(seq![v] + rest, 1 + j) == groups_of_jvals(rest, j),
    decreases rest.len() - j,
{
    if j < rest.len() {
        assert((seq![v] + rest)[1 + j] == rest[j]);
        lemma_groups_decode_shift(v, rest, j + 1);
    }
}

proof fn lemma_variants_decode_shift(v: JVal, rest: Seq<JVal>, j: int)
    requires
        0 <= j <= rest.len(),
    ensures
        variants_of_jvals(seq![v] + rest, 1 + j) == variants_of_jvals(rest, j),
    decreases rest.len() - j,
{
    if j < rest.len() {
        assert((seq![v] + rest)[1 + j] == rest[j]);
        lemma_variants_decode_shift(v, rest, j + 1);
    }
}

proof fn lemma_flags_decode_shift(v: JVal, rest: Seq<JVal>, j: int)
    requires
        0 <= j <= rest.len(),
    ensures
        flags_of_jvals(seq![v] + rest, 1 + j) == flags_of_jvals(rest, j),
    decreases rest.len() - j,
{
    if j < rest.len() {
        assert((seq![v] + rest)[1 + j] == rest[j]);
        lemma_flags_decode_shift(v, rest, j + 1);
    }
}

// --- integer fields decode back ---

proof fn lemma_int_field_round(g: int)
    requires
        i32::MIN <= g <= i32::MAX,
    ensures
        int_field_of(JVal::Num(render_int(g))) == Some(g),
        valid_number(render_int(g)),
{
    crate::numtext::lemma_render_int_valid(g);
}

// --- segment lookup helpers ---

proof fn lemma_jobj_get_singleton(n: Seq<char>, v: JVal, k: Seq<char>)
    ensures
        jobj_get(seq![(n, v)], k) == if n == k {
            Some(v)
        } else {
            None
        },
{
    let s = seq![(n, v)];
    assert(s.len() == 1);
    assert(s[0] == (n, v));
    assert(jobj_get_from(s, k, 1) is None);
}

proof fn lemma_jobj_get_opt(n: Seq<char>, o: Option<JVal>, k: Seq<char>)
    ensures
        jobj_get(opt_member(n, o), k) == if n == k {
            o
        } else {
            None
        },
{
    match o {
        Some(v) => {
            lemma_jobj_get_singleton(n, v, k);
        },
        None => {},
    }
}

proof fn lemma_wf_singleton(n: Seq<char>, v: JVal)
    requires
        wf_jval(v),
    ensures
        wf_jmembers(seq![(n, v)], 0),
{
    let s = seq![(n, v)];
    assert(s.len() == 1);
    assert(s[0] == (n, v));
    assert(wf_jmembers(s, 1));
}

proof fn lemma_wf_opt_member(n: Seq<char>, o: Option<JVal>)
    requires
        o matches Some(v) ==> wf_jval(v),
    ensures
        wf_jmembers(opt_member(n, o), 0),
{
    match o {
        Some(v) => {
            lemma_wf_singleton(n, v);
        },
        None => {},
    }
}

// --- one filter decodes back ---

proof fn lemma_filter_round(f: PropertyFilterModel)
    requires
        wf_filter_model(f),
    ensures
        filter_of_jval(jval_of_filter(f)) == Some(f),
        wf_jval(jval_of_filter(f)),
{
    reveal_strlit("key");
    reveal_strlit("value");
    reveal_strlit("operator");
    reveal_strlit("type");
    reveal_strlit("group_type_index");
    assert("key"@.len() == 3);
    assert("value"@.len() == 5);
    assert("operator"@.len() == 8);
    assert("type"@.len() == 4);
    assert("group_type_index"@.len() == 16);
    let s1 = seq![("key"@, JVal::Str(f.key))];
    let vo: Option<JVal> = f.value;
    let oo_v: Option<JVal> = match f.operator {
        Some(op) => Some(JVal::Str(op_name(op))),
        None => None,
    };
    let og_v: Option<JVal> = match f.group_type_index {
        Some(g) => Some(JVal::Num(render_int(g))),
        None => None,
    };
    let ov = opt_member("value"@, vo);
    let oo = opt_member("operator"@, oo_v);
    let s2 = seq![("type"@, JVal::Str(ptype_name(f.prop_type)))];
    let og = opt_member("group_type_index"@, og_v);
    let ms = s1 + ov + oo + s2 + og;
    assert(jval_of_filter(f) == JVal::Obj(ms));
    assert forall|k: Seq<char>| #[trigger] jobj_get(ms, k) == (if "key"@ == k {
        Some(JVal::Str(f.key))
    } else if "value"@ == k {
        vo
    } else if "operator"@ == k {
        oo_v
    } else if "type"@ == k {
        Some(JVal::Str(ptype_name(f.prop_type)))
    } else if "group_type_index"@ == k {
        og_v
    } else {
        None
    }) by {
        lemma_jobj_get_concat(s1 + ov + oo + s2, og, k, 0);
        lemma_jobj_get_concat(s1 + ov + oo, s2, k, 0);
        lemma_jobj_get_concat(s1 + ov, oo, k, 0);
        lemma_jobj_get_concat(s1, ov, k, 0);
        lemma_jobj_get_singleton("key"@, JVal::Str(f.key), k);
        lemma_jobj_get_opt("value"@, vo, k);
        lemma_jobj_get_opt("operator"@, oo_v, k);
        lemma_jobj_get_singleton("type"@, JVal::Str(ptype_name(f.prop_type)), k);
        lemma_jobj_get_opt("group_type_index"@, og_v, k);
    }
    lemma_ptype_name_round(f.prop_type);
    match f.operator {
        Some(op) => {
            lemma_op_name_round(op);
        },
        None => {},
    }
    match f.group_type_index {
        Some(g) => {
            lemma_int_field_round(g);
        },
        None => {},
    }
    assert(jobj_get(ms, "key"@) == Some(JVal::Str(f.key)));
    assert(jobj_get(ms, "value"@) == vo);
    assert(jobj_get(ms, "operator"@) == oo_v);
    assert(jobj_get(ms, "type"@) == Some(JVal::Str(ptype_name(f.prop_type))));
    assert(jobj_get(ms, "group_type_index"@) == og_v);
    assert(filter_of_jval(jval_of_filter(f)) == Some(f)) by {
        let d = filter_of_jval(JVal::Obj(ms));
        assert(d is Some);
        assert(d->Some_0 =~= f);
    }
    assert(wf_jval(jval_of_filter(f))) by {
        lemma_wf_singleton("key"@, JVal::Str(f.key));
        lemma_wf_opt_member("value"@, vo);
        lemma_wf_opt_member("operator"@, oo_v);
        lemma_wf_singleton("type"@, JVal::Str(ptype_name(f.prop_type)));
        lemma_wf_opt_member("group_type_index"@, og_v);
        lemma_wf_jm_concat(s1 + ov + oo + s2, og, 0);
        lemma_wf_jm_concat(s1 + ov + oo, s2, 0);
        lemma_wf_jm_concat(s1 + ov, oo, 0);
        lemma_wf_jm_concat(s1, ov, 0);
    }
}


// --- filter lists decode back ---

proof fn lemma_filters_list_round(ps: Seq<PropertyFilterModel>, i: int)
    requires
        0 <= i <= ps.len(),
        forall|t: int| 0 <= t < ps.len() ==> wf_filter_model(#[trigger] ps[t]),
    ensures
        filters_of_jvals(jvals_of_filters(ps, i), 0) == Some(ps.skip(i)),
        wf_jvals(jvals_of_filters(ps, i), 0),
    decreases ps.len() - i,
{
    let es = jvals_of_filters(ps, i);
    if i == ps.len() {
        assert(es =~= Seq::<JVal>::empty());
        assert(ps.skip(i) =~= Seq::<PropertyFilterModel>::empty());
        assert(filters_of_jvals(es, 0) == Some(Seq::<PropertyFilterModel>::empty()));
    } else {
        let head = jval_of_filter(ps[i]);
        let rest = jvals_of_filters(ps, i + 1);
        assert(es == seq![head] + rest);
        lemma_filter_round(ps[i]);
        lemma_filters_list_round(ps, i + 1);
        assert(es[0] == head);
        lemma_filters_decode_shift(head, rest, 0);
        assert(filters_of_jvals(es, 1) == filters_of_jvals(rest, 0));
        assert(seq![ps[i]] + ps.skip(i + 1) =~= ps.skip(i));
        lemma_wf_jv_shift(head, rest, 0);
        assert(wf_jvals(es, 0));
    }
}

// --- one group decodes back ---

proof fn lemma_group_round(g: GroupModel)
    requires
        wf_group_model(g),
    ensures
        group_of_jval(jval_of_group(g)) == Some(g),
        wf_jval(jval_of_group(g)),
{
    reveal_strlit("properties");
    reveal_strlit("rollout_percentage");
    assert("properties"@.len() == 10);
    assert("rollout_percentage"@.len() == 18);
    let po: Option<JVal> = match g.properties {
        Some(ps) => Some(JVal::Arr(jvals_of_filters(ps, 0))),
        None => None,
    };
    let ro: Option<JVal> = match g.rollout_percentage {
        Some(t) => Some(JVal::Num(t)),
        None => None,
    };
    let op = opt_member("properties"@, po);
    let orr = opt_member("rollout_percentage"@, ro);
    let ms = op + orr;
    assert(jval_of_group(g) == JVal::Obj(ms));
    assert forall|k: Seq<char>| #[trigger] jobj_get(ms, k) == (if "properties"@ == k {
        po
    } else if "rollout_percentage"@ == k {
        ro
    } else {
        None
    }) by {
        lemma_jobj_get_concat(op, orr, k, 0);
        lemma_jobj_get_opt("properties"@, po, k);
        lemma_jobj_get_opt("rollout_percentage"@, ro, k);
    }
    assert(jobj_get(ms, "properties"@) == po);
    assert(jobj_get(ms, "rollout_percentage"@) == ro);
    match g.properties {
        Some(ps) => {
            lemma_filters_list_round(ps, 0);
            assert(ps.skip(0) =~= ps);
        },
        None => {},
    }
    assert(group_of_jval(jval_of_group(g)) == Some(g)) by {
        let d = group_of_jval(JVal::Obj(ms));
        assert(d is Some);
        assert(d->Some_0 =~= g);
    }
    assert(wf_jval(jval_of_group(g))) by {
        match g.properties {
            Some(ps) => {
                lemma_filters_list_round(ps, 0);
                assert(wf_jval(po->Some_0));
            },
            None => {},
        }
        lemma_wf_opt_member("properties"@, po);
        lemma_wf_opt_member("rollout_percentage"@, ro);
        lemma_wf_jm_concat(op, orr, 0);
    }
}

proof fn lemma_groups_list_round(gs: Seq<GroupModel>, i: int)
    requires
        0 <= i <= gs.len(),
        wf_groups_model(gs),
    ensures
        groups_of_jvals(jvals_of_groups(gs, i), 0) == Some(gs.skip(i)),
        wf_jvals(jvals_of_groups(gs, i), 0),
    decreases gs.len() - i,
{
    let es = jvals_of_groups(gs, i);
    if i == gs.len() {
        assert(es =~= Seq::<JVal>::empty());
        assert(gs.skip(i) =~= Seq::<GroupModel>::empty());
        assert(groups_of_jvals(es, 0) == Some(Seq::<GroupModel>::empty()));
    } else {
        let head = jval_of_group(gs[i]);
        let rest = jvals_of_groups(gs, i + 1);
        assert(es == seq![head] + rest);
        lemma_group_round(gs[i]);
        lemma_groups_list_round(gs, i + 1);
        assert(es[0] == head);
        lemma_groups_decode_shift(head, rest, 0);
        assert(groups_of_jvals(es, 1) == groups_of_jvals(rest, 0));
        assert(seq![gs[i]] + gs.skip(i + 1) =~= gs.skip(i));
        lemma_wf_jv_shift(head, rest, 0);
        assert(wf_jvals(es, 0));
    }
}

// --- one variant decodes back ---

proof fn lemma_variant_round(v: VariantModel)
    requires
        wf_variant_model(v),
    ensures
        variant_of_jval(jval_of_variant(v)) == Some(v),
        wf_jval(jval_of_variant(v)),
{
    reveal_strlit("key");
    reveal_strlit("name");
    reveal_strlit("rollout_percentage");
    assert("key"@.len() == 3);
    assert("name"@.len() == 4);
    assert("rollout_percentage"@.len() == 18);
    let s1 = seq![("key"@, JVal::Str(v.key))];
    let no: Option<JVal> = match v.name {
        Some(n) => Some(JVal::Str(n)),
        None => None,
    };
    let on = opt_member("name"@, no);
    let s2 = seq![("rollout_percentage"@, JVal::Num(v.rollout_percentage))];
    let ms = s1 + on + s2;
    assert(jval_of_variant(v) == JVal::Obj(ms));
    assert forall|k: Seq<char>| #[trigger] jobj_get(ms, k) == (if "key"@ == k {
        Some(JVal::Str(v.key))
    } else if "name"@ == k {
        no
    } else if "rollout_percentage"@ == k {
        Some(JVal::Num(v.rollout_percentage))
    } else {
        None
    }) by {
        lemma_jobj_get_concat(s1 + on, s2, k, 0);
        lemma_jobj_get_concat(s1, on, k, 0);
        lemma_jobj_get_singleton("key"@, JVal::Str(v.key), k);
        lemma_jobj_get_opt("name"@, no, k);
        lemma_jobj_get_singleton("rollout_percentage"@, JVal::Num(v.rollout_percentage), k);
    }
    assert(jobj_get(ms, "key"@) == Some(JVal::Str(v.key)));
    assert(jobj_get(ms, "name"@) == no);
    assert(jobj_get(ms, "rollout_percentage"@) == Some(JVal::Num(v.rollout_percentage)));
    assert(variant_of_jval(jval_of_variant(v)) == Some(v)) by {
        let d = variant_of_jval(JVal::Obj(ms));
        assert(d is Some);
        assert(d->Some_0 =~= v);
    }
    assert(wf_jval(jval_of_variant(v))) by {
        lemma_wf_singleton("key"@, JVal::Str(v.key));
        lemma_wf_opt_member("name"@, no);
        lemma_wf_singleton("rollout_percentage"@, JVal::Num(v.rollout_percentage));
        lemma_wf_jm_concat(s1 + on, s2, 0);
        lemma_wf_jm_concat(s1, on, 0);
    }
}

proof fn lemma_variants_list_round(vs: Seq<VariantModel>, i: int)
    requires
        0 <= i <= vs.len(),
        forall|t: int| 0 <= t < vs.len() ==> wf_variant_model(#[trigger] vs[t]),
    ensures
        variants_of_jvals(jvals_of_variants(vs, i), 0) == Some(vs.skip(i)),
        wf_jvals(jvals_of_variants(vs, i), 0),
    decreases vs.len() - i,
{
    let es = jvals_of_variants(vs, i);
    if i == vs.len() {
        assert(es =~= Seq::<JVal>::empty());
        assert(vs.skip(i) =~= Seq::<VariantModel>::empty());
        assert(variants_of_jvals(es, 0) == Some(Seq::<VariantModel>::empty()));
    } else {
        let head = jval_of_variant(vs[i]);
        let rest = jvals_of_variants(vs, i + 1);
        assert(es == seq![head] + rest);
        lemma_variant_round(vs[i]);
        lemma_variants_list_round(vs, i + 1);
        assert(es[0] == head);
        lemma_variants_decode_shift(head, rest, 0);
        assert(variants_of_jvals(es, 1) == variants_of_jvals(rest, 0));
        assert(seq![vs[i]] + vs.skip(i + 1) =~= vs.skip(i));
        lemma_wf_jv_shift(head, rest, 0);
        assert(wf_jvals(es, 0));
    }
}

// --- a whole filter specification decodes back ---

proof fn lemma_filters_model_round(f: FiltersModel)
    requires
        wf_filters_model(f),
    ensures
        filters_model_of_jval(jval_of_filters(f)) == Some(f),
        wf_jval(jval_of_filters(f)),
{
    reveal_strlit("groups");
    reveal_strlit("multivariate");
    reveal_strlit("variants");
    reveal_strlit("aggregation_group_type_index");
    reveal_strlit("payloads");
    reveal_strlit("super_groups");
    reveal_strlit("holdout_groups");
    assert("groups"@.len() == 6);
    assert("multivariate"@.len() == 12);
    assert("variants"@.len() == 8);
    assert("aggregation_group_type_index"@.len() == 28);
    assert("payloads"@.len() == 8);
    assert("super_groups"@.len() == 12);
    assert("holdout_groups"@.len() == 14);
    assert("variants"@[0] == 'v');
    assert("payloads"@[0] == 'p');
    assert("variants"@ != "payloads"@);
    assert("multivariate"@[0] == 'm');
    assert("super_groups"@[0] == 's');
    assert("multivariate"@ != "super_groups"@);
    let s1 = seq![("groups"@, JVal::Arr(jvals_of_groups(f.groups, 0)))];
    let mo: Option<JVal> = match f.multivariate {
        Some(vs) => Some(JVal::Obj(seq![("variants"@, JVal::Arr(jvals_of_variants(vs, 0)))])),
        None => None,
    };
    let ao: Option<JVal> = match f.aggregation_group_type_index {
        Some(g) => Some(JVal::Num(render_int(g))),
        None => None,
    };
    let so: Option<JVal> = match f.super_groups {
        Some(gs) => Some(JVal::Arr(jvals_of_groups(gs, 0))),
        None => None,
    };
    let ho: Option<JVal> = match f.holdout_groups {
        Some(gs) => Some(JVal::Arr(jvals_of_groups(gs, 0))),
        None => None,
    };
    let om = opt_member("multivariate"@, mo);
    let oa = opt_member("aggregation_group_type_index"@, ao);
    let op = opt_member("payloads"@, f.payloads);
    let os = opt_member("super_groups"@, so);
    let oh = opt_member("holdout_groups"@, ho);
    let ms = s1 + om + oa + op + os + oh;
    assert(jval_of_filters(f) == JVal::Obj(ms));
    assert forall|k: Seq<char>| #[trigger] jobj_get(ms, k) == (if "groups"@ == k {
        Some(JVal::Arr(jvals_of_groups(f.groups, 0)))
    } else if "multivariate"@ == k {
        mo
    } else if "aggregation_group_type_index"@ == k {
        ao
    } else if "payloads"@ == k {
        f.payloads
    } else if "super_groups"@ == k {
        so
    } else if "holdout_groups"@ == k {
        ho
    } else {
        None
    }) by {
        lemma_jobj_get_concat(s1 + om + oa + op + os, oh, k, 0);
        lemma_jobj_get_concat(s1 + om + oa + op, os, k, 0);
        lemma_jobj_get_concat(s1 + om + oa, op, k, 0);
        lemma_jobj_get_concat(s1 + om, oa, k, 0);
        lemma_jobj_get_concat(s1, om, k, 0);
        lemma_jobj_get_singleton("groups"@, JVal::Arr(jvals_of_groups(f.groups, 0)), k);
        lemma_jobj_get_opt("multivariate"@, mo, k);
        lemma_jobj_get_opt("aggregation_group_type_index"@, ao, k);
        lemma_jobj_get_opt("payloads"@, f.payloads, k);
        lemma_jobj_get_opt("super_groups"@, so, k);
        lemma_jobj_get_opt("holdout_groups"@, ho, k);
    }
    assert(jobj_get(ms, "groups"@) == Some(JVal::Arr(jvals_of_groups(f.groups, 0))));
    assert(jobj_get(ms, "multivariate"@) == mo);
    assert(jobj_get(ms, "aggregation_group_type_index"@) == ao);
    assert(jobj_get(ms, "payloads"@) == f.payloads);
    assert(jobj_get(ms, "super_groups"@) == so);
    assert(jobj_get(ms, "holdout_groups"@) == ho);
    lemma_groups_list_round(f.groups, 0);
    assert(f.groups.skip(0) =~= f.groups);
    match f.multivariate {
        Some(vs) => {
            lemma_variants_list_round(vs, 0);
            assert(vs.skip(0) =~= vs);
            let mm = seq![("variants"@, JVal::Arr(jvals_of_variants(vs, 0)))];
            lemma_jobj_get_singleton("variants"@, JVal::Arr(jvals_of_variants(vs, 0)), "variants"@);
            assert(jobj_get(mm, "variants"@) == Some(JVal::Arr(jvals_of_variants(vs, 0))));
        },
        None => {},
    }
    match f.aggregation_group_type_index {
        Some(g) => {
            lemma_int_field_round(g);
        },
        None => {},
    }
    match f.super_groups {
        Some(gs) => {
            lemma_groups_list_round(gs, 0);
            assert(gs.skip(0) =~= gs);
        },
        None => {},
    }
    match f.holdout_groups {
        Some(gs) => {
            lemma_groups_list_round(gs, 0);
            assert(gs.skip(0) =~= gs);
        },
        None => {},
    }
    assert(filters_model_of_jval(jval_of_filters(f)) == Some(f)) by {
        let d = filters_model_of_jval(JVal::Obj(ms));
        assert(d is Some);
        assert(d->Some_0 =~= f);
    }
    assert(wf_jval(jval_of_filters(f))) by {
        lemma_groups_list_round(f.groups, 0);
        lemma_wf_singleton("groups"@, JVal::Arr(jvals_of_groups(f.groups, 0)));
        match f.multivariate {
            Some(vs) => {
                lemma_variants_list_round(vs, 0);
                lemma_wf_singleton("variants"@, JVal::Arr(jvals_of_variants(vs, 0)));
                assert(wf_jval(mo->Some_0));
            },
            None => {},
        }
        match f.aggregation_group_type_index {
            Some(g) => {
                lemma_int_field_round(g);
            },
            None => {},
        }
        match f.super_groups {
            Some(gs) => {
                lemma_groups_list_round(gs, 0);
            },
            None => {},
        }
        match f.holdout_groups {
            Some(gs) => {
                lemma_groups_list_round(gs, 0);
            },
            None => {},
        }
        lemma_wf_opt_member("multivariate"@, mo);
        lemma_wf_opt_member("aggregation_group_type_index"@, ao);
        lemma_wf_opt_member("payloads"@, f.payloads);
        lemma_wf_opt_member("super_groups"@, so);
        lemma_wf_opt_member("holdout_groups"@, ho);
        lemma_wf_jm_concat(s1 + om + oa + op + os, oh, 0);
        lemma_wf_jm_concat(s1 + om + oa + op, os, 0);
        lemma_wf_jm_concat(s1 + om + oa, op, 0);
        lemma_wf_jm_concat(s1 + om, oa, 0);
        lemma_wf_jm_concat(s1, om, 0);
    }
}


// --- one flag decodes back ---

proof fn lemma_flag_round(m: FlagModel)
    requires
        wf_flag_model(m),
    ensures
        flag_of_jval(jval_of_flag(m)) == Some(m),
        wf_jval(jval_of_flag(m)),
{
    reveal_strlit("id");
    reveal_strlit("team_id");
    reveal_strlit("name");
    reveal_strlit("key");
    reveal_strlit("filters");
    reveal_strlit("deleted");
    reveal_strlit("active");
    reveal_strlit("ensure_experience_continuity");
    reveal_strlit("version");
    assert("id"@.len() == 2);
    assert("team_id"@.len() == 7);
    assert("name"@.len() == 4);
    assert("key"@.len() == 3);
    assert("filters"@.len() == 7);
    assert("deleted"@.len() == 7);
    assert("active"@.len() == 6);
    assert("ensure_experience_continuity"@.len() == 28);
    assert("version"@.len() == 7);
    assert("team_id"@[0] == 't' && "filters"@[0] == 'f' && "deleted"@[0] == 'd' && "version"@[0]
        == 'v');
    assert("team_id"@ != "filters"@ && "team_id"@ != "deleted"@ && "team_id"@ != "version"@);
    assert("filters"@ != "deleted"@ && "filters"@ != "version"@);
    assert("deleted"@ != "version"@);
    let e_id = seq![("id"@, JVal::Num(render_int(m.id)))];
    let e_team = seq![("team_id"@, JVal::Num(render_int(m.team_id)))];
    let no: Option<JVal> = match m.name {
        Some(n) => Some(JVal::Str(n)),
        None => None,
    };
    let on = opt_member("name"@, no);
    let e_key = seq![("key"@, JVal::Str(m.key))];
    let e_filters = seq![("filters"@, jval_of_filters(m.filters))];
    let e_del = seq![("deleted"@, JVal::Bool(m.deleted))];
    let e_act = seq![("active"@, JVal::Bool(m.active))];
    let e_cont = seq![
        ("ensure_experience_continuity"@, JVal::Bool(m.ensure_experience_continuity)),
    ];
    let vo: Option<JVal> = match m.version {
        Some(v) => Some(JVal::Num(render_int(v))),
        None => None,
    };
    let ov = opt_member("version"@, vo);
    let s_a = seq![
        ("id"@, JVal::Num(render_int(m.id))),
        ("team_id"@, JVal::Num(render_int(m.team_id))),
    ];
    let s_b = seq![
        ("key"@, JVal::Str(m.key)),
        ("filters"@, jval_of_filters(m.filters)),
        ("deleted"@, JVal::Bool(m.deleted)),
        ("active"@, JVal::Bool(m.active)),
        ("ensure_experience_continuity"@, JVal::Bool(m.ensure_experience_continuity)),
    ];
    assert(s_a =~= e_id + e_team);
    assert(s_b =~= e_key + e_filters + e_del + e_act + e_cont);
    let ms = s_a + on + s_b + ov;
    assert(jval_of_flag(m) == JVal::Obj(ms));
    assert forall|k: Seq<char>| #[trigger] jobj_get(ms, k) == (if "id"@ == k {
        Some(JVal::Num(render_int(m.id)))
    } else if "team_id"@ == k {
        Some(JVal::Num(render_int(m.team_id)))
    } else if "name"@ == k {
        no
    } else if "key"@ == k {
        Some(JVal::Str(m.key))
    } else if "filters"@ == k {
        Some(jval_of_filters(m.filters))
    } else if "deleted"@ == k {
        Some(JVal::Bool(m.deleted))
    } else if "active"@ == k {
        Some(JVal::Bool(m.active))
    } else if "ensure_experience_continuity"@ == k {
        Some(JVal::Bool(m.ensure_experience_continuity))
    } else if "version"@ == k {
        vo
    } else {
        None
    }) by {
        lemma_jobj_get_concat(s_a + on + s_b, ov, k, 0);
        lemma_jobj_get_concat(s_a + on, s_b, k, 0);
        lemma_jobj_get_concat(s_a, on, k, 0);
        lemma_jobj_get_concat(e_id, e_team, k, 0);
        assert(jobj_get(s_a, k) == jobj_get(e_id + e_team, k));
        lemma_jobj_get_concat(e_key + e_filters + e_del + e_act, e_cont, k, 0);
        lemma_jobj_get_concat(e_key + e_filters + e_del, e_act, k, 0);
        lemma_jobj_get_concat(e_key + e_filters, e_del, k, 0);
        lemma_jobj_get_concat(e_key, e_filters, k, 0);
        assert(jobj_get(s_b, k) == jobj_get(e_key + e_filters + e_del + e_act + e_cont, k));
        lemma_jobj_get_singleton("id"@, JVal::Num(render_int(m.id)), k);
        lemma_jobj_get_singleton("team_id"@, JVal::Num(render_int(m.team_id)), k);
        lemma_jobj_get_opt("name"@, no, k);
        lemma_jobj_get_singleton("key"@, JVal::Str(m.key), k);
        lemma_jobj_get_singleton("filters"@, jval_of_filters(m.filters), k);
        lemma_jobj_get_singleton("deleted"@, JVal::Bool(m.deleted), k);
        lemma_jobj_get_singleton("active"@, JVal::Bool(m.active), k);
        lemma_jobj_get_singleton(
            "ensure_experience_continuity"@,
            JVal::Bool(m.ensure_experience_continuity),
            k,
        );
        lemma_jobj_get_opt("version"@, vo, k);
    }
    assert(jobj_get(ms, "id"@) == Some(JVal::Num(render_int(m.id))));
    assert(jobj_get(ms, "team_id"@) == Some(JVal::Num(render_int(m.team_id))));
    assert(jobj_get(ms, "name"@) == no);
    assert(jobj_get(ms, "key"@) == Some(JVal::Str(m.key)));
    assert(jobj_get(ms, "filters"@) == Some(jval_of_filters(m.filters)));
    assert(jobj_get(ms, "deleted"@) == Some(JVal::Bool(m.deleted)));
    assert(jobj_get(ms, "active"@) == Some(JVal::Bool(m.active)));
    assert(jobj_get(ms, "ensure_experience_continuity"@) == Some(
        JVal::Bool(m.ensure_experience_continuity),
    ));
    assert(jobj_get(ms, "version"@) == vo);
    lemma_int_field_round(m.id);
    lemma_int_field_round(m.team_id);
    match m.version {
        Some(v) => {
            lemma_int_field_round(v);
        },
        None => {},
    }
    lemma_filters_model_round(m.filters);
    assert(flag_of_jval(jval_of_flag(m)) == Some(m)) by {
        let d = flag_of_jval(JVal::Obj(ms));
        assert(d is Some);
        assert(d->Some_0 =~= m);
    }
    assert(wf_jval(jval_of_flag(m))) by {
        lemma_wf_singleton("id"@, JVal::Num(render_int(m.id)));
        lemma_wf_singleton("team_id"@, JVal::Num(render_int(m.team_id)));
        lemma_wf_opt_member("name"@, no);
        lemma_wf_singleton("key"@, JVal::Str(m.key));
        lemma_wf_singleton("filters"@, jval_of_filters(m.filters));
        lemma_wf_singleton("deleted"@, JVal::Bool(m.deleted));
        lemma_wf_singleton("active"@, JVal::Bool(m.active));
        lemma_wf_singleton(
            "ensure_experience_continuity"@,
            JVal::Bool(m.ensure_experience_continuity),
        );
        match m.version {
            Some(v) => {
                assert(wf_jval(vo->Some_0));
            },
            None => {},
        }
        lemma_wf_opt_member("version"@, vo);
        lemma_wf_jm_concat(e_id, e_team, 0);
        lemma_wf_jm_concat(e_key + e_filters + e_del + e_act, e_cont, 0);
        lemma_wf_jm_concat(e_key + e_filters + e_del, e_act, 0);
        lemma_wf_jm_concat(e_key + e_filters, e_del, 0);
        lemma_wf_jm_concat(e_key, e_filters, 0);
        lemma_wf_jm_concat(s_a + on + s_b, ov, 0);
        lemma_wf_jm_concat(s_a + on, s_b, 0);
        lemma_wf_jm_concat(s_a, on, 0);
    }
}

proof fn lemma_flags_list_round(ms: Seq<FlagModel>, i: int)
    requires
        0 <= i <= ms.len(),
        wf_flags_model(ms),
    ensures
        flags_of_jvals(jvals_of_flags(ms, i), 0) == Some(ms.skip(i)),
        wf_jvals(jvals_of_flags(ms, i), 0),
    decreases ms.len() - i,
{
    let es = jvals_of_flags(ms, i);
    if i == ms.len() {
        assert(es =~= Seq::<JVal>::empty());
        assert(ms.skip(i) =~= Seq::<FlagModel>::empty());
        assert(flags_of_jvals(es, 0) == Some(Seq::<FlagModel>::empty()));
    } else {
        let head = jval_of_flag(ms[i]);
        let rest = jvals_of_flags(ms, i + 1);
        assert(es == seq![head] + rest);
        lemma_flag_round(ms[i]);
        lemma_flags_list_round(ms, i + 1);
        assert(es[0] == head);
        lemma_flags_decode_shift(head, rest, 0);
        assert(flags_of_jvals(es, 1) == flags_of_jvals(rest, 0));
        assert(seq![ms[i]] + ms.skip(i + 1) =~= ms.skip(i));
        lemma_wf_jv_shift(head, rest, 0);
        assert(wf_jvals(es, 0));
    }
}

// --- the whole wire format, text included ---

/// The cache text of a flag list: the canonical rendering of its JSON
/// document.
pub open spec fn spec_encode_flags(ms: Seq<FlagModel>) -> Seq<char> {
    crate::json::render_jval(jval_of_flag_list(ms))
}

/// A flag list read back from text: one JSON document filling the text,
/// shaped as an array of flags.
pub open spec fn spec_decode_flags(s: Seq<char>) -> Option<Seq<FlagModel>> {
    match crate::json::parse_document(s) {
        Some(j) => flag_list_of_jval(j),
        None => None,
    }
}

/// Round trip: encoding any list of well-formed flags — group filters of
/// every property type, multivariate variants, payloads, super and
/// holdout groups, empty filters — and decoding the text yields an equal
/// list.
pub proof fn lemma_flag_list_round_trip(flags: Seq<FlagModel>)
    requires
        wf_flags_model(flags),
    ensures
        spec_decode_flags(spec_encode_flags(flags)) == Some(flags),
{
    let doc = jval_of_flag_list(flags);
    lemma_flags_list_round(flags, 0);
    assert(flags.skip(0) =~= flags);
    assert(wf_jval(doc));
    crate::json::lemma_document_round_trip(doc);
}


// --- executable encoding ---

/// The member shapes of a sequence of pairs.
pub open spec fn members_jv_seq(ms: Seq<(String, JsonValue)>) -> Seq<(Seq<char>, JVal)> {
    Seq::new(ms.len(), |i: int| (ms[i].0@, jval_view(ms[i].1)))
}

proof fn lemma_members_seq_points(a: Seq<(String, JsonValue)>)
    ensures
        members_jv_seq(a).len() == a.len(),
        forall|k: int| 0 <= k < a.len() ==> #[trigger] members_jv_seq(a)[k] == (
        a[k].0@,
        jval_view(a[k].1),
        ),
{
}

proof fn lemma_members_of_vec(b: Vec<(String, JsonValue)>)
    ensures
        members_jv(b, 0) == members_jv_seq(b@),
{
    lemma_members_jv(b, 0);
    lemma_members_seq_points(b@);
    assert(members_jv(b, 0) =~= members_jv_seq(b@));
}


fn je_int(i: i32) -> (r: JsonValue)
    ensures
        r@ == JVal::Num(render_int(i as int)),
        wf_jval(r@),
{
    let n = JsonNumber::from_i64(i as i64);
    proof {
        crate::numtext::lemma_render_int_valid(i as int);
    }
    JsonValue::Num(n)
}

fn op_to_name(op: OperatorType) -> (r: String)
    ensures
        r@ == op_name(op),
{
    match op {
        OperatorType::Exact => String::from_str("exact"),
        OperatorType::IsNot => String::from_str("is_not"),
        OperatorType::Icontains => String::from_str("icontains"),
        OperatorType::NotIcontains => String::from_str("not_icontains"),
        OperatorType::Regex => String::from_str("regex"),
        OperatorType::NotRegex => String::from_str("not_regex"),
        OperatorType::Gt => String::from_str("gt"),
        OperatorType::Lt => String::from_str("lt"),
        OperatorType::Gte => String::from_str("gte"),
        OperatorType::Lte => String::from_str("lte"),
        OperatorType::IsSet => String::from_str("is_set"),
        OperatorType::IsNotSet => String::from_str("is_not_set"),
        OperatorType::IsDateExact => String::from_str("is_date_exact"),
        OperatorType::IsDateAfter => String::from_str("is_date_after"),
        OperatorType::IsDateBefore => String::from_str("is_date_before"),
    }
}

fn ptype_to_name(t: PropertyType) -> (r: String)
    ensures
        r@ == ptype_name(t),
{
    match t {
        PropertyType::Person => String::from_str("person"),
        PropertyType::Event => String::from_str("event"),
        PropertyType::Group => String::from_str("group"),
        PropertyType::Cohort => String::from_str("cohort"),
        PropertyType::Flag => String::from_str("flag"),
    }
}

/// One property filter as a JSON object.
pub fn filter_to_json(f: &PropertyFilter) -> (r: JsonValue)
    ensures
        r@ == jval_of_filter(f@),
{
    let mut ms: Vec<(String, JsonValue)> = Vec::new();
    ms.push((String::from_str("key"), JsonValue::Str(f.key.clone())));
    match &f.value {
        Some(v) => {
            ms.push((String::from_str("value"), crate::json::clone_value(v)));
        },
        None => {},
    }
    match f.operator {
        Some(op) => {
            ms.push((String::from_str("operator"), JsonValue::Str(op_to_name(op))));
        },
        None => {},
    }
    ms.push((String::from_str("type"), JsonValue::Str(ptype_to_name(f.prop_type))));
    match f.group_type_index {
        Some(g) => {
            ms.push((String::from_str("group_type_index"), je_int(g)));
        },
        None => {},
    }
    proof {
        lemma_members_of_vec(ms);
        lemma_members_seq_points(ms@);
        let fm = f@;
        let target = seq![("key"@, JVal::Str(fm.key))] + opt_member("value"@, fm.value)
            + opt_member(
            "operator"@,
            match fm.operator {
                Some(op) => Some(JVal::Str(op_name(op))),
                None => None,
            },
        ) + seq![("type"@, JVal::Str(ptype_name(fm.prop_type)))] + opt_member(
            "group_type_index"@,
            match fm.group_type_index {
                Some(g) => Some(JVal::Num(render_int(g))),
                None => None,
            },
        );
        assert(members_jv_seq(ms@) =~= target);
    }
    JsonValue::Obj(ms)
}

/// The filters of `ps` from index `i` on, as JSON objects.
pub fn filters_to_jsons(ps: &Vec<PropertyFilter>, i: usize) -> (r: Vec<JsonValue>)
    requires
        i <= ps.len(),
    ensures
        elems_jv(r, 0) == jvals_of_filters(filters_mv(ps@), i as int),
    decreases ps.len() - i,
{
    proof {
        assert(filters_mv(ps@).len() == ps@.len());
    }
    if i == ps.len() {
        let r: Vec<JsonValue> = Vec::new();
        proof {
            assert(elems_jv(r, 0) =~= jvals_of_filters(filters_mv(ps@), i as int));
        }
        r
    } else {
        let head = filter_to_json(&ps[i]);
        let mut r = filters_to_jsons(ps, i + 1);
        let ghost tail = r;
        r.insert(0, head);
        proof {
            lemma_elems_jv(r, 0);
            lemma_elems_jv(tail, 0);
            assert(filters_mv(ps@)[i as int] == ps@[i as int]@);
            assert(elems_jv(r, 0) =~= seq![jval_view(head)] + elems_jv(tail, 0));
        }
        r
    }
}

/// One rollout group as a JSON object.
pub fn group_to_json(g: &FlagPropertyGroup) -> (r: JsonValue)
    ensures
        r@ == jval_of_group(g@),
{
    let mut ms: Vec<(String, JsonValue)> = Vec::new();
    match &g.properties {
        Some(ps) => {
            ms.push((String::from_str("properties"), JsonValue::Arr(filters_to_jsons(ps, 0))));
        },
        None => {},
    }
    match &g.rollout_percentage {
        Some(n) => {
            ms.push(
                (
                    String::from_str("rollout_percentage"),
                    JsonValue::Num(JsonNumber { text: n.text.clone() }),
                ),
            );
        },
        None => {},
    }
    proof {
        lemma_members_of_vec(ms);
        lemma_members_seq_points(ms@);
        let gm = g@;
        let target = opt_member(
            "properties"@,
            match gm.properties {
                Some(ps) => Some(JVal::Arr(jvals_of_filters(ps, 0))),
                None => None,
            },
        ) + opt_member(
            "rollout_percentage"@,
            match gm.rollout_percentage {
                Some(t) => Some(JVal::Num(t)),
                None => None,
            },
        );
        assert(members_jv_seq(ms@) =~= target);
    }
    JsonValue::Obj(ms)
}

/// The groups of `gs` from index `i` on, as JSON objects.
pub fn groups_to_jsons(gs: &Vec<FlagPropertyGroup>, i: usize) -> (r: Vec<JsonValue>)
    requires
        i <= gs.len(),
    ensures
        elems_jv(r, 0) == jvals_of_groups(groups_mv(gs@), i as int),
    decreases gs.len() - i,
{
    proof {
        assert(groups_mv(gs@).len() == gs@.len());
    }
    if i == gs.len() {
        let r: Vec<JsonValue> = Vec::new();
        proof {
            assert(elems_jv(r, 0) =~= jvals_of_groups(groups_mv(gs@), i as int));
        }
        r
    } else {
        let head = group_to_json(&gs[i]);
        let mut r = groups_to_jsons(gs, i + 1);
        let ghost tail = r;
        r.insert(0, head);
        proof {
            lemma_elems_jv(r, 0);
            lemma_elems_jv(tail, 0);
            assert(groups_mv(gs@)[i as int] == gs@[i as int]@);
            assert(elems_jv(r, 0) =~= seq![jval_view(head)] + elems_jv(tail, 0));
        }
        r
    }
}

/// One multivariate variant as a JSON object.
pub fn variant_to_json(v: &MultivariateFlagVariant) -> (r: JsonValue)
    ensures
        r@ == jval_of_variant(v@),
{
    let mut ms: Vec<(String, JsonValue)> = Vec::new();
    ms.push((String::from_str("key"), JsonValue::Str(v.key.clone())));
    match &v.name {
        Some(n) => {
            ms.push((String::from_str("name"), JsonValue::Str(n.clone())));
        },
        None => {},
    }
    ms.push(
        (
            String::from_str("rollout_percentage"),
            JsonValue::Num(JsonNumber { text: v.rollout_percentage.text.clone() }),
        ),
    );
    proof {
        lemma_members_of_vec(ms);
        lemma_members_seq_points(ms@);
        let vm = v@;
        let target = seq![("key"@, JVal::Str(vm.key))] + opt_member(
            "name"@,
            match vm.name {
                Some(n) => Some(JVal::Str(n)),
                None => None,
            },
        ) + seq![("rollout_percentage"@, JVal::Num(vm.rollout_percentage))];
        assert(members_jv_seq(ms@) =~= target);
    }
    JsonValue::Obj(ms)
}

/// The variants of `vs` from index `i` on, as JSON objects.
pub fn variants_to_jsons(vs: &Vec<MultivariateFlagVariant>, i: usize) -> (r: Vec<JsonValue>)
    requires
        i <= vs.len(),
    ensures
        elems_jv(r, 0) == jvals_of_variants(variants_mv(vs@), i as int),
    decreases vs.len() - i,
{
    proof {
        assert(variants_mv(vs@).len() == vs@.len());
    }
    if i == vs.len() {
        let r: Vec<JsonValue> = Vec::new();
        proof {
            assert(elems_jv(r, 0) =~= jvals_of_variants(variants_mv(vs@), i as int));
        }
        r
    } else {
        let head = variant_to_json(&vs[i]);
        let mut r = variants_to_jsons(vs, i + 1);
        let ghost tail = r;
        r.insert(0, head);
        proof {
            lemma_elems_jv(r, 0);
            lemma_elems_jv(tail, 0);
            assert(variants_mv(vs@)[i as int] == vs@[i as int]@);
            assert(elems_jv(r, 0) =~= seq![jval_view(head)] + elems_jv(tail, 0));
        }
        r
    }
}

/// A flag's filter specification as a JSON object.
pub fn filters_struct_to_json(f: &FlagFilters) -> (r: JsonValue)
    ensures
        r@ == jval_of_filters(f@),
{
    let mut ms: Vec<(String, JsonValue)> = Vec::new();
    ms.push((String::from_str("groups"), JsonValue::Arr(groups_to_jsons(&f.groups, 0))));
    match &f.multivariate {
        Some(m) => {
            let mut inner: Vec<(String, JsonValue)> = Vec::new();
            inner.push(
                (String::from_str("variants"), JsonValue::Arr(variants_to_jsons(&m.variants, 0))),
            );
            proof {
                lemma_members_of_vec(inner);
                lemma_members_seq_points(inner@);
                assert(members_jv(inner, 0) =~= seq![
                    (
                        "variants"@,
                        JVal::Arr(jvals_of_variants(variants_mv(m.variants@), 0)),
                    ),
                ]);
            }
            ms.push((String::from_str("multivariate"), JsonValue::Obj(inner)));
        },
        None => {},
    }
    match f.aggregation_group_type_index {
        Some(g) => {
            ms.push((String::from_str("aggregation_group_type_index"), je_int(g)));
        },
        None => {},
    }
    match &f.payloads {
        Some(p) => {
            ms.push((String::from_str("payloads"), crate::json::clone_value(p)));
        },
        None => {},
    }
    match &f.super_groups {
        Some(gs) => {
            ms.push((String::from_str("super_groups"), JsonValue::Arr(groups_to_jsons(gs, 0))));
        },
        None => {},
    }
    match &f.holdout_groups {
        Some(gs) => {
            ms.push((String::from_str("holdout_groups"), JsonValue::Arr(groups_to_jsons(gs, 0))));
        },
        None => {},
    }
    proof {
        lemma_members_of_vec(ms);
        lemma_members_seq_points(ms@);
        let fm = f@;
        let target = seq![("groups"@, JVal::Arr(jvals_of_groups(fm.groups, 0)))] + opt_member(
            "multivariate"@,
            match fm.multivariate {
                Some(vs) => Some(
                    JVal::Obj(seq![("variants"@, JVal::Arr(jvals_of_variants(vs, 0)))]),
                ),
                None => None,
            },
        ) + opt_member(
            "aggregation_group_type_index"@,
            match fm.aggregation_group_type_index {
                Some(g) => Some(JVal::Num(render_int(g))),
                None => None,
            },
        ) + opt_member("payloads"@, fm.payloads) + opt_member(
            "super_groups"@,
            match fm.super_groups {
                Some(gs) => Some(JVal::Arr(jvals_of_groups(gs, 0))),
                None => None,
            },
        ) + opt_member(
            "holdout_groups"@,
            match fm.holdout_groups {
                Some(gs) => Some(JVal::Arr(jvals_of_groups(gs, 0))),
                None => None,
            },
        );
        assert(members_jv_seq(ms@) =~= target);
    }
    JsonValue::Obj(ms)
}

/// One flag as a JSON object.
pub fn flag_to_json(f: &FeatureFlag) -> (r: JsonValue)
    ensures
        r@ == jval_of_flag(f@),
{
    let mut ms: Vec<(String, JsonValue)> = Vec::new();
    ms.push((String::from_str("id"), je_int(f.id)));
    ms.push((String::from_str("team_id"), je_int(f.team_id)));
    match &f.name {
        Some(n) => {
            ms.push((String::from_str("name"), JsonValue::Str(n.clone())));
        },
        None => {},
    }
    ms.push((String::from_str("key"), JsonValue::Str(f.key.clone())));
    ms.push((String::from_str("filters"), filters_struct_to_json(&f.filters)));
    ms.push((String::from_str("deleted"), JsonValue::Bool(f.deleted)));
    ms.push((String::from_str("active"), JsonValue::Bool(f.active)));
    ms.push(
        (
            String::from_str("ensure_experience_continuity"),
            JsonValue::Bool(f.ensure_experience_continuity),
        ),
    );
    match f.version {
        Some(v) => {
            ms.push((String::from_str("version"), je_int(v)));
        },
        None => {},
    }
    proof {
        lemma_members_of_vec(ms);
        lemma_members_seq_points(ms@);
        let m = f@;
        let target = seq![
            ("id"@, JVal::Num(render_int(m.id))),
            ("team_id"@, JVal::Num(render_int(m.team_id))),
        ] + opt_member(
            "name"@,
            match m.name {
                Some(n) => Some(JVal::Str(n)),
                None => None,
            },
        ) + seq![
            ("key"@, JVal::Str(m.key)),
            ("filters"@, jval_of_filters(m.filters)),
            ("deleted"@, JVal::Bool(m.deleted)),
            ("active"@, JVal::Bool(m.active)),
            ("ensure_experience_continuity"@, JVal::Bool(m.ensure_experience_continuity)),
        ] + opt_member(
            "version"@,
            match m.version {
                Some(v) => Some(JVal::Num(render_int(v))),
                None => None,
            },
        );
        assert(members_jv_seq(ms@) =~= target);
    }
    JsonValue::Obj(ms)
}

/// The flags of `fs` from index `i` on, as JSON objects.
pub fn flags_to_jsons(fs: &Vec<FeatureFlag>, i: usize) -> (r: Vec<JsonValue>)
    requires
        i <= fs.len(),
    ensures
        elems_jv(r, 0) == jvals_of_flags(flags_mv(fs@), i as int),
    decreases fs.len() - i,
{
    proof {
        assert(flags_mv(fs@).len() == fs@.len());
    }
    if i == fs.len() {
        let r: Vec<JsonValue> = Vec::new();
        proof {
            assert(elems_jv(r, 0) =~= jvals_of_flags(flags_mv(fs@), i as int));
        }
        r
    } else {
        let head = flag_to_json(&fs[i]);
        let mut r = flags_to_jsons(fs, i + 1);
        let ghost tail = r;
        r.insert(0, head);
        proof {
            lemma_elems_jv(r, 0);
            lemma_elems_jv(tail, 0);
            assert(flags_mv(fs@)[i as int] == fs@[i as int]@);
            assert(elems_jv(r, 0) =~= seq![jval_view(head)] + elems_jv(tail, 0));
        }
        r
    }
}


// --- executable decoding ---

fn int_field(v: &JsonValue) -> (r: Option<i32>)
    ensures
        match int_field_of(v@) {
            Some(x) => r matches Some(y) && y as int == x,
            None => r is None,
        },
{
    match v {
        JsonValue::Num(n) => match n.as_i64() {
            Some(x) => {
                if -2147483648i64 <= x && x <= 2147483647i64 {
                    Some(x as i32)
                } else {
                    None
                }
            },
            None => None,
        },
        _ => None,
    }
}

fn op_from_name(s: &String) -> (r: Option<OperatorType>)
    ensures
        r == op_of_name(s@),
{
    if *s == String::from_str("exact") {
        Some(OperatorType::Exact)
    } else if *s == String::from_str("is_not") {
        Some(OperatorType::IsNot)
    } else if *s == String::from_str("icontains") {
        Some(OperatorType::Icontains)
    } else if *s == String::from_str("not_icontains") {
        Some(OperatorType::NotIcontains)
    } else if *s == String::from_str("regex") {
        Some(OperatorType::Regex)
    } else if *s == String::from_str("not_regex") {
        Some(OperatorType::NotRegex)
    } else if *s == String::from_str("gt") {
        Some(OperatorType::Gt)
    } else if *s == String::from_str("lt") {
        Some(OperatorType::Lt)
    } else if *s == String::from_str("gte") {
        Some(OperatorType::Gte)
    } else if *s == String::from_str("lte") {
        Some(OperatorType::Lte)
    } else if *s == String::from_str("is_set") {
        Some(OperatorType::IsSet)
    } else if *s == String::from_str("is_not_set") {
        Some(OperatorType::IsNotSet)
    } else if *s == String::from_str("is_date_exact") {
        Some(OperatorType::IsDateExact)
    } else if *s == String::from_str("is_date_after") {
        Some(OperatorType::IsDateAfter)
    } else if *s == String::from_str("is_date_before") {
        Some(OperatorType::IsDateBefore)
    } else {
        None
    }
}

fn ptype_from_name(s: &String) -> (r: Option<PropertyType>)
    ensures
        r == ptype_of_name(s@),
{
    if *s == String::from_str("person") {
        Some(PropertyType::Person)
    } else if *s == String::from_str("event") {
        Some(PropertyType::Event)
    } else if *s == String::from_str("group") {
        Some(PropertyType::Group)
    } else if *s == String::from_str("cohort") {
        Some(PropertyType::Cohort)
    } else if *s == String::from_str("flag") {
        Some(PropertyType::Flag)
    } else {
        None
    }
}

/// A named field whose absence and `null` both mean none.
fn opt_lookup<'a>(ms: &'a Vec<(String, JsonValue)>, name: &String) -> (r: Option<&'a JsonValue>)
    ensures
        match opt_field(members_jv(*ms, 0), name@) {
            Some(j) => r matches Some(v) && v@ == j,
            None => r is None,
        },
{
    match obj_lookup(ms, name) {
        Some(v) => {
            if let JsonValue::Null = v {
                None
            } else {
                Some(v)
            }
        },
        None => None,
    }
}

/// One property filter read from a JSON value.
pub fn filter_from_json(v: &JsonValue) -> (r: Option<PropertyFilter>)
    ensures
        match filter_of_jval(v@) {
            Some(fm) => r matches Some(ff) && ff@ == fm,
            None => r is None,
        },
{
    match v {
        JsonValue::Obj(ms) => {
            let key: String = match obj_lookup(ms, &String::from_str("key")) {
                Some(JsonValue::Str(k)) => k.clone(),
                _ => {
                    return None;
                },
            };
            let prop_type: PropertyType = match obj_lookup(ms, &String::from_str("type")) {
                Some(JsonValue::Str(tn)) => match ptype_from_name(tn) {
                    Some(t) => t,
                    None => {
                        return None;
                    },
                },
                _ => {
                    return None;
                },
            };
            let operator: Option<OperatorType> = match opt_lookup(ms, &String::from_str(
                "operator",
            )) {
                Some(JsonValue::Str(on)) => match op_from_name(on) {
                    Some(op) => Some(op),
                    None => {
                        return None;
                    },
                },
                Some(_) => {
                    return None;
                },
                None => None,
            };
            let group_type_index: Option<i32> = match opt_lookup(ms, &String::from_str(
                "group_type_index",
            )) {
                Some(gv) => match int_field(gv) {
                    Some(g) => Some(g),
                    None => {
                        return None;
                    },
                },
                None => None,
            };
            let value: Option<JsonValue> = match opt_lookup(ms, &String::from_str("value")) {
                Some(vv) => Some(crate::json::clone_value(vv)),
                None => None,
            };
            let ff = PropertyFilter { key, value, operator, prop_type, group_type_index };
            proof {
                assert(ff@ =~= filter_of_jval(v@)->Some_0);
            }
            Some(ff)
        },
        _ => None,
    }
}

/// The filters of a JSON array, from index `i` on.
pub fn filters_from_jsons(es: &Vec<JsonValue>, i: usize) -> (r: Option<Vec<PropertyFilter>>)
    requires
        i <= es.len(),
    ensures
        match filters_of_jvals(elems_jv(*es, 0), i as int) {
            Some(fs) => r matches Some(out) && filters_mv(out@) == fs,
            None => r is None,
        },
    decreases es.len() - i,
{
    proof {
        lemma_elems_jv(*es, 0);
    }
    if i == es.len() {
        let out: Vec<PropertyFilter> = Vec::new();
        proof {
            assert(filters_mv(out@) =~= Seq::<PropertyFilterModel>::empty());
        }
        Some(out)
    } else {
        proof {
            assert(elems_jv(*es, 0)[i as int] == jval_view(es@[i as int]));
        }
        match filter_from_json(&es[i]) {
            None => None,
            Some(ff) => {
                match filters_from_jsons(es, i + 1) {
                    None => None,
                    Some(tail) => {
                        let mut out = tail;
                        let ghost tl = out@;
                        out.insert(0, ff);
                        proof {
                            assert(filters_mv(out@) =~= seq![ff@] + filters_mv(tl));
                        }
                        Some(out)
                    },
                }
            },
        }
    }
}

/// One rollout group read from a JSON value.
pub fn group_from_json(v: &JsonValue) -> (r: Option<FlagPropertyGroup>)
    ensures
        match group_of_jval(v@) {
            Some(gm) => r matches Some(g) && g@ == gm,
            None => r is None,
        },
{
    match v {
        JsonValue::Obj(ms) => {
            let properties: Option<Vec<PropertyFilter>> = match opt_lookup(ms, &String::from_str(
                "properties",
            )) {
                Some(JsonValue::Arr(es)) => match filters_from_jsons(es, 0) {
                    Some(fs) => Some(fs),
                    None => {
                        return None;
                    },
                },
                Some(_) => {
                    return None;
                },
                None => None,
            };
            let rollout_percentage: Option<JsonNumber> = match opt_lookup(ms, &String::from_str(
                "rollout_percentage",
            )) {
                Some(JsonValue::Num(n)) => Some(JsonNumber { text: n.text.clone() }),
                Some(_) => {
                    return None;
                },
                None => None,
            };
            let g = FlagPropertyGroup { properties, rollout_percentage };
            proof {
                assert(g@ =~= group_of_jval(v@)->Some_0);
            }
            Some(g)
        },
        _ => None,
    }
}

/// The groups of a JSON array, from index `i` on.
pub fn groups_from_jsons(es: &Vec<JsonValue>, i: usize) -> (r: Option<Vec<FlagPropertyGroup>>)
    requires
        i <= es.len(),
    ensures
        match groups_of_jvals(elems_jv(*es, 0), i as int) {
            Some(gs) => r matches Some(out) && groups_mv(out@) == gs,
            None => r is None,
        },
    decreases es.len() - i,
{
    proof {
        lemma_elems_jv(*es, 0);
    }
    if i == es.len() {
        let out: Vec<FlagPropertyGroup> = Vec::new();
        proof {
            assert(groups_mv(out@) =~= Seq::<GroupModel>::empty());
        }
        Some(out)
    } else {
        proof {
            assert(elems_jv(*es, 0)[i as int] == jval_view(es@[i as int]));
        }
        match group_from_json(&es[i]) {
            None => None,
            Some(g) => {
                match groups_from_jsons(es, i + 1) {
                    None => None,
                    Some(tail) => {
                        let mut out = tail;
                        let ghost tl = out@;
                        out.insert(0, g);
                        proof {
                            assert(groups_mv(out@) =~= seq![g@] + groups_mv(tl));
                        }
                        Some(out)
                    },
                }
            },
        }
    }
}

/// One multivariate variant read from a JSON value.
pub fn variant_from_json(v: &JsonValue) -> (r: Option<MultivariateFlagVariant>)
    ensures
        match variant_of_jval(v@) {
            Some(vm) => r matches Some(mv) && mv@ == vm,
            None => r is None,
        },
{
    match v {
        JsonValue::Obj(ms) => {
            let key: String = match obj_lookup(ms, &String::from_str("key")) {
                Some(JsonValue::Str(k)) => k.clone(),
                _ => {
                    return None;
                },
            };
            let name: Option<String> = match opt_lookup(ms, &String::from_str("name")) {
                Some(JsonValue::Str(n)) => Some(n.clone()),
                Some(_) => {
                    return None;
                },
                None => None,
            };
            let rollout_percentage: JsonNumber = match obj_lookup(ms, &String::from_str(
                "rollout_percentage",
            )) {
                Some(JsonValue::Num(n)) => JsonNumber { text: n.text.clone() },
                _ => {
                    return None;
                },
            };
            let mv = MultivariateFlagVariant { key, name, rollout_percentage };
            proof {
                assert(mv@ =~= variant_of_jval(v@)->Some_0);
            }
            Some(mv)
        },
        _ => None,
    }
}

/// The variants of a JSON array, from index `i` on.
pub fn variants_from_jsons(es: &Vec<JsonValue>, i: usize) -> (r: Option<
    Vec<MultivariateFlagVariant>,
>)
    requires
        i <= es.len(),
    ensures
        match variants_of_jvals(elems_jv(*es, 0), i as int) {
            Some(vs) => r matches Some(out) && variants_mv(out@) == vs,
            None => r is None,
        },
    decreases es.len() - i,
{
    proof {
        lemma_elems_jv(*es, 0);
    }
    if i == es.len() {
        let out: Vec<MultivariateFlagVariant> = Vec::new();
        proof {
            assert(variants_mv(out@) =~= Seq::<VariantModel>::empty());
        }
        Some(out)
    } else {
        proof {
            assert(elems_jv(*es, 0)[i as int] == jval_view(es@[i as int]));
        }
        match variant_from_json(&es[i]) {
            None => None,
            Some(mv) => {
                match variants_from_jsons(es, i + 1) {
                    None => None,
                    Some(tail) => {
                        let mut out = tail;
                        let ghost tl = out@;
                        out.insert(0, mv);
                        proof {
                            assert(variants_mv(out@) =~= seq![mv@] + variants_mv(tl));
                        }
                        Some(out)
                    },
                }
            },
        }
    }
}

/// A flag's filter specification read from a JSON value.
pub fn filters_struct_from_json(v: &JsonValue) -> (r: Option<FlagFilters>)
    ensures
        match filters_model_of_jval(v@) {
            Some(fm) => r matches Some(f) && f@ == fm,
            None => r is None,
        },
{
    match v {
        JsonValue::Obj(ms) => {
            let groups: Vec<FlagPropertyGroup> = match obj_lookup(ms, &String::from_str("groups"))
                {
                Some(JsonValue::Arr(es)) => match groups_from_jsons(es, 0) {
                    Some(gs) => gs,
                    None => {
                        return None;
                    },
                },
                Some(_) => {
                    return None;
                },
                None => Vec::new(),
            };
            let multivariate: Option<MultivariateFlagOptions> = match opt_lookup(
                ms,
                &String::from_str("multivariate"),
            ) {
                Some(JsonValue::Obj(mm)) => match obj_lookup(mm, &String::from_str("variants")) {
                    Some(JsonValue::Arr(es)) => match variants_from_jsons(es, 0) {
                        Some(vs) => Some(MultivariateFlagOptions { variants: vs }),
                        None => {
                            return None;
                        },
                    },
                    _ => {
                        return None;
                    },
                },
                Some(_) => {
                    return None;
                },
                None => None,
            };
            let aggregation_group_type_index: Option<i32> = match opt_lookup(
                ms,
                &String::from_str("aggregation_group_type_index"),
            ) {
                Some(gv) => match int_field(gv) {
                    Some(g) => Some(g),
                    None => {
                        return None;
                    },
                },
                None => None,
            };
            let payloads: Option<JsonValue> = match opt_lookup(ms, &String::from_str("payloads"))
                {
                Some(p) => Some(crate::json::clone_value(p)),
                None => None,
            };
            let super_groups: Option<Vec<FlagPropertyGroup>> = match opt_lookup(
                ms,
                &String::from_str("super_groups"),
            ) {
                Some(JsonValue::Arr(es)) => match groups_from_jsons(es, 0) {
                    Some(gs) => Some(gs),
                    None => {
                        return None;
                    },
                },
                Some(_) => {
                    return None;
                },
                None => None,
            };
            let holdout_groups: Option<Vec<FlagPropertyGroup>> = match opt_lookup(
                ms,
                &String::from_str("holdout_groups"),
            ) {
                Some(JsonValue::Arr(es)) => match groups_from_jsons(es, 0) {
                    Some(gs) => Some(gs),
                    None => {
                        return None;
                    },
                },
                Some(_) => {
                    return None;
                },
                None => None,
            };
            let f = FlagFilters {
                groups,
                multivariate,
                aggregation_group_type_index,
                payloads,
                super_groups,
                holdout_groups,
            };
            proof {
                assert(groups_mv(Seq::<FlagPropertyGroup>::empty()) =~= Seq::<
                    GroupModel,
                >::empty());
                assert(f@ =~= filters_model_of_jval(v@)->Some_0);
            }
            Some(f)
        },
        _ => None,
    }
}

/// One flag read from a JSON value.
pub fn flag_from_json(v: &JsonValue) -> (r: Option<FeatureFlag>)
    ensures
        match flag_of_jval(v@) {
            Some(m) => r matches Some(f) && f@ == m,
            None => r is None,
        },
{
    match v {
        JsonValue::Obj(ms) => {
            let id: i32 = match obj_lookup(ms, &String::from_str("id")) {
                Some(iv) => match int_field(iv) {
                    Some(x) => x,
                    None => {
                        return None;
                    },
                },
                None => {
                    return None;
                },
            };
            let team_id: i32 = match obj_lookup(ms, &String::from_str("team_id")) {
                Some(iv) => match int_field(iv) {
                    Some(x) => x,
                    None => {
                        return None;
                    },
                },
                None => {
                    return None;
                },
            };
            let name: Option<String> = match opt_lookup(ms, &String::from_str("name")) {
                Some(JsonValue::Str(n)) => Some(n.clone()),
                Some(_) => {
                    return None;
                },
                None => None,
            };
            let key: String = match obj_lookup(ms, &String::from_str("key")) {
                Some(JsonValue::Str(k)) => k.clone(),
                _ => {
                    return None;
                },
            };
            let filters: FlagFilters = match obj_lookup(ms, &String::from_str("filters")) {
                Some(fv) => match filters_struct_from_json(fv) {
                    Some(f) => f,
                    None => {
                        return None;
                    },
                },
                None => {
                    return None;
                },
            };
            let version: Option<i32> = match opt_lookup(ms, &String::from_str("version")) {
                Some(vv) => match int_field(vv) {
                    Some(x) => Some(x),
                    None => {
                        return None;
                    },
                },
                None => None,
            };
            let deleted: bool = match obj_lookup(ms, &String::from_str("deleted")) {
                Some(JsonValue::Bool(b)) => *b,
                Some(_) => {
                    return None;
                },
                None => false,
            };
            let active: bool = match obj_lookup(ms, &String::from_str("active")) {
                Some(JsonValue::Bool(b)) => *b,
                Some(_) => {
                    return None;
                },
                None => false,
            };
            let ensure_experience_continuity: bool = match obj_lookup(
                ms,
                &String::from_str("ensure_experience_continuity"),
            ) {
                Some(JsonValue::Bool(b)) => *b,
                Some(_) => {
                    return None;
                },
                None => false,
            };
            let f = FeatureFlag {
                id,
                team_id,
                name,
                key,
                filters,
                deleted,
                active,
                ensure_experience_continuity,
                version,
            };
            proof {
                assert(f@ =~= flag_of_jval(v@)->Some_0);
            }
            Some(f)
        },
        _ => None,
    }
}

/// The flags of a JSON array, from index `i` on.
pub fn flags_from_jsons(es: &Vec<JsonValue>, i: usize) -> (r: Option<Vec<FeatureFlag>>)
    requires
        i <= es.len(),
    ensures
        match flags_of_jvals(elems_jv(*es, 0), i as int) {
            Some(fs) => r matches Some(out) && flags_mv(out@) == fs,
            None => r is None,
        },
    decreases es.len() - i,
{
    proof {
        lemma_elems_jv(*es, 0);
    }
    if i == es.len() {
        let out: Vec<FeatureFlag> = Vec::new();
        proof {
            assert(flags_mv(out@) =~= Seq::<FlagModel>::empty());
        }
        Some(out)
    } else {
        proof {
            assert(elems_jv(*es, 0)[i as int] == jval_view(es@[i as int]));
        }
        match flag_from_json(&es[i]) {
            None => None,
            Some(f) => {
                match flags_from_jsons(es, i + 1) {
                    None => None,
                    Some(tail) => {
                        let mut out = tail;
                        let ghost tl = out@;
                        out.insert(0, f);
                        proof {
                            assert(flags_mv(out@) =~= seq![f@] + flags_mv(tl));
                        }
                        Some(out)
                    },
                }
            },
        }
    }
}

// --- text level ---

/// A project's flags as their cache text: one JSON array of flags.
pub fn encode_flags_text(fs: &Vec<FeatureFlag>) -> (r: String)
    ensures
        r@ == spec_encode_flags(flags_mv(fs@)),
{
    let doc = JsonValue::Arr(flags_to_jsons(fs, 0));
    crate::json::render_text(&doc)
}

/// A project's flags read back from cache text.
pub fn decode_flags_text(s: &str) -> (r: Option<Vec<FeatureFlag>>)
    ensures
        match spec_decode_flags(s@) {
            Some(ms) => r matches Some(out) && flags_mv(out@) == ms,
            None => r is None,
        },
{
    match crate::json::parse_text(s) {
        Some(doc) => {
            match &doc {
                JsonValue::Arr(es) => flags_from_jsons(es, 0),
                _ => None,
            }
        },
        None => None,
    }
}

} // verus!
