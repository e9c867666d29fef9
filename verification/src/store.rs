//! The compute half of the dual-source flag store: decoding a cached
//! payload, turning authoritative-store rows into a flag list, and
//! encoding the list for the cache. The store's reads and writes
//! themselves happen at the caller's edge; everything that decides is
//! here.

use vstd::prelude::*;
use crate::codec::{
    decode_flags_text, encode_flags_text, filters_model_of_jval, filters_struct_from_json,
    spec_decode_flags, spec_encode_flags,
};
use crate::errors::FlagError;
use crate::json::{parse_document, string_from_chars};
use crate::model::{
    FeatureFlag, FeatureFlagList, FiltersModel, FlagFilters, FlagModel, flags_mv, view_opt_i32,
    view_opt_string,
};
use crate::numtext::{i64_to_chars, render_int};

verus! {

/// What a cache read at the edge came back with: a payload, no entry, or
/// no answer from the service.
#[derive(Debug, PartialEq, Eq)]
pub enum CacheRead {
    Hit(String),
    Miss,
    Unavailable,
}

/// One row of the authoritative store's flag query, its filter document
/// still as text.
#[derive(Debug, PartialEq, Eq)]
pub struct FeatureFlagRow {
    pub id: i32,
    pub team_id: i32,
    pub name: Option<String>,
    pub key: String,
    pub filters: String,
    pub deleted: bool,
    pub active: bool,
    pub ensure_experience_continuity: bool,
    pub version: Option<i32>,
}

#[verifier::ext_equal]
pub struct RowModel {
    pub id: int,
    pub team_id: int,
    pub name: Option<Seq<char>>,
    pub key: Seq<char>,
    pub filters: Seq<char>,
    pub deleted: bool,
    pub active: bool,
    pub ensure_experience_continuity: bool,
    pub version: Option<int>,
}

impl View for FeatureFlagRow {
    type V = RowModel;

    open spec fn view(&self) -> RowModel {
        RowModel {
            id: self.id as int,
            team_id: self.team_id as int,
            name: view_opt_string(self.name),
            key: self.key@,
            filters: self.filters@,
            deleted: self.deleted,
            active: self.active,
            ensure_experience_continuity: self.ensure_experience_continuity,
            version: view_opt_i32(self.version),
        }
    }
}

pub open spec fn rows_mv(s: Seq<FeatureFlagRow>) -> Seq<RowModel> {
    Seq::new(s.len(), |i: int| s[i]@)
}

/// A row's filter document read as a filter specification: one JSON
/// object filling the text.
pub open spec fn spec_decode_filters(s: Seq<char>) -> Option<FiltersModel> {
    match parse_document(s) {
        Some(j) => filters_model_of_jval(j),
        None => None,
    }
}

/// The flag a row describes, once its filter document is decoded.
pub open spec fn flag_of_row(r: RowModel, fm: FiltersModel) -> FlagModel {
    FlagModel {
        id: r.id,
        team_id: r.team_id,
        name: r.name,
        key: r.key,
        filters: fm,
        deleted: r.deleted,
        active: r.active,
        ensure_experience_continuity: r.ensure_experience_continuity,
        version: r.version,
    }
}

/// The flag list a row set yields, from index `i` on: rows that are
/// deleted or inactive are excluded; a kept row whose filter document
/// does not decode fails the whole set.
pub open spec fn spec_rows_decode(rows: Seq<RowModel>, i: int) -> Option<Seq<FlagModel>>
    decreases rows.len() - i,
{
    if i < 0 || i >= rows.len() {
        Some(Seq::empty())
    } else {
        let row = rows[i];
        if row.deleted || !row.active {
            spec_rows_decode(rows, i + 1)
        } else {
            match spec_decode_filters(row.filters) {
                Some(fm) => match spec_rows_decode(rows, i + 1) {
                    Some(rest) => Some(seq![flag_of_row(row, fm)] + rest),
                    None => None,
                },
                None => None,
            }
        }
    }
}

/// Every flag a successful row decode yields is active and not deleted.
pub proof fn lemma_rows_decode_filtered(rows: Seq<RowModel>, i: int)
    requires
        0 <= i <= rows.len(),
    ensures
        spec_rows_decode(rows, i) matches Some(ms) ==> forall|k: int|
            0 <= k < ms.len() ==> (#[trigger] ms[k]).active && !ms[k].deleted,
    decreases rows.len() - i,
{
    if i < rows.len() {
        lemma_rows_decode_filtered(rows, i + 1);
        let row = rows[i];
        if !(row.deleted || !row.active) {
            match spec_decode_filters(row.filters) {
                Some(fm) => {
                    match spec_rows_decode(rows, i + 1) {
                        Some(rest) => {
                            let ms = spec_rows_decode(rows, i)->Some_0;
                            assert(ms == seq![flag_of_row(row, fm)] + rest);
                            assert forall|k: int|
                                0 <= k < ms.len() implies (#[trigger] ms[k]).active
                                && !ms[k].deleted by {
                                if k == 0 {
                                    assert(ms[0] == flag_of_row(row, fm));
                                } else {
                                    assert(ms[k] == rest[k - 1]);
                                }
                            }
                        },
                        None => {},
                    }
                },
                None => {},
            }
        }
    }
}

/// The fixed key prefix under which a project's flags are cached.
pub fn team_flags_cache_prefix() -> (r: &'static str)
    ensures
        r@ == "posthog:1:team_feature_flags_"@,
{
    "posthog:1:team_feature_flags_"
}

/// The cache key of a project: the fixed prefix, then the project id in
/// decimal.
pub open spec fn spec_cache_key(project_id: int) -> Seq<char> {
    "posthog:1:team_feature_flags_"@ + render_int(project_id)
}

pub fn cache_key(project_id: i64) -> (r: String)
    ensures
        r@ == spec_cache_key(project_id as int),
{
    let mut s = String::from_str(team_flags_cache_prefix());
    let digits = i64_to_chars(project_id);
    let tail = string_from_chars(&digits);
    s.append(tail.as_str());
    s
}

impl FeatureFlagList {
    /// The flag list held in a cache payload. A payload that is not one
    /// JSON array of flags is corrupt — a producer bug, surfaced as its
    /// own error kind and never treated as a miss.
    pub fn from_cache_payload(payload: &str) -> (r: Result<FeatureFlagList, FlagError>)
        ensures
            match spec_decode_flags(payload@) {
                Some(ms) => r matches Ok(l) && l@ == ms,
                None => r matches Err(e) && e == FlagError::RedisDataParsingError,
            },
    {
        match decode_flags_text(payload) {
            Some(flags) => Ok(FeatureFlagList { flags }),
            None => Err(FlagError::RedisDataParsingError),
        }
    }

    /// What a cache read yields: the decoded list on a hit, a miss or an
    /// unreachable cache as their distinct recoverable error kinds, and a
    /// corrupt payload as a hard error.
    pub fn from_cache_read(read: CacheRead) -> (r: Result<FeatureFlagList, FlagError>)
        ensures
            match read {
                CacheRead::Hit(payload) => match spec_decode_flags(payload@) {
                    Some(ms) => r matches Ok(l) && l@ == ms,
                    None => r matches Err(e) && e == FlagError::RedisDataParsingError,
                },
                CacheRead::Miss => r matches Err(e) && e == FlagError::TokenValidationError,
                CacheRead::Unavailable => r matches Err(e) && e == FlagError::RedisUnavailable,
            },
    {
        match read {
            CacheRead::Hit(payload) => Self::from_cache_payload(payload.as_str()),
            CacheRead::Miss => Err(FlagError::TokenValidationError),
            CacheRead::Unavailable => Err(FlagError::RedisUnavailable),
        }
    }

    /// The flag list an authoritative-store row set yields. Deleted and
    /// inactive rows are excluded; zero rows is an empty list, never an
    /// error; one kept row whose filter document does not decode aborts
    /// the whole fetch, so a project's flag set is all or nothing.
    pub fn from_rows(rows: &Vec<FeatureFlagRow>) -> (r: Result<FeatureFlagList, FlagError>)
        ensures
            match spec_rows_decode(rows_mv(rows@), 0) {
                Some(ms) => r matches Ok(l) && l@ == ms,
                None => r matches Err(e) && e == FlagError::DeserializeFiltersError,
            },
            r matches Ok(l) ==> forall|k: int|
                0 <= k < l@.len() ==> (#[trigger] l@[k]).active && !l@[k].deleted,
    {
        proof {
            lemma_rows_decode_filtered(rows_mv(rows@), 0);
        }
        match Self::rows_decode(rows, 0) {
            Some(flags) => Ok(FeatureFlagList { flags }),
            None => Err(FlagError::DeserializeFiltersError),
        }
    }

    fn rows_decode(rows: &Vec<FeatureFlagRow>, i: usize) -> (r: Option<Vec<FeatureFlag>>)
        requires
            i <= rows.len(),
        ensures
            match spec_rows_decode(rows_mv(rows@), i as int) {
                Some(ms) => r matches Some(out) && flags_mv(out@) == ms,
                None => r is None,
            },
        decreases rows.len() - i,
    {
        proof {
            assert(rows_mv(rows@).len() == rows@.len());
        }
        if i == rows.len() {
            let out: Vec<FeatureFlag> = Vec::new();
            proof {
                assert(flags_mv(out@) =~= Seq::<FlagModel>::empty());
            }
            Some(out)
        } else {
            let row = &rows[i];
            proof {
                assert(rows_mv(rows@)[i as int] == rows@[i as int]@);
            }
            if row.deleted || !row.active {
                Self::rows_decode(rows, i + 1)
            } else {
                match Self::decode_filters_text(row.filters.as_str()) {
                    None => None,
                    Some(filters) => {
                        match Self::rows_decode(rows, i + 1) {
                            None => None,
                            Some(tail) => {
                                let name: Option<String> = match &row.name {
                                    Some(n) => Some(n.clone()),
                                    None => None,
                                };
                                let f = FeatureFlag {
                                    id: row.id,
                                    team_id: row.team_id,
                                    name,
                                    key: row.key.clone(),
                                    filters,
                                    deleted: row.deleted,
                                    active: row.active,
                                    ensure_experience_continuity: row.ensure_experience_continuity,
                                    version: row.version,
                                };
                                let mut out = tail;
                                let ghost tl = out@;
                                out.insert(0, f);
                                proof {
                                    assert(f@ =~= flag_of_row(
                                        rows@[i as int]@,
                                        spec_decode_filters(rows@[i as int]@.filters)->Some_0,
                                    ));
                                    assert(flags_mv(out@) =~= seq![f@] + flags_mv(tl));
                                }
                                Some(out)
                            },
                        }
                    },
                }
            }
        }
    }

    /// A row's filter document read as a filter set.
    fn decode_filters_text(s: &str) -> (r: Option<FlagFilters>)
        ensures
            match spec_decode_filters(s@) {
                Some(fm) => r matches Some(f) && f@ == fm,
                None => r is None,
            },
    {
        match crate::json::parse_text(s) {
            Some(doc) => filters_struct_from_json(&doc),
            None => None,
        }
    }

    /// The list serialized for the cache: one atomic value, so concurrent
    /// readers observe either the old or the new list, never a partial
    /// one.
    pub fn to_cache_payload(&self) -> (r: String)
        ensures
            r@ == spec_encode_flags(self@),
    {
        encode_flags_text(&self.flags)
    }
}

} // verus!
