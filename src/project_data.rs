//! A project's record and the decision whether a key, presented with an
//! optional origin, may be used.
use vstd::prelude::*;

use crate::error::AccessError;
use crate::origin::{origin_matches, parse_origin, Origin, OriginParseError, OriginView};

verus! {

/// Which allow-list, and which matching mode, applies to a presented origin.
#[derive(Debug, Clone, Copy, PartialEq, Eq, Structural)]
pub enum OriginSource {
    Header,
    BundleId,
    PackageName,
}

/// An API key of a project.
#[derive(Debug, PartialEq, Eq, Hash, Clone)]
pub struct ProjectKey {
    pub value: String,
    pub is_valid: bool,
}

/// A project's record as the registry holds it.
#[derive(Debug, PartialEq, Eq, Hash, Clone)]
pub struct ProjectData {
    pub uuid: String,
    pub creator: String,
    pub name: String,
    pub push_url: Option<String>,
    pub keys: Vec<ProjectKey>,
    pub is_enabled: bool,
    pub is_verify_enabled: bool,
    pub is_rate_limited: bool,
    pub allowed_origins: Vec<String>,
    pub verified_domains: Vec<String>,
    pub bundle_ids: Vec<String>,
    pub package_names: Vec<String>,
}

#[derive(Debug, PartialEq, Eq, Hash, Clone)]
pub struct ProjectDataWithQuota {
    pub project_data: ProjectData,
    pub quota: Quota,
}

#[derive(Debug, PartialEq, Eq, Hash, Clone)]
pub struct Quota {
    pub max: u64,
    pub current: u64,
    pub is_valid: bool,
}

#[derive(Debug, PartialEq, Eq, Hash, Clone)]
pub struct ProjectDataWithLimits {
    pub data: ProjectData,
    pub limits: PlanLimits,
}

#[derive(Debug, PartialEq, Eq, Hash, Clone)]
pub struct PlanLimits {
    pub tier: String,
    pub is_above_rpc_limit: bool,
    pub is_above_mau_limit: bool,
}

// ---------------------------------------------------------------------------
// The decision, as a mathematical function
// ---------------------------------------------------------------------------

/// The texts of a list of strings.
pub open spec fn strings_view(v: Seq<String>) -> Seq<Seq<char>> {
    v.map_values(|s: String| s@)
}

/// Some key of `keys` has the value `id` and is valid.
pub open spec fn has_valid_key(keys: Seq<ProjectKey>, id: Seq<char>) -> bool {
    exists|i: int| 0 <= i < keys.len() && #[trigger] keys[i].value@ == id && keys[i].is_valid
}

/// The hostnames of local development, which every header origin may use.
pub open spec fn is_local_host(hostname: Seq<char>) -> bool {
    hostname == "localhost"@ || hostname == "127.0.0.1"@
}

/// The allow-list entry `entry` admits `origin`: it parses, and matches
/// `origin` forwards or, with `allow_reverse`, backwards.
pub open spec fn entry_allows(entry: Seq<char>, origin: OriginView, allow_reverse: bool) -> bool {
    match parse_origin(entry) {
        Ok(e) => origin_matches(e, origin, false) || (allow_reverse && origin_matches(
            e,
            origin,
            true,
        )),
        Err(_) => false,
    }
}

/// An empty list admits everything; otherwise some entry must admit `origin`.
pub open spec fn allow_list_decision(
    list: Seq<Seq<char>>,
    origin: OriginView,
    allow_reverse: bool,
) -> Result<(), AccessError> {
    if list.len() == 0 || exists|i: int|
        0 <= i < list.len() && #[trigger] entry_allows(list[i], origin, allow_reverse) {
        Ok(())
    } else {
        Err(AccessError::OriginNotAllowed)
    }
}

/// The check of a parsed origin against the allow-list of its source.
pub open spec fn origin_decision(p: ProjectData, origin: OriginView, source: OriginSource) -> Result<
    (),
    AccessError,
> {
    match source {
        OriginSource::Header => if is_local_host(origin.hostname) {
            Ok(())
        } else {
            allow_list_decision(strings_view(p.allowed_origins@), origin, true)
        },
        OriginSource::BundleId => allow_list_decision(strings_view(p.bundle_ids@), origin, false),
        OriginSource::PackageName => allow_list_decision(
            strings_view(p.package_names@),
            origin,
            false,
        ),
    }
}

/// Whether project `p` grants key `id`, presented with an optional origin.
pub open spec fn access_decision(
    p: ProjectData,
    id: Seq<char>,
    presented: Option<(Seq<char>, OriginSource)>,
) -> Result<(), AccessError> {
    if !p.is_enabled {
        Err(AccessError::ProjectInactive)
    } else if !has_valid_key(p.keys@, id) {
        Err(AccessError::KeyInvalid)
    } else {
        match presented {
            None => Ok(()),
            Some((s, source)) => match parse_origin(s) {
                Err(_) => Err(AccessError::OriginNotAllowed),
                Ok(o) => origin_decision(p, o, source),
            },
        }
    }
}

/// A presented origin with its text replaced by its characters.
pub open spec fn presented_view(origin: Option<(&str, OriginSource)>) -> Option<
    (Seq<char>, OriginSource),
> {
    match origin {
        Some((s, source)) => Some((s@, source)),
        None => None,
    }
}

// ---------------------------------------------------------------------------
// The decision, executed
// ---------------------------------------------------------------------------

impl ProjectData {
    /// Decides whether key `id` may be used, with the origin that came with
    /// the request, if any: the project must be enabled, some valid key must
    /// have the value `id`, and a presented origin must parse and pass the
    /// allow-list of its source (an empty list passes everything; header
    /// origins on `localhost` or `127.0.0.1` always pass).
    pub fn validate_access(&self, id: &str, origin: Option<(&str, OriginSource)>) -> (r: Result<
        (),
        AccessError,
    >)
        ensures
            r == access_decision(*self, id@, presented_view(origin)),
    {
        // Make sure the project is not disabled globally.
        if !self.is_enabled {
            return Err(AccessError::ProjectInactive);
        }
        // Make sure the key is valid.
        let mut found = false;
        let mut i: usize = 0;
        while i < self.keys.len() && !found
            invariant
                i <= self.keys.len(),
                found ==> has_valid_key(self.keys@, id@),
                !found ==> forall|k: int|
                    0 <= k < i ==> !(#[trigger] self.keys@[k].value@ == id@
                        && self.keys@[k].is_valid),
            decreases self.keys.len() - i,
        {
            let key = &self.keys[i];
            if *key.value.as_str() == *id && key.is_valid {
                found = true;
            }
            i = i + 1;
        }
        if !found {
            return Err(AccessError::KeyInvalid);
        }
        match origin {
            Some((origin, source)) => {
                let origin = match Origin::try_from(origin) {
                    Ok(o) => o,
                    Err(_) => {
                        return Err(AccessError::OriginNotAllowed);
                    },
                };
                match source {
                    OriginSource::Header => self.check_header(&origin),
                    OriginSource::BundleId => self.check_bundle_id(&origin),
                    OriginSource::PackageName => self.check_package_name(&origin),
                }
            },
            // Origin was not provided. Grant access.
            None => Ok(()),
        }
    }

    fn check_header(&self, origin: &Origin<'_>) -> (r: Result<(), AccessError>)
        ensures
            r == origin_decision(*self, origin@, OriginSource::Header),
    {
        let host = origin.hostname();
        if *host == *"localhost" || *host == *"127.0.0.1" {
            return Ok(());
        }
        self.check_allow_list(self.allowed_origins.as_slice(), origin, true)
    }

    fn check_bundle_id(&self, origin: &Origin<'_>) -> (r: Result<(), AccessError>)
        ensures
            r == origin_decision(*self, origin@, OriginSource::BundleId),
    {
        self.check_allow_list(self.bundle_ids.as_slice(), origin, false)
    }

    fn check_package_name(&self, origin: &Origin<'_>) -> (r: Result<(), AccessError>)
        ensures
            r == origin_decision(*self, origin@, OriginSource::PackageName),
    {
        self.check_allow_list(self.package_names.as_slice(), origin, false)
    }

    fn check_allow_list(&self, list: &[String], origin: &Origin<'_>, allow_reverse: bool) -> (r:
        Result<(), AccessError>)
        ensures
            r == allow_list_decision(strings_view(list@), origin@, allow_reverse),
    {
        // Allow all origins if the list is empty.
        if list.len() == 0 {
            return Ok(());
        }
        let ghost lv = strings_view(list@);
        let mut i: usize = 0;
        while i < list.len()
            invariant
                i <= list.len(),
                lv == strings_view(list@),
                forall|k: int| 0 <= k < i ==> !#[trigger] entry_allows(lv[k], origin@, allow_reverse),
            decreases list.len() - i,
        {
            let entry = &list[i];
            assert(lv[i as int] == entry@);
            // Ignore malformed entries.
            if let Ok(entry) = Origin::try_from(entry.as_str()) {
                assert(parse_origin(lv[i as int]) == Ok::<OriginView, OriginParseError>(entry@));
                if entry.matches(origin) {
                    assert(entry_allows(lv[i as int], origin@, allow_reverse));
                    return Ok(());
                }
                if allow_reverse && entry.matches_rev(origin) {
                    assert(entry_allows(lv[i as int], origin@, allow_reverse));
                    return Ok(());
                }
            }
            i = i + 1;
        }
        Err(AccessError::OriginNotAllowed)
    }
}

} // verus!
