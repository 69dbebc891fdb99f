//! What the registry client and the project cache decide without I/O: which
//! project ids are worth a request, how a response status is read, and the
//! keys and names they use.
use vstd::prelude::*;

use crate::project_data::{PlanLimits, ProjectData};
use crate::text::chars_of;
use vstd::string::StringSliceAdditionalSpecFns;
use vstd::utf8::is_ascii_chars_encode_utf8;

verus! {

#[derive(Debug, PartialEq, Eq, Hash, Clone)]
pub struct LimitsResponse {
    pub plan_limits: PlanLimits,
}

/// A registry answer as the cache keeps it.
#[derive(Debug, Clone)]
pub enum CachedProject {
    Found(ProjectData),
    NotFound,
    RegistryConfigError,
}

#[derive(Debug, Clone, Copy, PartialEq, Eq, Structural)]
pub enum ProjectDataError {
    NotFound,
    RegistryConfigError,
}

/// Where an answer about a project came from.
#[derive(Debug, Clone, Copy, PartialEq, Eq, Structural)]
pub enum ResponseSource {
    Cache,
    Registry,
}

/// How the registry client reads the status of a response.
#[derive(Debug, Clone, Copy, PartialEq, Eq, Structural)]
pub enum StatusClass {
    /// 2xx: the body holds the requested record.
    Success,
    /// 401: the client's auth token was refused.
    InvalidToken,
    /// 404: there is no such project.
    NotFound,
    /// Anything else.
    Unexpected,
}

const PROJECT_ID_LEN: usize = 32;

pub const CACHE_KEY_PREFIX: &'static str = "project-data/";

pub const METRIC_NAMESPACE: &'static str = "project_data";

/// An ASCII hexadecimal digit.
pub open spec fn is_hex_char(c: char) -> bool {
    ('0' <= c && c <= '9') || ('a' <= c && c <= 'f') || ('A' <= c && c <= 'F')
}

pub open spec fn all_hex(s: Seq<char>) -> bool {
    forall|i: int| 0 <= i < s.len() ==> is_hex_char(#[trigger] s[i])
}

/// Every character of `string` is an ASCII hexadecimal digit.
pub fn is_hex_string(string: &str) -> (r: bool)
    ensures
        r == all_hex(string@),
{
    let cs = chars_of(string);
    let mut i: usize = 0;
    while i < cs.len()
        invariant
            cs@ == string@,
            i <= cs.len(),
            forall|k: int| 0 <= k < i ==> is_hex_char(#[trigger] cs@[k]),
        decreases cs.len() - i,
    {
        let c = cs[i];
        if !(('0' <= c && c <= '9') || ('a' <= c && c <= 'f') || ('A' <= c && c <= 'F')) {
            return false;
        }
        i = i + 1;
    }
    true
}

/// A project id is 32 hexadecimal digits.
pub fn is_valid_project_id(project_id: &str) -> (r: bool)
    ensures
        r == (project_id@.len() == 32 && all_hex(project_id@)),
{
    let r = project_id.as_bytes().len() == PROJECT_ID_LEN && is_hex_string(project_id);
    proof {
        if all_hex(project_id@) {
            assert forall|i: int| 0 <= i < project_id@.len() implies '\0' <= #[trigger] project_id@[i]
                <= '\u{7f}' by {
                assert(is_hex_char(project_id@[i]));
            }
            assert(vstd::utf8::is_ascii_chars(project_id@));
            is_ascii_chars_encode_utf8(project_id@);
            assert(project_id.spec_bytes().len() == project_id@.len());
        }
    }
    r
}

/// The reading of an HTTP status code.
pub open spec fn status_class(status: u16) -> StatusClass {
    if 200 <= status <= 299 {
        StatusClass::Success
    } else if status == 401 {
        StatusClass::InvalidToken
    } else if status == 404 {
        StatusClass::NotFound
    } else {
        StatusClass::Unexpected
    }
}

/// Reads an HTTP status code: success, refused token, not found, or other.
pub fn classify_status(status: u16) -> (r: StatusClass)
    ensures
        r == status_class(status),
{
    if 200 <= status && status <= 299 {
        StatusClass::Success
    } else if status == 401 {
        StatusClass::InvalidToken
    } else if status == 404 {
        StatusClass::NotFound
    } else {
        StatusClass::Unexpected
    }
}

/// The cache key of project `id`: `project-data/<id>`.
pub fn build_cache_key(id: &str) -> (r: String)
    ensures
        r@ == CACHE_KEY_PREFIX@ + id@,
{
    let mut r = String::new();
    r.append(CACHE_KEY_PREFIX);
    r.append(id);
    assert(r@ =~= CACHE_KEY_PREFIX@ + id@);
    r
}

/// The name of metric `name`: `project_data_<name>`.
pub fn create_counter_name(name: &str) -> (r: String)
    ensures
        r@ == METRIC_NAMESPACE@ + seq!['_'] + name@,
{
    let mut r = String::new();
    r.append(METRIC_NAMESPACE);
    proof {
        reveal_strlit("_");
    }
    r.append("_");
    r.append(name);
    assert(r@ =~= METRIC_NAMESPACE@ + seq!['_'] + name@);
    r
}

} // verus!
