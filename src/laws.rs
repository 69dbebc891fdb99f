//! Properties of parsing, matching and the access decision, proved over
//! their mathematical models.
use vstd::prelude::*;

use crate::error::AccessError;
use crate::origin::{
    counterpart, digit_run_end, has_scheme, host_run_end, hostname_start, is_host_char,
    origin_matches, parse_origin, scheme_run_end, segment_matches, serialize_origin, OriginView,
};
use crate::project_data::{
    access_decision, entry_allows, has_valid_key, is_local_host, strings_view, OriginSource,
    ProjectData,
};
use crate::text::{
    decimal_digits, digit_char, has_no_dot, is_digit, lemma_decimal_round_trip, lemma_join_split,
    lemma_split_concat, lemma_split_no_dot, split_on_dots,
};

verus! {

// ---------------------------------------------------------------------------
// Runs
// ---------------------------------------------------------------------------

proof fn lemma_scheme_run(s: Seq<char>, i: int, e: int)
    requires
        0 <= i <= e <= s.len(),
        forall|k: int| i <= k < e ==> s[k] != ':',
        e == s.len() || s[e] == ':',
    ensures
        scheme_run_end(s, i) == e,
    decreases e - i,
{
    if i < e {
        lemma_scheme_run(s, i + 1, e);
    }
}

proof fn lemma_host_run(s: Seq<char>, i: int, e: int)
    requires
        0 <= i <= e <= s.len(),
        forall|k: int| i <= k < e ==> is_host_char(s[k]),
        e == s.len() || !is_host_char(s[e]),
    ensures
        host_run_end(s, i) == e,
    decreases e - i,
{
    if i < e {
        lemma_host_run(s, i + 1, e);
    }
}

proof fn lemma_digit_run(s: Seq<char>, i: int, e: int)
    requires
        0 <= i <= e <= s.len(),
        forall|k: int| i <= k < e ==> is_digit(s[k]),
        e == s.len() || !is_digit(s[e]),
    ensures
        digit_run_end(s, i) == e,
    decreases e - i,
{
    if i < e {
        lemma_digit_run(s, i + 1, e);
    }
}

// ---------------------------------------------------------------------------
// Parsing
// ---------------------------------------------------------------------------

/// `scheme://hostname:port` followed by `tail`.
pub open spec fn canonical_origin(
    scheme: Seq<char>,
    hostname: Seq<char>,
    port: u16,
    tail: Seq<char>,
) -> Seq<char> {
    scheme + seq![':', '/', '/'] + hostname + seq![':'] + decimal_digits(port as nat) + tail
}

/// A scheme free of `:`, a non-empty hostname free of `:` and `/`, and a
/// tail that is empty or starts a path.
pub open spec fn canonical_parts(scheme: Seq<char>, hostname: Seq<char>, tail: Seq<char>) -> bool {
    &&& scheme.len() > 0
    &&& forall|i: int| 0 <= i < scheme.len() ==> scheme[i] != ':'
    &&& hostname.len() > 0
    &&& forall|i: int| 0 <= i < hostname.len() ==> is_host_char(hostname[i])
    &&& (tail.len() == 0 || tail[0] == '/')
}

/// `scheme://hostname:port`, with anything after a `/` following it, parses
/// into exactly those parts.
pub proof fn lemma_parse_canonical(scheme: Seq<char>, hostname: Seq<char>, port: u16, tail: Seq<char>)
    requires
        canonical_parts(scheme, hostname, tail),
    ensures
        parse_origin(canonical_origin(scheme, hostname, port, tail)) == Ok::<
            OriginView,
            crate::origin::OriginParseError,
        >(
            OriginView {
                scheme: Some(scheme),
                hostname,
                hostname_parts: split_on_dots(hostname),
                port: Some(port),
            },
        ),
{
    let d = decimal_digits(port as nat);
    lemma_decimal_round_trip(port as nat);
    let s = canonical_origin(scheme, hostname, port, tail);
    let c = scheme.len() as int;
    let h = c + 3;
    let e = h + hostname.len();
    let pe = e + 1 + d.len();
    assert(s.len() == pe + tail.len());
    assert(forall|k: int| 0 <= k < c ==> s[k] == scheme[k]);
    assert(s[c] == ':' && s[c + 1] == '/' && s[c + 2] == '/');
    assert(forall|k: int| h <= k < e ==> s[k] == hostname[k - h]);
    assert(s[e] == ':');
    assert(forall|k: int| e + 1 <= k < pe ==> s[k] == d[k - e - 1]);
    assert(forall|k: int| pe <= k < s.len() ==> s[k] == tail[k - pe]);
    lemma_scheme_run(s, 0, c);
    assert(has_scheme(s));
    assert(hostname_start(s) == h);
    lemma_host_run(s, h, e);
    assert(is_digit(d[0]));
    assert(forall|k: int| e + 1 <= k < pe ==> is_digit(s[k])) by {
        assert forall|k: int| e + 1 <= k < pe implies is_digit(s[k]) by {
            assert(is_digit(d[k - e - 1]));
        }
    }
    lemma_digit_run(s, e + 1, pe);
    assert(s.subrange(0, c) =~= scheme);
    assert(s.subrange(h, e) =~= hostname);
    assert(s.subrange(e + 1, pe) =~= d);
}

/// Round trip: `scheme://hostname:port`, with the port written without
/// leading zeros, parses; writing the result back gives the same text, and
/// a trailing path is dropped.
pub proof fn lemma_round_trip(scheme: Seq<char>, hostname: Seq<char>, port: u16, tail: Seq<char>)
    requires
        canonical_parts(scheme, hostname, tail),
    ensures
        parse_origin(canonical_origin(scheme, hostname, port, tail)) is Ok,
        serialize_origin(parse_origin(canonical_origin(scheme, hostname, port, tail))->Ok_0)
            == canonical_origin(scheme, hostname, port, Seq::empty()),
{
    lemma_parse_canonical(scheme, hostname, port, tail);
    lemma_join_split(hostname);
    let d = decimal_digits(port as nat);
    assert(canonical_origin(scheme, hostname, port, Seq::empty()) =~= (scheme + seq![
        ':',
        '/',
        '/',
    ]) + hostname + (seq![':'] + d));
}

// ---------------------------------------------------------------------------
// Matching
// ---------------------------------------------------------------------------

/// Wildcard: `http://a.*.domain.name:123` matches `http://a.x.domain.name:123`
/// for every segment `x` (a hostname part without `.`).
pub proof fn lemma_wildcard_segment(x: Seq<char>)
    requires
        has_no_dot(x),
        forall|i: int| 0 <= i < x.len() ==> is_host_char(x[i]),
    ensures
        parse_origin("http://a.*.domain.name:123"@) is Ok,
        parse_origin("http://a."@ + x + ".domain.name:123"@) is Ok,
        origin_matches(
            parse_origin("http://a.*.domain.name:123"@)->Ok_0,
            parse_origin("http://a."@ + x + ".domain.name:123"@)->Ok_0,
            false,
        ),
{
    reveal_strlit("http://a.*.domain.name:123");
    reveal_strlit("http://a.");
    reveal_strlit(".domain.name:123");
    let http = seq!['h', 't', 't', 'p'];
    let a = seq!['a'];
    let star = seq!['*'];
    let domain = seq!['d', 'o', 'm', 'a', 'i', 'n'];
    let name = seq!['n', 'a', 'm', 'e'];
    let tail = domain + seq!['.'] + name;
    let pattern_host = a + seq!['.'] + star + seq!['.'] + tail;
    let host = a + seq!['.'] + x + seq!['.'] + tail;
    assert(digit_char(1) == '1' && digit_char(2) == '2' && digit_char(3) == '3');
    assert(decimal_digits(1) =~= seq!['1']);
    assert(decimal_digits(12) =~= seq!['1', '2']);
    assert(decimal_digits(123) =~= seq!['1', '2', '3']);
    assert("http://a.*.domain.name:123"@ =~= canonical_origin(http, pattern_host, 123, Seq::empty()));
    assert("http://a."@ + x + ".domain.name:123"@ =~= canonical_origin(http, host, 123, Seq::empty()));
    assert(canonical_parts(http, pattern_host, Seq::empty()));
    assert(forall|i: int| 0 <= i < host.len() ==> is_host_char(host[i])) by {
        assert forall|i: int| 0 <= i < host.len() implies is_host_char(host[i]) by {
            if 2 <= i < 2 + x.len() {
                assert(host[i] == x[i - 2]);
            }
        }
    }
    assert(canonical_parts(http, host, Seq::empty()));
    lemma_parse_canonical(http, pattern_host, 123, Seq::empty());
    lemma_parse_canonical(http, host, 123, Seq::empty());
    // Both hostnames split into four segments.
    assert(has_no_dot(a));
    assert(has_no_dot(star));
    assert(has_no_dot(domain));
    assert(has_no_dot(name));
    lemma_split_no_dot(a);
    lemma_split_no_dot(star);
    lemma_split_no_dot(x);
    lemma_split_no_dot(domain);
    lemma_split_no_dot(name);
    lemma_split_concat(domain, name);
    lemma_split_concat(star, tail);
    lemma_split_concat(x, tail);
    lemma_split_concat(a, star + seq!['.'] + tail);
    lemma_split_concat(a, x + seq!['.'] + tail);
    assert(pattern_host =~= a + seq!['.'] + (star + seq!['.'] + tail));
    assert(host =~= a + seq!['.'] + (x + seq!['.'] + tail));
    let pp = split_on_dots(pattern_host);
    let hp = split_on_dots(host);
    assert(pp =~= seq![a, star, domain, name]);
    assert(hp =~= seq![a, x, domain, name]);
    assert(forall|i: int| 0 <= i < 4 ==> #[trigger] segment_matches(pp[i], counterpart(hp, i, false)));
}

/// Scheme leniency: a side without a scheme matches whatever scheme the other
/// side has, and two different schemes never match.
pub proof fn lemma_scheme_leniency(a: OriginView, b: OriginView, other: Option<Seq<char>>, reverse: bool)
    ensures
        a.scheme is None ==> origin_matches(a, b, reverse) == origin_matches(
            a,
            OriginView { scheme: other, ..b },
            reverse,
        ),
        b.scheme is None ==> origin_matches(a, b, reverse) == origin_matches(
            OriginView { scheme: other, ..a },
            b,
            reverse,
        ),
        a.scheme is Some && b.scheme is Some && a.scheme != b.scheme ==> !origin_matches(
            a,
            b,
            reverse,
        ),
{
}

/// Port leniency: a side without a port matches whatever port the other side
/// has, and two different ports never match.
pub proof fn lemma_port_leniency(a: OriginView, b: OriginView, other: Option<u16>, reverse: bool)
    ensures
        a.port is None ==> origin_matches(a, b, reverse) == origin_matches(
            a,
            OriginView { port: other, ..b },
            reverse,
        ),
        b.port is None ==> origin_matches(a, b, reverse) == origin_matches(
            OriginView { port: other, ..a },
            b,
            reverse,
        ),
        a.port is Some && b.port is Some && a.port != b.port ==> !origin_matches(a, b, reverse),
{
}

/// Segment length: hostnames with different numbers of segments never match,
/// wildcards or not, in either direction.
pub proof fn lemma_segment_count(a: OriginView, b: OriginView, reverse: bool)
    requires
        a.hostname_parts.len() != b.hostname_parts.len(),
    ensures
        !origin_matches(a, b, reverse),
        !origin_matches(b, a, reverse),
{
}

/// Reverse matching compares with the other side's segments read back to
/// front: it is forward matching against the reversed hostname.
pub proof fn lemma_reverse_matching(a: OriginView, b: OriginView)
    ensures
        origin_matches(a, b, true) == origin_matches(
            a,
            OriginView { hostname_parts: b.hostname_parts.reverse(), ..b },
            false,
        ),
{
    let rb = OriginView { hostname_parts: b.hostname_parts.reverse(), ..b };
    if a.hostname_parts.len() == b.hostname_parts.len() {
        assert forall|i: int| 0 <= i < a.hostname_parts.len() implies counterpart(
            b.hostname_parts,
            i,
            true,
        ) == counterpart(rb.hostname_parts, i, false) by {}
        if origin_matches(a, b, true) {
            assert forall|i: int| 0 <= i < a.hostname_parts.len() implies #[trigger] segment_matches(
                a.hostname_parts[i],
                counterpart(rb.hostname_parts, i, false),
            ) by {
                assert(segment_matches(a.hostname_parts[i], counterpart(b.hostname_parts, i, true)));
            }
        }
        if origin_matches(a, rb, false) {
            assert forall|i: int| 0 <= i < a.hostname_parts.len() implies #[trigger] segment_matches(
                a.hostname_parts[i],
                counterpart(b.hostname_parts, i, true),
            ) by {
                assert(segment_matches(a.hostname_parts[i], counterpart(rb.hostname_parts, i, false)));
            }
        }
    }
}

// ---------------------------------------------------------------------------
// Access
// ---------------------------------------------------------------------------

/// Local-host bypass: a header origin whose hostname is `localhost` or
/// `127.0.0.1` is allowed for a valid key of an enabled project, whatever the
/// allowed origins hold.
pub proof fn lemma_local_host_bypass(p: ProjectData, id: Seq<char>, s: Seq<char>)
    requires
        p.is_enabled,
        has_valid_key(p.keys@, id),
        parse_origin(s) is Ok,
        is_local_host(parse_origin(s)->Ok_0.hostname),
    ensures
        access_decision(p, id, Some((s, OriginSource::Header))) == Ok::<(), AccessError>(()),
{
}

/// Empty-list allow-all: with no bundle ids configured, every bundle id that
/// parses is allowed for a valid key of an enabled project.
pub proof fn lemma_empty_bundle_ids_allow_all(p: ProjectData, id: Seq<char>, s: Seq<char>)
    requires
        p.is_enabled,
        has_valid_key(p.keys@, id),
        p.bundle_ids@.len() == 0,
        parse_origin(s) is Ok,
    ensures
        access_decision(p, id, Some((s, OriginSource::BundleId))) == Ok::<(), AccessError>(()),
{
}

/// With bundle ids configured, a bundle id that no entry admits is refused.
pub proof fn lemma_unmatched_bundle_id_denied(p: ProjectData, id: Seq<char>, s: Seq<char>)
    requires
        p.is_enabled,
        has_valid_key(p.keys@, id),
        p.bundle_ids@.len() > 0,
        parse_origin(s) is Ok,
        forall|i: int|
            0 <= i < p.bundle_ids@.len() ==> !#[trigger] entry_allows(
                strings_view(p.bundle_ids@)[i],
                parse_origin(s)->Ok_0,
                false,
            ),
    ensures
        access_decision(p, id, Some((s, OriginSource::BundleId))) == Err::<(), AccessError>(
            AccessError::OriginNotAllowed,
        ),
{
}

/// Key gating comes first: a disabled project refuses everything, and an
/// enabled one refuses a key that is unknown or invalid, whatever origin comes
/// with it.
pub proof fn lemma_key_gating(
    p: ProjectData,
    id: Seq<char>,
    presented: Option<(Seq<char>, OriginSource)>,
)
    ensures
        !p.is_enabled ==> access_decision(p, id, presented) == Err::<(), AccessError>(
            AccessError::ProjectInactive,
        ),
        p.is_enabled && !has_valid_key(p.keys@, id) ==> access_decision(p, id, presented) == Err::<
            (),
            AccessError,
        >(AccessError::KeyInvalid),
{
}

/// No origin, no origin check: a valid key of an enabled project is allowed
/// when no origin is presented, whatever the allow-lists hold.
pub proof fn lemma_no_origin_pass_through(p: ProjectData, id: Seq<char>)
    requires
        p.is_enabled,
        has_valid_key(p.keys@, id),
    ensures
        access_decision(p, id, None) == Ok::<(), AccessError>(()),
{
}

} // verus!
