//! Origins: `[scheme "://"] hostname [":" port]`, parsed from text and
//! compared segment by segment, with `*` as a wildcard segment.
use vstd::prelude::*;

use crate::text::{
    chars_of, decimal_digits, decimal_string, decimal_value, digit_value, is_digit,
    join_with_dots, lemma_join_split, split_on_dots,
};

verus! {

/// The parsed form of an origin string, as mathematical values.
pub struct OriginView {
    pub scheme: Option<Seq<char>>,
    pub hostname: Seq<char>,
    pub hostname_parts: Seq<Seq<char>>,
    pub port: Option<u16>,
}

/// An origin parsed from text, borrowing its parts from that text.
/// Its hostname is never empty and is its segments joined by `.`.
#[derive(Debug, Clone, PartialEq, Eq)]
pub struct Origin<'a> {
    scheme: Option<&'a str>,
    hostname: &'a str,
    hostname_parts: Vec<&'a str>,
    port: Option<u16>,
}

#[derive(Debug, Clone, Copy, PartialEq, Eq, Structural)]
pub enum OriginParseError {
    /// No hostname could be read.
    InvalidFormat,
    /// The port does not fit in 16 bits.
    InvalidPortNumber,
}

#[derive(Debug, Clone, Copy, PartialEq, Eq)]
enum MatchDirection {
    Forward,
    Reverse,
}

const WILDCARD: &'static str = "*";

/// The texts of a list of string slices.
pub open spec fn parts_view(parts: Seq<&str>) -> Seq<Seq<char>> {
    parts.map_values(|p: &str| p@)
}

impl<'a> View for Origin<'a> {
    type V = OriginView;

    closed spec fn view(&self) -> OriginView {
        OriginView {
            scheme: match self.scheme {
                Some(s) => Some(s@),
                None => None,
            },
            hostname: self.hostname@,
            hostname_parts: parts_view(self.hostname_parts@),
            port: self.port,
        }
    }
}

// ---------------------------------------------------------------------------
// Grammar
// ---------------------------------------------------------------------------

/// A character that may stand in a hostname.
pub open spec fn is_host_char(c: char) -> bool {
    c != ':' && c != '/'
}

/// End of the run of characters other than `:` that starts at `i`.
pub open spec fn scheme_run_end(s: Seq<char>, i: int) -> int
    decreases s.len() - i,
{
    if 0 <= i < s.len() && s[i] != ':' {
        scheme_run_end(s, i + 1)
    } else {
        i
    }
}

/// End of the run of characters other than `:` and `/` that starts at `i`.
pub open spec fn host_run_end(s: Seq<char>, i: int) -> int
    decreases s.len() - i,
{
    if 0 <= i < s.len() && is_host_char(s[i]) {
        host_run_end(s, i + 1)
    } else {
        i
    }
}

/// End of the run of decimal digits that starts at `i`.
pub open spec fn digit_run_end(s: Seq<char>, i: int) -> int
    decreases s.len() - i,
{
    if 0 <= i < s.len() && is_digit(s[i]) {
        digit_run_end(s, i + 1)
    } else {
        i
    }
}

/// `s` opens with a non-empty run of characters other than `:`, then `://`,
/// then a hostname character.
pub open spec fn has_scheme(s: Seq<char>) -> bool {
    let c = scheme_run_end(s, 0);
    &&& c > 0
    &&& c + 3 < s.len()
    &&& s[c] == ':'
    &&& s[c + 1] == '/'
    &&& s[c + 2] == '/'
    &&& is_host_char(s[c + 3])
}

/// Where the hostname of `s` begins: after `scheme://`, or at the start.
pub open spec fn hostname_start(s: Seq<char>) -> int {
    if has_scheme(s) {
        scheme_run_end(s, 0) + 3
    } else {
        0
    }
}

/// The origin that `s` begins with: an optional scheme followed by `://`, a
/// non-empty hostname free of `:` and `/`, and an optional `:` with a run of
/// decimal digits that must denote a 16-bit number. What follows is ignored.
pub open spec fn parse_origin(s: Seq<char>) -> Result<OriginView, OriginParseError> {
    let h = hostname_start(s);
    if !(h < s.len() && is_host_char(s[h])) {
        Err(OriginParseError::InvalidFormat)
    } else {
        let e = host_run_end(s, h);
        let hostname = s.subrange(h, e);
        let scheme = if has_scheme(s) {
            Some(s.subrange(0, scheme_run_end(s, 0)))
        } else {
            None
        };
        if e + 1 < s.len() && s[e] == ':' && is_digit(s[e + 1]) {
            let v = decimal_value(s.subrange(e + 1, digit_run_end(s, e + 1)));
            if v > u16::MAX {
                Err(OriginParseError::InvalidPortNumber)
            } else {
                Ok(
                    OriginView {
                        scheme,
                        hostname,
                        hostname_parts: split_on_dots(hostname),
                        port: Some(v as u16),
                    },
                )
            }
        } else {
            Ok(OriginView { scheme, hostname, hostname_parts: split_on_dots(hostname), port: None })
        }
    }
}

/// A parse result with the origin replaced by its view.
pub open spec fn result_view<'a>(r: Result<Origin<'a>, OriginParseError>) -> Result<
    OriginView,
    OriginParseError,
> {
    match r {
        Ok(o) => Ok(o@),
        Err(e) => Err(e),
    }
}

/// The text of an origin: `scheme://`, the hostname segments joined by `.`,
/// then `:port`, each part only where present.
pub open spec fn serialize_origin(o: OriginView) -> Seq<char> {
    let scheme = match o.scheme {
        Some(s) => s + seq![':', '/', '/'],
        None => Seq::empty(),
    };
    let port = match o.port {
        Some(p) => seq![':'] + decimal_digits(p as nat),
        None => Seq::empty(),
    };
    scheme + join_with_dots(o.hostname_parts) + port
}

// ---------------------------------------------------------------------------
// Matching
// ---------------------------------------------------------------------------

/// A pattern segment matches a segment when it is `*` or the same text.
pub open spec fn segment_matches(pattern: Seq<char>, segment: Seq<char>) -> bool {
    pattern == seq!['*'] || pattern == segment
}

/// The segment of `parts` that position `i` is compared with: the `i`-th, or
/// with `reverse` the `i`-th from the end.
pub open spec fn counterpart(parts: Seq<Seq<char>>, i: int, reverse: bool) -> Seq<char> {
    if reverse {
        parts[parts.len() - 1 - i]
    } else {
        parts[i]
    }
}

/// `a` (the pattern) matches `b`: schemes agree where both are given, ports
/// agree where both are given, and the hostnames have as many segments, each
/// segment of `a` matching its counterpart in `b`.
pub open spec fn origin_matches(a: OriginView, b: OriginView, reverse: bool) -> bool {
    &&& !(a.scheme is Some && b.scheme is Some && a.scheme != b.scheme)
    &&& !(a.port is Some && b.port is Some && a.port != b.port)
    &&& a.hostname_parts.len() == b.hostname_parts.len()
    &&& forall|i: int|
        0 <= i < a.hostname_parts.len() ==> #[trigger] segment_matches(
            a.hostname_parts[i],
            counterpart(b.hostname_parts, i, reverse),
        )
}

/// The well-formedness of a parsed origin: the hostname is not empty and is
/// exactly its segments joined by `.`.
pub open spec fn origin_wf(o: OriginView) -> bool {
    &&& o.hostname.len() > 0
    &&& o.hostname_parts == split_on_dots(o.hostname)
    &&& join_with_dots(o.hostname_parts) == o.hostname
}

// ---------------------------------------------------------------------------
// Scanning
// ---------------------------------------------------------------------------

/// Where the run of characters other than `:` from `i` ends.
fn scan_scheme(cs: &Vec<char>, i: usize) -> (e: usize)
    requires
        i <= cs.len(),
    ensures
        e == scheme_run_end(cs@, i as int),
        i <= e <= cs.len(),
{
    let mut j = i;
    while j < cs.len() && cs[j] != ':'
        invariant
            i <= j <= cs.len(),
            scheme_run_end(cs@, i as int) == scheme_run_end(cs@, j as int),
        decreases cs.len() - j,
    {
        j = j + 1;
    }
    j
}

/// Where the run of hostname characters from `i` ends.
fn scan_host(cs: &Vec<char>, i: usize) -> (e: usize)
    requires
        i <= cs.len(),
    ensures
        e == host_run_end(cs@, i as int),
        i <= e <= cs.len(),
        forall|k: int| i <= k < e ==> is_host_char(#[trigger] cs@[k]),
        i < cs.len() && is_host_char(cs@[i as int]) ==> e > i,
{
    let mut j = i;
    while j < cs.len() && cs[j] != ':' && cs[j] != '/'
        invariant
            i <= j <= cs.len(),
            host_run_end(cs@, i as int) == host_run_end(cs@, j as int),
            forall|k: int| i <= k < j ==> is_host_char(#[trigger] cs@[k]),
        decreases cs.len() - j,
    {
        j = j + 1;
    }
    j
}

/// Where the run of decimal digits from `i` ends.
fn scan_digits(cs: &Vec<char>, i: usize) -> (e: usize)
    requires
        i <= cs.len(),
    ensures
        e == digit_run_end(cs@, i as int),
        i <= e <= cs.len(),
        forall|k: int| i <= k < e ==> is_digit(#[trigger] cs@[k]),
{
    let mut j = i;
    while j < cs.len() && '0' <= cs[j] && cs[j] <= '9'
        invariant
            i <= j <= cs.len(),
            digit_run_end(cs@, i as int) == digit_run_end(cs@, j as int),
            forall|k: int| i <= k < j ==> is_digit(#[trigger] cs@[k]),
        decreases cs.len() - j,
    {
        j = j + 1;
    }
    j
}

/// The 16-bit number that the digits `cs[start..end]` denote, if it fits.
fn read_port(cs: &Vec<char>, start: usize, end: usize) -> (r: Option<u16>)
    requires
        start <= end <= cs.len(),
        forall|k: int| start <= k < end ==> is_digit(#[trigger] cs@[k]),
    ensures
        ({
            let v = decimal_value(cs@.subrange(start as int, end as int));
            if v <= u16::MAX {
                r == Some(v as u16)
            } else {
                r is None
            }
        }),
{
    // `value` saturates at one past the largest port.
    let mut value: u32 = 0;
    let mut j = start;
    while j < end
        invariant
            start <= j <= end <= cs.len(),
            forall|k: int| start <= k < end ==> is_digit(#[trigger] cs@[k]),
            ({
                let v = decimal_value(cs@.subrange(start as int, j as int));
                &&& v >= 0
                &&& v <= u16::MAX ==> value == v
                &&& v > u16::MAX ==> value == u16::MAX + 1
            }),
        decreases end - j,
    {
        let ghost prev = cs@.subrange(start as int, j as int);
        let ghost next = cs@.subrange(start as int, j + 1);
        assert(next.drop_last() =~= prev);
        assert(is_digit(cs@[j as int]));
        let d = (cs[j] as u32) - ('0' as u32);
        assert(d == digit_value(cs@[j as int]));
        if value <= 65535 {
            value = value * 10 + d;
            if value > 65535 {
                value = 65536;
            }
        }
        j = j + 1;
    }
    if value <= 65535 {
        Some(value as u16)
    } else {
        None
    }
}

/// The segments of `s[start..end]` cut at every `.`.
fn split_parts<'a>(s: &'a str, cs: &Vec<char>, start: usize, end: usize) -> (r: Vec<&'a str>)
    requires
        cs@ == s@,
        start <= end <= cs.len(),
    ensures
        parts_view(r@) == split_on_dots(s@.subrange(start as int, end as int)),
{
    let mut parts: Vec<&'a str> = Vec::new();
    let mut seg = start;
    let mut j = start;
    assert(parts_view(parts@) =~= Seq::<Seq<char>>::empty());
    assert(s@.subrange(start as int, start as int) =~= Seq::<char>::empty());
    assert(parts_view(parts@) + seq![s@.subrange(seg as int, j as int)] =~= seq![Seq::<char>::empty()]);
    while j < end
        invariant
            cs@ == s@,
            start <= seg <= j <= end <= cs.len(),
            parts_view(parts@) + seq![s@.subrange(seg as int, j as int)] == split_on_dots(
                s@.subrange(start as int, j as int),
            ),
        decreases end - j,
    {
        let ghost before = split_on_dots(s@.subrange(start as int, j as int));
        assert(s@.subrange(start as int, j + 1).drop_last() =~= s@.subrange(start as int, j as int));
        if cs[j] == '.' {
            let part = s.substring_char(seg, j);
            parts.push(part);
            assert(parts_view(parts@) =~= parts_view(parts@.drop_last()).push(part@));
            assert(s@.subrange(j + 1, j + 1) =~= Seq::<char>::empty());
            assert(parts_view(parts@) + seq![s@.subrange(j + 1, j + 1)] =~= before.push(Seq::empty()));
            seg = j + 1;
        } else {
            assert(s@.subrange(seg as int, j + 1) =~= s@.subrange(seg as int, j as int).push(cs@[j as int]));
            assert(parts_view(parts@) + seq![s@.subrange(seg as int, j + 1)] =~= before.update(
                before.len() - 1,
                before.last().push(cs@[j as int]),
            ));
        }
        j = j + 1;
    }
    let last = s.substring_char(seg, end);
    let ghost old_parts = parts@;
    parts.push(last);
    assert(parts_view(parts@) =~= parts_view(old_parts) + seq![last@]);
    parts
}

impl<'a> Origin<'a> {
    /// Parses `s` by the grammar of `parse_origin`.
    pub fn try_from(s: &'a str) -> (r: Result<Origin<'a>, OriginParseError>)
        ensures
            result_view(r) == parse_origin(s@),
            r is Ok ==> origin_wf(r->Ok_0@),
    {
        let cs = chars_of(s);
        let n = cs.len();
        let c = scan_scheme(&cs, 0);
        let with_scheme = c > 0 && c < n && n - c > 3 && cs[c] == ':' && cs[c + 1] == '/'
            && cs[c + 2] == '/' && cs[c + 3] != ':' && cs[c + 3] != '/';
        assert(with_scheme == has_scheme(s@));
        let h: usize = if with_scheme {
            c + 3
        } else {
            0
        };
        if !(h < n && cs[h] != ':' && cs[h] != '/') {
            return Err(OriginParseError::InvalidFormat);
        }
        let e = scan_host(&cs, h);
        let hostname = s.substring_char(h, e);
        let scheme = if with_scheme {
            Some(s.substring_char(0, c))
        } else {
            None
        };
        let hostname_parts = split_parts(s, &cs, h, e);
        let port = if e < n && n - e > 1 && cs[e] == ':' && '0' <= cs[e + 1] && cs[e + 1] <= '9' {
            let d = scan_digits(&cs, e + 1);
            match read_port(&cs, e + 1, d) {
                Some(p) => Some(p),
                None => {
                    return Err(OriginParseError::InvalidPortNumber);
                },
            }
        } else {
            None
        };
        let r = Origin { scheme, hostname, hostname_parts, port };
        proof {
            lemma_join_split(hostname@);
        }
        assert(r@.hostname_parts == split_on_dots(r@.hostname));
        Ok(r)
    }

    /// Whether this origin, as a pattern, matches `other` segment by segment.
    pub fn matches(&self, other: &Origin) -> (r: bool)
        ensures
            r == origin_matches(self@, other@, false),
    {
        self.matches_internal(other, MatchDirection::Forward)
    }

    /// Whether this origin, as a pattern, matches `other` read back to front
    /// (a reverse-DNS identifier against a hostname).
    pub fn matches_rev(&self, other: &Origin) -> (r: bool)
        ensures
            r == origin_matches(self@, other@, true),
    {
        self.matches_internal(other, MatchDirection::Reverse)
    }

    /// The hostname as written.
    pub fn hostname(&self) -> (r: &str)
        ensures
            r@ == self@.hostname,
    {
        self.hostname
    }

    /// The scheme, where one was written before `://`.
    pub fn scheme(&self) -> (r: Option<&str>)
        ensures
            r matches Some(s) ==> self@.scheme == Some(s@),
            r is None <==> self@.scheme is None,
    {
        self.scheme
    }

    /// The hostname's segments, cut at every `.`.
    pub fn hostname_parts(&self) -> (r: &[&'a str])
        ensures
            parts_view(r@) == self@.hostname_parts,
    {
        self.hostname_parts.as_slice()
    }

    /// The port, where one was written.
    pub fn port(&self) -> (r: Option<u16>)
        ensures
            r == self@.port,
    {
        self.port
    }

    fn matches_internal(&self, other: &Origin, dir: MatchDirection) -> (r: bool)
        ensures
            r == origin_matches(self@, other@, dir == MatchDirection::Reverse),
    {
        let reverse = match dir {
            MatchDirection::Forward => false,
            MatchDirection::Reverse => true,
        };
        if let (Some(a), Some(b)) = (self.scheme, other.scheme) {
            if !(*a == *b) {
                return false;
            }
        }
        if let (Some(a), Some(b)) = (self.port, other.port) {
            if a != b {
                return false;
            }
        }
        let n = self.hostname_parts.len();
        if n != other.hostname_parts.len() {
            return false;
        }
        let ghost a = self@.hostname_parts;
        let ghost b = other@.hostname_parts;
        let mut res = true;
        let mut i: usize = 0;
        while i < n
            invariant
                n == self.hostname_parts.len(),
                n == other.hostname_parts.len(),
                a == self@.hostname_parts,
                b == other@.hostname_parts,
                a.len() == n,
                b.len() == n,
                i <= n,
                reverse == (dir == MatchDirection::Reverse),
                res == forall|k: int|
                    0 <= k < i ==> #[trigger] segment_matches(a[k], counterpart(b, k, reverse)),
            decreases n - i,
        {
            let j = if reverse {
                n - 1 - i
            } else {
                i
            };
            assert(a[i as int] == self.hostname_parts@[i as int]@);
            assert(b[j as int] == other.hostname_parts@[j as int]@);
            res = match_fold_cb(res, (self.hostname_parts[i], other.hostname_parts[j]));
            assert(res == forall|k: int|
                0 <= k < i + 1 ==> #[trigger] segment_matches(a[k], counterpart(b, k, reverse))) by {
                let mi = segment_matches(a[i as int], counterpart(b, i as int, reverse));
                if !mi {
                    assert(!segment_matches(a[i as int], counterpart(b, i as int, reverse)));
                }
            }
            i = i + 1;
        }
        res
    }

    /// The origin as text: `scheme://`, the segments joined by `.`, `:port`.
    pub fn to_string(&self) -> (r: String)
        ensures
            r@ == serialize_origin(self@),
    {
        let mut r = String::new();
        if let Some(scheme) = self.scheme {
            r.append(scheme);
            proof {
                reveal_strlit("://");
            }
            r.append("://");
        }
        let ghost prefix = r@;
        let parts = &self.hostname_parts;
        let ghost pv = self@.hostname_parts;
        let mut i: usize = 0;
        while i < parts.len()
            invariant
                pv == parts_view(parts@),
                i <= parts.len(),
                r@ == prefix + join_with_dots(pv.take(i as int)),
            decreases parts.len() - i,
        {
            if i > 0 {
                proof {
                    reveal_strlit(".");
                }
                r.append(".");
            }
            r.append(parts[i]);
            assert(pv.take(i + 1).drop_last() =~= pv.take(i as int));
            assert(pv.take(i + 1).last() == parts@[i as int]@);
            if i == 0 {
                assert(pv.take(0) =~= Seq::<Seq<char>>::empty());
            }
            i = i + 1;
        }
        assert(pv.take(parts.len() as int) =~= pv);
        if let Some(port) = self.port {
            proof {
                reveal_strlit(":");
            }
            r.append(":");
            r.append(decimal_string(port).as_str());
        }
        r
    }
}

/// One step of the segment comparison: the running result stays true when
/// `this` is the wildcard or equals `other`.
fn match_fold_cb(res: bool, pair: (&str, &str)) -> (r: bool)
    ensures
        r == (res && segment_matches(pair.0@, pair.1@)),
{
    let (this, other) = pair;
    let wildcard = WILDCARD;
    proof {
        reveal_strlit("*");
    }
    assert(wildcard@ =~= seq!['*']);
    if *this == *wildcard {
        res
    } else {
        res && *this == *other
    }
}

} // verus!
