//! Requests: the header lines of an HTTP request parsed into method, path,
//! version, headers and cookies; and the `Set-Cookie` values of cookies.
use vstd::prelude::*;

use crate::bindings::{
    captures_view, clone_json_map, debug_str, str_debug_text, json_map_keys, new_json_map, regex_captures,
    regex_captures_all,
};
use crate::ordered_map::{OrderedMap, StrMap};
use crate::text::{
    concat_str, find_char, i32_to_decimal, index_of_char, is_white_space, lemma_index_of_char,
    lemma_trim_cuts_only_white_space, signed_decimal, trim, trim_str,
};

verus! {

/// The cookies of a response.
pub type CookieType = Vec<CookieValue>;

/// A cookie: its name, its value and, if set, its `Max-Age` in seconds.
pub struct CookieValue {
    pub name: String,
    pub value: String,
    pub Max_Age: Option<i32>,
}

impl View for CookieValue {
    type V = (Seq<char>, Seq<char>, Option<i32>);

    open spec fn view(&self) -> (Seq<char>, Seq<char>, Option<i32>) {
        (self.name@, self.value@, self.Max_Age)
    }
}

impl Clone for CookieValue {
    fn clone(&self) -> (r: Self)
        ensures
            r@ == self@,
    {
        CookieValue { name: self.name.clone(), value: self.value.clone(), Max_Age: self.Max_Age }
    }
}

/// The text of a cookie in a `Set-Cookie` header: `name=value;` followed by
/// `Max-Age=` and the age in decimal when an age is given.
pub open spec fn cookie_header_text(name: Seq<char>, value: Seq<char>, max_age: Option<i32>) -> Seq<char> {
    name + seq!['='] + value + seq![';'] + match max_age {
        Some(a) => "Max-Age="@ + signed_decimal(a as int),
        None => Seq::empty(),
    }
}

/// The value that a deleted cookie is given.
pub open spec fn deleted_value() -> Seq<char> {
    "deleted"@
}

impl CookieValue {
    /// This cookie as a `Set-Cookie` value.
    pub fn header(&self) -> (r: String)
        ensures
            r@ == cookie_header_text(self.name@, self.value@, self.Max_Age),
    {
        Self::create_header(self.name.clone(), self.value.clone(), self.Max_Age)
    }

    /// The `Set-Cookie` value that deletes this cookie: value `deleted`, no age.
    pub fn delete_cookie_header(&self) -> (r: String)
        ensures
            r@ == cookie_header_text(self.name@, deleted_value(), None),
    {
        Self::create_header(self.name.clone(), String::from_str("deleted"), None)
    }

    /// `name=value;`, followed by `Max-Age=<age>` when `Max_Age` is given.
    pub fn create_header(name: String, value: String, Max_Age: Option<i32>) -> (r: String)
        ensures
            r@ == cookie_header_text(name@, value@, Max_Age),
    {
        let mut r = concat_str(name.as_str(), "=");
        r.append(value.as_str());
        r.append(";");
        match Max_Age {
            Some(a) => {
                r.append("Max-Age=");
                let digits = i32_to_decimal(a);
                r.append(digits.as_str());
            },
            None => {},
        }
        proof {
            reveal_strlit("=");
            reveal_strlit(";");
        }
        assert(r@ =~= cookie_header_text(name@, value@, Max_Age));
        r
    }
}

/// Request headers, or cookies, by name.
pub type HeaderType = StrMap;

/// A parsed request.
pub struct HeaderData {
    pub method: String,
    pub path: String,
    pub http_version: String,
    pub header: HeaderType,
    pub cookie: HeaderType,
    pub rawData: Vec<String>,
    pub LocalData: serde_json::Map<String, serde_json::Value>,
    pub LocalLibParseData: serde_json::Map<String, serde_json::Value>,
}

/// The views of a list of strings.
pub open spec fn strings_view(v: Seq<String>) -> Seq<Seq<char>> {
    Seq::new(v.len(), |i: int| v[i]@)
}

/// What parsing reads of a request: method, path, version, headers, cookies.
pub type ParsedView = (Seq<char>, Seq<char>, Seq<char>, Map<Seq<char>, Seq<char>>, Map<Seq<char>, Seq<char>>);

impl HeaderData {
    /// The method, path, version, headers and cookies of this request.
    pub open spec fn parsed(&self) -> ParsedView {
        (self.method@, self.path@, self.http_version@, self.header@, self.cookie@)
    }

    /// The debug text of this request: its method, path and version.
    pub fn debug_text(&self) -> (r: String)
        ensures
            r@ == "HeaderData { method: "@ + str_debug_text(self.method@) + ", path: "@ + str_debug_text(
                self.path@,
            ) + ", httpVersion: "@ + str_debug_text(self.http_version@) + " }"@,
    {
        let mut r = String::from_str("HeaderData { method: ");
        let m = debug_str(self.method.as_str());
        r.append(m.as_str());
        r.append(", path: ");
        let p = debug_str(self.path.as_str());
        r.append(p.as_str());
        r.append(", httpVersion: ");
        let v = debug_str(self.http_version.as_str());
        r.append(v.as_str());
        r.append(" }");
        r
    }

    /// A copy of this request.
    pub fn clone_data(&self) -> (r: HeaderData)
        ensures
            r.parsed() == self.parsed(),
            r.header.pairs() == self.header.pairs(),
            r.cookie.pairs() == self.cookie.pairs(),
            strings_view(r.rawData@) == strings_view(self.rawData@),
            r.LocalData == self.LocalData,
            r.LocalLibParseData == self.LocalLibParseData,
    {
        HeaderData {
            method: self.method.clone(),
            path: self.path.clone(),
            http_version: self.http_version.clone(),
            header: clone_str_map(&self.header),
            cookie: clone_str_map(&self.cookie),
            rawData: clone_strings(&self.rawData),
            LocalData: clone_json_map(&self.LocalData),
            LocalLibParseData: clone_json_map(&self.LocalLibParseData),
        }
    }
}

/// A copy of a list of strings.
pub fn clone_strings(v: &Vec<String>) -> (r: Vec<String>)
    ensures
        strings_view(r@) == strings_view(v@),
{
    let mut r: Vec<String> = Vec::new();
    let n = v.len();
    let mut i: usize = 0;
    while i < n
        invariant
            n == v@.len(),
            i <= n,
            strings_view(r@) == strings_view(v@).take(i as int),
        decreases n - i,
    {
        let c = v[i].clone();
        let ghost before = r@;
        assert(strings_view(before).len() == i);
        assert(before.len() == i);
        r.push(c);
        assert(r@ == before.push(c));
        assert forall|j: int| 0 <= j <= i implies #[trigger] strings_view(r@)[j] == strings_view(v@).take(i + 1)[j] by {
            if j < i {
                assert(r@[j] == before[j]);
                assert(strings_view(before)[j] == strings_view(v@).take(i as int)[j]);
            }
        }
        assert(strings_view(r@) =~= strings_view(v@).take(i + 1));
        i = i + 1;
    }
    assert(strings_view(v@).take(n as int) =~= strings_view(v@));
    r
}

/// A copy of a string map, with the same entries in the same order.
pub fn clone_str_map(m: &StrMap) -> (r: StrMap)
    ensures
        r@ == m@,
        r.pairs() == m.pairs(),
{
    let mut r: StrMap = OrderedMap::new();
    let n = m.len();
    let mut i: usize = 0;
    while i < n
        invariant
            n == m.pairs().len(),
            i <= n,
            r.pairs() == m.pairs().take(i as int),
        decreases n - i,
    {
        r.push_greatest(m.key_at(i).clone(), m.value_at(i).clone());
        i = i + 1;
    }
    assert(m.pairs().take(n as int) =~= m.pairs());
    r
}

impl Default for HeaderData {
    /// An empty request: empty strings, no headers, no cookies, no lines.
    fn default() -> (r: HeaderData)
        ensures
            r.parsed() == empty_parsed(),
            r.rawData@.len() == 0,
            json_map_keys(r.LocalData) == Set::<Seq<char>>::empty(),
            json_map_keys(r.LocalLibParseData) == Set::<Seq<char>>::empty(),
    {
        let r = HeaderData {
            method: String::new(),
            path: String::new(),
            http_version: String::new(),
            header: OrderedMap::new(),
            cookie: OrderedMap::new(),
            rawData: Vec::new(),
            LocalData: new_json_map(),
            LocalLibParseData: new_json_map(),
        };
        assert(r.parsed() =~= empty_parsed());
        r
    }
}

/// What an empty request holds.
pub open spec fn empty_parsed() -> ParsedView {
    (Seq::empty(), Seq::empty(), Seq::empty(), Map::empty(), Map::empty())
}

} // verus!

verus! {

/// The pattern that a request line matches: method, target, version.
pub open spec fn request_line_pattern() -> Seq<char> {
    "(POST|GET|PUT|PATCH|DELETE)(.+)(HTTP(/)\\d.\\d)"@
}

/// The pattern that a header line matches: name, then `:` and a space, then value.
pub open spec fn header_line_pattern() -> Seq<char> {
    "(.+)\\s?:\\s(.+)"@
}

/// The matches of a line, each the list of its capture groups.
pub type MatchesView = Seq<Seq<Option<Seq<char>>>>;

/// Capture group `i` of a match, `None` when the group is absent.
pub open spec fn group(c: Seq<Option<Seq<char>>>, i: int) -> Option<Seq<char>> {
    if 0 <= i < c.len() {
        c[i]
    } else {
        None
    }
}

/// The cookie name in `name=value`: what precedes the first `=`.
pub open spec fn cookie_name(v: Seq<char>) -> Seq<char> {
    v.take(index_of_char(v, '='))
}

/// The cookie value in `name=value`: what lies between the first `=` and
/// the next `=` or the end, as the second piece of `split("=")`.
pub open spec fn cookie_value(v: Seq<char>) -> Seq<char> {
    let rest = v.skip(index_of_char(v, '=') + 1);
    let j = index_of_char(rest, '=');
    if j < 0 {
        rest
    } else {
        rest.take(j)
    }
}

/// A match of the request line sets method, trimmed path and version.
pub open spec fn apply_request_line(st: ParsedView, c: Seq<Option<Seq<char>>>) -> ParsedView {
    (group(c, 1)->0, trim(group(c, 2)->0), group(c, 3)->0, st.3, st.4)
}

/// A match of a header line stores a cookie for `Cookie`, else a header.
pub open spec fn apply_header_line(st: ParsedView, c: Seq<Option<Seq<char>>>) -> ParsedView {
    let k = group(c, 1)->0;
    let v = group(c, 2)->0;
    if k == "Cookie"@ {
        (st.0, st.1, st.2, st.3, st.4.insert(cookie_name(v), cookie_value(v)))
    } else {
        (st.0, st.1, st.2, st.3.insert(k, v), st.4)
    }
}

pub open spec fn apply_request_lines(st: ParsedView, ms: MatchesView) -> ParsedView
    decreases ms.len(),
{
    if ms.len() == 0 {
        st
    } else {
        apply_request_line(apply_request_lines(st, ms.drop_last()), ms.last())
    }
}

pub open spec fn apply_header_lines(st: ParsedView, ms: MatchesView) -> ParsedView
    decreases ms.len(),
{
    if ms.len() == 0 {
        st
    } else {
        apply_header_line(apply_header_lines(st, ms.drop_last()), ms.last())
    }
}

/// The request-line matches of a line (the pattern compiles, so this is `Some`).
pub open spec fn request_line_matches(line: Seq<char>) -> MatchesView {
    regex_captures_all(request_line_pattern(), line)->0
}

/// The header-line matches of a line.
pub open spec fn header_line_matches(line: Seq<char>) -> MatchesView {
    regex_captures_all(header_line_pattern(), line)->0
}

/// One line read into the request: a line that matches the request-line
/// pattern sets method, path and version from each match in turn; any
/// other line that matches the header pattern adds a header or a cookie
/// for each match in turn; a line that matches neither changes nothing.
pub open spec fn parse_line(st: ParsedView, line: Seq<char>) -> ParsedView {
    if request_line_matches(line).len() > 0 {
        apply_request_lines(st, request_line_matches(line))
    } else {
        apply_header_lines(st, header_line_matches(line))
    }
}

/// The request read from its lines, one after the other.
pub open spec fn parse_lines(lines: Seq<Seq<char>>) -> ParsedView
    decreases lines.len(),
{
    if lines.len() == 0 {
        empty_parsed()
    } else {
        parse_line(parse_lines(lines.drop_last()), lines.last())
    }
}

/// A request-line match has its three groups.
pub open spec fn request_match_ok(c: Seq<Option<Seq<char>>>) -> bool {
    group(c, 1) is Some && group(c, 2) is Some && group(c, 3) is Some
}

/// A header-line match has its two groups, and a `Cookie` value holds a `=`.
pub open spec fn header_match_ok(c: Seq<Option<Seq<char>>>) -> bool {
    &&& group(c, 1) is Some
    &&& group(c, 2) is Some
    &&& group(c, 1)->0 == "Cookie"@ ==> index_of_char(group(c, 2)->0, '=') >= 0
}

/// Reading `line` succeeds: the patterns compile and every group used is there.
pub open spec fn line_parses(line: Seq<char>) -> bool {
    &&& regex_captures_all(request_line_pattern(), line) is Some
    &&& if request_line_matches(line).len() > 0 {
        forall|j: int| 0 <= j < request_line_matches(line).len() ==> request_match_ok(#[trigger] request_line_matches(line)[j])
    } else {
        &&& regex_captures_all(header_line_pattern(), line) is Some
        &&& forall|j: int| 0 <= j < header_line_matches(line).len() ==> header_match_ok(#[trigger] header_line_matches(line)[j])
    }
}

/// Reading every line succeeds.
pub open spec fn request_parses(lines: Seq<Seq<char>>) -> bool {
    forall|i: int| 0 <= i < lines.len() ==> line_parses(#[trigger] lines[i])
}

fn group_at(c: &Vec<Option<String>>, i: usize) -> (r: Option<&String>)
    ensures
        match r {
            Some(s) => group(captures_view(seq![*c])[0], i as int) == Some(s@),
            None => group(captures_view(seq![*c])[0], i as int) is None,
        },
{
    if i < c.len() {
        match &c[i] {
            Some(s) => Some(s),
            None => None,
        }
    } else {
        None
    }
}

/// Splits a `Cookie` value at its first `=`, as `split("=")` read at 0 and 1.
fn split_cookie(v: &String) -> (r: Option<(String, String)>)
    ensures
        match r {
            Some((n, val)) => index_of_char(v@, '=') >= 0 && n@ == cookie_name(v@) && val@ == cookie_value(v@),
            None => index_of_char(v@, '=') < 0,
        },
{
    let s = v.as_str();
    match find_char(s, '=') {
        None => None,
        Some(i) => {
            proof { lemma_index_of_char(s@, '='); }
            let len = s.unicode_len();
            let name = s.substring_char(0, i);
            let rest = s.substring_char(i + 1, len);
            assert(rest@ =~= s@.skip(i + 1));
            let value = match find_char(rest, '=') {
                None => String::from_str(rest),
                Some(j) => {
                    proof { lemma_index_of_char(rest@, '='); }
                    String::from_str(rest.substring_char(0, j))
                },
            };
            assert(name@ =~= cookie_name(s@));
            assert(value@ =~= cookie_value(s@));
            Some((String::from_str(name), value))
        },
    }
}

/// Reads the lines of a request; `None` when a line cannot be read.
#[verifier::loop_isolation(false)]
fn read_request_lines(http_request: &Vec<String>) -> (r: Option<HeaderData>)
    ensures
        r is Some <==> request_parses(strings_view(http_request@)),
        r matches Some(d) ==> d.parsed() == parse_lines(strings_view(http_request@))
            && strings_view(d.rawData@) == strings_view(http_request@)
            && json_map_keys(d.LocalData) == Set::<Seq<char>>::empty()
            && json_map_keys(d.LocalLibParseData) == Set::<Seq<char>>::empty(),
{
    let ghost lines = strings_view(http_request@);
    let mut data = HeaderData::default();
    data.rawData = clone_strings(http_request);
    let request_pattern = "(POST|GET|PUT|PATCH|DELETE)(.+)(HTTP(/)\\d.\\d)";
    let header_pattern = "(.+)\\s?:\\s(.+)";
    let n = http_request.len();
    let mut i: usize = 0;
    assert(lines.take(0) =~= Seq::<Seq<char>>::empty());
    while i < n
        invariant
            n == http_request@.len(),
            lines == strings_view(http_request@),
            request_pattern@ == request_line_pattern(),
            header_pattern@ == header_line_pattern(),
            i <= n,
            request_parses(lines.take(i as int)),
            data.parsed() == parse_lines(lines.take(i as int)),
            strings_view(data.rawData@) == lines,
            json_map_keys(data.LocalData) == Set::<Seq<char>>::empty(),
            json_map_keys(data.LocalLibParseData) == Set::<Seq<char>>::empty(),
        decreases n - i,
    {
        let line = http_request[i].as_str();
        assert(line@ == lines[i as int]);
        assert(lines.take(i + 1).drop_last() =~= lines.take(i as int));
        let ghost before = data.parsed();
        match regex_captures(request_pattern, line) {
            None => {
                proof {
                    assert(!line_parses(lines[i as int]));
                }
                return None;
            },
            Some(ms) => {
                let ghost mv = captures_view(ms@);
                assert(mv == request_line_matches(line@));
                if ms.len() > 0 {
                    let m = ms.len();
                    let mut j: usize = 0;
                    assert(mv.take(0) =~= MatchesView::empty());
                    while j < m
                        invariant
                            m == ms@.len(),
                            mv == captures_view(ms@),
                            j <= m,
                            forall|k: int| 0 <= k < j ==> request_match_ok(#[trigger] mv[k]),
                            data.parsed() == apply_request_lines(before, mv.take(j as int)),
                            strings_view(data.rawData@) == lines,
                            json_map_keys(data.LocalData) == Set::<Seq<char>>::empty(),
                            json_map_keys(data.LocalLibParseData) == Set::<Seq<char>>::empty(),
                        decreases m - j,
                    {
                        assert(captures_view(seq![ms@[j as int]])[0] == mv[j as int]);
                        let g1 = group_at(&ms[j], 1);
                        let g2 = group_at(&ms[j], 2);
                        let g3 = group_at(&ms[j], 3);
                        match (g1, g2, g3) {
                            (Some(a), Some(b), Some(c)) => {
                                data.method = a.clone();
                                data.path = trim_str(b.as_str());
                                data.http_version = c.clone();
                                assert(mv.take(j + 1).drop_last() =~= mv.take(j as int));
                            },
                            _ => {
                                proof {
                                    assert(!request_match_ok(mv[j as int]));
                                    assert(!line_parses(lines[i as int]));
                                }
                                return None;
                            },
                        }
                        j = j + 1;
                    }
                    assert(mv.take(m as int) =~= mv);
                } else {
                    match regex_captures(header_pattern, line) {
                        None => {
                            proof {
                                assert(!line_parses(lines[i as int]));
                            }
                            return None;
                        },
                        Some(hs) => {
                            let ghost hv = captures_view(hs@);
                            assert(hv == header_line_matches(line@));
                            let m = hs.len();
                            let mut j: usize = 0;
                            assert(hv.take(0) =~= MatchesView::empty());
                            while j < m
                                invariant
                                    m == hs@.len(),
                                    hv == captures_view(hs@),
                                    j <= m,
                                    forall|k: int| 0 <= k < j ==> header_match_ok(#[trigger] hv[k]),
                                    data.parsed() == apply_header_lines(before, hv.take(j as int)),
                                    strings_view(data.rawData@) == lines,
                                    json_map_keys(data.LocalData) == Set::<Seq<char>>::empty(),
                                    json_map_keys(data.LocalLibParseData) == Set::<Seq<char>>::empty(),
                                decreases m - j,
                            {
                                assert(captures_view(seq![hs@[j as int]])[0] == hv[j as int]);
                                let g1 = group_at(&hs[j], 1);
                                let g2 = group_at(&hs[j], 2);
                                match (g1, g2) {
                                    (Some(k), Some(v)) => {
                                        let cookie = String::from_str("Cookie");
                                        if *k == cookie {
                                            match split_cookie(v) {
                                                Some((name, value)) => {
                                                    data.cookie.insert(name, value);
                                                },
                                                None => {
                                                    proof {
                                                        assert(!header_match_ok(hv[j as int]));
                                                        assert(!line_parses(lines[i as int]));
                                                    }
                                                    return None;
                                                },
                                            }
                                        } else {
                                            data.header.insert(k.clone(), v.clone());
                                        }
                                        assert(hv.take(j + 1).drop_last() =~= hv.take(j as int));
                                    },
                                    _ => {
                                        proof {
                                            assert(!header_match_ok(hv[j as int]));
                                            assert(!line_parses(lines[i as int]));
                                        }
                                        return None;
                                    },
                                }
                                j = j + 1;
                            }
                            assert(hv.take(m as int) =~= hv);
                        },
                    }
                }
            },
        }
        assert(line_parses(lines[i as int]));
        assert(request_parses(lines.take(i + 1)));
        i = i + 1;
    }
    assert(lines.take(n as int) =~= lines);
    Some(data)
}

/// Whether every line of a request can be read.
pub fn request_is_readable(http_request: &Vec<String>) -> (b: bool)
    ensures
        b == request_parses(strings_view(http_request@)),
{
    read_request_lines(http_request).is_some()
}

/// Reads a request from its header lines: `rawData` keeps the lines; a line
/// that matches the request-line pattern sets method, trimmed path and
/// version; another line that matches the header pattern stores a header,
/// or, under the name `Cookie`, the cookie `name=value` it carries.
pub fn GetRequest(http_request: &Vec<String>) -> (d: HeaderData)
    requires
        request_parses(strings_view(http_request@)),
    ensures
        d.parsed() == parse_lines(strings_view(http_request@)),
        strings_view(d.rawData@) == strings_view(http_request@),
        json_map_keys(d.LocalData) == Set::<Seq<char>>::empty(),
        json_map_keys(d.LocalLibParseData) == Set::<Seq<char>>::empty(),
{
    match read_request_lines(http_request) {
        Some(d) => d,
        None => HeaderData::default(),
    }
}

/// Reads a request as `GetRequest` does when every line can be read, and is
/// `None` when one cannot: a pattern does not compile, a group is missing,
/// or a `Cookie` value holds no `=`.
pub fn try_get_request(http_request: &Vec<String>) -> (r: Option<HeaderData>)
    ensures
        r is Some <==> request_parses(strings_view(http_request@)),
        r matches Some(d) ==> d.parsed() == parse_lines(strings_view(http_request@))
            && strings_view(d.rawData@) == strings_view(http_request@)
            && json_map_keys(d.LocalData) == Set::<Seq<char>>::empty()
            && json_map_keys(d.LocalLibParseData) == Set::<Seq<char>>::empty(),
{
    if request_is_readable(http_request) {
        Some(GetRequest(http_request))
    } else {
        None
    }
}

/// A line that matches the request-line pattern sets the method and the
/// version to the first and third groups of its last match, and the path to
/// that match's request target (the second group) with white space cut off
/// its two ends and nothing else: every other char of the target, a `?` and
/// the query after it included, stays, in order.
pub proof fn lemma_request_line_sets_target(st: ParsedView, line: Seq<char>)
    requires
        line_parses(line),
        request_line_matches(line).len() > 0,
    ensures
        ({
            let c = request_line_matches(line).last();
            let t = group(c, 2)->0;
            let p = parse_line(st, line).1;
            &&& parse_line(st, line).0 == group(c, 1)->0
            &&& parse_line(st, line).2 == group(c, 3)->0
            &&& exists|a: int|
                0 <= a && a + p.len() <= t.len() && #[trigger] t.subrange(a, a + p.len()) == p
                    && (forall|k: int| 0 <= k < a ==> is_white_space(#[trigger] t[k]))
                    && (forall|k: int| a + p.len() <= k < t.len() ==> is_white_space(#[trigger] t[k]))
            &&& p.len() > 0 ==> !is_white_space(p[0]) && !is_white_space(p[p.len() - 1])
        }),
{
    let ms = request_line_matches(line);
    let c = ms.last();
    assert(parse_line(st, line) == apply_request_line(apply_request_lines(st, ms.drop_last()), c));
    lemma_trim_cuts_only_white_space(group(c, 2)->0);
}

} // verus!
