//! Responses: status, headers and cookies set by handlers, and the bytes
//! that are sent for them.
use vstd::prelude::*;
use vstd::utf8::encode_utf8;

use crate::ordered_map::{keys_sorted, OrderedMap};
use crate::status::{canonical_reason, reason_phrase};
use crate::text::{decimal, u128_to_decimal};
use crate::App::HandleCallback;
use crate::Request::get_http_data::{
    cookie_header_text, deleted_value, strings_view, CookieType, CookieValue, HeaderData, HeaderType,
};

verus! {

/// The view of a cookie: name, value, age.
pub type CookieView = (Seq<char>, Seq<char>, Option<i32>);

/// The views of a list of cookies.
pub open spec fn cookies_view(s: Seq<CookieValue>) -> Seq<CookieView> {
    Seq::new(s.len(), |i: int| s[i]@)
}

/// One `name:value` line, ended by CR LF, per header, in order.
pub open spec fn header_lines(s: Seq<(Seq<char>, Seq<char>)>) -> Seq<char>
    decreases s.len(),
{
    if s.len() == 0 {
        Seq::empty()
    } else {
        header_lines(s.drop_last()) + s.last().0 + ":"@ + s.last().1 + "\r\n"@
    }
}

/// One `Set-Cookie:` line, ended by LF, per cookie, in order.
pub open spec fn set_cookie_lines(s: Seq<CookieView>) -> Seq<char>
    decreases s.len(),
{
    if s.len() == 0 {
        Seq::empty()
    } else {
        set_cookie_lines(s.drop_last()) + "Set-Cookie: "@ + cookie_header_text(
            s.last().0,
            s.last().1,
            s.last().2,
        ) + "\n"@
    }
}

/// One `Set-Cookie:` line that deletes the cookie, ended by LF, per cookie.
pub open spec fn delete_cookie_lines(s: Seq<CookieView>) -> Seq<char>
    decreases s.len(),
{
    if s.len() == 0 {
        Seq::empty()
    } else {
        delete_cookie_lines(s.drop_last()) + "Set-Cookie: "@ + cookie_header_text(
            s.last().0,
            deleted_value(),
            None,
        ) + "\n"@
    }
}

/// The status has a reason phrase, so that a status line can be written.
pub open spec fn status_known(status: u128) -> bool {
    status <= u16::MAX && reason_phrase(status as u16) is Some
}

/// The text of a response with a body: the status line, `Content-Length`
/// (the body's length in UTF-8 bytes), the headers, the cookies set, the
/// cookies deleted, an empty line, and the body.
pub open spec fn response_text(
    status: u128,
    content: Seq<char>,
    headers: Seq<(Seq<char>, Seq<char>)>,
    cookies: Seq<CookieView>,
    removed: Seq<CookieView>,
) -> Seq<char> {
    "HTTP/1.1 "@ + decimal(status as nat) + " "@ + reason_phrase(status as u16)->0
        + "\r\nContent-Length: "@ + decimal(encode_utf8(content).len()) + "\r\n"@ + header_lines(
        headers,
    ) + set_cookie_lines(cookies) + delete_cookie_lines(removed) + "\r\n"@ + content
}

/// A response being built for a request.
pub struct ResponseTool {
    /// The response has been sent.
    pub responded: bool,
    pub status: u128,
    pub content: String,
    pub header: HeaderType,
    pub Request: HeaderData,
    pub cookie: CookieType,
    pub finalFunction: HandleCallback,
    /// The handler for the not-found case set by `finalFn`, if any; it
    /// replaces the server's not-found handler for this request.
    pub notFoundFunction: Option<HandleCallback>,
    /// set this attr to enable and disable caching
    pub caching: bool,
    /// if value is true app don't run next handler
    pub ended: bool,
    pub requestCookie: CookieType,
    pub removeCookieHeader: CookieType,
    pub content_bytes: Vec<u8>,
}

impl ResponseTool {
    /// The bytes that `end` sends: the text of the response encoded in UTF-8
    /// when the body is not empty, else the raw bytes set by `send_bytes`.
    pub open spec fn response_bytes(&self) -> Seq<u8> {
        if self.content@.len() > 0 {
            encode_utf8(
                response_text(
                    self.status,
                    self.content@,
                    self.header.pairs(),
                    cookies_view(self.cookie@),
                    cookies_view(self.removeCookieHeader@),
                ),
            )
        } else {
            self.content_bytes@
        }
    }

    /// `end` can send this response: it was not sent yet, and a response with
    /// a body has a status with a reason phrase.
    pub open spec fn can_end(&self) -> bool {
        &&& !self.responded
        &&& self.content@.len() > 0 ==> status_known(self.status)
    }

    /// Sets the status.
    pub fn status(&mut self, status: u128) -> (r: &mut Self)
        ensures
            *r == (ResponseTool { status: status, ..*old(self) }),
            *final(self) == *final(r),
    {
        self.status = status;
        self
    }

    /// Marks the response sent and returns the bytes to send for it.
    pub fn end(&mut self) -> (bytes: Vec<u8>)
        requires
            old(self).can_end(),
        ensures
            bytes@ == old(self).response_bytes(),
            *final(self) == (ResponseTool { responded: true, ..*old(self) }),
            keys_sorted::<String, Seq<char>>(old(self).header.pairs()),
    {
        let _ = self.header.len();
        let bytes = if !self.content.as_str().is_empty() {
            let text = self.response_text();
            vstd::slice::slice_to_vec(text.as_str().as_bytes())
        } else {
            copy_bytes(self.content_bytes.as_slice())
        };
        self.responded = true;
        bytes
    }

    fn response_text(&self) -> (r: String)
        requires
            self.content@.len() > 0,
            status_known(self.status),
        ensures
            r@ == response_text(
                self.status,
                self.content@,
                self.header.pairs(),
                cookies_view(self.cookie@),
                cookies_view(self.removeCookieHeader@),
            ),
    {
        let code: u16 = self.status as u16;
        let reason = match canonical_reason(code) {
            Some(s) => s,
            None => "",
        };
        let mut r = String::from_str("HTTP/1.1 ");
        let status_digits = u128_to_decimal(self.status);
        r.append(status_digits.as_str());
        r.append(" ");
        r.append(reason);
        r.append("\r\nContent-Length: ");
        let length = self.content.as_str().as_bytes().len();
        let length_digits = u128_to_decimal(length as u128);
        r.append(length_digits.as_str());
        r.append("\r\n");
        append_header_lines(&mut r, &self.header);
        append_set_cookie_lines(&mut r, &self.cookie);
        append_delete_cookie_lines(&mut r, &self.removeCookieHeader);
        r.append("\r\n");
        r.append(self.content.as_str());
        r
    }
}

fn copy_bytes(b: &[u8]) -> (r: Vec<u8>)
    ensures
        r@ == b@,
{
    vstd::slice::slice_to_vec(b)
}

fn append_header_lines(out: &mut String, h: &HeaderType)
    ensures
        final(out)@ == old(out)@ + header_lines(h.pairs()),
{
    let n = h.len();
    let mut i: usize = 0;
    while i < n
        invariant
            n == h.pairs().len(),
            i <= n,
            out@ == old(out)@ + header_lines(h.pairs().take(i as int)),
        decreases n - i,
    {
        let k = h.key_at(i);
        let v = h.value_at(i);
        out.append(k.as_str());
        out.append(":");
        out.append(v.as_str());
        out.append("\r\n");
        assert(h.pairs().take(i + 1).drop_last() =~= h.pairs().take(i as int));
        i = i + 1;
    }
    assert(h.pairs().take(n as int) =~= h.pairs());
}

fn append_set_cookie_lines(out: &mut String, cs: &Vec<CookieValue>)
    ensures
        final(out)@ == old(out)@ + set_cookie_lines(cookies_view(cs@)),
{
    let n = cs.len();
    let mut i: usize = 0;
    while i < n
        invariant
            n == cs@.len(),
            i <= n,
            out@ == old(out)@ + set_cookie_lines(cookies_view(cs@).take(i as int)),
        decreases n - i,
    {
        let text = cs[i].header();
        out.append("Set-Cookie: ");
        out.append(text.as_str());
        out.append("\n");
        assert(cookies_view(cs@).take(i + 1).drop_last() =~= cookies_view(cs@).take(i as int));
        i = i + 1;
    }
    assert(cookies_view(cs@).take(n as int) =~= cookies_view(cs@));
}

fn append_delete_cookie_lines(out: &mut String, cs: &Vec<CookieValue>)
    ensures
        final(out)@ == old(out)@ + delete_cookie_lines(cookies_view(cs@)),
{
    let n = cs.len();
    let mut i: usize = 0;
    while i < n
        invariant
            n == cs@.len(),
            i <= n,
            out@ == old(out)@ + delete_cookie_lines(cookies_view(cs@).take(i as int)),
        decreases n - i,
    {
        let text = cs[i].delete_cookie_header();
        out.append("Set-Cookie: ");
        out.append(text.as_str());
        out.append("\n");
        assert(cookies_view(cs@).take(i + 1).drop_last() =~= cookies_view(cs@).take(i as int));
        i = i + 1;
    }
    assert(cookies_view(cs@).take(n as int) =~= cookies_view(cs@));
}

/// A copy of a cookie.
pub fn copy_cookie(c: &CookieValue) -> (r: CookieValue)
    ensures
        r@ == c@,
{
    CookieValue { name: c.name.clone(), value: c.value.clone(), Max_Age: c.Max_Age }
}

/// `m` after storing each pair of `s` in turn.
pub open spec fn insert_pairs(m: Map<Seq<char>, Seq<char>>, s: Seq<(Seq<char>, Seq<char>)>) -> Map<Seq<char>, Seq<char>>
    decreases s.len(),
{
    if s.len() == 0 {
        m
    } else {
        insert_pairs(m, s.drop_last()).insert(s.last().0, s.last().1)
    }
}

/// The cookies of a request, each without an age.
pub open spec fn request_cookies(s: Seq<(Seq<char>, Seq<char>)>) -> Seq<CookieView> {
    Seq::new(s.len(), |i: int| (s[i].0, s[i].1, None::<i32>))
}

/// A cookie view has the name `n`.
pub open spec fn named(n: Seq<char>) -> spec_fn(CookieView) -> bool {
    |c: CookieView| c.0 == n
}

/// A cookie view has a name other than `n`.
pub open spec fn not_named(n: Seq<char>) -> spec_fn(CookieView) -> bool {
    |c: CookieView| c.0 != n
}

impl ResponseTool {
    /// Sets the body to `content`; when `end` holds, also ends the response
    /// and returns the bytes to send.
    pub fn send(&mut self, content: String, end: bool) -> (r: Option<Vec<u8>>)
        requires
            end ==> (ResponseTool { content: content, ..*old(self) }).can_end(),
        ensures
            end ==> (r matches Some(b) && b@ == (ResponseTool { content: content, ..*old(self) }).response_bytes()),
            !end ==> r is None,
            *final(self) == (ResponseTool { content: content, responded: old(self).responded || end, ..*old(self) }),
    {
        self.content = content;
        if end {
            Some(self.end())
        } else {
            None
        }
    }

    /// Sets the raw body to a copy of `content`; when `end` holds, also ends
    /// the response and returns the bytes to send.
    pub fn send_bytes(&mut self, content: &[u8], end: bool) -> (r: Option<Vec<u8>>)
        requires
            end ==> old(self).can_end(),
        ensures
            end ==> (r matches Some(b) && b@ == final(self).response_bytes()),
            !end ==> r is None,
            final(self).content_bytes@ == content@,
            final(self).responded == (old(self).responded || end),
            final(self).status == old(self).status,
            final(self).content == old(self).content,
            final(self).header == old(self).header,
            final(self).cookie == old(self).cookie,
            final(self).removeCookieHeader == old(self).removeCookieHeader,
            final(self).requestCookie == old(self).requestCookie,
            final(self).Request == old(self).Request,
            final(self).finalFunction == old(self).finalFunction,
            final(self).notFoundFunction == old(self).notFoundFunction,
            final(self).caching == old(self).caching,
            final(self).ended == old(self).ended,
    {
        self.content_bytes = copy_bytes(content);
        if end {
            Some(self.end())
        } else {
            None
        }
    }

    /// Adds the default headers, replacing headers of the same name, and
    /// records the request's cookies, in name order, without an age.
    pub fn Setup(&mut self, default_header: &HeaderType) -> (r: &mut Self)
        ensures
            r.header@ == insert_pairs(old(self).header@, default_header.pairs()),
            keys_sorted::<String, Seq<char>>(old(self).Request.cookie.pairs()),
            keys_sorted::<String, Seq<char>>(default_header.pairs()),
            cookies_view(r.requestCookie@) == cookies_view(old(self).requestCookie@) + request_cookies(
                old(self).Request.cookie.pairs(),
            ),
            r.Request == old(self).Request,
            r.cookie == old(self).cookie,
            r.removeCookieHeader == old(self).removeCookieHeader,
            r.content == old(self).content,
            r.content_bytes == old(self).content_bytes,
            r.status == old(self).status,
            r.responded == old(self).responded,
            r.finalFunction == old(self).finalFunction,
            r.notFoundFunction == old(self).notFoundFunction,
            r.caching == old(self).caching,
            r.ended == old(self).ended,
            *final(self) == *final(r),
    {
        let n = default_header.len();
        let mut i: usize = 0;
        while i < n
            invariant
                n == default_header.pairs().len(),
                i <= n,
                self.header@ == insert_pairs(old(self).header@, default_header.pairs().take(i as int)),
                self.Request == old(self).Request,
                self.cookie == old(self).cookie,
                self.removeCookieHeader == old(self).removeCookieHeader,
                self.requestCookie == old(self).requestCookie,
                self.content == old(self).content,
                self.content_bytes == old(self).content_bytes,
                self.status == old(self).status,
                self.responded == old(self).responded,
                self.finalFunction == old(self).finalFunction,
                self.notFoundFunction == old(self).notFoundFunction,
                self.caching == old(self).caching,
                self.ended == old(self).ended,
            decreases n - i,
        {
            let k = default_header.key_at(i).clone();
            let v = default_header.value_at(i).clone();
            self.header.insert(k, v);
            assert(default_header.pairs().take(i + 1).drop_last() =~= default_header.pairs().take(i as int));
            i = i + 1;
        }
        assert(default_header.pairs().take(n as int) =~= default_header.pairs());
        let m = self.Request.cookie.len();
        let mut j: usize = 0;
        let ghost rc = request_cookies(self.Request.cookie.pairs());
        while j < m
            invariant
                m == self.Request.cookie.pairs().len(),
                rc == request_cookies(self.Request.cookie.pairs()),
                j <= m,
                cookies_view(self.requestCookie@) == cookies_view(old(self).requestCookie@) + rc.take(j as int),
                self.header@ == insert_pairs(old(self).header@, default_header.pairs()),
                self.Request == old(self).Request,
                self.cookie == old(self).cookie,
                self.removeCookieHeader == old(self).removeCookieHeader,
                self.content == old(self).content,
                self.content_bytes == old(self).content_bytes,
                self.status == old(self).status,
                self.responded == old(self).responded,
                self.finalFunction == old(self).finalFunction,
                self.notFoundFunction == old(self).notFoundFunction,
                self.caching == old(self).caching,
                self.ended == old(self).ended,
            decreases m - j,
        {
            let c = CookieValue {
                name: self.Request.cookie.key_at(j).clone(),
                value: self.Request.cookie.value_at(j).clone(),
                Max_Age: None,
            };
            assert(c@ == rc[j as int]);
            let ghost before = self.requestCookie@;
            self.requestCookie.push(c);
            assert(cookies_view(self.requestCookie@) =~= cookies_view(before).push(c@));
            assert(rc.take(j + 1) =~= rc.take(j as int).push(rc[j as int]));
            j = j + 1;
        }
        assert(rc.take(m as int) =~= rc);
        self
    }

    /// Sets header `k` to `v`.
    pub fn set_header(&mut self, k: String, v: String)
        ensures
            final(self).header@ == old(self).header@.insert(k@, v@),
            *final(self) == (ResponseTool { header: final(self).header, ..*old(self) }),
    {
        self.header.insert(k, v);
    }

    /// Removes header `k`, if set.
    pub fn remove_header(&mut self, k: String)
        ensures
            final(self).header@ == old(self).header@.remove(k@),
            *final(self) == (ResponseTool { header: final(self).header, ..*old(self) }),
    {
        if self.header.contains_key(&k) {
            self.header.remove(&k);
        }
    }

    /// Adds a copy of `v` to the cookies to set.
    pub fn set_cookie(&mut self, v: &CookieValue)
        ensures
            cookies_view(final(self).cookie@) == cookies_view(old(self).cookie@).push(v@),
            *final(self) == (ResponseTool { cookie: final(self).cookie, ..*old(self) }),
    {
        let ghost before = self.cookie@;
        self.cookie.push(copy_cookie(v));
        assert(cookies_view(self.cookie@) =~= cookies_view(before).push(v@));
    }

    /// Drops the cookies named `n` from the cookies to set, and adds the
    /// request's cookies named `n` to the cookies to delete.
    pub fn remove_cookie(&mut self, n: String)
        ensures
            cookies_view(final(self).cookie@) == cookies_view(old(self).cookie@).filter(not_named(n@)),
            cookies_view(final(self).removeCookieHeader@) == cookies_view(old(self).removeCookieHeader@)
                + cookies_view(old(self).requestCookie@).filter(named(n@)),
            *final(self) == (ResponseTool {
                cookie: final(self).cookie,
                removeCookieHeader: final(self).removeCookieHeader,
                ..*old(self)
            }),
    {
        let mut kept: CookieType = Vec::new();
        let total = self.cookie.len();
        let mut i: usize = 0;
        let ghost cv = cookies_view(self.cookie@);
        while i < total
            invariant
                total == self.cookie@.len(),
                cv == cookies_view(self.cookie@),
                i <= total,
                cookies_view(kept@) == cv.take(i as int).filter(not_named(n@)),
            decreases total - i,
        {
            proof { reveal_with_fuel(Seq::<_>::filter, 1); }
            assert(cv.take(i + 1).drop_last() =~= cv.take(i as int));
            let ghost before = kept@;
            if !(self.cookie[i].name == n) {
                kept.push(copy_cookie(&self.cookie[i]));
                assert(cookies_view(kept@) =~= cookies_view(before).push(cv[i as int]));
            }
            i = i + 1;
        }
        assert(cv.take(total as int) =~= cv);
        let m = self.requestCookie.len();
        let mut j: usize = 0;
        let ghost rv = cookies_view(self.requestCookie@);
        let ghost removed0 = cookies_view(self.removeCookieHeader@);
        while j < m
            invariant
                m == self.requestCookie@.len(),
                rv == cookies_view(self.requestCookie@),
                j <= m,
                cookies_view(self.removeCookieHeader@) == removed0 + rv.take(j as int).filter(named(n@)),
                self.cookie == old(self).cookie,
                self.requestCookie == old(self).requestCookie,
                self.header == old(self).header,
                self.Request == old(self).Request,
                self.content == old(self).content,
                self.content_bytes == old(self).content_bytes,
                self.status == old(self).status,
                self.responded == old(self).responded,
                self.finalFunction == old(self).finalFunction,
                self.notFoundFunction == old(self).notFoundFunction,
                self.caching == old(self).caching,
                self.ended == old(self).ended,
            decreases m - j,
        {
            proof { reveal_with_fuel(Seq::<_>::filter, 1); }
            assert(rv.take(j + 1).drop_last() =~= rv.take(j as int));
            let ghost before = self.removeCookieHeader@;
            if self.requestCookie[j].name == n {
                let c = copy_cookie(&self.requestCookie[j]);
                self.removeCookieHeader.push(c);
                assert(cookies_view(self.removeCookieHeader@) =~= cookies_view(before).push(rv[j as int]));
            }
            j = j + 1;
        }
        assert(rv.take(m as int) =~= rv);
        self.cookie = kept;
    }

    /// Registers `han` as the handler for the not-found case of this
    /// request, overwriting any set before; it is also the handler that runs
    /// last.
    pub fn finalFn(&mut self, han: HandleCallback)
        ensures
            *final(self) == (ResponseTool { finalFunction: han, notFoundFunction: Some(han), ..*old(self) }),
    {
        self.finalFunction = han;
        self.notFoundFunction = Some(han);
    }
}

/// A fresh response to `httpData`: status 200, empty body, no headers and no
/// cookies, not sent, no caching, with `finalFunction` to run last.
pub fn getResponseTool(httpData: &HeaderData, finalFunction: HandleCallback) -> (r: ResponseTool)
    ensures
        !r.responded,
        r.status == 200,
        r.content@ == Seq::<char>::empty(),
        r.header@ == Map::<Seq<char>, Seq<char>>::empty(),
        r.header.pairs().len() == 0,
        r.Request.parsed() == httpData.parsed(),
        r.Request.cookie.pairs() == httpData.cookie.pairs(),
        r.Request.header.pairs() == httpData.header.pairs(),
        strings_view(r.Request.rawData@) == strings_view(httpData.rawData@),
        r.Request.LocalData == httpData.LocalData,
        r.Request.LocalLibParseData == httpData.LocalLibParseData,
        r.cookie@.len() == 0,
        r.finalFunction == finalFunction,
        r.notFoundFunction is None,
        !r.caching,
        !r.ended,
        r.requestCookie@.len() == 0,
        r.removeCookieHeader@.len() == 0,
        r.content_bytes@.len() == 0,
{
    ResponseTool {
        responded: false,
        status: 200,
        content: String::new(),
        header: OrderedMap::new(),
        Request: httpData.clone_data(),
        cookie: Vec::new(),
        finalFunction,
        notFoundFunction: None,
        caching: false,
        ended: false,
        requestCookie: Vec::new(),
        removeCookieHeader: Vec::new(),
        content_bytes: Vec::new(),
    }
}

/// After `remove_cookie(n)`, no cookie named `n` is left among the cookies
/// to set, whatever `set_cookie` added before; the others stay, in order.
pub proof fn lemma_removed_cookie_gone(cs: Seq<CookieView>, n: Seq<char>)
    ensures
        forall|i: int| 0 <= i < cs.filter(not_named(n)).len() ==> #[trigger] cs.filter(not_named(n))[i].0 != n,
        forall|c: CookieView| cs.contains(c) && c.0 != n ==> #[trigger] cs.filter(not_named(n)).contains(c),
{
    assert forall|i: int| 0 <= i < cs.filter(not_named(n)).len() implies #[trigger] cs.filter(not_named(n))[i].0 != n by {
        cs.lemma_filter_pred(not_named(n), i);
    }
    assert forall|c: CookieView| cs.contains(c) && c.0 != n implies #[trigger] cs.filter(not_named(n)).contains(c) by {
        let i = choose|i: int| 0 <= i < cs.len() && cs[i] == c;
        cs.lemma_filter_contains(not_named(n), i);
    }
}

/// `remove_cookie(n)` deletes exactly the request cookies named `n`: every
/// cookie it adds to the cookies to delete has the name `n`, each request
/// cookie named `n` is among them, and it adds no more than there are.
pub proof fn lemma_deleted_cookies_named_exactly(cs: Seq<CookieView>, n: Seq<char>)
    ensures
        forall|i: int| 0 <= i < cs.filter(named(n)).len() ==> #[trigger] cs.filter(named(n))[i].0 == n,
        forall|c: CookieView| cs.contains(c) && c.0 == n ==> #[trigger] cs.filter(named(n)).contains(c),
        forall|c: CookieView| cs.filter(named(n)).contains(c) ==> #[trigger] cs.contains(c),
        cs.filter(named(n)).len() <= cs.len(),
{
    assert forall|i: int| 0 <= i < cs.filter(named(n)).len() implies #[trigger] cs.filter(named(n))[i].0 == n by {
        cs.lemma_filter_pred(named(n), i);
    }
    assert forall|c: CookieView| cs.contains(c) && c.0 == n implies #[trigger] cs.filter(named(n)).contains(c) by {
        let i = choose|i: int| 0 <= i < cs.len() && cs[i] == c;
        cs.lemma_filter_contains(named(n), i);
    }
    cs.lemma_filter_len(named(n));
    assert forall|c: CookieView| cs.filter(named(n)).contains(c) implies #[trigger] cs.contains(c) by {
        lemma_filter_subset(cs, named(n), c);
    }
}

proof fn lemma_filter_subset(cs: Seq<CookieView>, pred: spec_fn(CookieView) -> bool, c: CookieView)
    requires
        cs.filter(pred).contains(c),
    ensures
        cs.contains(c),
    decreases cs.len(),
{
    reveal_with_fuel(Seq::<_>::filter, 1);
    if cs.len() > 0 {
        let front = cs.drop_last();
        if front.filter(pred).contains(c) {
            lemma_filter_subset(front, pred, c);
            let i = choose|i: int| 0 <= i < front.len() && front[i] == c;
            assert(cs[i] == c);
        } else {
            assert(c == cs.last());
            assert(cs[cs.len() - 1] == c);
        }
    }
}

} // verus!
