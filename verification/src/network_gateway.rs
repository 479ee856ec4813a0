//! Origin normalization and the allowlist rules that gate the host's model
//! and network capabilities. The HTTP exchange itself is carried out by the
//! embedding application once these rules let a request through.

use vstd::prelude::*;

use crate::text::{
    ascii_lower, chars_of, is_ascii_whitespace, is_blank, is_blank_spec, lower_seq, push_lowered,
    range_equals, str_eq, string_of_range, to_ascii_lower, trim_bounds, trim_seq, utf8_bytes,
};

verus! {

pub const MODEL_COMPLETE: &'static str = "model.complete";
pub const NETWORK_FETCH_TEXT: &'static str = "network.fetch_text";
pub const MAX_RESPONSE_BYTES: u64 = 524_288;
pub const MAX_PROMPT_LEN: usize = 32_768;

pub open spec fn http_word() -> Seq<char> {
    seq!['h', 't', 't', 'p']
}

pub open spec fn https_word() -> Seq<char> {
    seq!['h', 't', 't', 'p', 's']
}

pub open spec fn scheme_separator() -> Seq<char> {
    seq![':', '/', '/']
}

/// Whether `t[i..i + 3]` is `://`.
pub open spec fn sep_at(t: Seq<char>, i: int) -> bool {
    0 <= i && i + 3 <= t.len() && t[i] == ':' && t[i + 1] == '/' && t[i + 2] == '/'
}

/// The first `://` at or after `i`.
pub open spec fn find_sep(t: Seq<char>, i: nat) -> Option<nat>
    decreases t.len() - i,
{
    if i + 3 > t.len() {
        None
    } else if sep_at(t, i as int) {
        Some(i)
    } else {
        find_sep(t, i + 1)
    }
}

pub open spec fn is_authority_end(c: char) -> bool {
    c == '/' || c == '?' || c == '#'
}

/// The index of the first `/`, `?` or `#` at or after `i`, or the length.
pub open spec fn authority_end(t: Seq<char>, i: nat) -> nat
    decreases t.len() - i,
{
    if i >= t.len() {
        t.len()
    } else if is_authority_end(t[i as int]) {
        i
    } else {
        authority_end(t, i + 1)
    }
}

pub open spec fn has_char_in(t: Seq<char>, c: char, lo: int, hi: int) -> bool {
    exists|j: int| lo <= j < hi && t[j] == c
}

/// A character that an origin may not contain: ASCII whitespace or `\`.
pub open spec fn forbidden_in_url(c: char) -> bool {
    is_ascii_whitespace(c) || c == '\\'
}

/// The origin of a URL, `scheme://authority` lowercased, where the URL is an
/// `http` or `https` URL with a non-empty authority and no user information.
pub open spec fn normalize_origin_spec(url: Seq<char>) -> Option<Seq<char>> {
    let t = trim_seq(url);
    if exists|j: int| 0 <= j < t.len() && forbidden_in_url(#[trigger] t[j]) {
        None
    } else {
        match find_sep(t, 0) {
            None => None,
            Some(k) => {
                let scheme = lower_seq(t.subrange(0, k as int));
                let a = k + 3;
                let e = authority_end(t, a);
                if scheme != http_word() && scheme != https_word() {
                    None
                } else if e == a || has_char_in(t, '@', a as int, e as int) {
                    None
                } else {
                    Some(scheme + scheme_separator() + lower_seq(t.subrange(a as int, e as int)))
                }
            },
        }
    }
}

/// The first index at or after `i` where `t` holds `c`.
pub open spec fn first_index_from(t: Seq<char>, c: char, i: nat) -> Option<nat>
    decreases t.len() - i,
{
    if i >= t.len() {
        None
    } else if t[i as int] == c {
        Some(i)
    } else {
        first_index_from(t, c, i + 1)
    }
}

/// The last index in `[lo, hi)` where `t` holds `c`.
pub open spec fn last_index_in(t: Seq<char>, c: char, lo: int, hi: int) -> Option<int>
    decreases hi - lo,
{
    if hi <= lo {
        None
    } else if t[hi - 1] == c {
        Some(hi - 1)
    } else {
        last_index_in(t, c, lo, hi - 1)
    }
}

pub open spec fn all_digits(t: Seq<char>, lo: int, hi: int) -> bool {
    forall|j: int| lo <= j < hi ==> '0' <= #[trigger] t[j] <= '9'
}

pub open spec fn is_loopback_host(h: Seq<char>) -> bool {
    ||| h == seq!['1', '2', '7', '.', '0', '.', '0', '.', '1']
    ||| h == seq!['l', 'o', 'c', 'a', 'l', 'h', 'o', 's', 't']
    ||| h == seq![':', ':', '1']
}

/// Whether an origin names this machine: an `http`/`https` origin whose host
/// is exactly `127.0.0.1`, `localhost` or `[::1]`, with at most a port,
/// which is then a `:` followed by one or more digits.
pub open spec fn loopback_spec(o: Seq<char>) -> bool {
    match find_sep(o, 0) {
        None => false,
        Some(k) => {
            let scheme = o.subrange(0, k as int);
            let a = k + 3;
            let n = o.len();
            if scheme != http_word() && scheme != https_word() {
                false
            } else if a < n && o[a as int] == '[' {
                match first_index_from(o, ']', a + 1) {
                    None => false,
                    Some(e) => if e + 1 < n && !(o[(e + 1) as int] == ':' && e + 2 < n
                        && all_digits(o, (e + 2) as int, n as int)) {
                        false
                    } else {
                        is_loopback_host(o.subrange((a + 1) as int, e as int))
                    },
                }
            } else {
                match last_index_in(o, ':', a as int, n as int) {
                    Some(p) => if p + 1 == n || !all_digits(o, p + 1, n as int) {
                        false
                    } else {
                        is_loopback_host(o.subrange(a as int, p))
                    },
                    None => is_loopback_host(o.subrange(a as int, n as int)),
                }
            }
        },
    }
}

/// The origins on which the loopback check would cut a text in the middle
/// of a character: a bracketed host followed by a character outside ASCII.
pub open spec fn loopback_cuts_char(o: Seq<char>) -> bool {
    match find_sep(o, 0) {
        None => false,
        Some(k) => {
            let scheme = o.subrange(0, k as int);
            let a = k + 3;
            &&& scheme == http_word() || scheme == https_word()
            &&& a < o.len() && o[a as int] == '['
            &&& first_index_from(o, ']', a + 1) matches Some(e) && e + 1 < o.len() && (o[(e + 1) as int]
                as u32) >= 0x80
        },
    }
}

/// Where `find_sep` finds a separator, it is one.
pub proof fn lemma_find_sep_found(t: Seq<char>, i: nat)
    ensures
        find_sep(t, i) matches Some(k) ==> i <= k && k + 3 <= t.len() && sep_at(t, k as int),
    decreases t.len() - i,
{
    if i + 3 <= t.len() && !sep_at(t, i as int) {
        lemma_find_sep_found(t, i + 1);
    }
}

fn find_separator(t: &Vec<char>) -> (r: Option<usize>)
    ensures
        match find_sep(t@, 0) {
            Some(k) => r matches Some(x) && x == k,
            None => r is None,
        },
        r matches Some(k) ==> k + 3 <= t@.len(),
{
    proof {
        lemma_find_sep_found(t@, 0);
    }
    let n = t.len();
    let mut i: usize = 0;
    while n - i >= 3
        invariant
            n == t@.len(),
            i <= n,
            find_sep(t@, 0) == find_sep(t@, i as nat),
        decreases n - i,
    {
        if t[i] == ':' && t[i + 1] == '/' && t[i + 2] == '/' {
            return Some(i);
        }
        i = i + 1;
    }
    None
}

fn find_authority_end(t: &Vec<char>, start: usize) -> (r: usize)
    requires
        start <= t@.len(),
    ensures
        r == authority_end(t@, start as nat),
        start <= r <= t@.len(),
{
    let mut i: usize = start;
    while i < t.len() && !(t[i] == '/' || t[i] == '?' || t[i] == '#')
        invariant
            start <= i <= t@.len(),
            authority_end(t@, start as nat) == authority_end(t@, i as nat),
        decreases t@.len() - i,
    {
        i = i + 1;
    }
    i
}

fn contains_char(t: &Vec<char>, c: char, lo: usize, hi: usize) -> (r: bool)
    requires
        lo <= hi <= t@.len(),
    ensures
        r == has_char_in(t@, c, lo as int, hi as int),
{
    let mut i: usize = lo;
    while i < hi
        invariant
            lo <= i <= hi <= t@.len(),
            forall|j: int| lo <= j < i ==> t@[j] != c,
        decreases hi - i,
    {
        if t[i] == c {
            return true;
        }
        i = i + 1;
    }
    false
}

fn lowered_equals(t: &Vec<char>, lo: usize, hi: usize, word: &[char]) -> (r: bool)
    requires
        lo <= hi <= t@.len(),
    ensures
        r == (lower_seq(t@.subrange(lo as int, hi as int)) == word@),
{
    if hi - lo != word.len() {
        return false;
    }
    let mut i: usize = 0;
    while i < word.len()
        invariant
            hi - lo == word@.len(),
            lo <= hi <= t@.len(),
            i <= word@.len(),
            forall|j: int| 0 <= j < i ==> ascii_lower(t@[lo + j]) == word@[j],
        decreases word@.len() - i,
    {
        if to_ascii_lower(t[lo + i]) != word[i] {
            assert(lower_seq(t@.subrange(lo as int, hi as int))[i as int] != word@[i as int]);
            return false;
        }
        i = i + 1;
    }
    assert(lower_seq(t@.subrange(lo as int, hi as int)) =~= word@);
    true
}

fn copy_range(v: &Vec<char>, lo: usize, hi: usize) -> (r: Vec<char>)
    requires
        lo <= hi <= v@.len(),
    ensures
        r@ == v@.subrange(lo as int, hi as int),
{
    let mut out: Vec<char> = Vec::new();
    let mut i: usize = lo;
    while i < hi
        invariant
            lo <= i <= hi <= v@.len(),
            out@ == v@.subrange(lo as int, i as int),
        decreases hi - i,
    {
        out.push(v[i]);
        i = i + 1;
        assert(out@ =~= v@.subrange(lo as int, i as int));
    }
    out
}

/// The lowercased `scheme://authority` origin of an `http` or `https` URL,
/// or `None` where the URL is refused.
pub fn normalize_origin(url: &str) -> (r: Option<String>)
    ensures
        match normalize_origin_spec(url@) {
            Some(o) => r matches Some(s) && s@ == o,
            None => r is None,
        },
{
    let v = chars_of(url);
    let (lo, hi) = trim_bounds(&v);
    let t = copy_range(&v, lo, hi);
    assert(t@ == trim_seq(url@));
    let mut i: usize = 0;
    while i < t.len()
        invariant
            i <= t@.len(),
            t@ == trim_seq(url@),
            forall|j: int| 0 <= j < i ==> !forbidden_in_url(#[trigger] t@[j]),
        decreases t@.len() - i,
    {
        let c = t[i];
        if c == ' ' || c == '\t' || c == '\n' || c == '\x0C' || c == '\r' || c == '\\' {
            assert(forbidden_in_url(t@[i as int]));
            return None;
        }
        i = i + 1;
    }
    let k = match find_separator(&t) {
        Some(k) => k,
        None => {
            return None;
        },
    };
    let http = ['h', 't', 't', 'p'];
    let https = ['h', 't', 't', 'p', 's'];
    proof {
        assert(http@ =~= http_word());
        assert(https@ =~= https_word());
    }
    if !lowered_equals(&t, 0, k, &http) && !lowered_equals(&t, 0, k, &https) {
        return None;
    }
    let a = k + 3;
    let e = find_authority_end(&t, a);
    if e == a || contains_char(&t, '@', a, e) {
        return None;
    }
    let mut out = String::new();
    push_lowered(&mut out, &t, 0, k);
    out.push(':');
    out.push('/');
    out.push('/');
    push_lowered(&mut out, &t, a, e);
    assert(out@ =~= lower_seq(t@.subrange(0, k as int)) + scheme_separator() + lower_seq(
        t@.subrange(a as int, e as int),
    ));
    Some(out)
}

proof fn lemma_first_index_found(t: Seq<char>, c: char, i: nat)
    ensures
        first_index_from(t, c, i) matches Some(e) ==> i <= e < t.len() && t[e as int] == c,
    decreases t.len() - i,
{
    if i < t.len() && t[i as int] != c {
        lemma_first_index_found(t, c, i + 1);
    }
}

proof fn lemma_last_index_found(t: Seq<char>, c: char, lo: int, hi: int)
    ensures
        last_index_in(t, c, lo, hi) matches Some(p) ==> lo <= p < hi && t[p] == c,
    decreases hi - lo,
{
    if hi > lo && t[hi - 1] != c {
        lemma_last_index_found(t, c, lo, hi - 1);
    }
}

fn first_index_of(t: &Vec<char>, c: char, start: usize) -> (r: Option<usize>)
    requires
        start <= t@.len(),
    ensures
        match first_index_from(t@, c, start as nat) {
            Some(e) => r matches Some(x) && x == e,
            None => r is None,
        },
        r matches Some(x) ==> start <= x < t@.len(),
{
    proof {
        lemma_first_index_found(t@, c, start as nat);
    }
    let mut i: usize = start;
    while i < t.len()
        invariant
            start <= i <= t@.len(),
            first_index_from(t@, c, start as nat) == first_index_from(t@, c, i as nat),
        decreases t@.len() - i,
    {
        if t[i] == c {
            return Some(i);
        }
        i = i + 1;
    }
    None
}

fn last_index_of(t: &Vec<char>, c: char, lo: usize, hi: usize) -> (r: Option<usize>)
    requires
        lo <= hi <= t@.len(),
    ensures
        match last_index_in(t@, c, lo as int, hi as int) {
            Some(p) => r matches Some(x) && x == p,
            None => r is None,
        },
        r matches Some(x) ==> lo <= x < hi,
{
    proof {
        lemma_last_index_found(t@, c, lo as int, hi as int);
    }
    let mut i: usize = hi;
    while i > lo
        invariant
            lo <= i <= hi <= t@.len(),
            last_index_in(t@, c, lo as int, hi as int) == last_index_in(t@, c, lo as int, i as int),
        decreases i,
    {
        if t[i - 1] == c {
            return Some(i - 1);
        }
        i = i - 1;
    }
    None
}

fn digits_only(t: &Vec<char>, lo: usize, hi: usize) -> (r: bool)
    requires
        lo <= hi <= t@.len(),
    ensures
        r == all_digits(t@, lo as int, hi as int),
{
    let mut i: usize = lo;
    while i < hi
        invariant
            lo <= i <= hi <= t@.len(),
            forall|j: int| lo <= j < i ==> '0' <= #[trigger] t@[j] <= '9',
        decreases hi - i,
    {
        if !('0' <= t[i] && t[i] <= '9') {
            return false;
        }
        i = i + 1;
    }
    true
}

fn is_loopback_host_range(t: &Vec<char>, lo: usize, hi: usize) -> (r: bool)
    requires
        lo <= hi <= t@.len(),
    ensures
        r == is_loopback_host(t@.subrange(lo as int, hi as int)),
{
    let v4 = ['1', '2', '7', '.', '0', '.', '0', '.', '1'];
    let name = ['l', 'o', 'c', 'a', 'l', 'h', 'o', 's', 't'];
    let v6 = [':', ':', '1'];
    proof {
        assert(v4@ =~= seq!['1', '2', '7', '.', '0', '.', '0', '.', '1']);
        assert(name@ =~= seq!['l', 'o', 'c', 'a', 'l', 'h', 'o', 's', 't']);
        assert(v6@ =~= seq![':', ':', '1']);
    }
    range_equals(t, lo, hi, &v4) || range_equals(t, lo, hi, &name) || range_equals(
        t,
        lo,
        hi,
        &v6,
    )
}

/// Whether an origin names this machine (`127.0.0.1`, `localhost` or
/// `[::1]`, with at most a numeric port).
pub fn is_loopback_origin(origin: &str) -> (r: bool)
    requires
        !loopback_cuts_char(origin@),
    ensures
        r == loopback_spec(origin@),
{
    let o = chars_of(origin);
    let n = o.len();
    let k = match find_separator(&o) {
        Some(k) => k,
        None => {
            return false;
        },
    };
    let http = ['h', 't', 't', 'p'];
    let https = ['h', 't', 't', 'p', 's'];
    proof {
        assert(http@ =~= http_word());
        assert(https@ =~= https_word());
    }
    if !range_equals(&o, 0, k, &http) && !range_equals(&o, 0, k, &https) {
        return false;
    }
    let a = k + 3;
    if a < n && o[a] == '[' {
        let e = match first_index_of(&o, ']', a + 1) {
            Some(e) => e,
            None => {
                return false;
            },
        };
        if n - e > 1 && !(o[e + 1] == ':' && n - e > 2 && digits_only(&o, e + 2, n)) {
            return false;
        }
        is_loopback_host_range(&o, a + 1, e)
    } else {
        match last_index_of(&o, ':', a, n) {
            Some(p) => {
                if p + 1 == n || !digits_only(&o, p + 1, n) {
                    return false;
                }
                is_loopback_host_range(&o, a, p)
            },
            None => is_loopback_host_range(&o, a, n),
        }
    }
}


/// `str::split(',')`: the comma-separated fields of a text, empty ones
/// included.
pub open spec fn split_commas(s: Seq<char>) -> Seq<Seq<char>>
    decreases s.len(),
{
    if s.len() == 0 {
        seq![Seq::<char>::empty()]
    } else {
        let prev = split_commas(s.drop_last());
        if s.last() == ',' {
            prev.push(Seq::<char>::empty())
        } else {
            prev.update(prev.len() - 1, prev.last().push(s.last()))
        }
    }
}

/// The origins of the fields that normalize, in order.
pub open spec fn origins_of(fields: Seq<Seq<char>>) -> Seq<Seq<char>>
    decreases fields.len(),
{
    if fields.len() == 0 {
        Seq::<Seq<char>>::empty()
    } else {
        let prev = origins_of(fields.drop_last());
        match normalize_origin_spec(trim_seq(fields.last())) {
            Some(o) => prev.push(o),
            None => prev,
        }
    }
}

/// The allowlist that a comma-separated list of URLs configures: the
/// normalized origin of each entry, entries that do not normalize dropped.
pub open spec fn allowlist_spec(raw: Seq<char>) -> Seq<Seq<char>> {
    origins_of(split_commas(raw))
}

pub open spec fn string_views(v: Seq<String>) -> Seq<Seq<char>> {
    v.map_values(|s: String| s@)
}

fn push_origin_of(out: &mut Vec<String>, field: &str)
    ensures
        string_views(final(out)@) == match normalize_origin_spec(trim_seq(field@)) {
            Some(o) => string_views(old(out)@).push(o),
            None => string_views(old(out)@),
        },
{
    let t = crate::text::trimmed(field);
    match normalize_origin(t.as_str()) {
        Some(origin) => {
            out.push(origin);
            assert(string_views(out@) =~= string_views(old(out)@).push(origin@));
        },
        None => {},
    }
}

/// Parses a comma-separated allowlist into normalized origins.
pub fn parse_allowlist(raw: &str) -> (r: Vec<String>)
    ensures
        string_views(r@) == allowlist_spec(raw@),
{
    let v = chars_of(raw);
    let n = v.len();
    let mut out: Vec<String> = Vec::new();
    let mut start: usize = 0;
    let mut i: usize = 0;
    let ghost mut done: Seq<Seq<char>> = Seq::empty();
    assert(v@.take(0) =~= Seq::<char>::empty());
    assert(v@.subrange(0, 0) =~= Seq::<char>::empty());
    assert(split_commas(v@.take(0)) =~= done.push(v@.subrange(0, 0)));
    while i < n
        invariant
            n == v@.len(),
            start <= i <= n,
            split_commas(v@.take(i as int)) == done.push(v@.subrange(start as int, i as int)),
            string_views(out@) == origins_of(done),
        decreases n - i,
    {
        assert(v@.take(i + 1).drop_last() =~= v@.take(i as int));
        assert(v@.take(i + 1).last() == v@[i as int]);
        if v[i] == ',' {
            let field = string_of_range(&v, start, i);
            push_origin_of(&mut out, field.as_str());
            proof {
                let f = v@.subrange(start as int, i as int);
                assert(done.push(f).drop_last() =~= done);
                assert(done.push(f).last() == f);
                done = done.push(f);
                assert(v@.subrange(i + 1, i + 1) =~= Seq::<char>::empty());
                assert(split_commas(v@.take(i + 1)) =~= done.push(v@.subrange(i + 1, i + 1)));
            }
            start = i + 1;
        } else {
            proof {
                assert(v@.subrange(start as int, i + 1) =~= v@.subrange(start as int, i as int).push(
                    v@[i as int],
                ));
                assert(split_commas(v@.take(i + 1)) =~= done.push(
                    v@.subrange(start as int, i + 1),
                ));
            }
        }
        i = i + 1;
    }
    let field = string_of_range(&v, start, n);
    push_origin_of(&mut out, field.as_str());
    proof {
        let f = v@.subrange(start as int, n as int);
        assert(v@.take(n as int) =~= v@);
        assert(done.push(f).drop_last() =~= done);
    }
    out
}

/// A model request that the gateway's rules let through.
pub struct ModelRequest {
    pub endpoint: String,
    pub model: String,
    /// Whether the provider speaks the Ollama chat API rather than the
    /// OpenAI-compatible one.
    pub ollama: bool,
    pub api_key: Option<String>,
}

pub open spec fn option_view(o: Option<String>) -> Option<Seq<char>> {
    match o {
        Some(s) => Some(s@),
        None => None,
    }
}

/// The rules of the host's outbound network access: which origins may be
/// fetched and which model endpoint may be called, and how.
pub struct NetworkGateway {
    allowlist: Vec<String>,
    model_endpoint: Option<String>,
    model_name: Option<String>,
    model_style: String,
    model_api_key: Option<String>,
}

impl NetworkGateway {
    /// The allowed origins.
    pub closed spec fn allowlist_view(&self) -> Seq<Seq<char>> {
        string_views(self.allowlist@)
    }

    pub closed spec fn endpoint_view(&self) -> Option<Seq<char>> {
        option_view(self.model_endpoint)
    }

    pub closed spec fn model_view(&self) -> Option<Seq<char>> {
        option_view(self.model_name)
    }

    pub closed spec fn style_view(&self) -> Seq<char> {
        self.model_style@
    }

    pub closed spec fn api_key_view(&self) -> Option<Seq<char>> {
        option_view(self.model_api_key)
    }

    /// A gateway configured from the raw allowlist and model settings; the
    /// API style defaults to `openai_compatible`.
    pub fn new(
        allowlist: Option<&str>,
        model_endpoint: Option<String>,
        model_name: Option<String>,
        model_style: Option<String>,
        model_api_key: Option<String>,
    ) -> (r: Self)
        ensures
            r.allowlist_view() == match allowlist {
                Some(raw) => allowlist_spec(raw@),
                None => Seq::<Seq<char>>::empty(),
            },
            r.endpoint_view() == option_view(model_endpoint),
            r.model_view() == option_view(model_name),
            r.style_view() == match model_style {
                Some(style) => style@,
                None => "openai_compatible"@,
            },
            r.api_key_view() == option_view(model_api_key),
    {
        let list = match allowlist {
            Some(raw) => parse_allowlist(raw),
            None => Vec::new(),
        };
        let style = match model_style {
            Some(style) => style,
            None => "openai_compatible".to_owned(),
        };
        let r = NetworkGateway {
            allowlist: list,
            model_endpoint,
            model_name,
            model_style: style,
            model_api_key,
        };
        assert(allowlist is None ==> r.allowlist_view() =~= Seq::<Seq<char>>::empty());
        r
    }

    fn allows(&self, origin: &str) -> (r: bool)
        ensures
            r == self.allowlist_view().contains(origin@),
    {
        let mut i: usize = 0;
        while i < self.allowlist.len()
            invariant
                i <= self.allowlist@.len(),
                forall|j: int| 0 <= j < i ==> self.allowlist@[j]@ != origin@,
            decreases self.allowlist@.len() - i,
        {
            if str_eq(self.allowlist[i].as_str(), origin) {
                assert(self.allowlist_view()[i as int] == origin@);
                return true;
            }
            i = i + 1;
        }
        assert forall|j: int| 0 <= j < self.allowlist_view().len() implies self.allowlist_view()[j]
            != origin@ by {
            assert(self.allowlist_view()[j] == self.allowlist@[j]@);
        }
        false
    }

    /// A model endpoint is allowed when its origin is the local machine or
    /// is on the allowlist.
    pub fn ensure_model_allowed(&self, url: &str) -> (r: Result<(), String>)
        requires
            !(normalize_origin_spec(url@) matches Some(o) && loopback_cuts_char(o)),
        ensures
            match normalize_origin_spec(url@) {
                None => r matches Err(m) && m@ == "invalid model endpoint"@,
                Some(o) => if loopback_spec(o) || self.allowlist_view().contains(o) {
                    r is Ok
                } else {
                    r matches Err(m) && m@ == "model endpoint is not allowlisted"@
                },
            },
    {
        let origin = match normalize_origin(url) {
            Some(origin) => origin,
            None => {
                return Err("invalid model endpoint".to_owned());
            },
        };
        if is_loopback_origin(origin.as_str()) || self.allows(origin.as_str()) {
            return Ok(());
        }
        Err("model endpoint is not allowlisted".to_owned())
    }

    /// A fetch target is allowed only when its origin is on the allowlist.
    pub fn ensure_fetch_allowed(&self, url: &str) -> (r: Result<(), String>)
        ensures
            match normalize_origin_spec(url@) {
                None => r matches Err(m) && m@ == "invalid network URL"@,
                Some(o) => if self.allowlist_view().contains(o) {
                    r is Ok
                } else {
                    r matches Err(m) && m@ == "network target is not allowlisted"@
                },
            },
    {
        let origin = match normalize_origin(url) {
            Some(origin) => origin,
            None => {
                return Err("invalid network URL".to_owned());
            },
        };
        if self.allows(origin.as_str()) {
            return Ok(());
        }
        Err("network target is not allowlisted".to_owned())
    }

    /// The checks that come before a model call: a non-blank prompt within
    /// the size limit, a configured endpoint and model, and an allowed
    /// endpoint.
    pub fn prepare_model_request(&self, prompt: &str) -> (r: Result<ModelRequest, String>)
        requires
            self.endpoint_view() matches Some(ep) ==> !(normalize_origin_spec(ep) matches Some(o)
                && loopback_cuts_char(o)),
        ensures
            is_blank_spec(prompt@) || utf8_bytes(prompt@).len() > MAX_PROMPT_LEN ==> (r matches Err(
                m,
            ) && m@ == "invalid model prompt"@),
            !is_blank_spec(prompt@) && utf8_bytes(prompt@).len() <= MAX_PROMPT_LEN ==> {
                match self.endpoint_view() {
                    None => r matches Err(m) && m@ == "model provider is not configured"@,
                    Some(ep) => match self.model_view() {
                        None => r matches Err(m) && m@ == "model name is not configured"@,
                        Some(model) => match normalize_origin_spec(ep) {
                            None => r matches Err(m) && m@ == "invalid model endpoint"@,
                            Some(o) => if loopback_spec(o) || self.allowlist_view().contains(o) {
                                r matches Ok(req) && req.endpoint@ == ep && req.model@ == model
                                    && req.ollama == (self.style_view() == "ollama"@)
                                    && option_view(req.api_key) == self.api_key_view()
                            } else {
                                r matches Err(m) && m@ == "model endpoint is not allowlisted"@
                            },
                        },
                    },
                }
            },
    {
        if is_blank(prompt) || prompt.as_bytes().len() > MAX_PROMPT_LEN {
            return Err("invalid model prompt".to_owned());
        }
        let endpoint = match &self.model_endpoint {
            Some(endpoint) => endpoint,
            None => {
                return Err("model provider is not configured".to_owned());
            },
        };
        let model = match &self.model_name {
            Some(model) => model,
            None => {
                return Err("model name is not configured".to_owned());
            },
        };
        match self.ensure_model_allowed(endpoint.as_str()) {
            Ok(()) => {},
            Err(e) => {
                return Err(e);
            },
        }
        let ollama_word = "ollama";
        let ollama = str_eq(self.model_style.as_str(), ollama_word);
        let api_key = match &self.model_api_key {
            Some(key) => Some(key.clone()),
            None => None,
        };
        Ok(
            ModelRequest {
                endpoint: endpoint.clone(),
                model: model.clone(),
                ollama,
                api_key,
            },
        )
    }

    /// The configured model endpoint, as it was given.
    pub fn model_endpoint(&self) -> (r: Option<&str>)
        ensures
            match r {
                Some(ep) => self.endpoint_view() == Some(ep@),
                None => self.endpoint_view() is None,
            },
    {
        match &self.model_endpoint {
            Some(ep) => Some(ep.as_str()),
            None => None,
        }
    }

    /// Whether the configured provider speaks the Ollama chat API.
    pub fn is_ollama(&self) -> (r: bool)
        ensures
            r == (self.style_view() == "ollama"@),
    {
        str_eq(self.model_style.as_str(), "ollama")
    }
}

/// What a model call answers for the reply text taken out of the provider's
/// answer: the text, when there is one within the size limit.
pub open spec fn reply_outcome(content: Option<Seq<char>>, r: Result<String, String>) -> bool {
    match content {
        None => r matches Err(m) && m@ == "model response did not contain text"@,
        Some(c) => if utf8_bytes(c).len() > MAX_RESPONSE_BYTES {
            r matches Err(m) && m@ == "model response is too large"@
        } else {
            r matches Ok(t) && t@ == c
        },
    }
}

pub fn finish_model_reply(content: Option<String>) -> (r: Result<String, String>)
    ensures
        reply_outcome(option_view(content), r),
{
    match content {
        None => {
            let m = "model response did not contain text".to_owned();
            Err(m)
        },
        Some(c) => {
            if c.as_str().as_bytes().len() as u64 > MAX_RESPONSE_BYTES {
                Err("model response is too large".to_owned())
            } else {
                Ok(c)
            }
        },
    }
}

#[verifier::external_type_specification]
#[verifier::external_body]
pub struct ExJsonValue(serde_json::Value);

/// Whether `serde_json` reads a text as one JSON document.
pub uninterp spec fn json_parses(raw: Seq<char>) -> bool;

/// `serde_json::from_str` into a `serde_json::Value`: the document where the
/// text is JSON (`json_parses`), else `None`. The value is opaque here and is
/// read only through the accessors below, so nothing more is stated of it.
#[verifier::external_body]
fn parse_json(raw: &str) -> (r: Option<serde_json::Value>)
    ensures
        r is Some == json_parses(raw@),
{
    serde_json::from_str(raw).ok()
}

/// The text that `serde_json` finds at a JSON Pointer (RFC 6901) in a raw
/// document: `None` where the text is not JSON, nothing stands at the
/// pointer, or what stands there is not a string.
pub uninterp spec fn json_text_at(raw: Seq<char>, pointer: Seq<char>) -> Option<Seq<char>>;

/// `serde_json::from_str` into a `Value`, then `Value::pointer` and
/// `Value::as_str`: the string at `pointer` in the document, as
/// `json_text_at` names it.
#[verifier::external_body]
fn text_at_pointer(raw: &str, pointer: &str) -> (r: Option<String>)
    ensures
        option_view(r) == json_text_at(raw@, pointer@),
{
    match serde_json::from_str::<serde_json::Value>(raw) {
        Ok(value) => match value.pointer(pointer) {
            Some(found) => found.as_str().map(str::to_owned),
            None => None,
        },
        Err(_) => None,
    }
}

/// Where a provider's answer holds the reply text: `message.content` for
/// Ollama, `choices[0].message.content` for an OpenAI-compatible provider.
pub open spec fn reply_pointer(ollama: bool) -> Seq<char> {
    if ollama {
        "/message/content"@
    } else {
        "/choices/0/message/content"@
    }
}

/// The reply text in a provider's raw answer: `message.content` for an
/// Ollama answer, `choices[0].message.content` for an OpenAI-compatible
/// one; an answer that is not JSON is refused, and otherwise the text found
/// there goes through `finish_model_reply`.
pub fn model_reply_text(raw: &str, ollama: bool) -> (r: Result<String, String>)
    ensures
        !json_parses(raw@) ==> (r matches Err(m) && m@ == "model returned malformed JSON"@),
        json_parses(raw@) ==> reply_outcome(json_text_at(raw@, reply_pointer(ollama)), r),
{
    if parse_json(raw).is_none() {
        return Err("model returned malformed JSON".to_owned());
    }
    let pointer = if ollama {
        "/message/content"
    } else {
        "/choices/0/message/content"
    };
    proof {
        reveal_strlit("/message/content");
        reveal_strlit("/choices/0/message/content");
    }
    assert(pointer@ == reply_pointer(ollama));
    finish_model_reply(text_at_pointer(raw, pointer))
}

/// Whether the loopback check would cut `origin` in the middle of a
/// character, so that callers can refuse such an origin first.
pub fn loopback_check_would_cut(origin: &str) -> (r: bool)
    ensures
        r == loopback_cuts_char(origin@),
{
    let o = chars_of(origin);
    let n = o.len();
    let k = match find_separator(&o) {
        Some(k) => k,
        None => {
            return false;
        },
    };
    let http = ['h', 't', 't', 'p'];
    let https = ['h', 't', 't', 'p', 's'];
    proof {
        assert(http@ =~= http_word());
        assert(https@ =~= https_word());
    }
    if !range_equals(&o, 0, k, &http) && !range_equals(&o, 0, k, &https) {
        return false;
    }
    let a = k + 3;
    if !(a < n && o[a] == '[') {
        return false;
    }
    match first_index_of(&o, ']', a + 1) {
        Some(e) => n - e > 1 && (o[e + 1] as u32) >= 0x80,
        None => false,
    }
}

} // verus!
