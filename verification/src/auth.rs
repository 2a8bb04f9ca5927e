//! Single-user authentication: the start-up settings, password hashing, the
//! session cookie, and the in-memory store of login sessions.
use vstd::prelude::*;
use crate::error::{AppError, ConfigError, ErrorKind};
use crate::crypto::{
    fill_random, random_error_text, hash_error_text, encode_salt, check_phc, argon2_hash, argon2_verify,
    phc_parses, password_matches_phc, argon2_phc, salt_b64,
};
use crate::text::{
    chars_of, concat2, decimal, decimal_string, hex_lower, hex_string, is_ascii_hexdigit,
    lower_seq, owned, push_str, to_lower_char, trim, trim_bounds, is_whitespace,
    lemma_hex_lower_shape, parse_unsigned, parse_unsigned_text,
};

verus! {

/// The name of the session cookie.
pub const COOKIE_NAME: &'static str = "amstock_session";

/// The default lifetime of a session, in hours.
pub const DEFAULT_SESSION_HOURS: u64 = 720;

// ---------------------------------------------------------------------------
// Reading the session token from a `Cookie` header
// ---------------------------------------------------------------------------

/// `"amstock_session="`, the text that starts the session cookie.
pub open spec fn cookie_prefix() -> Seq<char> {
    seq!['a', 'm', 's', 't', 'o', 'c', 'k', '_', 's', 'e', 's', 's', 'i', 'o', 'n', '=']
}

/// The index of the first `;` in `s`, or its length when there is none.
pub open spec fn semicolon_index(s: Seq<char>) -> nat
    decreases s.len(),
{
    if s.len() == 0 {
        0
    } else if s[0] == ';' {
        0
    } else {
        1 + semicolon_index(s.drop_first())
    }
}

/// The value of the first cookie in `s` (cookies are separated by `;` and
/// trimmed) whose text starts with `name=`.
pub open spec fn first_cookie_value(s: Seq<char>, prefix: Seq<char>) -> Option<Seq<char>>
    decreases s.len(),
{
    let k = semicolon_index(s);
    let piece = trim(s.take(k as int));
    if piece.len() >= prefix.len() && piece.take(prefix.len() as int) == prefix {
        Some(piece.skip(prefix.len() as int))
    } else if k < s.len() {
        first_cookie_value(s.skip(k + 1 as int), prefix)
    } else {
        None
    }
}

/// A session token: 64 hexadecimal digits.
pub open spec fn valid_token(t: Seq<char>) -> bool {
    t.len() == 64 && forall|i: int| 0 <= i < t.len() ==> is_ascii_hexdigit(#[trigger] t[i])
}

/// The session token that a `Cookie` header carries: the value of its first
/// `amstock_session` cookie, when that is a valid token.
pub open spec fn token_in(cookie_header: Seq<char>) -> Option<Seq<char>> {
    match first_cookie_value(cookie_header, cookie_prefix()) {
        Some(t) => if valid_token(t) {
            Some(t)
        } else {
            None
        },
        None => None,
    }
}

proof fn lemma_semicolon_index(s: Seq<char>, k: int)
    requires
        0 <= k <= s.len(),
        forall|j: int| 0 <= j < k ==> s[j] != ';',
        k == s.len() || s[k] == ';',
    ensures
        semicolon_index(s) == k,
    decreases k,
{
    if k > 0 {
        lemma_semicolon_index(s.drop_first(), k - 1);
    }
}

fn is_token(t: &Vec<char>, from: usize, to: usize) -> (r: bool)
    requires
        from <= to <= t.len(),
    ensures
        r == valid_token(t@.subrange(from as int, to as int)),
{
    if to - from != 64 {
        return false;
    }
    let mut i = from;
    while i < to
        invariant
            from <= i <= to <= t.len(),
            forall|j: int| from <= j < i ==> is_ascii_hexdigit(#[trigger] t@[j]),
        decreases to - i,
    {
        let c = t[i];
        if !(('0' <= c && c <= '9') || ('a' <= c && c <= 'f') || ('A' <= c && c <= 'F')) {
            assert(!is_ascii_hexdigit(t@.subrange(from as int, to as int)[i - from]));
            return false;
        }
        i = i + 1;
    }
    assert forall|j: int| 0 <= j < (to - from) implies is_ascii_hexdigit(
        #[trigger] t@.subrange(from as int, to as int)[j],
    ) by {
        assert(t@.subrange(from as int, to as int)[j] == t@[from + j]);
    }
    true
}

fn starts_with_cookie_prefix(t: &Vec<char>, from: usize, to: usize) -> (r: bool)
    requires
        from <= to <= t.len(),
    ensures
        r == (to - from >= cookie_prefix().len() && t@.subrange(from as int, to as int).take(
            cookie_prefix().len() as int,
        ) == cookie_prefix()),
{
    let prefix = chars_of(COOKIE_NAME);
    proof {
        reveal_strlit("amstock_session");
        assert(prefix@ =~= cookie_prefix().drop_last());
    }
    let n = prefix.len();
    if to - from < n + 1 {
        return false;
    }
    let mut i: usize = 0;
    while i < n
        invariant
            i <= n == 15,
            from + 16 <= to <= t.len(),
            prefix@ == cookie_prefix().drop_last(),
            forall|j: int| 0 <= j < i ==> t@[from + j] == cookie_prefix()[j],
        decreases n - i,
    {
        if t[from + i] != prefix[i] {
            assert(t@.subrange(from as int, to as int).take(16)[i as int] != cookie_prefix()[i as int]);
            return false;
        }
        i = i + 1;
    }
    if t[from + n] != '=' {
        assert(t@.subrange(from as int, to as int).take(16)[15] != cookie_prefix()[15]);
        return false;
    }
    assert(t@.subrange(from as int, to as int).take(16) =~= cookie_prefix());
    true
}

/// The session token carried by a `Cookie` header value.
pub fn session_token(cookie_header: &str) -> (r: Option<String>)
    ensures
        r matches Some(t) ==> token_in(cookie_header@) == Some(t@),
        r is None ==> token_in(cookie_header@) is None,
{
    let s = chars_of(cookie_header);
    let n = s.len();
    let mut start: usize = 0;
    let mut i: usize = 0;
    assert(s@.skip(0) =~= s@);
    while i <= n
        invariant
            start <= i <= n,
            n == s.len(),
            s@ == cookie_header@,
            start <= n,
            first_cookie_value(s@, cookie_prefix()) == first_cookie_value(
                s@.skip(start as int),
                cookie_prefix(),
            ),
            forall|j: int| start <= j < i && j < n ==> s@[j] != ';',
        decreases n + 1 - i,
    {
        if i == n || s[i] == ';' {
            let ghost rest = s@.skip(start as int);
            proof {
                lemma_semicolon_index(rest, i - start);
            }
            let (a, b) = trim_bounds_range(&s, start, i);
            let ghost piece = s@.subrange(a as int, b as int);
            assert(rest.take(i - start) =~= s@.subrange(start as int, i as int));
            if starts_with_cookie_prefix(&s, a, b) {
                let value_start = a + 16;
                let ok = is_token(&s, value_start, b);
                assert(piece.skip(16) =~= s@.subrange(value_start as int, b as int));
                if ok {
                    return Some(crate::text::string_of_range(&s, value_start, b));
                } else {
                    return None;
                }
            }
            if i == n {
                return None;
            }
            assert(rest.skip(i - start + 1) =~= s@.skip(i + 1));
            start = i + 1;
        }
        i = i + 1;
    }
    None
}

/// The bounds of `trim(chars[from..to])` within `chars`.
fn trim_bounds_range(chars: &Vec<char>, from: usize, to: usize) -> (r: (usize, usize))
    requires
        from <= to <= chars.len(),
    ensures
        from <= r.0 <= r.1 <= to,
        chars@.subrange(r.0 as int, r.1 as int) == trim(chars@.subrange(from as int, to as int)),
{
    let mut piece: Vec<char> = Vec::new();
    let mut k = from;
    while k < to
        invariant
            from <= k <= to <= chars.len(),
            piece@ == chars@.subrange(from as int, k as int),
        decreases to - k,
    {
        piece.push(chars[k]);
        assert(chars@.subrange(from as int, k + 1) =~= chars@.subrange(from as int, k as int).push(
            chars@[k as int],
        ));
        k = k + 1;
    }
    let (a, b) = trim_bounds(&piece);
    assert(chars@.subrange(from + a, from + b) =~= piece@.subrange(a as int, b as int));
    (from + a, from + b)
}

} // verus!

verus! {

// ---------------------------------------------------------------------------
// The session store
// ---------------------------------------------------------------------------

/// One login session: its token and the instant it expires at, in
/// nanoseconds of the service's monotonic clock.
#[derive(Debug)]
pub struct SessionEntry {
    pub token: String,
    pub expires_at: u128,
}

impl SessionEntry {
    fn copy(&self) -> (r: SessionEntry)
        ensures
            r == *self,
    {
        SessionEntry { token: self.token.clone(), expires_at: self.expires_at }
    }
}

/// The expiry of the last entry of `s` for token `t`.
pub open spec fn lookup(s: Seq<SessionEntry>, t: Seq<char>) -> Option<u128>
    decreases s.len(),
{
    if s.len() == 0 {
        None
    } else if s.last().token@ == t {
        Some(s.last().expires_at)
    } else {
        lookup(s.drop_last(), t)
    }
}

/// No token occurs twice in `s`.
pub open spec fn distinct(s: Seq<SessionEntry>) -> bool
    decreases s.len(),
{
    s.len() == 0 || (distinct(s.drop_last()) && lookup(s.drop_last(), s.last().token@) is None)
}

/// The entries of `s` for tokens other than `t`.
pub open spec fn without(s: Seq<SessionEntry>, t: Seq<char>) -> Seq<SessionEntry>
    decreases s.len(),
{
    if s.len() == 0 {
        s
    } else if s.last().token@ == t {
        without(s.drop_last(), t)
    } else {
        without(s.drop_last(), t).push(s.last())
    }
}

/// The entries of `s` that expire after `now`.
pub open spec fn alive(s: Seq<SessionEntry>, now: u128) -> Seq<SessionEntry>
    decreases s.len(),
{
    if s.len() == 0 {
        s
    } else if s.last().expires_at > now {
        alive(s.drop_last(), now).push(s.last())
    } else {
        alive(s.drop_last(), now)
    }
}

proof fn lemma_without(s: Seq<SessionEntry>, t: Seq<char>, u: Seq<char>)
    ensures
        lookup(without(s, t), u) == (if u == t {
            None
        } else {
            lookup(s, u)
        }),
        distinct(s) ==> distinct(without(s, t)),
    decreases s.len(),
{
    if s.len() > 0 {
        lemma_without(s.drop_last(), t, u);
        lemma_without(s.drop_last(), t, s.last().token@);
        if s.last().token@ != t {
            assert(without(s, t).drop_last() == without(s.drop_last(), t));
        }
    }
}

proof fn lemma_alive(s: Seq<SessionEntry>, now: u128, u: Seq<char>)
    requires
        distinct(s),
    ensures
        lookup(alive(s, now), u) == (match lookup(s, u) {
            Some(e) => if e > now {
                Some(e)
            } else {
                None
            },
            None => None,
        }),
        distinct(alive(s, now)),
    decreases s.len(),
{
    if s.len() > 0 {
        lemma_alive(s.drop_last(), now, u);
        lemma_alive(s.drop_last(), now, s.last().token@);
        if s.last().expires_at > now {
            assert(alive(s, now).drop_last() == alive(s.drop_last(), now));
        }
    }
}

/// The sessions of `m` that have not expired at `now`.
pub open spec fn unexpired(m: Map<Seq<char>, u128>, now: u128) -> Map<Seq<char>, u128> {
    Map::new(|t: Seq<char>| m.contains_key(t) && m[t] > now, |t: Seq<char>| m[t])
}

/// The login sessions in memory, keyed by token.
#[derive(Debug)]
pub struct SessionStore {
    entries: Vec<SessionEntry>,
}

impl View for SessionStore {
    type V = Map<Seq<char>, u128>;

    closed spec fn view(&self) -> Map<Seq<char>, u128> {
        Map::new(
            |t: Seq<char>| lookup(self.entries@, t) is Some,
            |t: Seq<char>| lookup(self.entries@, t)->0,
        )
    }
}

impl SessionStore {
    /// No token is stored twice.
    pub closed spec fn wf(&self) -> bool {
        distinct(self.entries@)
    }

    pub fn new() -> (s: SessionStore)
        ensures
            s.wf(),
            s@ == Map::<Seq<char>, u128>::empty(),
    {
        let s = SessionStore { entries: Vec::new() };
        assert(s@ =~= Map::<Seq<char>, u128>::empty());
        s
    }

    /// The number of stored sessions.
    pub fn len(&self) -> (n: usize)
        requires
            self.wf(),
        ensures
            n == self@.len(),
    {
        proof {
            self.lemma_len();
        }
        self.entries.len()
    }

    proof fn lemma_len(&self)
        requires
            self.wf(),
        ensures
            self@.dom().finite(),
            self@.len() == self.entries@.len(),
    {
        lemma_dom_len(self.entries@);
        assert(self@.dom() =~= dom_of(self.entries@));
    }

    /// The expiry of the session with token `token`, if there is one.
    pub fn expiry(&self, token: &str) -> (r: Option<u128>)
        ensures
            r == (if self@.contains_key(token@) {
                Some(self@[token@])
            } else {
                None
            }),
    {
        let mut i = self.entries.len();
        assert(self.entries@.take(i as int) =~= self.entries@);
        while i > 0
            invariant
                i <= self.entries.len(),
                lookup(self.entries@, token@) == lookup(self.entries@.take(i as int), token@),
            decreases i,
        {
            let ghost pre = self.entries@.take(i as int);
            assert(pre.drop_last() =~= self.entries@.take(i - 1));
            if crate::validation::same_text(self.entries[i - 1].token.as_str(), token) {
                return Some(self.entries[i - 1].expires_at);
            }
            i = i - 1;
        }
        None
    }

    fn keep_without(&mut self, token: &str)
        requires
            old(self).wf(),
        ensures
            final(self).entries@ == without(old(self).entries@, token@),
            final(self).wf(),
    {
        let mut kept: Vec<SessionEntry> = Vec::new();
        let mut i: usize = 0;
        while i < self.entries.len()
            invariant
                i <= self.entries.len(),
                self.entries@ == old(self).entries@,
                kept@ == without(self.entries@.take(i as int), token@),
            decreases self.entries.len() - i,
        {
            assert(self.entries@.take(i + 1).drop_last() =~= self.entries@.take(i as int));
            if !crate::validation::same_text(self.entries[i].token.as_str(), token) {
                kept.push(self.entries[i].copy());
            }
            i = i + 1;
        }
        assert(self.entries@.take(i as int) =~= self.entries@);
        proof {
            lemma_without(old(self).entries@, token@, token@);
        }
        self.entries = kept;
    }

    /// Stores a session for `token`, replacing any session with that token.
    pub fn insert(&mut self, token: String, expires_at: u128)
        requires
            old(self).wf(),
        ensures
            final(self).wf(),
            final(self)@ == old(self)@.insert(token@, expires_at),
    {
        let ghost t = token@;
        self.keep_without(token.as_str());
        let ghost before = self.entries@;
        self.entries.push(SessionEntry { token, expires_at });
        proof {
            assert(self.entries@.drop_last() == before);
            assert forall|u: Seq<char>| lookup(self.entries@, u) == (if u == t {
                Some(expires_at)
            } else {
                lookup(old(self).entries@, u)
            }) by {
                lemma_without(old(self).entries@, t, u);
            }
            lemma_without(old(self).entries@, t, t);
            assert(final_eq_insert(old(self)@, self@, t, expires_at));
        }
    }

    /// Removes the session with token `token`, if there is one.
    pub fn remove(&mut self, token: &str)
        requires
            old(self).wf(),
        ensures
            final(self).wf(),
            final(self)@ == old(self)@.remove(token@),
    {
        self.keep_without(token);
        proof {
            assert forall|u: Seq<char>| lookup(self.entries@, u) == (if u == token@ {
                None
            } else {
                lookup(old(self).entries@, u)
            }) by {
                lemma_without(old(self).entries@, token@, u);
            }
            assert(self@ =~= old(self)@.remove(token@));
        }
    }

    /// Drops every session that has expired at `now`.
    pub fn prune(&mut self, now: u128)
        requires
            old(self).wf(),
        ensures
            final(self).wf(),
            final(self)@ == unexpired(old(self)@, now),
    {
        let mut kept: Vec<SessionEntry> = Vec::new();
        let mut i: usize = 0;
        while i < self.entries.len()
            invariant
                i <= self.entries.len(),
                self.entries@ == old(self).entries@,
                kept@ == alive(self.entries@.take(i as int), now),
            decreases self.entries.len() - i,
        {
            assert(self.entries@.take(i + 1).drop_last() =~= self.entries@.take(i as int));
            if self.entries[i].expires_at > now {
                kept.push(self.entries[i].copy());
            }
            i = i + 1;
        }
        assert(self.entries@.take(i as int) =~= self.entries@);
        self.entries = kept;
        proof {
            assert forall|u: Seq<char>| lookup(self.entries@, u) == (match lookup(
                old(self).entries@,
                u,
            ) {
                Some(e) => if e > now {
                    Some(e)
                } else {
                    None
                },
                None => None,
            }) by {
                lemma_alive(old(self).entries@, now, u);
            }
            lemma_alive(old(self).entries@, now, seq![]);
            assert(self@ =~= unexpired(old(self)@, now));
        }
    }
}

spec fn final_eq_insert(
    before: Map<Seq<char>, u128>,
    after: Map<Seq<char>, u128>,
    t: Seq<char>,
    v: u128,
) -> bool {
    after =~= before.insert(t, v)
}

/// The tokens stored in `s`.
spec fn dom_of(s: Seq<SessionEntry>) -> Set<Seq<char>> {
    Set::new(|t: Seq<char>| lookup(s, t) is Some)
}

proof fn lemma_dom_len(s: Seq<SessionEntry>)
    requires
        distinct(s),
    ensures
        dom_of(s).finite(),
        dom_of(s).len() == s.len(),
    decreases s.len(),
{
    if s.len() == 0 {
        assert(dom_of(s) =~= Set::<Seq<char>>::empty());
    } else {
        lemma_dom_len(s.drop_last());
        assert(dom_of(s) =~= dom_of(s.drop_last()).insert(s.last().token@));
    }
}

} // verus!

verus! {

// ---------------------------------------------------------------------------
// Start-up settings
// ---------------------------------------------------------------------------

/// A configuration error: the input is invalid.
pub fn config_error(message: String) -> (e: ConfigError)
    ensures
        e.message@ == message@,
{
    ConfigError { message }
}

/// The values `"1"`, `"true"`, `"yes"`, `"on"` and `"0"`, `"false"`, `"no"`,
/// `"off"`, in any ASCII case.
pub open spec fn bool_text(s: Seq<char>) -> Option<bool> {
    let l = lower_seq(s);
    if l == "1"@ || l == "true"@ || l == "yes"@ || l == "on"@ {
        Some(true)
    } else if l == "0"@ || l == "false"@ || l == "no"@ || l == "off"@ {
        Some(false)
    } else {
        None
    }
}

fn lowered(value: &str) -> (r: String)
    ensures
        r@ == lower_seq(value@),
{
    let chars = chars_of(value);
    let mut out: Vec<char> = Vec::new();
    let mut i: usize = 0;
    while i < chars.len()
        invariant
            i <= chars.len(),
            chars@ == value@,
            out@ == lower_seq(value@.take(i as int)),
        decreases chars.len() - i,
    {
        out.push(to_lower_char(chars[i]));
        assert(lower_seq(value@.take(i + 1)) =~= lower_seq(value@.take(i as int)).push(
            crate::text::ascii_lower(chars@[i as int]),
        ));
        i = i + 1;
    }
    assert(value@.take(chars.len() as int) =~= value@);
    crate::text::string_of(&out)
}

/// A boolean setting: one of the accepted spellings, or an error that quotes
/// the value.
pub fn parse_bool(value: &str) -> (r: Result<bool, ConfigError>)
    ensures
        r matches Ok(b) ==> bool_text(value@) == Some(b),
        r matches Err(e) ==> bool_text(value@) is None && e.message@ == "无效的布尔值："@ + value@,
{
    let l = lowered(value);
    let t = l.as_str();
    if crate::validation::same_text(t, "1") || crate::validation::same_text(t, "true")
        || crate::validation::same_text(t, "yes") || crate::validation::same_text(t, "on") {
        Ok(true)
    } else if crate::validation::same_text(t, "0") || crate::validation::same_text(t, "false")
        || crate::validation::same_text(t, "no") || crate::validation::same_text(t, "off") {
        Ok(false)
    } else {
        Err(config_error(concat2("无效的布尔值：", value)))
    }
}

/// The environment variables the authentication settings are read from;
/// `None` where a variable is unset or not Unicode.
#[derive(Debug)]
pub struct AuthEnv {
    pub username: Option<String>,
    pub password_hash: Option<String>,
    pub password: Option<String>,
    pub session_ttl_hours: Option<String>,
    pub cookie_secure: Option<String>,
}

pub open spec fn env_username(env: AuthEnv) -> Seq<char> {
    match env.username {
        Some(u) => u@,
        None => "admin"@,
    }
}

/// The password hash given in the environment, unless it is blank.
pub open spec fn given_hash(env: AuthEnv) -> Option<Seq<char>> {
    match env.password_hash {
        Some(v) => if trim(v@).len() > 0 {
            Some(v@)
        } else {
            None
        },
        None => None,
    }
}

/// The session lifetime in seconds and the secure-cookie flag, or the message
/// of the first of them that is invalid.
pub open spec fn settings_outcome(env: AuthEnv) -> Result<(u64, bool), Seq<char>> {
    let hours: Result<nat, Seq<char>> = match env.session_ttl_hours {
        None => Ok(720),
        Some(s) => match parse_unsigned(s@, u64::MAX as nat) {
            None => Err("AMSTOCK_SESSION_TTL_HOURS 必须是正整数"@),
            Some(h) => if h == 0 {
                Err("AMSTOCK_SESSION_TTL_HOURS 必须大于 0"@)
            } else {
                Ok(h)
            },
        },
    };
    match hours {
        Err(m) => Err(m),
        Ok(h) => {
            let secs: u64 = if h * 3600 > u64::MAX {
                u64::MAX
            } else {
                (h * 3600) as u64
            };
            match env.cookie_secure {
                None => Ok((secs, true)),
                Some(s) => match bool_text(s@) {
                    Some(b) => Ok((secs, b)),
                    None => Err("无效的布尔值："@ + s@),
                },
            }
        },
    }
}

/// `r` is what the settings checks give, with a password hash that
/// satisfies `hash_ok`.
pub open spec fn settles(
    r: Result<AuthState, ConfigError>,
    env: AuthEnv,
    hash_ok: spec_fn(Seq<char>) -> bool,
) -> bool {
    match settings_outcome(env) {
        Err(m) => fails_with(r, m),
        Ok((secs, secure)) => match r {
            Ok(st) => st.username@ == env_username(env) && st.session_ttl_secs == secs
                && st.secure_cookie == secure && hash_ok(st.password_hash@),
            Err(_) => false,
        },
    }
}

/// `r` failed with message `m`.
pub open spec fn fails_with<T>(r: Result<T, ConfigError>, m: Seq<char>) -> bool {
    match r {
        Err(e) => e.message@ == m,
        Ok(_) => false,
    }
}

/// `r` failed with a message that starts with `p`.
pub open spec fn fails_starting<T>(r: Result<T, ConfigError>, p: Seq<char>) -> bool {
    match r {
        Err(e) => starts_with(e.message@, p),
        Ok(_) => false,
    }
}

/// `r` failed while hashing a password.
pub open spec fn fails_hashing<T>(r: Result<T, ConfigError>) -> bool {
    match r {
        Err(e) => hashing_failure(e.message@),
        Ok(_) => false,
    }
}

pub open spec fn starts_with(s: Seq<char>, p: Seq<char>) -> bool {
    p.len() <= s.len() && s.take(p.len() as int) == p
}

/// A message from hashing a password: a salt that could not be drawn or
/// encoded, or a hash that could not be computed.
pub open spec fn hashing_failure(m: Seq<char>) -> bool {
    starts_with(m, "无法生成密码盐："@) || starts_with(m, "无法编码密码盐："@) || starts_with(
        m,
        "无法计算密码哈希："@,
    )
}

fn prefixed_error(prefix: &str, detail: String) -> (e: ConfigError)
    ensures
        e.message@ == prefix@ + detail@,
        starts_with(e.message@, prefix@),
{
    let m = concat2(prefix, detail.as_str());
    assert(m@.take(prefix@.len() as int) =~= prefix@);
    config_error(m)
}

/// Whether Argon2 with the default parameters hashes `password`: its UTF-8
/// bytes number at most `u32::MAX`.
pub open spec fn hashable(password: Seq<char>) -> bool {
    vstd::utf8::encode_utf8(password).len() <= u32::MAX
}

/// An Argon2id PHC hash of `password` under a salt of the given bytes. It
/// succeeds for a salt of 8 to 48 bytes and a password that can be hashed.
pub fn hash_password_with_salt(password: &str, salt: &Vec<u8>) -> (r: Result<String, ConfigError>)
    ensures
        r matches Ok(h) ==> h@ == argon2_phc(password@, salt_b64(salt@)) && phc_parses(h@)
            && password_matches_phc(password@, h@),
        8 <= salt@.len() <= 48 && hashable(password@) ==> r is Ok,
        r matches Err(e) ==> starts_with(e.message@, "无法编码密码盐："@) || starts_with(
            e.message@,
            "无法计算密码哈希："@,
        ),
{
    let salt_text = match encode_salt(salt) {
        Ok(s) => s,
        Err(error) => return Err(prefixed_error("无法编码密码盐：", hash_error_text(&error))),
    };
    match argon2_hash(password, salt_text.as_str()) {
        Ok(h) => Ok(h),
        Err(error) => Err(prefixed_error("无法计算密码哈希：", hash_error_text(&error))),
    }
}

/// A PHC hash of `password` under a salt of 16 bytes, and the hash verifies
/// the password.
pub open spec fn hashes_password(h: Seq<char>, password: Seq<char>) -> bool {
    &&& exists|bytes: Seq<u8>| bytes.len() == 16 && h == #[trigger] argon2_phc(password, salt_b64(bytes))
    &&& phc_parses(h)
    &&& password_matches_phc(password, h)
}

/// An Argon2id PHC hash of `password` under 16 fresh random bytes of salt.
/// Once the bytes are drawn, hashing a password that can be hashed succeeds.
pub fn hash_password(password: &str) -> (r: Result<String, ConfigError>)
    ensures
        r matches Ok(h) ==> hashes_password(h@, password@),
        r matches Err(e) ==> hashing_failure(e.message@),
        r matches Err(e) ==> hashable(password@) ==> starts_with(e.message@, "无法生成密码盐："@),
{
    let mut salt: Vec<u8> = vec![0u8; 16];
    match fill_random(&mut salt) {
        Ok(()) => {},
        Err(error) => return Err(prefixed_error("无法生成密码盐：", random_error_text(&error))),
    }
    hash_password_with_salt(password, &salt)
}

// ---------------------------------------------------------------------------
// The authentication state
// ---------------------------------------------------------------------------

/// The single account and the session settings.
#[derive(Debug)]
pub struct AuthState {
    pub username: String,
    pub password_hash: String,
    pub session_ttl_secs: u64,
    pub secure_cookie: bool,
}

/// The body of a login request.
#[derive(Debug)]
pub struct LoginRequest {
    pub username: String,
    pub password: String,
}

/// The account a session belongs to.
#[derive(Debug)]
pub struct SessionResponse {
    pub username: String,
}

fn ttl_and_secure(env: &AuthEnv) -> (r: Result<(u64, bool), ConfigError>)
    ensures
        r matches Ok(v) ==> settings_outcome(*env) == Ok::<(u64, bool), Seq<char>>(v),
        r matches Err(e) ==> settings_outcome(*env) == Err::<(u64, bool), Seq<char>>(e.message@),
{
    proof {
        reveal_strlit("AMSTOCK_SESSION_TTL_HOURS 必须是正整数");
    }
    let hours: u64 = match &env.session_ttl_hours {
        None => DEFAULT_SESSION_HOURS,
        Some(s) => match parse_unsigned_text(s.as_str(), u64::MAX) {
            None => return Err(config_error(owned("AMSTOCK_SESSION_TTL_HOURS 必须是正整数"))),
            Some(h) => h,
        },
    };
    if hours == 0 {
        return Err(config_error(owned("AMSTOCK_SESSION_TTL_HOURS 必须大于 0")));
    }
    let secs: u64 = if hours > u64::MAX / 3600 {
        u64::MAX
    } else {
        hours * 3600
    };
    let secure = match &env.cookie_secure {
        None => true,
        Some(s) => parse_bool(s.as_str())?,
    };
    Ok((secs, secure))
}

fn has_nonblank_text(v: &String) -> (r: bool)
    ensures
        r == (trim(v@).len() > 0),
{
    let chars = chars_of(v.as_str());
    let (a, b) = trim_bounds(&chars);
    a < b
}

impl AuthState {
    /// The authentication settings from the environment: the account name
    /// (`admin` by default), the password hash (given as a PHC string, or
    /// computed from a password of at least 8 characters), the session
    /// lifetime (720 hours by default) and whether the cookie is HTTPS-only
    /// (by default it is). The first invalid setting is reported; apart from
    /// that, only a failure of the random source that salts a password can
    /// stop it.
    pub fn from_env(env: &AuthEnv) -> (r: Result<AuthState, ConfigError>)
        ensures
            trim(env_username(*env)).len() == 0 ==> fails_with(r, "AMSTOCK_USERNAME 不能为空"@),
            trim(env_username(*env)).len() > 0 ==> match given_hash(*env) {
                Some(v) => if phc_parses(v) {
                    settles(r, *env, |h: Seq<char>| h == v)
                } else {
                    fails_starting(r, "AMSTOCK_PASSWORD_HASH 不是有效的 PHC 密码哈希："@)
                },
                None => match env.password {
                    None => fails_with(r, "必须设置 AMSTOCK_PASSWORD 或 AMSTOCK_PASSWORD_HASH"@),
                    Some(p) => if p@.len() < 8 {
                        fails_with(r, "AMSTOCK_PASSWORD 至少需要 8 个字符"@)
                    } else if hashable(p@) {
                        fails_starting(r, "无法生成密码盐："@) || settles(
                            r,
                            *env,
                            |h: Seq<char>| hashes_password(h, p@),
                        )
                    } else {
                        fails_hashing(r) || settles(r, *env, |h: Seq<char>| hashes_password(h, p@))
                    },
                },
            },
    {
        proof {
            reveal_strlit("admin");
        }
        let username = match &env.username {
            Some(u) => u.clone(),
            None => owned("admin"),
        };
        if !has_nonblank_text(&username) {
            return Err(config_error(owned("AMSTOCK_USERNAME 不能为空")));
        }
        let given: Option<&String> = match &env.password_hash {
            Some(v) => if has_nonblank_text(v) {
                Some(v)
            } else {
                None
            },
            None => None,
        };
        let password_hash = match given {
            Some(v) => {
                match check_phc(v.as_str()) {
                    Ok(()) => {},
                    Err(error) => {
                        return Err(
                            prefixed_error(
                                "AMSTOCK_PASSWORD_HASH 不是有效的 PHC 密码哈希：",
                                hash_error_text(&error),
                            ),
                        );
                    },
                }
                v.clone()
            },
            None => {
                let password = match &env.password {
                    Some(p) => p,
                    None => {
                        return Err(
                            config_error(owned("必须设置 AMSTOCK_PASSWORD 或 AMSTOCK_PASSWORD_HASH")),
                        )
                    },
                };
                if chars_of(password.as_str()).len() < 8 {
                    return Err(config_error(owned("AMSTOCK_PASSWORD 至少需要 8 个字符")));
                }
                hash_password(password.as_str())?
            },
        };
        let (session_ttl_secs, secure_cookie) = ttl_and_secure(env)?;
        Ok(AuthState { username, password_hash, session_ttl_secs, secure_cookie })
    }
}

} // verus!

verus! {

/// The `Set-Cookie` value that hands out session `token` for `ttl_secs`
/// seconds.
pub open spec fn session_cookie_text(token: Seq<char>, ttl_secs: u64, secure: bool) -> Seq<char> {
    cookie_prefix() + token + "; Path=/; HttpOnly; SameSite=Strict; Max-Age="@ + decimal(
        ttl_secs as nat,
    ) + if secure {
        "; Secure"@
    } else {
        Seq::<char>::empty()
    }
}

/// The `Set-Cookie` value that clears the session cookie.
pub open spec fn expired_cookie_text(secure: bool) -> Seq<char> {
    cookie_prefix() + "; Path=/; HttpOnly; SameSite=Strict; Max-Age=0"@ + if secure {
        "; Secure"@
    } else {
        Seq::<char>::empty()
    }
}

/// The lifetime of a session in nanoseconds.
pub open spec fn ttl_nanos(secs: u64) -> nat {
    secs as nat * 1_000_000_000
}

fn cookie_start() -> (s: String)
    ensures
        s@ == cookie_prefix(),
{
    proof {
        reveal_strlit("amstock_session");
        reveal_strlit("=");
    }
    let s = concat2(COOKIE_NAME, "=");
    assert(s@ =~= cookie_prefix());
    s
}

impl AuthState {
    /// The `Set-Cookie` value for a new session with `token`.
    pub fn session_cookie(&self, token: &str) -> (s: String)
        ensures
            s@ == session_cookie_text(token@, self.session_ttl_secs, self.secure_cookie),
            !self.secure_cookie ==> s@ == "amstock_session="@ + token@
                + "; Path=/; HttpOnly; SameSite=Strict; Max-Age="@ + decimal(self.session_ttl_secs as nat),
            self.secure_cookie ==> s@ == "amstock_session="@ + token@
                + "; Path=/; HttpOnly; SameSite=Strict; Max-Age="@ + decimal(self.session_ttl_secs as nat)
                + "; Secure"@,
    {
        proof {
            law_session_cookie_spelled_out(token@, self.session_ttl_secs, self.secure_cookie);
        }
        let mut s = cookie_start();
        push_str(&mut s, token);
        push_str(&mut s, "; Path=/; HttpOnly; SameSite=Strict; Max-Age=");
        let age = decimal_string(self.session_ttl_secs);
        push_str(&mut s, age.as_str());
        if self.secure_cookie {
            push_str(&mut s, "; Secure");
        } else {
            assert(s@ + Seq::<char>::empty() =~= s@);
        }
        s
    }

    /// The `Set-Cookie` value that ends the session in the browser.
    pub fn expired_cookie(&self) -> (s: String)
        ensures
            s@ == expired_cookie_text(self.secure_cookie),
            !self.secure_cookie ==> s@ == "amstock_session=; Path=/; HttpOnly; SameSite=Strict; Max-Age=0"@,
            self.secure_cookie ==> s@ == "amstock_session=; Path=/; HttpOnly; SameSite=Strict; Max-Age=0"@
                + "; Secure"@,
    {
        proof {
            law_session_cookie_spelled_out(Seq::empty(), 0, self.secure_cookie);
        }
        let mut s = cookie_start();
        push_str(&mut s, "; Path=/; HttpOnly; SameSite=Strict; Max-Age=0");
        if self.secure_cookie {
            push_str(&mut s, "; Secure");
        } else {
            assert(s@ + Seq::<char>::empty() =~= s@);
        }
        s
    }

    /// The session lifetime in nanoseconds.
    pub fn session_ttl_nanos(&self) -> (n: u128)
        ensures
            n == ttl_nanos(self.session_ttl_secs),
    {
        (self.session_ttl_secs as u128) * 1_000_000_000
    }

    /// Accepts a login only for the account's name with a password that the
    /// stored hash verifies; otherwise the request is unauthorized.
    pub fn check_login(&self, request: &LoginRequest) -> (r: Result<(), AppError>)
        ensures
            r is Ok <==> request.username@ == self.username@ && password_matches_phc(
                request.password@,
                self.password_hash@,
            ),
            r matches Err(e) ==> e.is(ErrorKind::Unauthorized, "用户名或密码错误"@),
    {
        let password_valid = argon2_verify(request.password.as_str(), self.password_hash.as_str());
        if !crate::validation::same_text(request.username.as_str(), self.username.as_str())
            || !password_valid {
            return Err(AppError::new(ErrorKind::Unauthorized, "用户名或密码错误"));
        }
        Ok(())
    }

    /// The account the session belongs to.
    pub fn session_response(&self) -> (r: SessionResponse)
        ensures
            r.username@ == self.username@,
    {
        SessionResponse { username: self.username.clone() }
    }

    /// Stores a session whose token is the hexadecimal text of `bytes`,
    /// expiring one session lifetime after `now`.
    pub fn start_session(&self, sessions: &mut SessionStore, bytes: &Vec<u8>, now: u128) -> (token: String)
        requires
            old(sessions).wf(),
            now + ttl_nanos(self.session_ttl_secs) <= u128::MAX,
        ensures
            token@ == hex_lower(bytes@),
            final(sessions).wf(),
            final(sessions)@ == old(sessions)@.insert(
                token@,
                (now + ttl_nanos(self.session_ttl_secs)) as u128,
            ),
    {
        let token = hex_string(bytes);
        let expires_at = now + self.session_ttl_nanos();
        sessions.insert(token.clone(), expires_at);
        token
    }

    /// Creates a session with a token of 32 random bytes. The token is 64
    /// lower-case hexadecimal digits; when the random source fails, nothing is
    /// stored and the error is internal.
    pub fn create_session(&self, sessions: &mut SessionStore, now: u128) -> (r: Result<String, AppError>)
        requires
            old(sessions).wf(),
            now + ttl_nanos(self.session_ttl_secs) <= u128::MAX,
        ensures
            final(sessions).wf(),
            r matches Ok(t) ==> valid_token(t@) && (exists|bytes: Seq<u8>|
                bytes.len() == 32 && #[trigger] hex_lower(bytes) == t@) && final(sessions)@
                == old(sessions)@.insert(t@, (now + ttl_nanos(self.session_ttl_secs)) as u128),
            r matches Err(e) ==> e.kind() == ErrorKind::Internal && starts_with(
                e.message(),
                "无法生成登录会话："@,
            ) && final(sessions)@ == old(sessions)@,
    {
        let mut bytes: Vec<u8> = vec![0u8; 32];
        match fill_random(&mut bytes) {
            Ok(()) => {},
            Err(error) => {
                let m = concat2("无法生成登录会话：", random_error_text(&error).as_str());
                assert(m@.take("无法生成登录会话："@.len() as int) =~= "无法生成登录会话："@);
                return Err(AppError::Internal(m));
            },
        }
        let token = self.start_session(sessions, &bytes, now);
        proof {
            lemma_hex_lower_shape(bytes@);
            assert(valid_token(token@));
        }
        Ok(token)
    }
}

/// The text of an optional header value.
pub open spec fn header_text(h: Option<&str>) -> Option<Seq<char>> {
    match h {
        Some(v) => Some(v@),
        None => None,
    }
}

/// Whether sessions `m` let in a request with `Cookie` header `cookie_header`
/// at `now`: the header carries the token of a session that has not expired.
pub open spec fn admits(m: Map<Seq<char>, u128>, cookie_header: Option<Seq<char>>, now: u128) -> bool {
    match cookie_header {
        Some(h) => match token_in(h) {
            Some(t) => m.contains_key(t) && m[t] > now,
            None => false,
        },
        None => false,
    }
}

impl SessionStore {
    /// Whether the `Cookie` header carries the token of a session that has not
    /// expired at `now`. When it carries a token, every expired session is
    /// dropped first.
    pub fn authenticate(&mut self, cookie_header: Option<&str>, now: u128) -> (r: bool)
        requires
            old(self).wf(),
        ensures
            final(self).wf(),
            r == admits(old(self)@, header_text(cookie_header), now),
            final(self)@ == (match cookie_header {
                Some(h) => if token_in(h@) is Some {
                    unexpired(old(self)@, now)
                } else {
                    old(self)@
                },
                None => old(self)@,
            }),
    {
        let header = match cookie_header {
            Some(h) => h,
            None => return false,
        };
        let token = match session_token(header) {
            Some(t) => t,
            None => return false,
        };
        self.prune(now);
        match self.expiry(token.as_str()) {
            Some(expires_at) => expires_at > now,
            None => false,
        }
    }

    /// Lets a request through when it carries a live session; otherwise it is
    /// unauthorized.
    pub fn authorize(&mut self, cookie_header: Option<&str>, now: u128) -> (r: Result<(), AppError>)
        requires
            old(self).wf(),
        ensures
            final(self).wf(),
            r is Ok == admits(old(self)@, header_text(cookie_header), now),
            r matches Err(e) ==> e.is(ErrorKind::Unauthorized, "登录已失效，请重新登录"@),
            final(self)@ == (match cookie_header {
                Some(h) => if token_in(h@) is Some {
                    unexpired(old(self)@, now)
                } else {
                    old(self)@
                },
                None => old(self)@,
            }),
    {
        if self.authenticate(cookie_header, now) {
            Ok(())
        } else {
            Err(AppError::new(ErrorKind::Unauthorized, "登录已失效，请重新登录"))
        }
    }

    /// Ends the session whose token the `Cookie` header carries, if any.
    pub fn remove_session(&mut self, cookie_header: Option<&str>)
        requires
            old(self).wf(),
        ensures
            final(self).wf(),
            final(self)@ == (match cookie_header {
                Some(h) => match token_in(h@) {
                    Some(t) => old(self)@.remove(t),
                    None => old(self)@,
                },
                None => old(self)@,
            }),
    {
        if let Some(h) = cookie_header {
            if let Some(token) = session_token(h) {
                self.remove(token.as_str());
            }
        }
    }
}

} // verus!

verus! {

// ---------------------------------------------------------------------------
// Laws of sessions and cookies
// ---------------------------------------------------------------------------

proof fn lemma_trim_unchanged(x: Seq<char>)
    requires
        x.len() > 0,
        !is_whitespace(x[0]),
        !is_whitespace(x.last()),
    ensures
        trim(x) == x,
{
}

/// A cookie text that starts with `amstock_session=` and a valid token,
/// followed by nothing or by `;` and more, names that token.
proof fn lemma_token_in_prefixed(t: Seq<char>, rest: Seq<char>)
    requires
        valid_token(t),
        rest.len() == 0 || rest[0] == ';',
    ensures
        token_in(cookie_prefix() + t + rest) == Some(t),
{
    let p = cookie_prefix();
    let s = p + t + rest;
    assert forall|j: int| 0 <= j < 80 implies s[j] != ';' by {
        if j >= 16 {
            assert(s[j] == t[j - 16]);
            assert(is_ascii_hexdigit(t[j - 16]));
        }
    }
    lemma_semicolon_index(s, 80);
    let x = s.take(80);
    assert(x =~= p + t);
    assert(x[0] == 'a');
    assert(x.last() == t[63]);
    assert(is_ascii_hexdigit(t[63]));
    lemma_trim_unchanged(x);
    assert(x.take(16) =~= p);
    assert(x.skip(16) =~= t);
}

/// The session cookie handed out for a token names that token when read as
/// a `Cookie` header.
pub proof fn law_issued_cookie_names_its_token(t: Seq<char>, ttl_secs: u64, secure: bool)
    requires
        valid_token(t),
    ensures
        token_in(session_cookie_text(t, ttl_secs, secure)) == Some(t),
{
    let rest = "; Path=/; HttpOnly; SameSite=Strict; Max-Age="@ + decimal(ttl_secs as nat) + if secure {
        "; Secure"@
    } else {
        Seq::<char>::empty()
    };
    reveal_strlit("; Path=/; HttpOnly; SameSite=Strict; Max-Age=");
    assert(rest[0] == ';');
    assert(session_cookie_text(t, ttl_secs, secure) =~= cookie_prefix() + t + rest);
    lemma_token_in_prefixed(t, rest);
}

/// A browser that sends back the session cookie `amstock_session=<token>` is
/// read as carrying that token.
pub proof fn law_returned_cookie_names_its_token(t: Seq<char>)
    requires
        valid_token(t),
    ensures
        token_in(cookie_prefix() + t) == Some(t),
{
    lemma_token_in_prefixed(t, Seq::empty());
    assert(cookie_prefix() + t + Seq::<char>::empty() =~= cookie_prefix() + t);
}

/// A session stored for token `t` expiring at `expires_at` lets in the
/// requests that carry `t` exactly until `expires_at`.
pub proof fn law_session_admits_until_expiry(
    m: Map<Seq<char>, u128>,
    t: Seq<char>,
    expires_at: u128,
    now: u128,
)
    requires
        valid_token(t),
    ensures
        admits(m.insert(t, expires_at), Some(cookie_prefix() + t), now) == (now < expires_at),
{
    law_returned_cookie_names_its_token(t);
}

/// Once the session of token `t` is removed, no request that carries `t` is
/// let in.
pub proof fn law_removed_session_refused(m: Map<Seq<char>, u128>, t: Seq<char>, now: u128)
    requires
        valid_token(t),
    ensures
        !admits(m.remove(t), Some(cookie_prefix() + t), now),
{
    law_returned_cookie_names_its_token(t);
}

/// Dropping the sessions expired at `now` changes no answer given at `now`
/// or later.
pub proof fn law_pruning_keeps_answers(
    m: Map<Seq<char>, u128>,
    cookie_header: Option<Seq<char>>,
    now: u128,
    later: u128,
)
    requires
        now <= later,
    ensures
        admits(unexpired(m, now), cookie_header, later) == admits(m, cookie_header, later),
{
}

} // verus!

verus! {

/// The `Set-Cookie` values spelled out: the session cookie is
/// `amstock_session=<token>; Path=/; HttpOnly; SameSite=Strict; Max-Age=<ttl>`
/// and the clearing one ends in `Max-Age=0`; each carries `; Secure` at its
/// end exactly when the cookie is HTTPS-only, and nothing else after it.
pub proof fn law_session_cookie_spelled_out(token: Seq<char>, ttl_secs: u64, secure: bool)
    ensures
        !secure ==> session_cookie_text(token, ttl_secs, secure) == "amstock_session="@ + token
            + "; Path=/; HttpOnly; SameSite=Strict; Max-Age="@ + decimal(ttl_secs as nat),
        secure ==> session_cookie_text(token, ttl_secs, secure) == "amstock_session="@ + token
            + "; Path=/; HttpOnly; SameSite=Strict; Max-Age="@ + decimal(ttl_secs as nat) + "; Secure"@,
        !secure ==> expired_cookie_text(secure) == "amstock_session=; Path=/; HttpOnly; SameSite=Strict; Max-Age=0"@,
        secure ==> expired_cookie_text(secure) == "amstock_session=; Path=/; HttpOnly; SameSite=Strict; Max-Age=0"@
            + "; Secure"@,
{
    reveal_strlit("amstock_session=");
    reveal_strlit("; Path=/; HttpOnly; SameSite=Strict; Max-Age=0");
    reveal_strlit("amstock_session=; Path=/; HttpOnly; SameSite=Strict; Max-Age=0");
    assert(cookie_prefix() =~= "amstock_session="@);
    let tail = "; Path=/; HttpOnly; SameSite=Strict; Max-Age=0"@;
    assert("amstock_session=; Path=/; HttpOnly; SameSite=Strict; Max-Age=0"@ =~= cookie_prefix() + tail);
    let plain = cookie_prefix() + token + "; Path=/; HttpOnly; SameSite=Strict; Max-Age="@ + decimal(ttl_secs as nat);
    assert(plain + Seq::<char>::empty() =~= plain);
    assert(cookie_prefix() + tail + Seq::<char>::empty() =~= cookie_prefix() + tail);
}

} // verus!
