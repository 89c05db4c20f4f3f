//! Absolute identifier strings, parsed into scheme, optional authority
//! (user, host, port), path, query and fragment, with one canonical
//! serialization.  Parsing and printing are specified against each other:
//! printing a well-formed parsed value and parsing it again gives the same
//! value back.
use crate::scan::{
    find_class, push_char, sfind, spec_is_ws, spec_parse_uint, CharClass, spec_digits,
    parse_u32_str, str_eq, u64_to_string,
};
use vstd::prelude::*;

verus! {

/// Mathematical value of a user-info part: a name and an optional password.
#[verifier::ext_equal]
pub struct UserView {
    pub name: Seq<char>,
    pub password: Option<Seq<char>>,
}

/// Mathematical value of an authority part.
#[verifier::ext_equal]
pub struct AuthorityView {
    pub user: Option<UserView>,
    pub host: Seq<char>,
    pub port: Option<u32>,
}

/// Mathematical value of a whole identifier.
#[verifier::ext_equal]
pub struct IriView {
    pub scheme: Seq<char>,
    pub authority: Option<AuthorityView>,
    pub path: Seq<char>,
    pub query: Option<Seq<(Seq<char>, Seq<char>)>>,
    pub fragment: Option<Seq<char>>,
}

/// Interior whitespace: a whitespace character with non-whitespace both
/// somewhere before it and somewhere after it.
pub open spec fn has_interior_ws(s: Seq<char>) -> bool {
    exists|i: int, j: int, k: int|
        #![trigger spec_is_ws(s[i]), spec_is_ws(s[j]), spec_is_ws(s[k])]
        0 <= i < j < k < s.len() && !spec_is_ws(s[i]) && spec_is_ws(s[j]) && !spec_is_ws(s[k])
}

/// The characters that a fragment part may not contain.
pub open spec fn bad_frag_char(c: char) -> bool {
    c == '#' || c == '%' || c == '^' || c == '\\' || c == '{' || c == '}' || c == '[' || c == ']'
        || c == '|'
}

pub open spec fn frag_ok(t: Seq<char>) -> bool {
    forall|i: int| 0 <= i < t.len() ==> !bad_frag_char(#[trigger] t[i])
}

/// Splits a user-info string at the first `:`: name, then optional password.
pub open spec fn spec_parse_user(t: Seq<char>) -> UserView {
    let ue = sfind(t, CharClass::Colon, 0);
    if ue == t.len() {
        UserView { name: t, password: None }
    } else {
        UserView { name: t.subrange(0, ue), password: Some(t.subrange(ue + 1, t.len() as int)) }
    }
}

/// Splits an authority string at the first `@` (user info, only when the
/// `@` is not the first character) and at the first following `:` (port,
/// which must read as a 32-bit number).
pub open spec fn spec_parse_authority(t: Seq<char>) -> Option<AuthorityView> {
    let a = sfind(t, CharClass::AtSign, 0);
    let idx = if a == t.len() {
        0
    } else {
        a
    };
    let user = if idx > 0 {
        Some(spec_parse_user(t.subrange(0, idx)))
    } else {
        None
    };
    let i = if idx > 0 {
        idx + 1
    } else {
        0
    };
    let he = sfind(t, CharClass::Colon, i);
    let host = t.subrange(i, he);
    if he + 1 < t.len() {
        match spec_parse_uint(t.subrange(he + 1, t.len() as int), u32::MAX as int) {
            Some(p) => Some(AuthorityView { user, host, port: Some(p as u32) }),
            None => None,
        }
    } else {
        Some(AuthorityView { user, host, port: None })
    }
}

/// Splits a query string on `&` into `key=value` pairs, in order; a chunk
/// without `=` makes the whole query invalid.
pub open spec fn spec_parse_query(t: Seq<char>) -> Option<Seq<(Seq<char>, Seq<char>)>>
    decreases t.len(),
    via spec_parse_query_dec
{
    let ae = sfind(t, CharClass::Amp, 0);
    let chunk = t.subrange(0, ae);
    let eq = sfind(chunk, CharClass::EqSign, 0);
    if eq == chunk.len() {
        None
    } else {
        let pair = (chunk.subrange(0, eq), chunk.subrange(eq + 1, chunk.len() as int));
        if ae == t.len() {
            Some(seq![pair])
        } else {
            match spec_parse_query(t.subrange(ae + 1, t.len() as int)) {
                Some(r) => Some(seq![pair] + r),
                None => None,
            }
        }
    }
}

#[via_fn]
proof fn spec_parse_query_dec(t: Seq<char>) {
    crate::scan::lemma_sfind_bounds(t, CharClass::Amp, 0);
}

/// The fragment step: at `i2` the string either ends, or holds `#` followed
/// by a fragment restricted to the allowed characters.
pub open spec fn spec_parse_frag(
    s: Seq<char>,
    i2: int,
    scheme: Seq<char>,
    auth: Option<AuthorityView>,
    path: Seq<char>,
    query: Option<Seq<(Seq<char>, Seq<char>)>>,
) -> Option<IriView> {
    if i2 != s.len() && s[i2] == '#' {
        let frag = s.subrange(i2 + 1, s.len() as int);
        if frag_ok(frag) {
            Some(IriView { scheme, authority: auth, path, query, fragment: Some(frag) })
        } else {
            None
        }
    } else {
        Some(IriView { scheme, authority: auth, path, query, fragment: None })
    }
}

/// The path and query steps, starting right after the scheme's colon or
/// after the authority.  An empty path reads as `/`; with an authority
/// present a non-empty path must begin with `/`.
pub open spec fn spec_parse_tail(
    s: Seq<char>,
    i0: int,
    scheme: Seq<char>,
    auth: Option<AuthorityView>,
) -> Option<IriView> {
    let has_path = i0 != s.len() && s[i0] != '?' && s[i0] != '#';
    if has_path && auth is Some && s[i0] != '/' {
        None
    } else {
        let pe = if has_path {
            sfind(s, CharClass::PathEnd, i0 + 1)
        } else {
            i0
        };
        let path = if has_path {
            s.subrange(i0, pe)
        } else {
            seq!['/']
        };
        let has_q = pe != s.len() && s[pe] == '?';
        if has_q {
            let qe = sfind(s, CharClass::Hash, pe + 1);
            match spec_parse_query(s.subrange(pe + 1, qe)) {
                Some(q) => spec_parse_frag(s, qe, scheme, auth, path, Some(q)),
                None => None,
            }
        } else {
            spec_parse_frag(s, pe, scheme, auth, path, None)
        }
    }
}

/// What parsing an identifier string yields: `None` exactly where
/// construction fails.
pub open spec fn spec_parse_iri(s: Seq<char>) -> Option<IriView> {
    if has_interior_ws(s) {
        None
    } else {
        let ci = sfind(s, CharClass::Colon, 0);
        if ci == s.len() {
            None
        } else {
            let scheme = s.subrange(0, ci);
            let has_auth = ci + 3 <= s.len() && s[ci + 1] == '/' && s[ci + 2] == '/';
            if has_auth {
                let ae = sfind(s, CharClass::AuthEnd, ci + 3);
                match spec_parse_authority(s.subrange(ci + 3, ae)) {
                    Some(auth) => spec_parse_tail(s, ae, scheme, Some(auth)),
                    None => None,
                }
            } else {
                spec_parse_tail(s, ci + 1, scheme, None)
            }
        }
    }
}

/// Canonical form of a user-info part.
pub open spec fn spec_user_str(u: UserView) -> Seq<char> {
    match u.password {
        Some(p) => u.name + seq![':'] + p,
        None => u.name,
    }
}

/// Canonical form of an authority part.
pub open spec fn spec_auth_str(a: AuthorityView) -> Seq<char> {
    (match a.user {
        Some(u) => spec_user_str(u) + seq!['@'],
        None => Seq::<char>::empty(),
    }) + a.host + (match a.port {
        Some(p) => seq![':'] + spec_digits(p as int),
        None => Seq::<char>::empty(),
    })
}

/// Canonical form of a query: pairs joined with `=` and `&`, in order.
pub open spec fn spec_query_str(q: Seq<(Seq<char>, Seq<char>)>) -> Seq<char>
    decreases q.len(),
{
    if q.len() == 0 {
        Seq::<char>::empty()
    } else if q.len() == 1 {
        q[0].0 + seq!['='] + q[0].1
    } else {
        q[0].0 + seq!['='] + q[0].1 + seq!['&'] + spec_query_str(q.subrange(1, q.len() as int))
    }
}

/// The single canonical serialization: scheme `:`, `//` and the authority
/// when present, the path, `?` and the query when present, `#` and the
/// fragment when present.
pub open spec fn spec_iri_str(v: IriView) -> Seq<char> {
    v.scheme + seq![':'] + (match v.authority {
        Some(a) => seq!['/', '/'] + spec_auth_str(a),
        None => Seq::<char>::empty(),
    }) + v.path + (match v.query {
        Some(q) => seq!['?'] + spec_query_str(q),
        None => Seq::<char>::empty(),
    }) + (match v.fragment {
        Some(f) => seq!['#'] + f,
        None => Seq::<char>::empty(),
    })
}

} // verus!

verus! {

/// An error raised by identifier construction, carrying a message.
#[derive(Debug)]
pub struct IRIInvalidError {
    pub msg: String,
}

impl IRIInvalidError {
    pub fn new(msg: String) -> (r: IRIInvalidError)
        ensures
            r.msg == msg,
    {
        IRIInvalidError { msg }
    }
}

/// The query part: `key=value` pairs in the order they were written.
pub struct Query {
    key_value: Vec<(String, String)>,
}

impl View for Query {
    type V = Seq<(Seq<char>, Seq<char>)>;

    closed spec fn view(&self) -> Seq<(Seq<char>, Seq<char>)> {
        self.key_value@.map_values(|p: (String, String)| (p.0@, p.1@))
    }
}

impl Clone for Query {
    fn clone(&self) -> (r: Self)
        ensures
            r@ == self@,
    {
        let mut pairs: Vec<(String, String)> = Vec::new();
        let mut i: usize = 0;
        while i < self.key_value.len()
            invariant
                0 <= i <= self.key_value.len(),
                pairs@.len() == i,
                forall|j: int|
                    0 <= j < i ==> (#[trigger] pairs@[j]).0@ == self.key_value@[j].0@ && pairs@[
                        j
                    ].1@ == self.key_value@[j].1@,
            decreases self.key_value.len() - i,
        {
            let k = self.key_value[i].0.clone();
            let v = self.key_value[i].1.clone();
            pairs.push((k, v));
            i += 1;
        }
        let r = Query { key_value: pairs };
        proof {
            assert(r@ =~= self@);
        }
        r
    }
}

impl Query {
    pub fn get_key_value_pairs(&self) -> (r: &Vec<(String, String)>)
        ensures
            r@.map_values(|p: (String, String)| (p.0@, p.1@)) == self@,
    {
        &self.key_value
    }

    /// The canonical `k=v&k=v` form, pairs in their stored order.
    pub fn as_string(&self) -> (r: String)
        ensures
            r@ == spec_query_str(self@),
    {
        let mut acc = String::new();
        let n = self.key_value.len();
        if n == 0 {
            return acc;
        }
        acc.append(self.key_value[0].0.as_str());
        push_char(&mut acc, '=');
        acc.append(self.key_value[0].1.as_str());
        proof {
            assert(acc@ =~= self@[0].0 + seq!['='] + self@[0].1);
            if n == 1 {
                assert(acc@ == spec_query_str(self@));
            }
        }
        let mut i: usize = 1;
        while i < n
            invariant
                1 <= i <= n,
                n == self.key_value@.len(),
                n == self@.len(),
                spec_query_str(self@) == acc@ + (if i < n {
                    seq!['&'] + spec_query_str(self@.subrange(i as int, n as int))
                } else {
                    Seq::<char>::empty()
                }),
            decreases n - i,
        {
            push_char(&mut acc, '&');
            acc.append(self.key_value[i].0.as_str());
            push_char(&mut acc, '=');
            acc.append(self.key_value[i].1.as_str());
            proof {
                let rest = self@.subrange(i as int, n as int);
                assert(rest[0] == self@[i as int]);
                if i + 1 < n {
                    assert(rest.subrange(1, rest.len() as int) =~= self@.subrange(
                        i + 1,
                        n as int,
                    ));
                    assert(spec_query_str(rest) == rest[0].0 + seq!['='] + rest[0].1 + seq!['&']
                        + spec_query_str(self@.subrange(i + 1, n as int)));
                } else {
                    assert(rest.len() == 1);
                    assert(spec_query_str(rest) == rest[0].0 + seq!['='] + rest[0].1);
                }
                assert(spec_query_str(self@) == acc@ + (if i + 1 < n {
                    seq!['&'] + spec_query_str(self@.subrange(i + 1, n as int))
                } else {
                    Seq::<char>::empty()
                })) by {
                    assert(spec_query_str(self@) =~= acc@ + (if i + 1 < n {
                        seq!['&'] + spec_query_str(self@.subrange(i + 1, n as int))
                    } else {
                        Seq::<char>::empty()
                    }));
                }
            }
            i += 1;
        }
        acc
    }

    /// Reads a query string: `&`-separated `key=value` pairs, in order;
    /// a chunk without `=` is rejected.
    pub fn create_query(query: String) -> (r: Result<Query, IRIInvalidError>)
        ensures
            match r {
                Ok(q) => spec_parse_query(query@) == Some(q@),
                Err(_) => spec_parse_query(query@) is None,
            },
    {
        let s = query.as_str();
        let n = s.unicode_len();
        let mut pairs: Vec<(String, String)> = Vec::new();
        let mut pos: usize = 0;
        proof {
            assert(s@.subrange(0, n as int) =~= query@);
            assert(pairs@.map_values(|p: (String, String)| (p.0@, p.1@)) =~= Seq::<
                (Seq<char>, Seq<char>),
            >::empty());
            match spec_parse_query(query@) {
                Some(r) => {
                    assert(Seq::<(Seq<char>, Seq<char>)>::empty() + r =~= r);
                },
                None => {},
            }
        }
        loop
            invariant
                0 <= pos <= n,
                n == s@.len(),
                s@ == query@,
                spec_parse_query(query@) == (match spec_parse_query(
                    s@.subrange(pos as int, n as int),
                ) {
                    Some(r) => Some(
                        pairs@.map_values(|p: (String, String)| (p.0@, p.1@)) + r,
                    ),
                    None => None,
                }),
            decreases n - pos,
        {
            let ghost t = s@.subrange(pos as int, n as int);
            let ae = find_class(s, CharClass::Amp, pos);
            let chunk = s.substring_char(pos, ae);
            proof {
                crate::scan::lemma_sfind_bounds(s@, CharClass::Amp, pos as int);
                crate::scan::lemma_sfind_is(
                    t,
                    CharClass::Amp,
                    0,
                    ae - pos,
                );
                assert(chunk@ =~= t.subrange(0, ae - pos));
            }
            let eq = find_class(chunk, CharClass::EqSign, 0);
            let cn = chunk.unicode_len();
            if eq == cn {
                return Err(
                    IRIInvalidError::new(
                        String::from_str(
                            "invalid query part: expected key=value pairs separated by &",
                        ),
                    ),
                );
            }
            let key = chunk.substring_char(0, eq).to_owned();
            let value = chunk.substring_char(eq + 1, cn).to_owned();
            pairs.push((key, value));
            proof {
                let pair = (chunk@.subrange(0, eq as int), chunk@.subrange(
                    eq + 1,
                    chunk@.len() as int,
                ));
                assert(pairs@.map_values(|p: (String, String)| (p.0@, p.1@)) =~= pairs@.subrange(
                    0,
                    pairs@.len() - 1,
                ).map_values(|p: (String, String)| (p.0@, p.1@)) + seq![pair]);
            }
            if ae == n {
                proof {
                    assert(spec_parse_query(t) == Some(
                        seq![
                            (
                                chunk@.subrange(0, eq as int),
                                chunk@.subrange(eq + 1, chunk@.len() as int),
                            ),
                        ],
                    ));
                }
                return Ok(Query { key_value: pairs });
            }
            proof {
                assert(t.subrange(ae - pos + 1, t.len() as int) =~= s@.subrange(
                    ae + 1,
                    n as int,
                ));
            }
            pos = ae + 1;
        }
    }
}

/// The user-info part of an authority: a name and an optional password.
pub struct User {
    user: String,
    password: Option<String>,
}

impl View for User {
    type V = UserView;

    closed spec fn view(&self) -> UserView {
        UserView {
            name: self.user@,
            password: match self.password {
                Some(p) => Some(p@),
                None => None,
            },
        }
    }
}

impl Clone for User {
    fn clone(&self) -> (r: Self)
        ensures
            r@ == self@,
    {
        User {
            user: self.user.clone(),
            password: match &self.password {
                Some(p) => Some(p.clone()),
                None => None,
            },
        }
    }
}

impl User {
    pub fn get_user(&self) -> (r: &String)
        ensures
            r@ == self@.name,
    {
        &self.user
    }

    pub fn get_password(&self) -> (r: &Option<String>)
        ensures
            match r {
                Some(p) => self@.password == Some(p@),
                None => self@.password is None,
            },
    {
        &self.password
    }

    /// Splits a user-info string at the first `:` into name and password.
    pub fn create_user(text: String) -> (r: User)
        ensures
            r@ == spec_parse_user(text@),
    {
        let s = text.as_str();
        let n = s.unicode_len();
        let ue = find_class(s, CharClass::Colon, 0);
        if ue == n {
            User { user: text, password: None }
        } else {
            let user = s.substring_char(0, ue).to_owned();
            let password = s.substring_char(ue + 1, n).to_owned();
            User { user, password: Some(password) }
        }
    }

    /// The canonical `name` or `name:password` form.
    pub fn as_string(&self) -> (r: String)
        ensures
            r@ == spec_user_str(self@),
    {
        let mut ret = self.user.clone();
        if let Some(pwd) = &self.password {
            push_char(&mut ret, ':');
            ret.append(pwd.as_str());
        }
        ret
    }
}

/// The authority part: optional user info, host, optional numeric port.
pub struct Authority {
    user: Option<User>,
    host: String,
    port: Option<u32>,
}

impl View for Authority {
    type V = AuthorityView;

    closed spec fn view(&self) -> AuthorityView {
        AuthorityView {
            user: match self.user {
                Some(u) => Some(u@),
                None => None,
            },
            host: self.host@,
            port: self.port,
        }
    }
}

impl Clone for Authority {
    fn clone(&self) -> (r: Self)
        ensures
            r@ == self@,
    {
        Authority {
            user: match &self.user {
                Some(u) => Some(u.clone()),
                None => None,
            },
            host: self.host.clone(),
            port: self.port,
        }
    }
}

impl Authority {
    pub fn get_port(&self) -> (r: &Option<u32>)
        ensures
            r == &self@.port,
    {
        &self.port
    }

    pub fn get_host(&self) -> (r: &String)
        ensures
            r@ == self@.host,
    {
        &self.host
    }

    pub fn get_user(&self) -> (r: &Option<User>)
        ensures
            match r {
                Some(u) => self@.user == Some(u@),
                None => self@.user is None,
            },
    {
        &self.user
    }

    /// Splits an authority string at the first `@` and the first following
    /// `:`; a non-numeric or oversized port is rejected.
    pub fn create_authority(text: String) -> (r: Result<Authority, IRIInvalidError>)
        ensures
            match r {
                Ok(a) => spec_parse_authority(text@) == Some(a@),
                Err(_) => spec_parse_authority(text@) is None,
            },
    {
        let s = text.as_str();
        let n = s.unicode_len();
        let a = find_class(s, CharClass::AtSign, 0);
        let idx: usize = if a == n {
            0
        } else {
            a
        };
        let mut user: Option<User> = None;
        let mut i: usize = 0;
        if idx > 0 {
            user = Some(User::create_user(s.substring_char(0, idx).to_owned()));
            i = idx + 1;
        }
        let he = find_class(s, CharClass::Colon, i);
        let host = s.substring_char(i, he).to_owned();
        if n - he > 1 {
            match parse_u32_str(s, he + 1) {
                Some(p) => Ok(Authority { user, host, port: Some(p) }),
                None => Err(
                    IRIInvalidError::new(
                        String::from_str("identifier is not valid: expected a number as port"),
                    ),
                ),
            }
        } else {
            Ok(Authority { user, host, port: None })
        }
    }

    /// The canonical `user@host:port` form, each part only when present.
    pub fn as_string(&self) -> (r: String)
        ensures
            r@ == spec_auth_str(self@),
    {
        let mut ret = String::new();
        if let Some(user) = &self.user {
            let u = user.as_string();
            ret.append(u.as_str());
            push_char(&mut ret, '@');
        }
        ret.append(self.host.as_str());
        if let Some(p) = &self.port {
            push_char(&mut ret, ':');
            let d = u64_to_string(*p as u64);
            ret.append(d.as_str());
        }
        proof {
            assert(ret@ =~= spec_auth_str(self@));
        }
        ret
    }
}

} // verus!

verus! {

/// An absolute identifier: scheme, optional authority, path, optional
/// query and optional fragment.  Immutable once constructed; construction
/// through [`IRI::create_iri`] is the only fallible operation.
pub struct IRI {
    scheme: String,
    authority: Option<Authority>,
    path: String,
    query: Option<Query>,
    fragment: Option<String>,
}

impl View for IRI {
    type V = IriView;

    closed spec fn view(&self) -> IriView {
        IriView {
            scheme: self.scheme@,
            authority: match self.authority {
                Some(a) => Some(a@),
                None => None,
            },
            path: self.path@,
            query: match self.query {
                Some(q) => Some(q@),
                None => None,
            },
            fragment: match self.fragment {
                Some(f) => Some(f@),
                None => None,
            },
        }
    }
}

impl Clone for IRI {
    fn clone(&self) -> (r: Self)
        ensures
            r@ == self@,
    {
        let r = IRI {
            scheme: self.scheme.clone(),
            authority: match &self.authority {
                Some(a) => Some(a.clone()),
                None => None,
            },
            path: self.path.clone(),
            query: match &self.query {
                Some(q) => Some(q.clone()),
                None => None,
            },
            fragment: match &self.fragment {
                Some(f) => Some(f.clone()),
                None => None,
            },
        };
        proof {
            assert(r@ =~= self@);
        }
        r
    }
}

/// Checks a string slice for interior whitespace: whitespace with
/// non-whitespace both before and after it.
fn has_interior_ws_exec(s: &str) -> (r: bool)
    ensures
        r == has_interior_ws(s@),
{
    let n = s.unicode_len();
    let first_non_ws = find_class(s, CharClass::NonWs, 0);
    proof {
        crate::scan::lemma_sfind_bounds(s@, CharClass::NonWs, 0);
    }
    if first_non_ws == n {
        return false;
    }
    let first_ws_after = find_class(s, CharClass::Ws, first_non_ws);
    proof {
        crate::scan::lemma_sfind_bounds(s@, CharClass::Ws, first_non_ws as int);
    }
    if first_ws_after == n {
        return false;
    }
    let next_non_ws = find_class(s, CharClass::NonWs, first_ws_after);
    proof {
        crate::scan::lemma_sfind_bounds(s@, CharClass::NonWs, first_ws_after as int);
    }
    if next_non_ws == n {
        false
    } else {
        proof {
            assert(!spec_is_ws(s@[first_non_ws as int]));
            assert(spec_is_ws(s@[first_ws_after as int]));
            assert(!spec_is_ws(s@[next_non_ws as int]));
        }
        true
    }
}

/// Checks that every character of `t` is allowed in a fragment.
fn frag_ok_exec(t: &str) -> (r: bool)
    ensures
        r == frag_ok(t@),
{
    let n = t.unicode_len();
    let mut i: usize = 0;
    while i < n
        invariant
            0 <= i <= n,
            n == t@.len(),
            forall|j: int| 0 <= j < i ==> !bad_frag_char(#[trigger] t@[j]),
        decreases n - i,
    {
        let c = t.get_char(i);
        if c == '#' || c == '%' || c == '^' || c == '\\' || c == '{' || c == '}' || c == '['
            || c == ']' || c == '|' {
            return false;
        }
        i += 1;
    }
    true
}

impl IRI {
    /// Whether the canonical form is plain ASCII.
    pub fn is_uri(&self) -> (r: bool)
        ensures
            r == vstd::utf8::is_ascii_chars(spec_iri_str(self@)),
    {
        let s = self.as_string();
        s.as_str().is_ascii()
    }

    pub fn get_authority(&self) -> (r: &Option<Authority>)
        ensures
            match r {
                Some(a) => self@.authority == Some(a@),
                None => self@.authority is None,
            },
    {
        &self.authority
    }

    pub fn get_fragment(&self) -> (r: &Option<String>)
        ensures
            match r {
                Some(f) => self@.fragment == Some(f@),
                None => self@.fragment is None,
            },
    {
        &self.fragment
    }

    pub fn get_scheme(&self) -> (r: &String)
        ensures
            r@ == self@.scheme,
    {
        &self.scheme
    }

    pub fn get_query(&self) -> (r: &Option<Query>)
        ensures
            match r {
                Some(q) => self@.query == Some(q@),
                None => self@.query is None,
            },
    {
        &self.query
    }

    pub fn get_path(&self) -> (r: &String)
        ensures
            r@ == self@.path,
    {
        &self.path
    }

    /// The single canonical serialization of this identifier.
    pub fn as_string(&self) -> (r: String)
        ensures
            r@ == spec_iri_str(self@),
    {
        let mut ret = self.scheme.clone();
        push_char(&mut ret, ':');
        if let Some(auth) = &self.authority {
            push_char(&mut ret, '/');
            push_char(&mut ret, '/');
            let a = auth.as_string();
            ret.append(a.as_str());
        }
        ret.append(self.path.as_str());
        if let Some(q) = &self.query {
            push_char(&mut ret, '?');
            let qs = q.as_string();
            ret.append(qs.as_str());
        }
        if let Some(frag) = &self.fragment {
            push_char(&mut ret, '#');
            ret.append(frag.as_str());
        }
        proof {
            assert(ret@ =~= spec_iri_str(self@));
        }
        ret
    }

    /// Parses an identifier string.  Fails on interior whitespace, a
    /// missing `:` after the scheme, a bad authority or port, a path that
    /// does not start with `/` although an authority is present, a
    /// malformed query pair, or a fragment with a forbidden character.
    pub fn create_iri(iri: &String) -> (r: Result<IRI, IRIInvalidError>)
        ensures
            match r {
                Ok(v) => spec_parse_iri(iri@) == Some(v@),
                Err(_) => spec_parse_iri(iri@) is None,
            },
    {
        let s = iri.as_str();
        let n = s.unicode_len();
        if has_interior_ws_exec(s) {
            return Err(
                IRIInvalidError::new(
                    String::from_str("identifier is not valid: whitespace is not allowed"),
                ),
            );
        }
        let ci = find_class(s, CharClass::Colon, 0);
        proof {
            crate::scan::lemma_sfind_bounds(s@, CharClass::Colon, 0);
        }
        if ci == n {
            return Err(
                IRIInvalidError::new(
                    String::from_str("identifier is not valid: expected : after the scheme"),
                ),
            );
        }
        let scheme = s.substring_char(0, ci).to_owned();
        let has_auth = n - ci >= 3 && s.get_char(ci + 1) == '/' && s.get_char(ci + 2) == '/';
        proof {
            assert(has_auth == (ci + 3 <= s@.len() && s@[ci as int + 1] == '/' && s@[ci as int + 2]
                == '/'));
        }
        let mut authority: Option<Authority> = None;
        let mut i0: usize = ci + 1;
        if has_auth {
            let ae = find_class(s, CharClass::AuthEnd, ci + 3);
            let auth_text = s.substring_char(ci + 3, ae).to_owned();
            match Authority::create_authority(auth_text) {
                Ok(a) => {
                    authority = Some(a);
                },
                Err(e) => {
                    return Err(e);
                },
            }
            i0 = ae;
        }
        Self::create_iri_tail(s, i0, scheme, authority, Ghost(iri@))
    }

    /// The path, query and fragment steps of [`IRI::create_iri`], starting
    /// at `i0`, right after the scheme's colon or after the authority.
    fn create_iri_tail(
        s: &str,
        i0: usize,
        scheme: String,
        authority: Option<Authority>,
        Ghost(whole): Ghost<Seq<char>>,
    ) -> (r: Result<IRI, IRIInvalidError>)
        requires
            i0 <= s@.len(),
            spec_parse_iri(whole) == spec_parse_tail(
                s@,
                i0 as int,
                scheme@,
                match authority {
                    Some(a) => Some(a@),
                    None => None,
                },
            ),
        ensures
            match r {
                Ok(v) => spec_parse_iri(whole) == Some(v@),
                Err(_) => spec_parse_iri(whole) is None,
            },
    {
        let ghost auth_view: Option<AuthorityView> = match authority {
            Some(ref a) => Some(a@),
            None => None,
        };
        let n = s.unicode_len();
        let has_path = i0 != n && s.get_char(i0) != '?' && s.get_char(i0) != '#';
        if has_path && authority.is_some() && s.get_char(i0) != '/' {
            return Err(
                IRIInvalidError::new(
                    String::from_str(
                        "identifier is not valid: authority is set but the path does not begin with /",
                    ),
                ),
            );
        }
        let mut pe: usize = i0;
        let path: String = if has_path {
            pe = find_class(s, CharClass::PathEnd, i0 + 1);
            s.substring_char(i0, pe).to_owned()
        } else {
            let mut p = String::new();
            push_char(&mut p, '/');
            proof {
                assert(p@ =~= seq!['/']);
            }
            p
        };
        let has_q = pe != n && s.get_char(pe) == '?';
        let mut query: Option<Query> = None;
        let mut i2: usize = pe;
        if has_q {
            let qe = find_class(s, CharClass::Hash, pe + 1);
            let q_text = s.substring_char(pe + 1, qe).to_owned();
            match Query::create_query(q_text) {
                Ok(q) => {
                    query = Some(q);
                },
                Err(e) => {
                    return Err(e);
                },
            }
            i2 = qe;
        }
        let has_f = i2 != n && s.get_char(i2) == '#';
        let mut fragment: Option<String> = None;
        if has_f {
            let frag = s.substring_char(i2 + 1, n);
            if frag_ok_exec(frag) {
                fragment = Some(frag.to_owned());
            } else {
                return Err(
                    IRIInvalidError::new(
                        String::from_str(
                            "identifier is not valid: fragment holds a forbidden character",
                        ),
                    ),
                );
            }
        }
        let r = IRI { scheme, authority, path, query, fragment };
        proof {
            let pv = spec_parse_iri(whole);
            assert(pv == Some(r@)) by {
                assert(r@ =~= spec_parse_tail(s@, i0 as int, r@.scheme, auth_view).unwrap());
            }
        }
        Ok(r)
    }

    pub fn is_valid_iri(iri: &String) -> (r: bool)
        ensures
            r == (spec_parse_iri(iri@) is Some),
    {
        IRI::create_iri(iri).is_ok()
    }
}

} // verus!

verus! {

/// `c` does not occur in `s`.
pub open spec fn no_char(s: Seq<char>, c: char) -> bool {
    forall|i: int| 0 <= i < s.len() ==> s[i] != c
}

/// No character of `s` is whitespace.
pub open spec fn no_ws(s: Seq<char>) -> bool {
    forall|i: int| 0 <= i < s.len() ==> !spec_is_ws(#[trigger] s[i])
}

/// Free of the characters that end an authority segment, and of whitespace.
pub open spec fn auth_seg_ok(s: Seq<char>) -> bool {
    no_char(s, '/') && no_char(s, '?') && no_char(s, '#') && no_ws(s)
}

/// A user-info value as parsing produces it: the name holds no `:` or `@`,
/// the password no `@`, and neither any segment-ending character.
pub open spec fn user_wf(u: UserView) -> bool {
    auth_seg_ok(u.name) && no_char(u.name, ':') && no_char(u.name, '@') && (match u.password {
        Some(p) => auth_seg_ok(p) && no_char(p, '@'),
        None => true,
    })
}

/// An authority value as parsing produces it.
pub open spec fn auth_wf(a: AuthorityView) -> bool {
    auth_seg_ok(a.host) && no_char(a.host, ':') && (match a.user {
        Some(u) => user_wf(u) && spec_user_str(u).len() >= 1,
        None => a.host.len() == 0 || a.host[0] == '@' || no_char(a.host, '@'),
    })
}

/// One query pair as parsing produces it: the key holds no `=`, and both
/// parts are free of `&`, `#` and whitespace.
pub open spec fn qpair_wf(p: (Seq<char>, Seq<char>)) -> bool {
    no_char(p.0, '=') && no_char(p.0, '&') && no_char(p.0, '#') && no_ws(p.0) && no_char(p.1, '&')
        && no_char(p.1, '#') && no_ws(p.1)
}

pub open spec fn query_wf(q: Seq<(Seq<char>, Seq<char>)>) -> bool {
    q.len() >= 1 && (forall|i: int| 0 <= i < q.len() ==> qpair_wf(#[trigger] q[i]))
}

/// An identifier value as parsing produces it.  Such a value serializes to
/// a string that parses back to the value itself.
pub open spec fn iri_wf(v: IriView) -> bool {
    &&& no_char(v.scheme, ':')
    &&& no_ws(v.scheme)
    &&& match v.authority {
        Some(a) => auth_wf(a),
        None => true,
    }
    &&& v.path.len() >= 1
    &&& no_char(v.path, '?')
    &&& no_char(v.path, '#')
    &&& no_ws(v.path)
    &&& match v.authority {
        Some(_) => v.path[0] == '/',
        None => !(v.path.len() >= 2 && v.path[0] == '/' && v.path[1] == '/'),
    }
    &&& match v.query {
        Some(q) => query_wf(q),
        None => true,
    }
    &&& match v.fragment {
        Some(f) => frag_ok(f) && no_ws(f),
        None => true,
    }
}

/// Digit strings contain none of the structural characters.
proof fn lemma_digits_chars(d: Seq<char>)
    requires
        crate::scan::all_digits(d),
    ensures
        auth_seg_ok(d),
        no_char(d, ':'),
        no_char(d, '@'),
        no_char(d, '&'),
        no_char(d, '='),
{
    assert forall|i: int| 0 <= i < d.len() implies !spec_is_ws(#[trigger] d[i]) by {
        assert(crate::scan::spec_is_digit(d[i]));
    }
    assert forall|i: int| 0 <= i < d.len() implies d[i] != '/' && d[i] != '?' && d[i] != '#' && d[i]
        != ':' && d[i] != '@' && d[i] != '&' && d[i] != '=' by {
        assert(crate::scan::spec_is_digit(d[i]));
    }
}

/// The canonical user-info string of a well-formed user keeps clear of the
/// authority-ending characters and of `@`.
proof fn lemma_user_str_chars(u: UserView)
    requires
        user_wf(u),
    ensures
        auth_seg_ok(spec_user_str(u)),
        no_char(spec_user_str(u), '@'),
{
    match u.password {
        Some(p) => {
            let s = spec_user_str(u);
            assert forall|i: int| 0 <= i < s.len() implies !spec_is_ws(#[trigger] s[i]) && s[i]
                != '/' && s[i] != '?' && s[i] != '#' && s[i] != '@' by {
                if i < u.name.len() {
                    assert(s[i] == u.name[i]);
                } else if i == u.name.len() {
                    assert(s[i] == ':');
                } else {
                    assert(s[i] == p[i - u.name.len() - 1]);
                }
            }
        },
        None => {},
    }
}

/// The canonical authority string of a well-formed authority keeps clear
/// of the authority-ending characters.
proof fn lemma_auth_str_chars(a: AuthorityView)
    requires
        auth_wf(a),
    ensures
        auth_seg_ok(spec_auth_str(a)),
{
    let s = spec_auth_str(a);
    let upart = match a.user {
        Some(u) => spec_user_str(u) + seq!['@'],
        None => Seq::<char>::empty(),
    };
    let ppart = match a.port {
        Some(p) => seq![':'] + spec_digits(p as int),
        None => Seq::<char>::empty(),
    };
    match a.user {
        Some(u) => lemma_user_str_chars(u),
        None => {},
    }
    match a.port {
        Some(p) => {
            crate::scan::lemma_spec_digits(p as int);
            lemma_digits_chars(spec_digits(p as int));
        },
        None => {},
    }
    assert forall|i: int| 0 <= i < s.len() implies !spec_is_ws(#[trigger] s[i]) && s[i] != '/'
        && s[i] != '?' && s[i] != '#' by {
        assert(s == upart + a.host + ppart);
        if i < upart.len() {
            assert(s[i] == upart[i]);
            match a.user {
                Some(u) => {
                    if i < spec_user_str(u).len() {
                        assert(upart[i] == spec_user_str(u)[i]);
                    } else {
                        assert(upart[i] == '@');
                    }
                },
                None => {},
            }
        } else if i < upart.len() + a.host.len() {
            assert(s[i] == a.host[i - upart.len()]);
        } else {
            assert(s[i] == ppart[i - upart.len() - a.host.len()]);
            match a.port {
                Some(p) => {
                    let j = i - upart.len() - a.host.len();
                    if j > 0 {
                        assert(ppart[j] == spec_digits(p as int)[j - 1]);
                    }
                },
                None => {},
            }
        }
    }
}

/// The canonical query string of a well-formed query keeps clear of `#`
/// and of whitespace.
proof fn lemma_query_str_chars(q: Seq<(Seq<char>, Seq<char>)>)
    requires
        query_wf(q),
    ensures
        no_char(spec_query_str(q), '#'),
        no_ws(spec_query_str(q)),
    decreases q.len(),
{
    let s = spec_query_str(q);
    if q.len() == 1 {
        assert(qpair_wf(q[0]));
        assert forall|i: int| 0 <= i < s.len() implies s[i] != '#' && !spec_is_ws(
            #[trigger] s[i],
        ) by {
            if i < q[0].0.len() {
                assert(s[i] == q[0].0[i]);
            } else if i == q[0].0.len() {
                assert(s[i] == '=');
            } else {
                assert(s[i] == q[0].1[i - q[0].0.len() - 1]);
            }
        }
    } else {
        let rest = q.subrange(1, q.len() as int);
        assert(query_wf(rest)) by {
            assert(forall|i: int| 0 <= i < rest.len() ==> rest[i] == q[i + 1]);
        }
        lemma_query_str_chars(rest);
        let rs = spec_query_str(rest);
        assert(qpair_wf(q[0]));
        assert forall|i: int| 0 <= i < s.len() implies s[i] != '#' && !spec_is_ws(
            #[trigger] s[i],
        ) by {
            let h = q[0].0.len() + 1 + q[0].1.len();
            assert(s == q[0].0 + seq!['='] + q[0].1 + seq!['&'] + rs);
            if i < q[0].0.len() {
                assert(s[i] == q[0].0[i]);
            } else if i == q[0].0.len() {
                assert(s[i] == '=');
            } else if i < h {
                assert(s[i] == q[0].1[i - q[0].0.len() - 1]);
            } else if i == h {
                assert(s[i] == '&');
            } else {
                assert(s[i] == rs[i - h - 1]);
            }
        }
    }
}

} // verus!

verus! {

/// Printing then parsing a well-formed user-info value gives it back.
proof fn lemma_user_round_trip(u: UserView)
    requires
        user_wf(u),
    ensures
        spec_parse_user(spec_user_str(u)) == u,
{
    let s = spec_user_str(u);
    match u.password {
        None => {
            assert(s == u.name);
            crate::scan::lemma_sfind_is(s, CharClass::Colon, 0, s.len() as int);
            assert(spec_parse_user(s) == u);
        },
        Some(p) => {
            let nl = u.name.len() as int;
            assert(s == u.name + seq![':'] + p);
            assert forall|j: int| 0 <= j < nl implies !crate::scan::class_matches(
                CharClass::Colon,
                s[j],
            ) by {
                assert(s[j] == u.name[j]);
            }
            assert(s[nl] == ':');
            crate::scan::lemma_sfind_is(s, CharClass::Colon, 0, nl);
            assert(s.subrange(0, nl) =~= u.name);
            assert(s.subrange(nl + 1, s.len() as int) =~= p);
            assert(spec_parse_user(s) == u);
        },
    }
}

/// Printing then parsing a well-formed query gives it back.
proof fn lemma_query_round_trip(q: Seq<(Seq<char>, Seq<char>)>)
    requires
        query_wf(q),
    ensures
        spec_parse_query(spec_query_str(q)) == Some(q),
    decreases q.len(),
{
    let s = spec_query_str(q);
    let k = q[0].0;
    let v = q[0].1;
    let kl = k.len() as int;
    let h = kl + 1 + v.len();
    assert(qpair_wf(q[0]));
    if q.len() == 1 {
        assert(s == k + seq!['='] + v);
        assert forall|j: int| 0 <= j < s.len() implies !crate::scan::class_matches(
            CharClass::Amp,
            s[j],
        ) by {
            if j < kl {
                assert(s[j] == k[j]);
            } else if j == kl {
                assert(s[j] == '=');
            } else {
                assert(s[j] == v[j - kl - 1]);
            }
        }
        crate::scan::lemma_sfind_is(s, CharClass::Amp, 0, s.len() as int);
        let chunk = s.subrange(0, s.len() as int);
        assert(chunk =~= s);
        assert forall|j: int| 0 <= j < kl implies !crate::scan::class_matches(
            CharClass::EqSign,
            chunk[j],
        ) by {
            assert(chunk[j] == k[j]);
        }
        assert(chunk[kl] == '=');
        crate::scan::lemma_sfind_is(chunk, CharClass::EqSign, 0, kl);
        assert(chunk.subrange(0, kl) =~= k);
        assert(chunk.subrange(kl + 1, chunk.len() as int) =~= v);
        assert(seq![(chunk.subrange(0, kl), chunk.subrange(kl + 1, chunk.len() as int))] =~= q);
    } else {
        let rest = q.subrange(1, q.len() as int);
        assert(query_wf(rest)) by {
            assert(forall|i: int| 0 <= i < rest.len() ==> rest[i] == q[i + 1]);
        }
        lemma_query_round_trip(rest);
        let rs = spec_query_str(rest);
        assert(s == k + seq!['='] + v + seq!['&'] + rs);
        assert forall|j: int| 0 <= j < h implies !crate::scan::class_matches(
            CharClass::Amp,
            s[j],
        ) by {
            if j < kl {
                assert(s[j] == k[j]);
            } else if j == kl {
                assert(s[j] == '=');
            } else {
                assert(s[j] == v[j - kl - 1]);
            }
        }
        assert(s[h] == '&');
        crate::scan::lemma_sfind_is(s, CharClass::Amp, 0, h);
        let chunk = s.subrange(0, h);
        assert forall|j: int| 0 <= j < kl implies !crate::scan::class_matches(
            CharClass::EqSign,
            chunk[j],
        ) by {
            assert(chunk[j] == k[j]);
        }
        assert(chunk[kl] == '=');
        crate::scan::lemma_sfind_is(chunk, CharClass::EqSign, 0, kl);
        assert(chunk.subrange(0, kl) =~= k);
        assert(chunk.subrange(kl + 1, chunk.len() as int) =~= v);
        assert(s.subrange(h + 1, s.len() as int) =~= rs);
        assert(h < s.len());
        assert(seq![(chunk.subrange(0, kl), chunk.subrange(kl + 1, chunk.len() as int))] + rest
            =~= q);
    }
}

/// Printing then parsing a well-formed authority gives it back.
proof fn lemma_auth_round_trip(a: AuthorityView)
    requires
        auth_wf(a),
    ensures
        spec_parse_authority(spec_auth_str(a)) == Some(a),
{
    let s = spec_auth_str(a);
    let upart = match a.user {
        Some(u) => spec_user_str(u) + seq!['@'],
        None => Seq::<char>::empty(),
    };
    let ppart = match a.port {
        Some(p) => seq![':'] + spec_digits(p as int),
        None => Seq::<char>::empty(),
    };
    assert(s == upart + a.host + ppart);
    match a.port {
        Some(p) => {
            crate::scan::lemma_spec_digits(p as int);
            lemma_digits_chars(spec_digits(p as int));
        },
        None => {},
    }
    let hl = a.host.len() as int;
    match a.user {
        Some(u) => {
            lemma_user_str_chars(u);
            let ul = spec_user_str(u).len() as int;
            assert forall|j: int| 0 <= j < ul implies !crate::scan::class_matches(
                CharClass::AtSign,
                s[j],
            ) by {
                assert(s[j] == spec_user_str(u)[j]);
            }
            assert(s[ul] == '@');
            crate::scan::lemma_sfind_is(s, CharClass::AtSign, 0, ul);
            assert(ul > 0);
            assert(s.subrange(0, ul) =~= spec_user_str(u));
            lemma_user_round_trip(u);
            // host and port start after the '@'
            assert forall|j: int| ul + 1 <= j < ul + 1 + hl implies !crate::scan::class_matches(
                CharClass::Colon,
                s[j],
            ) by {
                assert(s[j] == a.host[j - ul - 1]);
            }
            match a.port {
                Some(p) => {
                    assert(s[ul + 1 + hl] == ':');
                    crate::scan::lemma_sfind_is(s, CharClass::Colon, ul + 1, ul + 1 + hl);
                    assert(s.subrange(ul + 1, ul + 1 + hl) =~= a.host);
                    assert(s.subrange(ul + 1 + hl + 1, s.len() as int) =~= spec_digits(p as int));
                    crate::scan::lemma_uint_round_trip(p as int, u32::MAX as int);
                },
                None => {
                    assert(s.len() == ul + 1 + hl);
                    crate::scan::lemma_sfind_is(s, CharClass::Colon, ul + 1, s.len() as int);
                    assert(s.subrange(ul + 1, s.len() as int) =~= a.host);
                },
            }
        },
        None => {
            assert(s == a.host + ppart);
            let at = sfind(s, CharClass::AtSign, 0);
            if a.host.len() > 0 && a.host[0] == '@' {
                assert(s[0] == '@');
                crate::scan::lemma_sfind_is(s, CharClass::AtSign, 0, 0);
            } else {
                assert(no_char(a.host, '@'));
                assert forall|j: int| 0 <= j < s.len() implies !crate::scan::class_matches(
                    CharClass::AtSign,
                    s[j],
                ) by {
                    if j < hl {
                        assert(s[j] == a.host[j]);
                    } else {
                        assert(s[j] == ppart[j - hl]);
                        match a.port {
                            Some(p) => {
                                if j > hl {
                                    assert(ppart[j - hl] == spec_digits(p as int)[j - hl - 1]);
                                }
                            },
                            None => {},
                        }
                    }
                }
                crate::scan::lemma_sfind_is(s, CharClass::AtSign, 0, s.len() as int);
            }
            assert forall|j: int| 0 <= j < hl implies !crate::scan::class_matches(
                CharClass::Colon,
                s[j],
            ) by {
                assert(s[j] == a.host[j]);
            }
            match a.port {
                Some(p) => {
                    assert(s[hl] == ':');
                    crate::scan::lemma_sfind_is(s, CharClass::Colon, 0, hl);
                    assert(s.subrange(0, hl) =~= a.host);
                    assert(s.subrange(hl + 1, s.len() as int) =~= spec_digits(p as int));
                    crate::scan::lemma_uint_round_trip(p as int, u32::MAX as int);
                },
                None => {
                    assert(s.len() == hl);
                    crate::scan::lemma_sfind_is(s, CharClass::Colon, 0, s.len() as int);
                    assert(s.subrange(0, hl) =~= a.host);
                },
            }
        },
    }
}

} // verus!

verus! {

/// The query part of the canonical form, with its `?` marker.
pub open spec fn spec_qpart(v: IriView) -> Seq<char> {
    match v.query {
        Some(q) => seq!['?'] + spec_query_str(q),
        None => Seq::<char>::empty(),
    }
}

/// The fragment part of the canonical form, with its `#` marker.
pub open spec fn spec_fpart(v: IriView) -> Seq<char> {
    match v.fragment {
        Some(f) => seq!['#'] + f,
        None => Seq::<char>::empty(),
    }
}


/// Character-by-character reading of the canonical form of `v` laid out in
/// `s` starting at `offset`: `s[offset..]` is path, query part, fragment
/// part, each addressed by absolute index.
pub open spec fn tail_laid_out(s: Seq<char>, i0: int, v: IriView) -> bool {
    let pl = v.path.len() as int;
    let ql = spec_qpart(v).len() as int;
    let fl = spec_fpart(v).len() as int;
    &&& s.len() == i0 + pl + ql + fl
    &&& forall|j: int| i0 <= j < i0 + pl ==> #[trigger] s[j] == v.path[j - i0]
    &&& forall|j: int| i0 + pl <= j < i0 + pl + ql ==> #[trigger] s[j] == spec_qpart(v)[j - i0
        - pl]
    &&& forall|j: int|
        i0 + pl + ql <= j < i0 + pl + ql + fl ==> #[trigger] s[j] == spec_fpart(v)[j - i0 - pl
            - ql]
}

/// Parsing the canonical form back: the path, query and fragment steps.
#[verifier::rlimit(60)]
proof fn lemma_tail_round_trip(s: Seq<char>, i0: int, v: IriView)
    requires
        iri_wf(v),
        0 <= i0 <= s.len(),
        tail_laid_out(s, i0, v),
    ensures
        spec_parse_tail(s, i0, v.scheme, v.authority) == Some(v),
{
    let pl = v.path.len() as int;
    let ql = spec_qpart(v).len() as int;
    let fl = spec_fpart(v).len() as int;
    match v.query {
        Some(q) => {
            lemma_query_str_chars(q);
            assert(spec_qpart(v)[0] == '?');
            assert(forall|k: int| 1 <= k < ql ==> #[trigger] spec_qpart(v)[k] == spec_query_str(
                q,
            )[k - 1]);
        },
        None => {},
    }
    match v.fragment {
        Some(f) => {
            assert(spec_fpart(v)[0] == '#');
            assert(forall|k: int| 1 <= k < fl ==> #[trigger] spec_fpart(v)[k] == f[k - 1]);
        },
        None => {},
    }
    // the path step
    assert(s[i0] == v.path[0]);
    let has_path = i0 != s.len() && s[i0] != '?' && s[i0] != '#';
    assert(has_path);
    let pe = i0 + pl;
    assert forall|j: int| i0 + 1 <= j < pe implies !crate::scan::class_matches(
        CharClass::PathEnd,
        s[j],
    ) by {
        assert(s[j] == v.path[j - i0]);
    }
    if ql > 0 {
        assert(s[pe] == spec_qpart(v)[0]);
    } else if fl > 0 {
        assert(s[pe] == spec_fpart(v)[0]);
    } else {
        assert(pe == s.len());
    }
    crate::scan::lemma_sfind_is(s, CharClass::PathEnd, i0 + 1, pe);
    assert(s.subrange(i0, pe) =~= v.path);
    // the query step
    match v.query {
        Some(q) => {
            assert(s[pe] == '?');
            let qe = pe + ql;
            assert forall|j: int| pe + 1 <= j < qe implies !crate::scan::class_matches(
                CharClass::Hash,
                s[j],
            ) by {
                assert(s[j] == spec_qpart(v)[j - pe]);
            }
            if fl > 0 {
                assert(s[qe] == spec_fpart(v)[0]);
            } else {
                assert(qe == s.len());
            }
            crate::scan::lemma_sfind_is(s, CharClass::Hash, pe + 1, qe);
            assert(s.subrange(pe + 1, qe) =~= spec_query_str(q)) by {
                assert(forall|k: int| 0 <= k < ql - 1 ==> #[trigger] s.subrange(pe + 1, qe)[k]
                    == s[pe + 1 + k]);
            }
            lemma_query_round_trip(q);
            // the fragment step
            match v.fragment {
                Some(f) => {
                    assert(s[qe] == '#');
                    assert(s.subrange(qe + 1, s.len() as int) =~= f) by {
                        assert(forall|k: int| 0 <= k < fl - 1 ==> #[trigger] s.subrange(
                            qe + 1,
                            s.len() as int,
                        )[k] == s[qe + 1 + k]);
                    }
                    assert(IriView {
                        scheme: v.scheme,
                        authority: v.authority,
                        path: s.subrange(i0, pe),
                        query: Some(q),
                        fragment: Some(s.subrange(qe + 1, s.len() as int)),
                    } =~= v);
                },
                None => {
                    assert(qe == s.len());
                    assert(IriView {
                        scheme: v.scheme,
                        authority: v.authority,
                        path: s.subrange(i0, pe),
                        query: Some(q),
                        fragment: None,
                    } =~= v);
                },
            }
        },
        None => {
            assert(ql == 0);
            match v.fragment {
                Some(f) => {
                    assert(s[pe] == '#');
                    assert(s.subrange(pe + 1, s.len() as int) =~= f) by {
                        assert(forall|k: int| 0 <= k < fl - 1 ==> #[trigger] s.subrange(
                            pe + 1,
                            s.len() as int,
                        )[k] == s[pe + 1 + k]);
                    }
                    assert(IriView {
                        scheme: v.scheme,
                        authority: v.authority,
                        path: s.subrange(i0, pe),
                        query: None,
                        fragment: Some(s.subrange(pe + 1, s.len() as int)),
                    } =~= v);
                },
                None => {
                    assert(pe == s.len());
                    assert(IriView {
                        scheme: v.scheme,
                        authority: v.authority,
                        path: s.subrange(i0, pe),
                        query: None,
                        fragment: None,
                    } =~= v);
                },
            }
        },
    }
}

} // verus!

verus! {

/// Printing a well-formed identifier value and parsing the result gives
/// the same value back.
#[verifier::rlimit(80)]
pub proof fn lemma_iri_round_trip(v: IriView)
    requires
        iri_wf(v),
    ensures
        spec_parse_iri(spec_iri_str(v)) == Some(v),
{
    let s = spec_iri_str(v);
    let aupart = match v.authority {
        Some(a) => seq!['/', '/'] + spec_auth_str(a),
        None => Seq::<char>::empty(),
    };
    let sl = v.scheme.len() as int;
    let al = aupart.len() as int;
    let pl = v.path.len() as int;
    let ql = spec_qpart(v).len() as int;
    let fl = spec_fpart(v).len() as int;
    let i0 = sl + 1 + al;
    assert(s == v.scheme + seq![':'] + aupart + v.path + spec_qpart(v) + spec_fpart(v));
    assert(s.len() == sl + 1 + al + pl + ql + fl);
    assert(forall|j: int| 0 <= j < sl ==> #[trigger] s[j] == v.scheme[j]);
    assert(s[sl] == ':');
    assert(forall|j: int| sl + 1 <= j < i0 ==> #[trigger] s[j] == aupart[j - sl - 1]);
    assert(forall|j: int| i0 <= j < i0 + pl ==> #[trigger] s[j] == v.path[j - i0]);
    assert(forall|j: int|
        i0 + pl <= j < i0 + pl + ql ==> #[trigger] s[j] == spec_qpart(v)[j - i0 - pl]);
    assert(forall|j: int|
        i0 + pl + ql <= j < i0 + pl + ql + fl ==> #[trigger] s[j] == spec_fpart(v)[j - i0 - pl
            - ql]);
    match v.authority {
        Some(a) => {
            lemma_auth_str_chars(a);
            assert(aupart[0] == '/');
            assert(aupart[1] == '/');
            assert(forall|k: int| 2 <= k < al ==> #[trigger] aupart[k] == spec_auth_str(a)[k - 2]);
        },
        None => {},
    }
    match v.query {
        Some(q) => {
            lemma_query_str_chars(q);
            assert(spec_qpart(v)[0] == '?');
            assert(forall|k: int| 1 <= k < ql ==> #[trigger] spec_qpart(v)[k] == spec_query_str(
                q,
            )[k - 1]);
        },
        None => {},
    }
    match v.fragment {
        Some(f) => {
            assert(spec_fpart(v)[0] == '#');
            assert(forall|k: int| 1 <= k < fl ==> #[trigger] spec_fpart(v)[k] == f[k - 1]);
        },
        None => {},
    }
    // the whole string is free of whitespace
    assert forall|i: int| 0 <= i < s.len() implies !spec_is_ws(#[trigger] s[i]) by {
        if sl + 1 <= i < i0 {
            assert(s[i] == aupart[i - sl - 1]);
        } else if i0 + pl <= i < i0 + pl + ql {
            assert(s[i] == spec_qpart(v)[i - i0 - pl]);
        } else if i0 + pl + ql <= i < s.len() {
            assert(s[i] == spec_fpart(v)[i - i0 - pl - ql]);
        }
    }
    assert(!has_interior_ws(s));
    // the scheme ends at the first colon
    assert forall|j: int| 0 <= j < sl implies !crate::scan::class_matches(CharClass::Colon, s[j])
        by {
        assert(s[j] == v.scheme[j]);
    }
    crate::scan::lemma_sfind_is(s, CharClass::Colon, 0, sl);
    assert(s.subrange(0, sl) =~= v.scheme);
    let ci = sl;
    match v.authority {
        Some(a) => {
            assert(s[ci + 1] == aupart[0]);
            assert(s[ci + 2] == aupart[1]);
            assert(ci + 3 <= s.len());
            let ae = i0;
            assert forall|j: int| ci + 3 <= j < ae implies !crate::scan::class_matches(
                CharClass::AuthEnd,
                s[j],
            ) by {
                assert(s[j] == aupart[j - ci - 1]);
                assert(aupart[j - ci - 1] == spec_auth_str(a)[j - ci - 3]);
            }
            assert(s[ae] == v.path[0]);
            assert(v.path[0] == '/');
            crate::scan::lemma_sfind_is(s, CharClass::AuthEnd, ci + 3, ae);
            assert(s.subrange(ci + 3, ae) =~= spec_auth_str(a)) by {
                assert(forall|k: int| 0 <= k < al - 2 ==> #[trigger] s.subrange(ci + 3, ae)[k]
                    == s[ci + 3 + k]);
            }
            lemma_auth_round_trip(a);
            assert(tail_laid_out(s, ae, v));
            lemma_tail_round_trip(s, ae, v);
            assert(spec_parse_tail(s, ae, s.subrange(0, sl), Some(a)) == Some(v));
        },
        None => {
            assert(al == 0);
            if ci + 3 <= s.len() && s[ci + 1] == '/' && s[ci + 2] == '/' {
                // excluded by well-formedness
                assert(s[i0] == v.path[0]);
                if pl >= 2 {
                    assert(s[ci + 2] == v.path[1]);
                    assert(false);
                } else {
                    assert(pl == 1);
                    if ql > 0 {
                        assert(s[ci + 2] == spec_qpart(v)[0]);
                        assert(false);
                    } else if fl > 0 {
                        assert(s[ci + 2] == spec_fpart(v)[0]);
                        assert(false);
                    } else {
                        assert(ci + 2 == s.len());
                        assert(false);
                    }
                }
            }
            assert(tail_laid_out(s, i0, v));
            lemma_tail_round_trip(s, i0, v);
            assert(spec_parse_tail(s, i0, s.subrange(0, sl), None) == Some(v));
        },
    }
}

} // verus!

verus! {

/// Parsing a query string free of `#` and whitespace yields well-formed
/// pairs.
proof fn lemma_parse_query_wf(t: Seq<char>, q: Seq<(Seq<char>, Seq<char>)>)
    requires
        spec_parse_query(t) == Some(q),
        no_ws(t),
        no_char(t, '#'),
    ensures
        query_wf(q),
    decreases t.len(),
{
    let ae = sfind(t, CharClass::Amp, 0);
    crate::scan::lemma_sfind_bounds(t, CharClass::Amp, 0);
    let chunk = t.subrange(0, ae);
    let eq = sfind(chunk, CharClass::EqSign, 0);
    crate::scan::lemma_sfind_bounds(chunk, CharClass::EqSign, 0);
    assert(eq != chunk.len());
    let key = chunk.subrange(0, eq);
    let value = chunk.subrange(eq + 1, chunk.len() as int);
    assert(qpair_wf((key, value))) by {
        assert(forall|i: int| 0 <= i < key.len() ==> key[i] == t[i]);
        assert(forall|i: int| 0 <= i < value.len() ==> value[i] == t[eq + 1 + i]);
        assert(forall|i: int| 0 <= i < key.len() ==> #[trigger] key[i] == chunk[i]);
    }
    if ae == t.len() {
        assert(q == seq![(key, value)]);
        assert(query_wf(q));
    } else {
        let rest = t.subrange(ae + 1, t.len() as int);
        assert(no_ws(rest) && no_char(rest, '#')) by {
            assert(forall|i: int| 0 <= i < rest.len() ==> #[trigger] rest[i] == t[ae + 1 + i]);
        }
        match spec_parse_query(rest) {
            Some(qr) => {
                lemma_parse_query_wf(rest, qr);
                assert(q == seq![(key, value)] + qr);
                assert(forall|i: int| 1 <= i < q.len() ==> q[i] == qr[i - 1]);
                assert(query_wf(q));
            },
            None => {
                assert(false);
            },
        }
    }
}

/// Parsing an authority string free of `/`, `?`, `#` and whitespace yields
/// a well-formed authority.
proof fn lemma_parse_auth_wf(t: Seq<char>, a: AuthorityView)
    requires
        spec_parse_authority(t) == Some(a),
        no_ws(t),
        no_char(t, '/'),
        no_char(t, '?'),
        no_char(t, '#'),
    ensures
        auth_wf(a),
{
    let at = sfind(t, CharClass::AtSign, 0);
    crate::scan::lemma_sfind_bounds(t, CharClass::AtSign, 0);
    let idx = if at == t.len() {
        0
    } else {
        at
    };
    let i = if idx > 0 {
        idx + 1
    } else {
        0
    };
    let he = sfind(t, CharClass::Colon, i);
    crate::scan::lemma_sfind_bounds(t, CharClass::Colon, i);
    let host = t.subrange(i, he);
    assert(auth_seg_ok(host) && no_char(host, ':')) by {
        assert(forall|k: int| 0 <= k < host.len() ==> #[trigger] host[k] == t[i + k]);
    }
    if idx > 0 {
        let w = t.subrange(0, idx);
        assert(auth_seg_ok(w) && no_char(w, '@')) by {
            assert(forall|k: int| 0 <= k < w.len() ==> #[trigger] w[k] == t[k]);
        }
        let u = spec_parse_user(w);
        let ue = sfind(w, CharClass::Colon, 0);
        crate::scan::lemma_sfind_bounds(w, CharClass::Colon, 0);
        if ue == w.len() {
            assert(user_wf(u));
            assert(spec_user_str(u).len() >= 1);
        } else {
            let name = w.subrange(0, ue);
            let pwd = w.subrange(ue + 1, w.len() as int);
            assert(user_wf(u)) by {
                assert(forall|k: int| 0 <= k < name.len() ==> #[trigger] name[k] == w[k]);
                assert(forall|k: int| 0 <= k < pwd.len() ==> #[trigger] pwd[k] == w[ue + 1 + k]);
            }
            assert(spec_user_str(u) == name + seq![':'] + pwd);
            assert(spec_user_str(u).len() >= 1);
        }
        assert(a.user == Some(u));
        assert(a.host == host);
    } else {
        assert(a.user is None);
        assert(a.host == host);
        if at == t.len() {
            assert(no_char(a.host, '@')) by {
                assert(forall|k: int| 0 <= k < host.len() ==> #[trigger] host[k] == t[i + k]);
            }
        } else {
            assert(at == 0);
            assert(t[0] == '@');
            if host.len() > 0 {
                assert(host[0] == t[0]);
            }
        }
    }
}

/// Parsing any whitespace-free string that the parser accepts yields a
/// well-formed identifier value.
#[verifier::rlimit(60)]
pub proof fn lemma_parse_iri_wf(s: Seq<char>, v: IriView)
    requires
        spec_parse_iri(s) == Some(v),
        no_ws(s),
    ensures
        iri_wf(v),
{
    let ci = sfind(s, CharClass::Colon, 0);
    crate::scan::lemma_sfind_bounds(s, CharClass::Colon, 0);
    assert(ci != s.len());
    let scheme = s.subrange(0, ci);
    assert(no_char(scheme, ':') && no_ws(scheme)) by {
        assert(forall|k: int| 0 <= k < scheme.len() ==> #[trigger] scheme[k] == s[k]);
    }
    let has_auth = ci + 3 <= s.len() && s[ci + 1] == '/' && s[ci + 2] == '/';
    let ae = if has_auth {
        sfind(s, CharClass::AuthEnd, ci + 3)
    } else {
        0
    };
    let auth: Option<AuthorityView> = if has_auth {
        let t = s.subrange(ci + 3, ae);
        match spec_parse_authority(t) {
            Some(a) => Some(a),
            None => None,
        }
    } else {
        None
    };
    if has_auth {
        crate::scan::lemma_sfind_bounds(s, CharClass::AuthEnd, ci + 3);
        let t = s.subrange(ci + 3, ae);
        match spec_parse_authority(t) {
            Some(a) => {
                assert(no_ws(t) && no_char(t, '/') && no_char(t, '?') && no_char(t, '#')) by {
                    assert(forall|k: int| 0 <= k < t.len() ==> #[trigger] t[k] == s[ci + 3 + k]);
                }
                lemma_parse_auth_wf(t, a);
            },
            None => {
                assert(false);
            },
        }
    }
    let i0 = if has_auth {
        ae
    } else {
        ci + 1
    };
    assert(spec_parse_tail(s, i0, scheme, auth) == Some(v));
    // the tail
    let has_path = i0 != s.len() && s[i0] != '?' && s[i0] != '#';
    let pe = if has_path {
        sfind(s, CharClass::PathEnd, i0 + 1)
    } else {
        i0
    };
    if has_path {
        crate::scan::lemma_sfind_bounds(s, CharClass::PathEnd, i0 + 1);
    }
    let path = if has_path {
        s.subrange(i0, pe)
    } else {
        seq!['/']
    };
    assert(path.len() >= 1);
    assert(no_char(path, '?') && no_char(path, '#') && no_ws(path)) by {
        if has_path {
            assert(forall|k: int| 0 <= k < path.len() ==> #[trigger] path[k] == s[i0 + k]);
        }
    }
    match auth {
        Some(_) => {
            assert(path[0] == '/');
        },
        None => {
            if path.len() >= 2 && path[0] == '/' && path[1] == '/' {
                assert(has_path);
                assert(s[ci + 1] == path[0]);
                assert(s[ci + 2] == path[1]);
                assert(ci + 3 <= s.len());
                assert(has_auth);
                assert(false);
            }
        },
    }
    let has_q = pe != s.len() && s[pe] == '?';
    let qe = if has_q {
        sfind(s, CharClass::Hash, pe + 1)
    } else {
        0
    };
    if has_q {
        crate::scan::lemma_sfind_bounds(s, CharClass::Hash, pe + 1);
        let qt = s.subrange(pe + 1, qe);
        match spec_parse_query(qt) {
            Some(q) => {
                assert(no_ws(qt) && no_char(qt, '#')) by {
                    assert(forall|k: int| 0 <= k < qt.len() ==> #[trigger] qt[k] == s[pe + 1 + k]);
                }
                lemma_parse_query_wf(qt, q);
            },
            None => {
                assert(false);
            },
        }
    }
    let i2 = if has_q {
        qe
    } else {
        pe
    };
    if i2 != s.len() && s[i2] == '#' {
        let frag = s.subrange(i2 + 1, s.len() as int);
        assert(frag_ok(frag));
        assert(no_ws(frag)) by {
            assert(forall|k: int| 0 <= k < frag.len() ==> #[trigger] frag[k] == s[i2 + 1 + k]);
        }
    }
}

/// The identifier round trip: any whitespace-free string the parser
/// accepts reads back, after canonical serialization, as the very value
/// first parsed.
pub proof fn lemma_parse_serialize_round_trip(s: Seq<char>, v: IriView)
    requires
        spec_parse_iri(s) == Some(v),
        no_ws(s),
    ensures
        spec_parse_iri(spec_iri_str(v)) == Some(v),
{
    lemma_parse_iri_wf(s, v);
    lemma_iri_round_trip(v);
}

} // verus!

verus! {

/// Whether two optional strings hold the same text.
pub(crate) fn opt_str_eq(a: &Option<String>, b: &Option<String>) -> (r: bool)
    ensures
        r == ((match a {
            Some(x) => Some(x@),
            None => None::<Seq<char>>,
        }) == (match b {
            Some(y) => Some(y@),
            None => None::<Seq<char>>,
        })),
{
    match (a, b) {
        (Some(x), Some(y)) => str_eq(x.as_str(), y.as_str()),
        (None, None) => true,
        _ => false,
    }
}

/// Whether two queries hold the same pairs in the same order.
pub(crate) fn query_eq(a: &Query, b: &Query) -> (r: bool)
    ensures
        r == (a@ == b@),
{
    let n = a.key_value.len();
    if n != b.key_value.len() {
        proof {
            assert(a@.len() != b@.len());
        }
        return false;
    }
    let mut i: usize = 0;
    while i < n
        invariant
            0 <= i <= n,
            n == a.key_value@.len(),
            n == b.key_value@.len(),
            forall|j: int| 0 <= j < i ==> #[trigger] a@[j] == b@[j],
        decreases n - i,
    {
        if !str_eq(a.key_value[i].0.as_str(), b.key_value[i].0.as_str()) || !str_eq(
            a.key_value[i].1.as_str(),
            b.key_value[i].1.as_str(),
        ) {
            proof {
                assert(a@[i as int] != b@[i as int]);
            }
            return false;
        }
        i += 1;
    }
    proof {
        assert(a@ =~= b@);
    }
    true
}

/// Whether two user-info values are the same.
pub(crate) fn user_eq(a: &User, b: &User) -> (r: bool)
    ensures
        r == (a@ == b@),
{
    let r = str_eq(a.user.as_str(), b.user.as_str()) && opt_str_eq(&a.password, &b.password);
    proof {
        if r {
            assert(a@ =~= b@);
        }
    }
    r
}

/// Whether two authorities are the same.
pub(crate) fn auth_eq(a: &Authority, b: &Authority) -> (r: bool)
    ensures
        r == (a@ == b@),
{
    let users_same = match (&a.user, &b.user) {
        (Some(x), Some(y)) => user_eq(x, y),
        (None, None) => true,
        _ => false,
    };
    let ports_same = match (&a.port, &b.port) {
        (Some(x), Some(y)) => *x == *y,
        (None, None) => true,
        _ => false,
    };
    let r = users_same && str_eq(a.host.as_str(), b.host.as_str()) && ports_same;
    proof {
        if r {
            assert(a@ =~= b@);
        }
    }
    r
}

/// Whether two identifiers are the same value, component by component.
pub(crate) fn iri_eq(a: &IRI, b: &IRI) -> (r: bool)
    ensures
        r == (a@ == b@),
{
    let auths_same = match (&a.authority, &b.authority) {
        (Some(x), Some(y)) => auth_eq(x, y),
        (None, None) => true,
        _ => false,
    };
    let queries_same = match (&a.query, &b.query) {
        (Some(x), Some(y)) => query_eq(x, y),
        (None, None) => true,
        _ => false,
    };
    let r = str_eq(a.scheme.as_str(), b.scheme.as_str()) && auths_same && str_eq(
        a.path.as_str(),
        b.path.as_str(),
    ) && queries_same && opt_str_eq(&a.fragment, &b.fragment);
    proof {
        if r {
            assert(a@ =~= b@);
        }
    }
    r
}

} // verus!
