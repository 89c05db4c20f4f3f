//! The typed value model of graph nodes: literals with a datatype and an
//! optional language tag, blank nodes, identifier resources and variables,
//! together with the literal surface-syntax reader.
use crate::iri::{spec_iri_str, spec_parse_iri, IRI};
use crate::scan::{
    push_char, sfind, spec_i64_str, spec_is_digit, spec_parse_i64, str_eq, CharClass,
    find_class, i64_to_string, parse_i64_str, srfind_close, rfind_close, u64_to_string,
};
use crate::xsd::{
    xsd_boolean, xsd_boolean_str, xsd_decimal, xsd_decimal_str, xsd_integer, xsd_integer_str,
    xsd_string, xsd_string_str, XSDDataType,
};
use vstd::prelude::*;

verus! {

/// An error raised when a literal's surface form cannot be read.
#[derive(Debug)]
pub struct InvalidLiteralError {
    pub msg: String,
}

impl InvalidLiteralError {
    pub fn new(msg: String) -> (r: InvalidLiteralError)
        ensures
            r.msg == msg,
    {
        InvalidLiteralError { msg }
    }
}

/// First match for a key in a prefix table.
pub open spec fn spec_lookup(pm: Seq<(Seq<char>, Seq<char>)>, key: Seq<char>) -> Option<Seq<char>>
    decreases pm.len(),
{
    if pm.len() == 0 {
        None
    } else if pm[0].0 == key {
        Some(pm[0].1)
    } else {
        spec_lookup(pm.subrange(1, pm.len() as int), key)
    }
}

/// The external prefix table handed to the readers: prefix names mapped to
/// identifier prefixes.  A missing entry is a hard parse error for the
/// reader that consults it.
pub struct PrefixMap {
    entries: Vec<(String, String)>,
}

impl View for PrefixMap {
    type V = Seq<(Seq<char>, Seq<char>)>;

    closed spec fn view(&self) -> Seq<(Seq<char>, Seq<char>)> {
        self.entries@.map_values(|p: (String, String)| (p.0@, p.1@))
    }
}

impl PrefixMap {
    /// An empty table.
    pub fn new() -> (r: PrefixMap)
        ensures
            r@ == Seq::<(Seq<char>, Seq<char>)>::empty(),
    {
        let r = PrefixMap { entries: Vec::new() };
        proof {
            assert(r@ =~= Seq::<(Seq<char>, Seq<char>)>::empty());
        }
        r
    }

    /// Appends a binding; a later binding for the same prefix is shadowed
    /// by the earlier one.
    pub fn insert(&mut self, prefix: String, uri: String)
        ensures
            final (self)@ == old(self)@.push((prefix@, uri@)),
    {
        self.entries.push((prefix, uri));
        proof {
            assert(self@ =~= old(self)@.push(
                (self.entries@.last().0@, self.entries@.last().1@),
            ));
        }
    }

    /// The expansion bound to a prefix, if any.
    pub fn get(&self, prefix: &str) -> (r: Option<&String>)
        ensures
            match r {
                Some(u) => spec_lookup(self@, prefix@) == Some(u@),
                None => spec_lookup(self@, prefix@) is None,
            },
    {
        let mut i: usize = 0;
        proof {
            assert(self@.subrange(0, self@.len() as int) =~= self@);
        }
        while i < self.entries.len()
            invariant
                0 <= i <= self.entries@.len(),
                spec_lookup(self@, prefix@) == spec_lookup(
                    self@.subrange(i as int, self@.len() as int),
                    prefix@,
                ),
            decreases self.entries@.len() - i,
        {
            proof {
                let rest = self@.subrange(i as int, self@.len() as int);
                assert(rest[0] == self@[i as int]);
                assert(rest.subrange(1, rest.len() as int) =~= self@.subrange(
                    i + 1,
                    self@.len() as int,
                ));
            }
            if str_eq(self.entries[i].0.as_str(), prefix) {
                return Some(&self.entries[i].1);
            }
            i += 1;
        }
        proof {
            assert(self@.subrange(i as int, self@.len() as int).len() == 0);
        }
        None
    }
}

/// Mathematical value of a literal: its text, the identifying string of
/// its datatype, and an optional language tag.
#[verifier::ext_equal]
pub struct LiteralView {
    pub value: Seq<char>,
    pub dtype: Seq<char>,
    pub lang: Option<Seq<char>>,
}

/// A typed literal value.  A language tag is only ever carried by a
/// string-typed literal.
pub struct Literal {
    value: String,
    dtype: XSDDataType,
    lang: Option<String>,
}

impl View for Literal {
    type V = LiteralView;

    closed spec fn view(&self) -> LiteralView {
        LiteralView {
            value: self.value@,
            dtype: self.dtype@,
            lang: match self.lang {
                Some(l) => Some(l@),
                None => None,
            },
        }
    }
}

impl Clone for Literal {
    fn clone(&self) -> (r: Self)
        ensures
            r@ == self@,
    {
        Literal {
            value: self.value.clone(),
            dtype: self.dtype.clone(),
            lang: match &self.lang {
                Some(l) => Some(l.clone()),
                None => None,
            },
        }
    }
}

/// The surface form of a literal.  A string literal is quoted on request
/// (always when it carries a language tag); any other datatype always
/// quotes the text and appends `^^<datatype>`.
pub open spec fn spec_literal_str(l: LiteralView, quoting: bool) -> Seq<char> {
    if l.dtype == xsd_string_str() {
        match l.lang {
            Some(lang) => seq!['"'] + l.value + seq!['"', '@'] + lang,
            None => if quoting {
                seq!['"'] + l.value + seq!['"']
            } else {
                l.value
            },
        }
    } else {
        seq!['"'] + l.value + seq!['"', '^', '^', '<'] + l.dtype + seq!['>']
    }
}

impl Literal {
    pub fn get_datatype(&self) -> (r: &XSDDataType)
        ensures
            r@ == self@.dtype,
    {
        &self.dtype
    }

    pub fn get_lang(&self) -> (r: &Option<String>)
        ensures
            match r {
                Some(l) => self@.lang == Some(l@),
                None => self@.lang is None,
            },
    {
        &self.lang
    }

    pub fn get_value(&self) -> (r: &String)
        ensures
            r@ == self@.value,
    {
        &self.value
    }

    /// A plain string literal.
    pub fn create_literal(value: String) -> (r: Literal)
        ensures
            r@ == (LiteralView { value: value@, dtype: xsd_string_str(), lang: None }),
    {
        Literal::create_typed_literal(value, xsd_string())
    }

    /// A literal of the given datatype, with no language tag.
    pub fn create_typed_literal(value: String, dtype: XSDDataType) -> (r: Literal)
        ensures
            r@ == (LiteralView { value: value@, dtype: dtype@, lang: None }),
    {
        Literal { value, dtype, lang: None }
    }

    /// A string literal with a language tag; an empty tag gives a plain
    /// string literal.
    pub fn create_lang_literal(value: String, lang: String) -> (r: Literal)
        ensures
            r@ == (LiteralView {
                value: value@,
                dtype: xsd_string_str(),
                lang: if lang@.len() == 0 {
                    None
                } else {
                    Some(lang@)
                },
            }),
    {
        if lang.as_str().is_empty() {
            Literal { value, dtype: xsd_string(), lang: None }
        } else {
            Literal { value, dtype: xsd_string(), lang: Some(lang) }
        }
    }

    /// A boolean literal, `true` or `false`.
    pub fn create_boolean_literal(value: bool) -> (r: Literal)
        ensures
            r@ == (LiteralView {
                value: if value {
                    "true"@
                } else {
                    "false"@
                },
                dtype: xsd_boolean_str(),
                lang: None,
            }),
    {
        let text = if value {
            String::from_str("true")
        } else {
            String::from_str("false")
        };
        Literal::create_typed_literal(text, xsd_boolean())
    }

    /// An integer literal, in canonical decimal form.
    pub fn create_integer_literal(value: i64) -> (r: Literal)
        ensures
            r@ == (LiteralView {
                value: spec_i64_str(value as int),
                dtype: xsd_integer_str(),
                lang: None,
            }),
    {
        Literal::create_typed_literal(i64_to_string(value), xsd_integer())
    }

    /// A long literal, in canonical decimal form.
    pub fn create_long_literal(value: i64) -> (r: Literal)
        ensures
            r@.value == spec_i64_str(value as int),
            r@.dtype == "http://www.w3.org/2001/XMLSchema#long"@,
            r@.lang is None,
    {
        Literal::create_typed_literal(i64_to_string(value), crate::xsd::xsd_long())
    }

    /// An int literal, in canonical decimal form.
    pub fn create_int_literal(value: i32) -> (r: Literal)
        ensures
            r@.value == spec_i64_str(value as int),
            r@.dtype == "http://www.w3.org/2001/XMLSchema#int"@,
            r@.lang is None,
    {
        Literal::create_typed_literal(i64_to_string(value as i64), crate::xsd::xsd_int())
    }

    /// A short literal, in canonical decimal form.
    pub fn create_short_literal(value: i16) -> (r: Literal)
        ensures
            r@.value == spec_i64_str(value as int),
            r@.dtype == "http://www.w3.org/2001/XMLSchema#short"@,
            r@.lang is None,
    {
        Literal::create_typed_literal(i64_to_string(value as i64), crate::xsd::xsd_short())
    }

    /// A byte literal, in canonical decimal form.
    pub fn create_byte_literal(value: i8) -> (r: Literal)
        ensures
            r@.value == spec_i64_str(value as int),
            r@.dtype == "http://www.w3.org/2001/XMLSchema#byte"@,
            r@.lang is None,
    {
        Literal::create_typed_literal(i64_to_string(value as i64), crate::xsd::xsd_byte())
    }

    /// An unsigned long literal, in canonical decimal form.
    pub fn create_unsigned_long_literal(value: u64) -> (r: Literal)
        ensures
            r@.value == crate::scan::spec_digits(value as int),
            r@.dtype == "http://www.w3.org/2001/XMLSchema#unsignedLong"@,
            r@.lang is None,
    {
        Literal::create_typed_literal(u64_to_string(value), crate::xsd::xsd_unsigned_long())
    }

    /// An unsigned int literal, in canonical decimal form.
    pub fn create_unsigned_integer_literal(value: u32) -> (r: Literal)
        ensures
            r@.value == crate::scan::spec_digits(value as int),
            r@.dtype == "http://www.w3.org/2001/XMLSchema#unsignedInt"@,
            r@.lang is None,
    {
        Literal::create_typed_literal(u64_to_string(value as u64), crate::xsd::xsd_unsigned_int())
    }

    /// An unsigned short literal, in canonical decimal form.
    pub fn create_unsigned_short_literal(value: u16) -> (r: Literal)
        ensures
            r@.value == crate::scan::spec_digits(value as int),
            r@.dtype == "http://www.w3.org/2001/XMLSchema#unsignedShort"@,
            r@.lang is None,
    {
        Literal::create_typed_literal(
            u64_to_string(value as u64),
            crate::xsd::xsd_unsigned_short(),
        )
    }

    /// An unsigned byte literal, in canonical decimal form.
    pub fn create_unsigned_byte_literal(value: u8) -> (r: Literal)
        ensures
            r@.value == crate::scan::spec_digits(value as int),
            r@.dtype == "http://www.w3.org/2001/XMLSchema#unsignedByte"@,
            r@.lang is None,
    {
        Literal::create_typed_literal(u64_to_string(value as u64), crate::xsd::xsd_unsigned_byte())
    }

    /// A literal of the universal super type.
    pub fn create_any_type_literal(value: String) -> (r: Literal)
        ensures
            r@.value == value@,
            r@.dtype == "http://www.w3.org/2001/XMLSchema#anyType"@,
            r@.lang is None,
    {
        Literal::create_typed_literal(value, crate::xsd::xsd_any_type())
    }

    /// A literal of the super type of simple types.
    pub fn create_any_simple_type_literal(value: String) -> (r: Literal)
        ensures
            r@.value == value@,
            r@.dtype == "http://www.w3.org/2001/XMLSchema#anySimpleType"@,
            r@.lang is None,
    {
        Literal::create_typed_literal(value, crate::xsd::xsd_any_simple_type())
    }

    /// A literal holding an identifier, in its canonical form.
    pub fn create_any_uri_literal(value: IRI) -> (r: Literal)
        ensures
            r@.value == spec_iri_str(value@),
            r@.dtype == "http://www.w3.org/2001/XMLSchema#anyUri"@,
            r@.lang is None,
    {
        let text = value.as_string();
        Literal::create_typed_literal(text, crate::xsd::xsd_any_uri())
    }

    /// A binary literal in hexadecimal text form.
    pub fn create_hex_binary_literal(value: &[u8]) -> (r: Literal)
        ensures
            r@.value == crate::hex_binary::spec_hex_str(value@),
            r@.dtype == "http://www.w3.org/2001/XMLSchema#hexBinary"@,
            r@.lang is None,
    {
        let hex_string = crate::hex_binary::binary_to_string(value);
        Literal::create_typed_literal(hex_string, crate::xsd::xsd_hex_binary())
    }

    /// A binary literal in base64 text form.
    pub fn create_base64_binary_literal(value: &[u8]) -> (r: Literal)
        ensures
            r@.value == base64_of(value@),
            r@.dtype == "http://www.w3.org/2001/XMLSchema#base64Binary"@,
            r@.lang is None,
    {
        Literal::create_typed_literal(base64_encode(value), crate::xsd::xsd_base64binary())
    }

    /// Whether this node is a literal.
    pub fn is_literal(&self) -> (r: bool)
        ensures
            r,
    {
        true
    }

    /// Whether this node is an identifier resource.
    pub fn is_iri(&self) -> (r: bool)
        ensures
            !r,
    {
        false
    }

    /// Whether this node is a variable.
    pub fn is_var(&self) -> (r: bool)
        ensures
            !r,
    {
        false
    }

    /// Whether this node is a blank node.
    pub fn is_blank(&self) -> (r: bool)
        ensures
            !r,
    {
        false
    }

    /// The surface form of this literal; see [`spec_literal_str`].
    pub fn as_string(&self, quoting: bool) -> (r: String)
        ensures
            r@ == spec_literal_str(self@, quoting),
    {
        if self.dtype.is_xsd_string() {
            if let Some(lang) = &self.lang {
                let mut ret = String::new();
                push_char(&mut ret, '"');
                ret.append(self.value.as_str());
                push_char(&mut ret, '"');
                push_char(&mut ret, '@');
                ret.append(lang.as_str());
                proof {
                    assert(ret@ =~= spec_literal_str(self@, quoting));
                }
                ret
            } else if quoting {
                let mut ret = String::new();
                push_char(&mut ret, '"');
                ret.append(self.value.as_str());
                push_char(&mut ret, '"');
                proof {
                    assert(ret@ =~= spec_literal_str(self@, quoting));
                }
                ret
            } else {
                self.value.clone()
            }
        } else {
            let mut ret = String::new();
            push_char(&mut ret, '"');
            ret.append(self.value.as_str());
            push_char(&mut ret, '"');
            push_char(&mut ret, '^');
            push_char(&mut ret, '^');
            push_char(&mut ret, '<');
            ret.append(self.dtype.get_value().as_str());
            push_char(&mut ret, '>');
            proof {
                assert(ret@ =~= spec_literal_str(self@, quoting));
            }
            ret
        }
    }
}

/// Names what `base64::encode` returns for a byte string.
pub uninterp spec fn base64_of(b: Seq<u8>) -> Seq<char>;

/// Relies on `base64::encode`: the standard alphabet with padding, a pure
/// function of the input bytes, four output characters for every three
/// input bytes begun.
#[verifier::external_body]
fn base64_encode(value: &[u8]) -> (r: String)
    ensures
        r@ == base64_of(value@),
        r@.len() == 4 * ((value@.len() + 2) / 3),
{
    base64::encode(value)
}

} // verus!

verus! {

/// Two `^` characters in a row occur somewhere in `s`.
pub open spec fn contains_caret2(s: Seq<char>) -> bool {
    exists|i: int| 0 <= i && i + 1 < s.len() && #[trigger] s[i] == '^' && s[i + 1] == '^'
}

fn contains_caret2_exec(t: &str) -> (r: bool)
    ensures
        r == contains_caret2(t@),
{
    let n = t.unicode_len();
    if n < 2 {
        return false;
    }
    let mut i: usize = 0;
    while i + 1 < n
        invariant
            0 <= i,
            i + 1 <= n,
            n == t@.len(),
            forall|j: int| 0 <= j < i ==> !(#[trigger] t@[j] == '^' && t@[j + 1] == '^'),
        decreases n - i,
    {
        if t.get_char(i) == '^' && t.get_char(i + 1) == '^' {
            return true;
        }
        i += 1;
    }
    false
}

/// Every character of `ds` other than the one at `d` is a digit.
pub open spec fn all_digits_except(ds: Seq<char>, d: int) -> bool {
    forall|i: int| 0 <= i < ds.len() && i != d ==> spec_is_digit(#[trigger] ds[i])
}

/// A decimal numeral: an optional sign, digits with exactly one `.`
/// somewhere among them, and at least one digit.
pub open spec fn spec_is_decimal(t: Seq<char>) -> bool {
    let ds = if t.len() > 0 && (t[0] == '+' || t[0] == '-') {
        t.subrange(1, t.len() as int)
    } else {
        t
    };
    let d = sfind(ds, CharClass::Dot, 0);
    &&& ds.len() >= 2
    &&& d < ds.len()
    &&& sfind(ds, CharClass::Dot, d + 1) == ds.len()
    &&& all_digits_except(ds, d)
}

fn is_decimal_exec(t: &str) -> (r: bool)
    ensures
        r == spec_is_decimal(t@),
{
    let len = t.unicode_len();
    let start: usize = if len > 0 && (t.get_char(0) == '+' || t.get_char(0) == '-') {
        1
    } else {
        0
    };
    let s2 = t.substring_char(start, len);
    proof {
        let ds = if t@.len() > 0 && (t@[0] == '+' || t@[0] == '-') {
            t@.subrange(1, t@.len() as int)
        } else {
            t@
        };
        assert(s2@ =~= ds);
    }
    let n2 = s2.unicode_len();
    if n2 < 2 {
        return false;
    }
    let d = find_class(s2, CharClass::Dot, 0);
    if d == n2 {
        return false;
    }
    let d2 = find_class(s2, CharClass::Dot, d + 1);
    if d2 != n2 {
        proof {
            crate::scan::lemma_sfind_bounds(s2@, CharClass::Dot, d + 1 as int);
        }
        return false;
    }
    let mut i: usize = 0;
    while i < n2
        invariant
            0 <= i <= n2,
            n2 == s2@.len(),
            s2@ == (if t@.len() > 0 && (t@[0] == '+' || t@[0] == '-') {
                t@.subrange(1, t@.len() as int)
            } else {
                t@
            }),
            d == sfind(s2@, CharClass::Dot, 0),
            0 <= d < n2,
            forall|j: int| 0 <= j < i && j != d ==> spec_is_digit(#[trigger] s2@[j]),
        decreases n2 - i,
    {
        if i != d && !crate::scan::is_digit(s2.get_char(i)) {
            proof {
                let ds = if t@.len() > 0 && (t@[0] == '+' || t@[0] == '-') {
                    t@.subrange(1, t@.len() as int)
                } else {
                    t@
                };
                assert(ds == s2@);
                assert(!spec_is_digit(ds[i as int]));
                assert(!all_digits_except(ds, sfind(ds, CharClass::Dot, 0)));
            }
            return false;
        }
        i += 1;
    }
    true
}

/// What a bare numeric token denotes: with a `.` a decimal literal kept
/// textually as written, otherwise a 64-bit integer literal in canonical
/// decimal form.
pub open spec fn spec_parse_number(t: Seq<char>) -> Option<LiteralView> {
    if sfind(t, CharClass::Dot, 0) != t.len() {
        if spec_is_decimal(t) {
            Some(LiteralView { value: t, dtype: xsd_decimal_str(), lang: None })
        } else {
            None
        }
    } else {
        match spec_parse_i64(t) {
            Some(v) => Some(
                LiteralView { value: spec_i64_str(v), dtype: xsd_integer_str(), lang: None },
            ),
            None => None,
        }
    }
}

/// What a quoted literal token denotes, given its delimiter (`c` repeated
/// `n` times): the body runs to the last unescaped delimiter, and the
/// suffix selects a language tag, a datatype, or a plain string.
pub open spec fn spec_parse_complex_literal(
    t: Seq<char>,
    c: char,
    n: int,
    pm: Seq<(Seq<char>, Seq<char>)>,
) -> Option<LiteralView> {
    let close = srfind_close(t, c, n, t.len() - n);
    if close < n {
        None
    } else {
        let val = t.subrange(n, close);
        let suf = close + n;
        if suf < t.len() && t[suf] == '@' {
            let rest = t.subrange(suf + 1, t.len() as int);
            if contains_caret2(rest) {
                None
            } else if rest.len() == 0 {
                Some(LiteralView { value: val, dtype: xsd_string_str(), lang: None })
            } else {
                Some(LiteralView { value: val, dtype: xsd_string_str(), lang: Some(rest) })
            }
        } else if suf + 1 < t.len() && t[suf] == '^' && t[suf + 1] == '^' {
            if suf + 2 < t.len() && t[suf + 2] == '<' {
                if t[t.len() - 1] == '>' {
                    match spec_parse_iri(t.subrange(suf + 3, t.len() - 1)) {
                        Some(w) => Some(
                            LiteralView { value: val, dtype: spec_iri_str(w), lang: None },
                        ),
                        None => None,
                    }
                } else {
                    None
                }
            } else {
                let rest2 = t.subrange(suf + 2, t.len() as int);
                let c2 = sfind(rest2, CharClass::Colon, 0);
                if c2 == rest2.len() {
                    None
                } else {
                    match spec_lookup(pm, rest2.subrange(0, c2)) {
                        Some(uri) => match spec_parse_iri(
                            uri + rest2.subrange(c2 + 1, rest2.len() as int),
                        ) {
                            Some(w) => Some(
                                LiteralView { value: val, dtype: spec_iri_str(w), lang: None },
                            ),
                            None => None,
                        },
                        None => None,
                    }
                }
            }
        } else {
            Some(LiteralView { value: val, dtype: xsd_string_str(), lang: None })
        }
    }
}

/// What a literal token denotes: `true` and `false`, a quoted form by its
/// delimiter, or a bare numeral.
pub open spec fn spec_parse_literal(t: Seq<char>, pm: Seq<(Seq<char>, Seq<char>)>) -> Option<
    LiteralView,
> {
    if t == "true"@ {
        Some(LiteralView { value: "true"@, dtype: xsd_boolean_str(), lang: None })
    } else if t == "false"@ {
        Some(LiteralView { value: "false"@, dtype: xsd_boolean_str(), lang: None })
    } else if t.len() > 0 && t[0] == '"' {
        spec_parse_complex_literal(t, '"', 1, pm)
    } else if t.len() >= 3 && t[0] == '\'' && t[1] == '\'' && t[2] == '\'' {
        spec_parse_complex_literal(t, '\'', 3, pm)
    } else if t.len() > 0 && t[0] == '\'' {
        spec_parse_complex_literal(t, '\'', 1, pm)
    } else {
        spec_parse_number(t)
    }
}

impl Literal {
    /// Reads a bare numeric token; see [`spec_parse_number`].
    fn parse_number(literal: &str) -> (r: Result<Literal, InvalidLiteralError>)
        ensures
            match r {
                Ok(l) => spec_parse_number(literal@) == Some(l@),
                Err(_) => spec_parse_number(literal@) is None,
            },
    {
        let len = literal.unicode_len();
        let dot = find_class(literal, CharClass::Dot, 0);
        if dot != len {
            if is_decimal_exec(literal) {
                Ok(Literal::create_typed_literal(literal.to_owned(), xsd_decimal()))
            } else {
                Err(InvalidLiteralError::new(String::from_str("literal is not a valid number")))
            }
        } else {
            match parse_i64_str(literal) {
                Some(v) => Ok(Literal::create_integer_literal(v)),
                None => Err(
                    InvalidLiteralError::new(String::from_str("literal is not a valid number")),
                ),
            }
        }
    }

    /// Reads a full-IRI datatype suffix: `text` is the datatype IRI
    /// followed by the closing `>`.
    fn parse_datatype(val: String, text: &str) -> (r: Result<Literal, InvalidLiteralError>)
        requires
            text@.len() >= 1,
        ensures
            match r {
                Ok(l) => match spec_parse_iri(text@.subrange(0, text@.len() - 1)) {
                    Some(w) => l@ == (LiteralView {
                        value: val@,
                        dtype: spec_iri_str(w),
                        lang: None,
                    }),
                    None => false,
                },
                Err(_) => spec_parse_iri(text@.subrange(0, text@.len() - 1)) is None,
            },
    {
        let dlen = text.unicode_len();
        let iri_text = text.substring_char(0, dlen - 1).to_owned();
        match IRI::create_iri(&iri_text) {
            Ok(iri) => Ok(Literal::create_typed_literal(val, XSDDataType::create(&iri))),
            Err(e) => Err(InvalidLiteralError::new(e.msg)),
        }
    }

    /// Reads a prefixed datatype suffix `prefix:suffix` through the
    /// supplied prefix table.
    fn parse_prefixed_datatype(
        val: String,
        text: &str,
        prefix_mapping: &PrefixMap,
    ) -> (r: Result<Literal, InvalidLiteralError>)
        ensures
            ({
                let c2 = sfind(text@, CharClass::Colon, 0);
                match r {
                    Ok(l) => c2 < text@.len() && match spec_lookup(
                        prefix_mapping@,
                        text@.subrange(0, c2),
                    ) {
                        Some(uri) => match spec_parse_iri(
                            uri + text@.subrange(c2 + 1, text@.len() as int),
                        ) {
                            Some(w) => l@ == (LiteralView {
                                value: val@,
                                dtype: spec_iri_str(w),
                                lang: None,
                            }),
                            None => false,
                        },
                        None => false,
                    },
                    Err(_) => c2 == text@.len() || match spec_lookup(
                        prefix_mapping@,
                        text@.subrange(0, c2),
                    ) {
                        Some(uri) => spec_parse_iri(
                            uri + text@.subrange(c2 + 1, text@.len() as int),
                        ) is None,
                        None => true,
                    },
                }
            }),
    {
        let tlen = text.unicode_len();
        let c2 = find_class(text, CharClass::Colon, 0);
        if c2 == tlen {
            return Err(InvalidLiteralError::new(String::from_str("unknown error occurred")));
        }
        let prefix = text.substring_char(0, c2);
        let sfx = text.substring_char(c2 + 1, tlen);
        match prefix_mapping.get(prefix) {
            Some(uri) => {
                let mut full = uri.clone();
                full.append(sfx);
                match IRI::create_iri(&full) {
                    Ok(iri) => Ok(
                        Literal::create_typed_literal(val, XSDDataType::create(&iri)),
                    ),
                    Err(e) => Err(InvalidLiteralError::new(e.msg)),
                }
            },
            None => {
                let mut msg = String::from_str("unresolved prefix mapping for prefix: ");
                msg.append(prefix);
                Err(InvalidLiteralError::new(msg))
            },
        }
    }

    /// Reads a quoted literal; see [`spec_parse_complex_literal`].
    fn parse_complex_literal(
        literal: &str,
        c: char,
        n: usize,
        prefix_mapping: &PrefixMap,
    ) -> (r: Result<Literal, InvalidLiteralError>)
        requires
            1 <= n <= literal@.len(),
        ensures
            match r {
                Ok(l) => spec_parse_complex_literal(literal@, c, n as int, prefix_mapping@)
                    == Some(l@),
                Err(_) => spec_parse_complex_literal(
                    literal@,
                    c,
                    n as int,
                    prefix_mapping@,
                ) is None,
            },
    {
        let len = literal.unicode_len();
        let close = match rfind_close(literal, c, n, len - n) {
            Some(p) => p,
            None => {
                return Err(
                    InvalidLiteralError::new(
                        String::from_str("literal starts with a quote but does not close"),
                    ),
                );
            },
        };
        if close < n {
            return Err(
                InvalidLiteralError::new(
                    String::from_str("literal starts with a quote but does not close"),
                ),
            );
        }
        let val = literal.substring_char(n, close).to_owned();
        let suf = close + n;
        if suf < len && literal.get_char(suf) == '@' {
            let rest = literal.substring_char(suf + 1, len);
            if contains_caret2_exec(rest) {
                return Err(
                    InvalidLiteralError::new(
                        String::from_str(
                            "literal cannot carry a language tag as well as a datatype",
                        ),
                    ),
                );
            }
            Ok(Literal::create_lang_literal(val, rest.to_owned()))
        } else if len - suf > 1 && literal.get_char(suf) == '^' && literal.get_char(suf + 1)
            == '^' {
            if len - suf > 2 && literal.get_char(suf + 2) == '<' {
                if literal.get_char(len - 1) == '>' {
                    let dt_text = literal.substring_char(suf + 3, len);
                    proof {
                        assert(dt_text@.subrange(0, dt_text@.len() - 1) =~= literal@.subrange(
                            suf + 3,
                            len - 1,
                        ));
                    }
                    Literal::parse_datatype(val, dt_text)
                } else {
                    Err(
                        InvalidLiteralError::new(
                            String::from_str("literal datatype does not end on >"),
                        ),
                    )
                }
            } else {
                Literal::parse_prefixed_datatype(
                    val,
                    literal.substring_char(suf + 2, len),
                    prefix_mapping,
                )
            }
        } else {
            Ok(Literal::create_literal(val))
        }
    }

    /// Reads a literal token: `true`/`false`, a quoted form with an
    /// optional language or datatype suffix, or a bare numeral; see
    /// [`spec_parse_literal`].
    pub fn parse_literal(literal: &str, prefix_mapping: &PrefixMap) -> (r: Result<
        Literal,
        InvalidLiteralError,
    >)
        ensures
            match r {
                Ok(l) => spec_parse_literal(literal@, prefix_mapping@) == Some(l@),
                Err(_) => spec_parse_literal(literal@, prefix_mapping@) is None,
            },
    {
        if str_eq(literal, "true") {
            return Ok(Literal::create_boolean_literal(true));
        }
        if str_eq(literal, "false") {
            return Ok(Literal::create_boolean_literal(false));
        }
        let len = literal.unicode_len();
        if len > 0 && literal.get_char(0) == '"' {
            Literal::parse_complex_literal(literal, '"', 1, prefix_mapping)
        } else if len >= 3 && literal.get_char(0) == '\'' && literal.get_char(1) == '\''
            && literal.get_char(2) == '\'' {
            Literal::parse_complex_literal(literal, '\'', 3, prefix_mapping)
        } else if len > 0 && literal.get_char(0) == '\'' {
            Literal::parse_complex_literal(literal, '\'', 1, prefix_mapping)
        } else {
            Literal::parse_number(literal)
        }
    }
}

} // verus!

verus! {

/// Names what a version-5 identifier, rendered in simple form, is for a
/// source label.
pub uninterp spec fn blank_id_of(label: Seq<char>) -> Seq<char>;

/// Relies on `uuid::Uuid::new_v5`: the identifier is the SHA-1 of the
/// namespace and name bytes, so it depends on the label alone; rendered
/// by `to_simple` as exactly 32 hexadecimal digits.
#[verifier::external_body]
fn uuid_v5_simple(label: &str) -> (r: String)
    ensures
        r@ == blank_id_of(label@),
        r@.len() == 32,
{
    uuid::Uuid::new_v5(&uuid::Uuid::NAMESPACE_URL, label.as_bytes()).to_simple().to_string()
}

/// Relies on `uuid::Uuid::new_v4`: a freshly drawn random identifier,
/// rendered by `to_simple` as exactly 32 hexadecimal digits.  Nothing
/// relates two draws.
#[verifier::external_body]
fn uuid_v4_simple() -> (r: String)
    ensures
        r@.len() == 32,
{
    uuid::Uuid::new_v4().to_simple().to_string()
}

/// A node with only local identity, carried as an opaque id string.
pub struct BlankNode {
    id: String,
}

impl View for BlankNode {
    type V = Seq<char>;

    closed spec fn view(&self) -> Seq<char> {
        self.id@
    }
}

impl Clone for BlankNode {
    fn clone(&self) -> (r: Self)
        ensures
            r@ == self@,
    {
        BlankNode { id: self.id.clone() }
    }
}

impl BlankNode {
    /// A blank node with a fresh random identity.
    pub fn generate_blank_node() -> (r: BlankNode)
        ensures
            r@.len() == 32,
    {
        BlankNode { id: uuid_v4_simple() }
    }

    /// The blank node a source label denotes: the same label always maps
    /// to the same identity, within a read and across reads.
    pub fn generate_from_string(id: &str) -> (r: BlankNode)
        ensures
            r@ == blank_id_of(id@),
            r@.len() == 32,
    {
        BlankNode { id: uuid_v5_simple(id) }
    }

    /// A blank node with exactly the given identity.
    pub fn create_blank_node(id: &str) -> (r: BlankNode)
        ensures
            r@ == id@,
    {
        BlankNode { id: id.to_owned() }
    }

    /// Whether this node is a literal.
    pub fn is_literal(&self) -> (r: bool)
        ensures
            !r,
    {
        false
    }

    /// Whether this node is an identifier resource.
    pub fn is_iri(&self) -> (r: bool)
        ensures
            !r,
    {
        false
    }

    /// Whether this node is a variable.
    pub fn is_var(&self) -> (r: bool)
        ensures
            !r,
    {
        false
    }

    /// Whether this node is a blank node.
    pub fn is_blank(&self) -> (r: bool)
        ensures
            r,
    {
        true
    }

    /// The `_:id` form, whatever the quoting request.
    pub fn as_string(&self, quoting: bool) -> (r: String)
        ensures
            r@ == seq!['_', ':'] + self@,
    {
        let mut ret = String::new();
        push_char(&mut ret, '_');
        push_char(&mut ret, ':');
        ret.append(self.id.as_str());
        proof {
            assert(ret@ =~= seq!['_', ':'] + self@);
        }
        ret
    }

    /// The bare identity of this node.
    pub fn get_value(&self) -> (r: String)
        ensures
            r@ == self@,
    {
        self.id.clone()
    }
}

/// A node naming a resource by an identifier.
pub struct IRIResource {
    iri: IRI,
}

impl View for IRIResource {
    type V = crate::iri::IriView;

    closed spec fn view(&self) -> crate::iri::IriView {
        self.iri@
    }
}

impl Clone for IRIResource {
    fn clone(&self) -> (r: Self)
        ensures
            r@ == self@,
    {
        IRIResource { iri: self.iri.clone() }
    }
}

impl IRIResource {
    pub fn get_iri(&self) -> (r: &IRI)
        ensures
            r@ == self@,
    {
        &self.iri
    }

    pub fn create_resource(iri: IRI) -> (r: IRIResource)
        ensures
            r@ == iri@,
    {
        IRIResource { iri }
    }

    /// Whether this node is a literal.
    pub fn is_literal(&self) -> (r: bool)
        ensures
            !r,
    {
        false
    }

    /// Whether this node is an identifier resource.
    pub fn is_iri(&self) -> (r: bool)
        ensures
            r,
    {
        true
    }

    /// Whether this node is a variable.
    pub fn is_var(&self) -> (r: bool)
        ensures
            !r,
    {
        false
    }

    /// Whether this node is a blank node.
    pub fn is_blank(&self) -> (r: bool)
        ensures
            !r,
    {
        false
    }

    /// The canonical identifier string, in angle brackets when quoting is
    /// requested.
    pub fn as_string(&self, quoting: bool) -> (r: String)
        ensures
            r@ == if quoting {
                seq!['<'] + spec_iri_str(self@) + seq!['>']
            } else {
                spec_iri_str(self@)
            },
    {
        if quoting {
            let mut ret = String::new();
            push_char(&mut ret, '<');
            let s = self.iri.as_string();
            ret.append(s.as_str());
            push_char(&mut ret, '>');
            proof {
                assert(ret@ =~= seq!['<'] + spec_iri_str(self@) + seq!['>']);
            }
            ret
        } else {
            self.iri.as_string()
        }
    }

    /// The canonical identifier string.
    pub fn get_value(&self) -> (r: String)
        ensures
            r@ == spec_iri_str(self@),
    {
        self.iri.as_string()
    }
}

/// A named placeholder, as used in query patterns.
pub struct Variable {
    name: String,
}

impl View for Variable {
    type V = Seq<char>;

    closed spec fn view(&self) -> Seq<char> {
        self.name@
    }
}

impl Clone for Variable {
    fn clone(&self) -> (r: Self)
        ensures
            r@ == self@,
    {
        Variable { name: self.name.clone() }
    }
}

impl Variable {
    pub fn create_var(var_name: &str) -> (r: Variable)
        ensures
            r@ == var_name@,
    {
        Variable { name: var_name.to_owned() }
    }

    /// Whether this node is a literal.
    pub fn is_literal(&self) -> (r: bool)
        ensures
            !r,
    {
        false
    }

    /// Whether this node is an identifier resource.
    pub fn is_iri(&self) -> (r: bool)
        ensures
            !r,
    {
        false
    }

    /// Whether this node is a variable.
    pub fn is_var(&self) -> (r: bool)
        ensures
            r,
    {
        true
    }

    /// Whether this node is a blank node.
    pub fn is_blank(&self) -> (r: bool)
        ensures
            !r,
    {
        false
    }

    /// The name, with a leading `?` when quoting is requested.
    pub fn as_string(&self, quoting: bool) -> (r: String)
        ensures
            r@ == if quoting {
                seq!['?'] + self@
            } else {
                self@
            },
    {
        if quoting {
            let mut ret = String::new();
            push_char(&mut ret, '?');
            ret.append(self.name.as_str());
            proof {
                assert(ret@ =~= seq!['?'] + self@);
            }
            ret
        } else {
            self.name.clone()
        }
    }

    /// The bare name of this variable.
    pub fn get_value(&self) -> (r: String)
        ensures
            r@ == self@,
    {
        self.name.clone()
    }
}

} // verus!

verus! {

/// Whether two literals are the same value, text, datatype and language.
pub(crate) fn literal_eq(a: &Literal, b: &Literal) -> (r: bool)
    ensures
        r == (a@ == b@),
{
    let r = str_eq(a.value.as_str(), b.value.as_str()) && str_eq(
        a.dtype.get_value().as_str(),
        b.dtype.get_value().as_str(),
    ) && crate::iri::opt_str_eq(&a.lang, &b.lang);
    proof {
        if r {
            assert(a@ =~= b@);
        }
    }
    r
}

/// Whether two blank nodes carry the same identity.
pub(crate) fn bnode_eq(a: &BlankNode, b: &BlankNode) -> (r: bool)
    ensures
        r == (a@ == b@),
{
    str_eq(a.id.as_str(), b.id.as_str())
}

/// Whether two resources name the same identifier.
pub(crate) fn resource_iri_eq(a: &IRIResource, b: &IRIResource) -> (r: bool)
    ensures
        r == (a@ == b@),
{
    crate::iri::iri_eq(&a.iri, &b.iri)
}

} // verus!

verus! {

/// The typed-literal round trip: a surface form `"v"^^<d>` whose body
/// holds no quote and does not end on a backslash, and whose datatype
/// identifier holds no quote, is already canonical and is not the plain
/// string type, decodes to the literal with exactly that body and
/// datatype — and re-serializing that literal yields the original
/// characters.
#[verifier::rlimit(100)]
pub proof fn lemma_literal_round_trip(
    v: Seq<char>,
    d: Seq<char>,
    w: crate::iri::IriView,
    pm: Seq<(Seq<char>, Seq<char>)>,
)
    requires
        forall|i: int| 0 <= i < v.len() ==> v[i] != '"',
        v.len() == 0 || v[v.len() - 1] != '\\',
        forall|i: int| 0 <= i < d.len() ==> d[i] != '"',
        spec_parse_iri(d) == Some(w),
        spec_iri_str(w) == d,
        d != xsd_string_str(),
    ensures
        ({
            let t = seq!['"'] + v + seq!['"', '^', '^', '<'] + d + seq!['>'];
            spec_parse_literal(t, pm) == Some(
                LiteralView { value: v, dtype: d, lang: None },
            ) && spec_literal_str(LiteralView { value: v, dtype: d, lang: None }, true) == t
        }),
{
    let t = seq!['"'] + v + seq!['"', '^', '^', '<'] + d + seq!['>'];
    let vl = v.len() as int;
    let dl = d.len() as int;
    assert(t.len() == vl + dl + 6);
    assert(t[0] == '"');
    assert(forall|i: int| 1 <= i < 1 + vl ==> #[trigger] t[i] == v[i - 1]);
    assert(t[1 + vl] == '"');
    assert(t[2 + vl] == '^');
    assert(t[3 + vl] == '^');
    assert(t[4 + vl] == '<');
    assert(forall|i: int| 5 + vl <= i < 5 + vl + dl ==> #[trigger] t[i] == d[i - 5 - vl]);
    assert(t[t.len() - 1] == '>');
    // not a bare boolean token
    reveal_strlit("true");
    reveal_strlit("false");
    assert(t != "true"@) by {
        if t == "true"@ {
            assert(t[0] == "true"@[0]);
        }
    }
    assert(t != "false"@) by {
        if t == "false"@ {
            assert(t[0] == "false"@[0]);
        }
    }
    // the last unescaped quote is the closing one
    let close = 1 + vl;
    assert(crate::scan::delim_at(t, close, '"', 1));
    assert(t[close - 1] != '\\') by {
        if vl > 0 {
            assert(t[close - 1] == v[vl - 1]);
        }
    }
    assert forall|j: int| close < j <= t.len() - 1 implies !(crate::scan::delim_at(t, j, '"', 1)
        && t[j - 1] != '\\') by {
        if crate::scan::delim_at(t, j, '"', 1) {
            assert(t[j + 0] == '"');
            assert(t[j] == '"');
            if j == 2 + vl || j == 3 + vl {
            } else if j == 4 + vl {
            } else if 5 + vl <= j < 5 + vl + dl {
                assert(t[j] == d[j - 5 - vl]);
            } else {
                assert(j == t.len() - 1);
            }
            assert(false);
        }
    }
    crate::scan::lemma_srfind_is(t, '"', 1, t.len() - 1, close);
    // the body and the datatype identifier read back exactly
    assert(t.subrange(1, close) =~= v);
    let suf = close + 1;
    assert(t[suf] == '^');
    assert(t[suf + 1] == '^');
    assert(t[suf + 2] == '<');
    assert(suf + 2 < t.len());
    assert(t.subrange(suf + 3, t.len() - 1) =~= d);
    assert(spec_parse_complex_literal(t, '"', 1, pm) == Some(
        LiteralView { value: v, dtype: d, lang: None },
    )) by {
        assert(t.subrange(1, close) == v);
        assert(spec_iri_str(w) == d);
    }
    // and the canonical form of the decoded literal is the original text
    assert(spec_literal_str(LiteralView { value: v, dtype: d, lang: None }, true) =~= t);
}

} // verus!
