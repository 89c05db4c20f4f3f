//! XML Schema datatype identifiers: a datatype is identified solely by its
//! IRI string.  The built-in datatypes are available as constructors, and a
//! registry memoizes the non-builtin datatype IRIs met at run time.
use crate::iri::{spec_iri_str, spec_parse_iri, IRI};
use crate::scan::str_eq;
use vstd::prelude::*;

verus! {

/// A datatype, identified by the canonical string of its IRI.
pub struct XSDDataType {
    dtype: String,
}

impl View for XSDDataType {
    type V = Seq<char>;

    closed spec fn view(&self) -> Seq<char> {
        self.dtype@
    }
}

impl Clone for XSDDataType {
    fn clone(&self) -> (r: Self)
        ensures
            r@ == self@,
    {
        XSDDataType { dtype: self.dtype.clone() }
    }
}

/// The datatype IRI of character strings.
pub open spec fn xsd_string_str() -> Seq<char> {
    "http://www.w3.org/2001/XMLSchema#string"@
}

/// The datatype IRI of booleans.
pub open spec fn xsd_boolean_str() -> Seq<char> {
    "http://www.w3.org/2001/XMLSchema#boolean"@
}

/// The datatype IRI of unbounded integers.
pub open spec fn xsd_integer_str() -> Seq<char> {
    "http://www.w3.org/2001/XMLSchema#integer"@
}

/// The datatype IRI of decimal numbers.
pub open spec fn xsd_decimal_str() -> Seq<char> {
    "http://www.w3.org/2001/XMLSchema#decimal"@
}

impl XSDDataType {
    /// Builds the datatype identified by an already parsed IRI; its
    /// identity is the IRI's canonical string.
    pub fn create(uri: &IRI) -> (r: XSDDataType)
        ensures
            r@ == spec_iri_str(uri@),
    {
        XSDDataType { dtype: uri.as_string() }
    }

    /// Builds a datatype from an IRI string; `None` when the string is no
    /// valid IRI.  The stored identity is the canonical serialization.
    pub fn create_from_string(uri: String) -> (r: Option<XSDDataType>)
        ensures
            match r {
                Some(d) => match spec_parse_iri(uri@) {
                    Some(w) => d@ == spec_iri_str(w),
                    None => false,
                },
                None => spec_parse_iri(uri@) is None,
            },
    {
        match IRI::create_iri(&uri) {
            Ok(parsed) => Some(XSDDataType::create(&parsed)),
            Err(_) => None,
        }
    }

    /// Whether this datatype is the string datatype.
    pub fn is_xsd_string(&self) -> (r: bool)
        ensures
            r == (self@ == xsd_string_str()),
    {
        str_eq(self.dtype.as_str(), "http://www.w3.org/2001/XMLSchema#string")
    }

    /// The identifying IRI string of this datatype.
    pub fn get_value(&self) -> (r: &String)
        ensures
            r@ == self@,
    {
        &self.dtype
    }
}

/// Base of the built-in datatype IRIs.
pub fn xsd_base() -> (r: String)
    ensures
        r@ == "http://www.w3.org/2001/XMLSchema#"@,
{
    String::from_str("http://www.w3.org/2001/XMLSchema#")
}

/// A registry of datatypes seen so far, so that repeated reads of the
/// same non-builtin datatype IRI share one entry.  Entries live as long
/// as the registry; nothing is evicted.
pub struct DatatypeRegistry {
    types: Vec<XSDDataType>,
}

impl View for DatatypeRegistry {
    type V = Seq<Seq<char>>;

    closed spec fn view(&self) -> Seq<Seq<char>> {
        self.types@.map_values(|d: XSDDataType| d@)
    }
}

impl DatatypeRegistry {
    /// An empty registry.
    pub fn new() -> (r: DatatypeRegistry)
        ensures
            r@ == Seq::<Seq<char>>::empty(),
    {
        let r = DatatypeRegistry { types: Vec::new() };
        proof {
            assert(r@ =~= Seq::<Seq<char>>::empty());
        }
        r
    }

    /// The datatype of the given IRI: the entry already present under the
    /// IRI's canonical string, or a fresh one recorded for later calls.
    pub fn get_or_default(&mut self, iri: &IRI) -> (r: XSDDataType)
        ensures
            r@ == spec_iri_str(iri@),
            final (self)@ == if old(self)@.contains(spec_iri_str(iri@)) {
                old(self)@
            } else {
                old(self)@.push(spec_iri_str(iri@))
            },
    {
        let key = iri.as_string();
        let mut i: usize = 0;
        while i < self.types.len()
            invariant
                0 <= i <= self.types@.len(),
                key@ == spec_iri_str(iri@),
                forall|j: int| 0 <= j < i ==> self@[j] != key@,
            decreases self.types@.len() - i,
        {
            if str_eq(self.types[i].get_value().as_str(), key.as_str()) {
                let r = self.types[i].clone();
                proof {
                    assert(self@.contains(key@)) by {
                        assert(self@[i as int] == key@);
                    }
                }
                return r;
            }
            i += 1;
        }
        proof {
            if self@.contains(key@) {
                let w = choose|w: int| 0 <= w < self@.len() && self@[w] == key@;
                assert(false);
            }
        }
        let fresh = XSDDataType { dtype: key };
        let r = fresh.clone();
        self.types.push(fresh);
        proof {
            assert(self@ =~= old(self)@.push(spec_iri_str(iri@)));
        }
        r
    }
}

} // verus!

verus! {

/// The string datatype, `http://www.w3.org/2001/XMLSchema#string`.
pub fn xsd_string() -> (r: XSDDataType)
    ensures
        r@ == xsd_string_str(),
{
    XSDDataType { dtype: String::from_str("http://www.w3.org/2001/XMLSchema#string") }
}

/// The boolean datatype, `http://www.w3.org/2001/XMLSchema#boolean`.
pub fn xsd_boolean() -> (r: XSDDataType)
    ensures
        r@ == xsd_boolean_str(),
{
    XSDDataType { dtype: String::from_str("http://www.w3.org/2001/XMLSchema#boolean") }
}

/// The integer datatype, `http://www.w3.org/2001/XMLSchema#integer`.
pub fn xsd_integer() -> (r: XSDDataType)
    ensures
        r@ == xsd_integer_str(),
{
    XSDDataType { dtype: String::from_str("http://www.w3.org/2001/XMLSchema#integer") }
}

/// The decimal datatype, `http://www.w3.org/2001/XMLSchema#decimal`.
pub fn xsd_decimal() -> (r: XSDDataType)
    ensures
        r@ == xsd_decimal_str(),
{
    XSDDataType { dtype: String::from_str("http://www.w3.org/2001/XMLSchema#decimal") }
}

/// The unsigned byte datatype.
pub fn xsd_unsigned_byte() -> (r: XSDDataType)
    ensures
        r@ == "http://www.w3.org/2001/XMLSchema#unsignedByte"@,
{
    XSDDataType { dtype: String::from_str("http://www.w3.org/2001/XMLSchema#unsignedByte") }
}

/// The unsigned short datatype.
pub fn xsd_unsigned_short() -> (r: XSDDataType)
    ensures
        r@ == "http://www.w3.org/2001/XMLSchema#unsignedShort"@,
{
    XSDDataType { dtype: String::from_str("http://www.w3.org/2001/XMLSchema#unsignedShort") }
}

/// The unsigned int datatype.
pub fn xsd_unsigned_int() -> (r: XSDDataType)
    ensures
        r@ == "http://www.w3.org/2001/XMLSchema#unsignedInt"@,
{
    XSDDataType { dtype: String::from_str("http://www.w3.org/2001/XMLSchema#unsignedInt") }
}

/// The unsigned long datatype.
pub fn xsd_unsigned_long() -> (r: XSDDataType)
    ensures
        r@ == "http://www.w3.org/2001/XMLSchema#unsignedLong"@,
{
    XSDDataType { dtype: String::from_str("http://www.w3.org/2001/XMLSchema#unsignedLong") }
}

/// The signed byte datatype.
pub fn xsd_byte() -> (r: XSDDataType)
    ensures
        r@ == "http://www.w3.org/2001/XMLSchema#byte"@,
{
    XSDDataType { dtype: String::from_str("http://www.w3.org/2001/XMLSchema#byte") }
}

/// The short datatype.
pub fn xsd_short() -> (r: XSDDataType)
    ensures
        r@ == "http://www.w3.org/2001/XMLSchema#short"@,
{
    XSDDataType { dtype: String::from_str("http://www.w3.org/2001/XMLSchema#short") }
}

/// The int datatype.
pub fn xsd_int() -> (r: XSDDataType)
    ensures
        r@ == "http://www.w3.org/2001/XMLSchema#int"@,
{
    XSDDataType { dtype: String::from_str("http://www.w3.org/2001/XMLSchema#int") }
}

/// The long datatype.
pub fn xsd_long() -> (r: XSDDataType)
    ensures
        r@ == "http://www.w3.org/2001/XMLSchema#long"@,
{
    XSDDataType { dtype: String::from_str("http://www.w3.org/2001/XMLSchema#long") }
}

/// The non-negative integer datatype.
pub fn xsd_non_negative_integer() -> (r: XSDDataType)
    ensures
        r@ == "http://www.w3.org/2001/XMLSchema#nonNegativeInteger"@,
{
    XSDDataType { dtype: String::from_str("http://www.w3.org/2001/XMLSchema#nonNegativeInteger") }
}

/// The non-positive integer datatype.
pub fn xsd_non_positive_integer() -> (r: XSDDataType)
    ensures
        r@ == "http://www.w3.org/2001/XMLSchema#nonPositiveInteger"@,
{
    XSDDataType { dtype: String::from_str("http://www.w3.org/2001/XMLSchema#nonPositiveInteger") }
}

/// The positive integer datatype.
pub fn xsd_positive_integer() -> (r: XSDDataType)
    ensures
        r@ == "http://www.w3.org/2001/XMLSchema#positiveInteger"@,
{
    XSDDataType { dtype: String::from_str("http://www.w3.org/2001/XMLSchema#positiveInteger") }
}

/// The negative integer datatype.
pub fn xsd_negative_integer() -> (r: XSDDataType)
    ensures
        r@ == "http://www.w3.org/2001/XMLSchema#negativeInteger"@,
{
    XSDDataType { dtype: String::from_str("http://www.w3.org/2001/XMLSchema#negativeInteger") }
}

/// The single-precision floating point datatype.
pub fn xsd_float() -> (r: XSDDataType)
    ensures
        r@ == "http://www.w3.org/2001/XMLSchema#float"@,
{
    XSDDataType { dtype: String::from_str("http://www.w3.org/2001/XMLSchema#float") }
}

/// The double-precision floating point datatype.
pub fn xsd_double() -> (r: XSDDataType)
    ensures
        r@ == "http://www.w3.org/2001/XMLSchema#double"@,
{
    XSDDataType { dtype: String::from_str("http://www.w3.org/2001/XMLSchema#double") }
}

/// The universal super type.
pub fn xsd_any_type() -> (r: XSDDataType)
    ensures
        r@ == "http://www.w3.org/2001/XMLSchema#anyType"@,
{
    XSDDataType { dtype: String::from_str("http://www.w3.org/2001/XMLSchema#anyType") }
}

/// The super type of all simple types.
pub fn xsd_any_simple_type() -> (r: XSDDataType)
    ensures
        r@ == "http://www.w3.org/2001/XMLSchema#anySimpleType"@,
{
    XSDDataType { dtype: String::from_str("http://www.w3.org/2001/XMLSchema#anySimpleType") }
}

/// The identifier datatype.
pub fn xsd_any_uri() -> (r: XSDDataType)
    ensures
        r@ == "http://www.w3.org/2001/XMLSchema#anyUri"@,
{
    XSDDataType { dtype: String::from_str("http://www.w3.org/2001/XMLSchema#anyUri") }
}

/// The binary datatype in base64 text form.
pub fn xsd_base64binary() -> (r: XSDDataType)
    ensures
        r@ == "http://www.w3.org/2001/XMLSchema#base64Binary"@,
{
    XSDDataType { dtype: String::from_str("http://www.w3.org/2001/XMLSchema#base64Binary") }
}

/// The binary datatype in hexadecimal text form.
pub fn xsd_hex_binary() -> (r: XSDDataType)
    ensures
        r@ == "http://www.w3.org/2001/XMLSchema#hexBinary"@,
{
    XSDDataType { dtype: String::from_str("http://www.w3.org/2001/XMLSchema#hexBinary") }
}

/// The duration datatype.
pub fn xsd_duration() -> (r: XSDDataType)
    ensures
        r@ == "http://www.w3.org/2001/XMLSchema#duration"@,
{
    XSDDataType { dtype: String::from_str("http://www.w3.org/2001/XMLSchema#duration") }
}

/// The date and time datatype.
pub fn xsd_date_time() -> (r: XSDDataType)
    ensures
        r@ == "http://www.w3.org/2001/XMLSchema#dateTime"@,
{
    XSDDataType { dtype: String::from_str("http://www.w3.org/2001/XMLSchema#dateTime") }
}

/// The time-of-day datatype.
pub fn xsd_time() -> (r: XSDDataType)
    ensures
        r@ == "http://www.w3.org/2001/XMLSchema#time"@,
{
    XSDDataType { dtype: String::from_str("http://www.w3.org/2001/XMLSchema#time") }
}

/// The calendar date datatype.
pub fn xsd_date() -> (r: XSDDataType)
    ensures
        r@ == "http://www.w3.org/2001/XMLSchema#date"@,
{
    XSDDataType { dtype: String::from_str("http://www.w3.org/2001/XMLSchema#date") }
}

/// The year-and-month datatype.
pub fn xsd_g_year_month() -> (r: XSDDataType)
    ensures
        r@ == "http://www.w3.org/2001/XMLSchema#gYearMonth"@,
{
    XSDDataType { dtype: String::from_str("http://www.w3.org/2001/XMLSchema#gYearMonth") }
}

/// The year datatype.
pub fn xsd_g_year() -> (r: XSDDataType)
    ensures
        r@ == "http://www.w3.org/2001/XMLSchema#gYear"@,
{
    XSDDataType { dtype: String::from_str("http://www.w3.org/2001/XMLSchema#gYear") }
}

/// The month datatype.
pub fn xsd_g_month() -> (r: XSDDataType)
    ensures
        r@ == "http://www.w3.org/2001/XMLSchema#gMonth"@,
{
    XSDDataType { dtype: String::from_str("http://www.w3.org/2001/XMLSchema#gMonth") }
}

/// The day-of-month datatype.
pub fn xsd_g_day() -> (r: XSDDataType)
    ensures
        r@ == "http://www.w3.org/2001/XMLSchema#gDay"@,
{
    XSDDataType { dtype: String::from_str("http://www.w3.org/2001/XMLSchema#gDay") }
}

/// The month-and-day datatype.
pub fn xsd_g_month_day() -> (r: XSDDataType)
    ensures
        r@ == "http://www.w3.org/2001/XMLSchema#gMonthDay"@,
{
    XSDDataType { dtype: String::from_str("http://www.w3.org/2001/XMLSchema#gMonthDay") }
}

} // verus!
