use vstd::prelude::*;

verus! {

#[verifier::external_type_specification]
#[verifier::external_body]
pub struct ExProtoError(trust_dns_server::proto::error::ProtoError);

/// The canonical text of a domain name written as `s`, or `None` where `s`
/// is no domain name.
pub uninterp spec fn canonical_name(s: Seq<char>) -> Option<Seq<char>>;

/// Relies on trust_dns `Name::parse` (with no origin) to parse a domain name
/// in presentation form, and on `Name::to_ascii` to write the parsed name
/// back as text. Both depend on the input text alone.
#[verifier::external_body]
fn parse_name_text(s: &str) -> (r: Result<String, trust_dns_server::proto::error::ProtoError>)
    ensures
        r is Ok <==> canonical_name(s@) is Some,
        r is Ok ==> canonical_name(s@) == Some(r->Ok_0@),
{
    match trust_dns_server::proto::rr::Name::parse(s, None) {
        Ok(n) => Ok(n.to_ascii()),
        Err(e) => Err(e),
    }
}

/// Why a text is not a domain name.
#[derive(Debug, Clone, Copy, PartialEq, Eq, Structural)]
pub enum DNSNameError {
    Invalid,
}

/// A parsed domain name, held as its canonical text. Two names are equal
/// when their canonical texts are.
#[derive(Debug)]
pub struct DNSName {
    text: String,
}

impl View for DNSName {
    type V = Seq<char>;

    closed spec fn view(&self) -> Seq<char> {
        self.text@
    }
}

impl DNSName {
    pub fn parse(s: &str) -> (r: Result<DNSName, DNSNameError>)
        ensures
            r is Ok <==> canonical_name(s@) is Some,
            r is Ok ==> canonical_name(s@) == Some(r->Ok_0@),
    {
        match parse_name_text(s) {
            Ok(text) => Ok(DNSName { text }),
            Err(_) => Err(DNSNameError::Invalid),
        }
    }

    /// The canonical text of the name.
    pub fn as_str(&self) -> (r: &str)
        ensures
            r@ == self@,
    {
        self.text.as_str()
    }
}

impl Clone for DNSName {
    fn clone(&self) -> (r: Self)
        ensures
            r == *self,
    {
        DNSName { text: self.text.clone() }
    }
}

impl PartialEq for DNSName {
    fn eq(&self, other: &DNSName) -> (r: bool)
        ensures
            r == (self@ == other@),
    {
        self.text == other.text
    }
}

impl vstd::std_specs::cmp::PartialEqSpecImpl for DNSName {
    open spec fn obeys_eq_spec() -> bool {
        true
    }

    open spec fn eq_spec(&self, other: &DNSName) -> bool {
        self@ == other@
    }
}

impl Eq for DNSName {
}

} // verus!
