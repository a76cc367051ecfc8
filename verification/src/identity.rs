//! Who a client is: the common name in the subject of its certificate.

use crate::text::prefixed;
use vstd::prelude::*;
use vstd::string::*;
use x509_parser::pem::parse_x509_pem;
use x509_parser::prelude::parse_x509_certificate;

verus! {

/// An attribute of a subject: the bytes of its identifier, its value as text where it has a
/// text type, its value where it is a UTF-8 string, and why it is not.
pub type Attribute = (Vec<u8>, Option<String>, Option<String>, String);

/// An attribute of a subject as mathematical values.
pub type AttributeModel = (Seq<u8>, Option<Seq<char>>, Option<Seq<char>>, Seq<char>);

/// The attributes of the subject of a certificate in DER, or why it cannot be
/// read.
pub uninterp spec fn subject_of(der: Seq<u8>) -> Result<
    Seq<(Seq<u8>, Option<Seq<char>>, Option<Seq<char>>, Seq<char>)>,
    Seq<char>,
>;

/// The contents of the first block of a PEM text, or why there is none.
pub uninterp spec fn pem_contents(pem: Seq<u8>) -> Result<Seq<u8>, Seq<char>>;

/// `parse_x509_certificate` of `x509_parser`, and the attributes that
/// `X509Name::iter_attributes` hands out of the subject, in their order.
#[verifier::external_body]
fn read_subject(der: &[u8]) -> (r: Result<Vec<Attribute>, String>)
    ensures
        r is Ok <==> subject_of(der@) is Ok,
        r matches Ok(v) ==> v.deep_view() == subject_of(der@)->Ok_0,
        r matches Err(e) ==> e@ == subject_of(der@)->Err_0,
{
    let (_, cert) = parse_x509_certificate(der).map_err(|e| e.to_string())?;
    let attributes = cert.subject().iter_attributes().map(|a| {
        let utf8 = a.attr_value().as_str();
        let error = utf8.as_ref().err().map(|e| e.to_string()).unwrap_or_default();
        (
            a.attr_type().as_bytes().to_vec(),
            a.as_str().map(|s| s.to_string()).ok(),
            utf8.map(|s| s.to_string()).ok(),
            error,
        )
    });
    Ok(attributes.collect())
}

/// `parse_x509_pem` of `x509_parser`: the decoded bytes of the first block.
#[verifier::external_body]
fn read_pem(pem: &[u8]) -> (r: Result<Vec<u8>, String>)
    ensures
        r is Ok <==> pem_contents(pem@) is Ok,
        r matches Ok(v) ==> v@ == pem_contents(pem@)->Ok_0,
        r matches Err(e) ==> e@ == pem_contents(pem@)->Err_0,
{
    parse_x509_pem(pem).map(|(_, block)| block.contents).map_err(|e| e.to_string())
}

/// The identifier of a common name.
pub open spec fn common_name_id() -> Seq<u8> {
    seq![0x55, 0x04, 0x03]
}

/// Whether an attribute is a common name.
pub open spec fn is_common_name(attribute: AttributeModel) -> bool {
    attribute.0 == common_name_id()
}

fn names_common_name(id: &Vec<u8>) -> (r: bool)
    ensures
        r == (id@ == common_name_id()),
{
    let r: bool = id.len() == 3 && id[0] == 0x55 && id[1] == 0x04 && id[2] == 0x03;
    assert(r ==> id@ =~= common_name_id());
    r
}

/// The first common name that is a text.
pub open spec fn first_common_text(attributes: Seq<AttributeModel>) -> Option<Seq<char>>
    decreases attributes.len(),
{
    if attributes.len() == 0 {
        None
    } else if is_common_name(attributes[0]) && attributes[0].1 is Some {
        attributes[0].1
    } else {
        first_common_text(attributes.skip(1))
    }
}

/// The first common name, which has to be a UTF-8 string.
pub open spec fn first_common_name(attributes: Seq<AttributeModel>) -> Result<Seq<char>, Seq<char>>
    decreases attributes.len(),
{
    if attributes.len() == 0 {
        Err("No Common Name found in client certificate"@)
    } else if is_common_name(attributes[0]) {
        match attributes[0].2 {
            Some(name) => Ok(name),
            None => Err("CN is not UTF-8: "@ + attributes[0].3),
        }
    } else {
        first_common_name(attributes.skip(1))
    }
}

/// The name in a certificate's subject.
pub open spec fn certificate_name(der: Seq<u8>) -> Result<Seq<char>, Seq<char>> {
    match subject_of(der) {
        Err(e) => Err("Failed to parse certificate: "@ + e),
        Ok(attributes) => match first_common_text(attributes) {
            Some(name) => Ok(name),
            None => Err("No Common Name found in client certificate"@),
        },
    }
}

/// The name that a peer's certificates give it; the first one counts.
pub open spec fn peer_name(chain: Option<Seq<Seq<u8>>>) -> Result<Seq<char>, Seq<char>> {
    match chain {
        None => Err("No client certificates found"@),
        Some(certificates) => if certificates.len() == 0 {
            Err("No client certificate provided"@)
        } else {
            certificate_name(certificates[0])
        },
    }
}

/// The name in one's own certificate, in PEM.
pub open spec fn own_name(pem: Seq<u8>) -> Result<Seq<char>, Seq<char>> {
    match pem_contents(pem) {
        Err(e) => Err("PEM parse error: "@ + e),
        Ok(der) => match subject_of(der) {
            Err(e) => Err("X.509 parse error: "@ + e),
            Ok(attributes) => first_common_name(attributes),
        },
    }
}

/// Whether a result is the one that is expected.
pub open spec fn gives(r: Result<String, String>, expected: Result<Seq<char>, Seq<char>>) -> bool {
    match r {
        Ok(t) => expected == Ok::<Seq<char>, Seq<char>>(t@),
        Err(e) => expected == Err::<Seq<char>, Seq<char>>(e@),
    }
}

/// Finds the first common name that is a text.
pub fn common_text(attributes: &Vec<Attribute>) -> (r: Option<String>)
    ensures
        match r {
            Some(t) => first_common_text(attributes.deep_view()) == Some(t@),
            None => first_common_text(attributes.deep_view()) is None,
        },
{
    let ghost all = attributes.deep_view();
    let mut i: usize = 0;
    assert(all.skip(0) =~= all);
    while i < attributes.len()
        invariant
            i <= attributes@.len(),
            all == attributes.deep_view(),
            first_common_text(all) == first_common_text(all.skip(i as int)),
        decreases attributes@.len() - i,
    {
        proof {
            assert(all.skip(i as int)[0] == attributes@[i as int].deep_view());
            assert(attributes@[i as int].deep_view().0 =~= attributes@[i as int].0@);
            assert(all.skip(i as int).skip(1) =~= all.skip(i + 1));
        }
        if names_common_name(&attributes[i].0) {
            if let Some(name) = &attributes[i].1 {
                return Some(name.clone());
            }
        }
        i = i + 1;
    }
    None
}

/// Finds the first common name, which has to be a UTF-8 string.
pub fn common_name(attributes: &Vec<Attribute>) -> (r: Result<String, String>)
    ensures
        gives(r, first_common_name(attributes.deep_view())),
{
    let ghost all = attributes.deep_view();
    let mut i: usize = 0;
    assert(all.skip(0) =~= all);
    while i < attributes.len()
        invariant
            i <= attributes@.len(),
            all == attributes.deep_view(),
            first_common_name(all) == first_common_name(all.skip(i as int)),
        decreases attributes@.len() - i,
    {
        proof {
            assert(all.skip(i as int)[0] == attributes@[i as int].deep_view());
            assert(attributes@[i as int].deep_view().0 =~= attributes@[i as int].0@);
            assert(all.skip(i as int).skip(1) =~= all.skip(i + 1));
        }
        if names_common_name(&attributes[i].0) {
            return match &attributes[i].2 {
                Some(name) => Ok(name.clone()),
                None => Err(prefixed("CN is not UTF-8: ", attributes[i].3.as_str())),
            };
        }
        i = i + 1;
    }
    Err("No Common Name found in client certificate".to_owned())
}

/// Names a connected client after its certificates.
pub fn extract_client_id(chain: &Option<Vec<Vec<u8>>>) -> (r: Result<String, String>)
    ensures
        gives(r, peer_name(chain.deep_view())),
{
    match chain {
        None => Err("No client certificates found".to_owned()),
        Some(certificates) => {
            if certificates.len() == 0 {
                return Err("No client certificate provided".to_owned());
            }
            assert(certificates.deep_view()[0] =~= certificates@[0]@);
            match read_subject(certificates[0].as_slice()) {
                Err(e) => Err(prefixed("Failed to parse certificate: ", e.as_str())),
                Ok(attributes) => {
                    match common_text(&attributes) {
                        Some(name) => Ok(name),
                        None => Err("No Common Name found in client certificate".to_owned()),
                    }
                },
            }
        },
    }
}

/// Names a client of the admin console after its certificates; one without a
/// name is called "unknown".
pub fn extract_admin_cn(chain: &Option<Vec<Vec<u8>>>) -> (r: String)
    ensures
        r@ == (match peer_name(chain.deep_view()) {
            Ok(name) => name,
            Err(_) => "unknown"@,
        }),
{
    match extract_client_id(chain) {
        Ok(name) => name,
        Err(_) => "unknown".to_owned(),
    }
}

/// Names a client after its own certificate.
pub fn own_client_id(pem: &[u8]) -> (r: Result<String, String>)
    ensures
        gives(r, own_name(pem@)),
{
    match read_pem(pem) {
        Err(e) => Err(prefixed("PEM parse error: ", e.as_str())),
        Ok(der) => {
            match read_subject(der.as_slice()) {
                Err(e) => Err(prefixed("X.509 parse error: ", e.as_str())),
                Ok(attributes) => common_name(&attributes),
            }
        },
    }
}

/// A client is named by the first common name of its certificate that is a text:
/// the attributes before it do not matter, nor do those behind it.
pub proof fn law_first_common_text_is_taken(attributes: Seq<AttributeModel>, i: int)
    requires
        0 <= i <= attributes.len(),
        forall|j: int|
            0 <= j < i ==> (#[trigger] attributes[j]).0 != seq![0x55u8, 0x04, 0x03]
                || attributes[j].1 is None,
        i < attributes.len() ==> attributes[i].0 == seq![0x55u8, 0x04, 0x03] && attributes[i].1
            is Some,
    ensures
        first_common_text(attributes) == (if i < attributes.len() {
            attributes[i].1
        } else {
            None
        }),
    decreases attributes.len(),
{
    assert(common_name_id() =~= seq![0x55u8, 0x04, 0x03]);
    if i > 0 {
        let rest = attributes.skip(1);
        assert(attributes[0].0 != seq![0x55u8, 0x04, 0x03] || attributes[0].1 is None);
        assert forall|j: int| 0 <= j < i - 1 implies (#[trigger] rest[j]).0 != seq![
            0x55u8,
            0x04,
            0x03,
        ] || rest[j].1 is None by {
            assert(rest[j] == attributes[j + 1]);
        }
        law_first_common_text_is_taken(rest, i - 1);
    }
}

/// One's own name is the first common name of one's certificate, which has to be a
/// UTF-8 string: a later one does not stand in for it.
pub proof fn law_first_common_name_is_taken(attributes: Seq<AttributeModel>, i: int)
    requires
        0 <= i < attributes.len(),
        forall|j: int|
            0 <= j < i ==> (#[trigger] attributes[j]).0 != seq![0x55u8, 0x04, 0x03],
        attributes[i].0 == seq![0x55u8, 0x04, 0x03],
    ensures
        first_common_name(attributes) is Ok <==> attributes[i].2 is Some,
        attributes[i].2 is Some ==> first_common_name(attributes) == Ok::<Seq<char>, Seq<char>>(
            attributes[i].2->0,
        ),
        attributes[i].2 is None ==> first_common_name(attributes) == Err::<Seq<char>, Seq<char>>(
            "CN is not UTF-8: "@ + attributes[i].3,
        ),
    decreases attributes.len(),
{
    assert(common_name_id() =~= seq![0x55u8, 0x04, 0x03]);
    if i > 0 {
        let rest = attributes.skip(1);
        assert(attributes[0].0 != seq![0x55u8, 0x04, 0x03]);
        assert forall|j: int| 0 <= j < i - 1 implies (#[trigger] rest[j]).0 != seq![
            0x55u8,
            0x04,
            0x03,
        ] by {
            assert(rest[j] == attributes[j + 1]);
        }
        law_first_common_name_is_taken(rest, i - 1);
    }
}

/// A certificate without a common name gives no name.
pub proof fn law_no_common_name_no_name(attributes: Seq<AttributeModel>)
    requires
        forall|j: int|
            0 <= j < attributes.len() ==> (#[trigger] attributes[j]).0 != seq![0x55u8, 0x04, 0x03],
    ensures
        first_common_name(attributes) == Err::<Seq<char>, Seq<char>>(
            "No Common Name found in client certificate"@,
        ),
    decreases attributes.len(),
{
    assert(common_name_id() =~= seq![0x55u8, 0x04, 0x03]);
    if attributes.len() > 0 {
        let rest = attributes.skip(1);
        assert(attributes[0].0 != seq![0x55u8, 0x04, 0x03]);
        assert forall|j: int| 0 <= j < rest.len() implies (#[trigger] rest[j]).0 != seq![
            0x55u8,
            0x04,
            0x03,
        ] by {
            assert(rest[j] == attributes[j + 1]);
        }
        law_no_common_name_no_name(rest);
    }
}

/// The first certificate of a peer alone names it.
pub proof fn law_first_certificate_names_the_peer(chain: Seq<Seq<u8>>)
    requires
        chain.len() > 0,
    ensures
        peer_name(Some(chain)) == peer_name(Some(seq![chain[0]])),
        subject_of(chain[0]) matches Ok(attributes) ==> (peer_name(Some(chain)) is Ok
            <==> first_common_text(attributes) is Some) && (peer_name(Some(chain)) matches Ok(name)
            ==> first_common_text(attributes) == Some(name)),
        subject_of(chain[0]) matches Ok(attributes) ==> (first_common_text(attributes) is None
            ==> peer_name(Some(chain)) == Err::<Seq<char>, Seq<char>>(
            "No Common Name found in client certificate"@,
        )),
        subject_of(chain[0]) matches Err(e) ==> peer_name(Some(chain)) == Err::<
            Seq<char>,
            Seq<char>,
        >("Failed to parse certificate: "@ + e),
        peer_name(Some(Seq::<Seq<u8>>::empty())) == Err::<Seq<char>, Seq<char>>(
            "No client certificate provided"@,
        ),
        peer_name(None) == Err::<Seq<char>, Seq<char>>("No client certificates found"@),
{
}

/// One's own name is that in the subject of the certificate in the first block of
/// the PEM text.
pub proof fn law_own_name_is_in_the_subject(pem: Seq<u8>)
    ensures
        pem_contents(pem) matches Err(e) ==> own_name(pem) == Err::<Seq<char>, Seq<char>>(
            "PEM parse error: "@ + e,
        ),
        pem_contents(pem) matches Ok(der) ==> (subject_of(der) matches Err(e) ==> own_name(pem)
            == Err::<Seq<char>, Seq<char>>("X.509 parse error: "@ + e)),
        pem_contents(pem) matches Ok(der) ==> (subject_of(der) matches Ok(attributes) ==> own_name(
            pem,
        ) == first_common_name(attributes)),
{
}

/// A result that is the expected one is the expected name or the expected error, text for
/// text.
pub proof fn law_given_result_is_the_expected_one(
    r: Result<String, String>,
    expected: Result<Seq<char>, Seq<char>>,
)
    requires
        gives(r, expected),
    ensures
        r is Ok <==> expected is Ok,
        r matches Ok(name) ==> name@ == expected->Ok_0,
        r matches Err(e) ==> e@ == expected->Err_0,
{
}

} // verus!
