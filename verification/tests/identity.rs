use ciphermq::identity::{
    common_name, common_text, extract_admin_cn, extract_client_id, own_client_id, Attribute,
};
use rcgen::{CertificateParams, DistinguishedName, DnType, DnValue, KeyPair};

fn certificate(name: Option<DnValue>) -> rcgen::Certificate {
    let mut params = CertificateParams::new(vec!["localhost".to_string()]).unwrap();
    let mut dn = DistinguishedName::new();
    dn.push(DnType::OrganizationName, "CipherMQ");
    if let Some(name) = name {
        dn.push(DnType::CommonName, name);
    }
    params.distinguished_name = dn;
    let key = KeyPair::generate().unwrap();
    params.self_signed(&key).unwrap()
}

fn utf8(name: &str) -> Option<DnValue> {
    Some(DnValue::Utf8String(name.to_string()))
}

fn attribute(oid: &[u8], text: Option<&str>, utf8: Option<&str>, error: &str) -> Attribute {
    (
        oid.to_vec(),
        text.map(|s| s.to_string()),
        utf8.map(|s| s.to_string()),
        error.to_string(),
    )
}

#[test]
fn a_peer_is_named_after_its_first_certificate() {
    let a = certificate(utf8("receiver_1")).der().to_vec();
    let b = certificate(utf8("someone")).der().to_vec();
    assert_eq!(extract_client_id(&Some(vec![a.clone(), b])).unwrap(), "receiver_1");
    assert_eq!(extract_admin_cn(&Some(vec![a])), "receiver_1");
}

#[test]
fn peers_without_a_name_are_refused() {
    assert_eq!(extract_client_id(&None).unwrap_err(), "No client certificates found");
    assert_eq!(extract_client_id(&Some(vec![])).unwrap_err(), "No client certificate provided");
    let nameless = certificate(None).der().to_vec();
    assert_eq!(
        extract_client_id(&Some(vec![nameless.clone()])).unwrap_err(),
        "No Common Name found in client certificate"
    );
    let error = extract_client_id(&Some(vec![vec![1, 2, 3]])).unwrap_err();
    assert!(error.starts_with("Failed to parse certificate: "));
    assert_eq!(extract_admin_cn(&None), "unknown");
    assert_eq!(extract_admin_cn(&Some(vec![nameless])), "unknown");
}

#[test]
fn a_client_names_itself_after_its_certificate() {
    let pem = certificate(utf8("sender_1")).pem();
    assert_eq!(own_client_id(pem.as_bytes()).unwrap(), "sender_1");
    let nameless = certificate(None).pem();
    assert_eq!(
        own_client_id(nameless.as_bytes()).unwrap_err(),
        "No Common Name found in client certificate"
    );
    assert!(own_client_id(b"no pem").unwrap_err().starts_with("PEM parse error: "));
    let broken = "-----BEGIN CERTIFICATE-----\nAQID\n-----END CERTIFICATE-----\n";
    assert!(own_client_id(broken.as_bytes()).unwrap_err().starts_with("X.509 parse error: "));
}

#[test]
fn names_of_other_text_types_count_for_peers_only() {
    let name = DnValue::PrintableString(rcgen::PrintableString::try_from("printable").unwrap());
    let cert = certificate(Some(name));
    assert_eq!(extract_client_id(&Some(vec![cert.der().to_vec()])).unwrap(), "printable");
    assert!(own_client_id(cert.pem().as_bytes()).unwrap_err().starts_with("CN is not UTF-8: "));
}

#[test]
fn the_first_name_counts() {
    let list = vec![
        attribute(&[0x55, 4, 10], Some("org"), Some("org"), ""),
        // The same number in more bytes is another identifier.
        attribute(&[0x55, 4, 0x80, 3], Some("padded"), Some("padded"), ""),
        attribute(&[0x55, 4, 3], None, None, "bad"),
        attribute(&[0x55, 4, 3], Some("second"), Some("second"), ""),
    ];
    assert_eq!(common_text(&list).unwrap(), "second");
    assert_eq!(common_name(&list).unwrap_err(), "CN is not UTF-8: bad");
    assert_eq!(common_name(&list[3..].to_vec()).unwrap(), "second");
    assert_eq!(common_text(&vec![]), None);
    assert_eq!(
        common_name(&vec![]).unwrap_err(),
        "No Common Name found in client certificate"
    );
}
