//! The certificates of a PEM text, and which of its private keys a program proves
//! its identity with.

use vstd::prelude::*;
use vstd::string::*;

verus! {

/// The forms in which private keys are written down.
#[derive(Clone, Copy, Debug, PartialEq, Eq, Structural)]
pub enum KeyForm {
    Pkcs8,
    Pkcs1,
    Sec1,
}

/// The PKCS #8 keys of a PEM text, or why they cannot be read.
pub uninterp spec fn pkcs8_in(pem: Seq<u8>) -> Result<Seq<Seq<u8>>, Seq<char>>;

/// The PKCS #1 keys of a PEM text, or why they cannot be read.
pub uninterp spec fn pkcs1_in(pem: Seq<u8>) -> Result<Seq<Seq<u8>>, Seq<char>>;

/// The SEC1 keys of a PEM text, or why they cannot be read.
pub uninterp spec fn sec1_in(pem: Seq<u8>) -> Result<Seq<Seq<u8>>, Seq<char>>;

/// The certificates of a PEM text, or why they cannot be read.
pub uninterp spec fn certificates_in(pem: Seq<u8>) -> Result<Seq<Seq<u8>>, Seq<char>>;

/// Keys or certificates that were read, or why they were not, as mathematical
/// values.
pub open spec fn as_keys(r: Result<Vec<Vec<u8>>, String>) -> Result<Seq<Seq<u8>>, Seq<char>> {
    match r {
        Ok(keys) => Ok(keys.deep_view()),
        Err(e) => Err(e@),
    }
}

/// A key that was taken, or why none was, as mathematical values.
pub open spec fn as_key(r: Result<Option<Vec<u8>>, String>) -> Result<Option<Seq<u8>>, Seq<char>> {
    match r {
        Ok(Some(key)) => Ok(Some(key@)),
        Ok(None) => Ok(None),
        Err(e) => Err(e@),
    }
}

/// A key that was taken, with its form, as mathematical values.
pub open spec fn as_formed_key(r: Result<Option<(KeyForm, Vec<u8>)>, String>) -> Result<
    Option<(KeyForm, Seq<u8>)>,
    Seq<char>,
> {
    match r {
        Ok(Some(key)) => Ok(Some((key.0, key.1@))),
        Ok(None) => Ok(None),
        Err(e) => Err(e@),
    }
}

/// `rustls_pemfile::pkcs8_private_keys`: the keys it hands out, in their order, or
/// the first error.
#[verifier::external_body]
fn pkcs8_keys(pem: &[u8]) -> (r: Result<Vec<Vec<u8>>, String>)
    ensures
        as_keys(r) == pkcs8_in(pem@),
{
    rustls_pemfile::pkcs8_private_keys(&mut &pem[..])
        .map(|key| key.map(|k| k.secret_pkcs8_der().to_vec()))
        .collect::<Result<Vec<Vec<u8>>, std::io::Error>>()
        .map_err(|e| e.to_string())
}

/// `rustls_pemfile::rsa_private_keys`: the keys it hands out, in their order, or
/// the first error.
#[verifier::external_body]
fn pkcs1_keys(pem: &[u8]) -> (r: Result<Vec<Vec<u8>>, String>)
    ensures
        as_keys(r) == pkcs1_in(pem@),
{
    rustls_pemfile::rsa_private_keys(&mut &pem[..])
        .map(|key| key.map(|k| k.secret_pkcs1_der().to_vec()))
        .collect::<Result<Vec<Vec<u8>>, std::io::Error>>()
        .map_err(|e| e.to_string())
}

/// `rustls_pemfile::ec_private_keys`: the keys it hands out, in their order, or the
/// first error.
#[verifier::external_body]
fn sec1_keys(pem: &[u8]) -> (r: Result<Vec<Vec<u8>>, String>)
    ensures
        as_keys(r) == sec1_in(pem@),
{
    rustls_pemfile::ec_private_keys(&mut &pem[..])
        .map(|key| key.map(|k| k.secret_sec1_der().to_vec()))
        .collect::<Result<Vec<Vec<u8>>, std::io::Error>>()
        .map_err(|e| e.to_string())
}

/// `rustls_pemfile::certs`: the certificates it hands out, in their order, or the
/// first error.
#[verifier::external_body]
fn pem_certificates(pem: &[u8]) -> (r: Result<Vec<Vec<u8>>, String>)
    ensures
        as_keys(r) == certificates_in(pem@),
{
    rustls_pemfile::certs(&mut &pem[..])
        .map(|certificate| certificate.map(|c| c.to_vec()))
        .collect::<Result<Vec<Vec<u8>>, std::io::Error>>()
        .map_err(|e| e.to_string())
}

/// The first of some keys.
pub open spec fn first_of(keys: Result<Seq<Seq<u8>>, Seq<char>>) -> Result<
    Option<Seq<u8>>,
    Seq<char>,
> {
    match keys {
        Err(e) => Err(e),
        Ok(all) => Ok(
            if all.len() == 0 {
                None
            } else {
                Some(all[0])
            },
        ),
    }
}

/// The last of the keys of the first form of which there are any.
pub open spec fn last_of(
    pkcs8: Result<Seq<Seq<u8>>, Seq<char>>,
    pkcs1: Result<Seq<Seq<u8>>, Seq<char>>,
    sec1: Result<Seq<Seq<u8>>, Seq<char>>,
) -> Result<Option<(KeyForm, Seq<u8>)>, Seq<char>> {
    match pkcs8 {
        Err(e) => Err(e),
        Ok(a) => if a.len() > 0 {
            Ok(Some((KeyForm::Pkcs8, a.last())))
        } else {
            match pkcs1 {
                Err(e) => Err(e),
                Ok(b) => if b.len() > 0 {
                    Ok(Some((KeyForm::Pkcs1, b.last())))
                } else {
                    match sec1 {
                        Err(e) => Err(e),
                        Ok(c) => if c.len() > 0 {
                            Ok(Some((KeyForm::Sec1, c.last())))
                        } else {
                            Ok(None)
                        },
                    }
                },
            }
        },
    }
}

/// Takes the first of some keys, given how reading them went.
pub fn first_key(keys: Result<Vec<Vec<u8>>, String>) -> (r: Result<Option<Vec<u8>>, String>)
    ensures
        as_key(r) == first_of(as_keys(keys)),
{
    match keys {
        Err(e) => Err(e),
        Ok(all) => {
            assert(all.deep_view().len() == all@.len());
            if all.len() == 0 {
                return Ok(None);
            }
            assert(all.deep_view()[0] =~= all@[0]@);
            Ok(Some(copy_of(&all[0])))
        },
    }
}

fn copy_of(key: &Vec<u8>) -> (r: Vec<u8>)
    ensures
        r@ == key@,
{
    let mut out: Vec<u8> = Vec::new();
    out.extend_from_slice(key.as_slice());
    assert(out@ =~= key@);
    out
}

/// Takes the last of the keys of the first form of which there are any, given how
/// reading them went.
pub fn last_key(
    pkcs8: Result<Vec<Vec<u8>>, String>,
    pkcs1: Result<Vec<Vec<u8>>, String>,
    sec1: Result<Vec<Vec<u8>>, String>,
) -> (r: Result<Option<(KeyForm, Vec<u8>)>, String>)
    ensures
        as_formed_key(r) == last_of(as_keys(pkcs8), as_keys(pkcs1), as_keys(sec1)),
{
    match pkcs8 {
        Err(e) => Err(e),
        Ok(a) => {
            assert(a.deep_view().len() == a@.len());
            if a.len() > 0 {
                assert(a.deep_view().last() =~= a@.last()@);
                return Ok(Some((KeyForm::Pkcs8, copy_of(&a[a.len() - 1]))));
            }
            match pkcs1 {
                Err(e) => Err(e),
                Ok(b) => {
                    assert(b.deep_view().len() == b@.len());
                    if b.len() > 0 {
                        assert(b.deep_view().last() =~= b@.last()@);
                        return Ok(Some((KeyForm::Pkcs1, copy_of(&b[b.len() - 1]))));
                    }
                    match sec1 {
                        Err(e) => Err(e),
                        Ok(c) => {
                            assert(c.deep_view().len() == c@.len());
                            if c.len() > 0 {
                                assert(c.deep_view().last() =~= c@.last()@);
                                return Ok(Some((KeyForm::Sec1, copy_of(&c[c.len() - 1]))));
                            }
                            Ok(None)
                        },
                    }
                },
            }
        },
    }
}

/// The certificates of a PEM text: those that a program presents, or those of the
/// authorities that it trusts.
pub fn load_certificates(pem: &[u8]) -> (r: Result<Vec<Vec<u8>>, String>)
    ensures
        as_keys(r) == certificates_in(pem@),
{
    pem_certificates(pem)
}

/// The first PKCS #8 key of a PEM text, which a broker or a receiver uses.
pub fn load_pkcs8_key(pem: &[u8]) -> (r: Result<Option<Vec<u8>>, String>)
    ensures
        as_key(r) == first_of(pkcs8_in(pem@)),
{
    first_key(pkcs8_keys(pem))
}

/// The key of a PEM text that a sender or an admin client uses, in whichever form
/// it is written down.
pub fn load_key(pem: &[u8]) -> (r: Result<Option<(KeyForm, Vec<u8>)>, String>)
    ensures
        as_formed_key(r) == last_of(pkcs8_in(pem@), pkcs1_in(pem@), sec1_in(pem@)),
{
    last_key(pkcs8_keys(pem), pkcs1_keys(pem), sec1_keys(pem))
}

/// A broker or a receiver uses the first key of those that there are.
pub proof fn law_first_key_is_used(keys: Seq<Seq<u8>>, more: Seq<Seq<u8>>, error: Seq<char>)
    requires
        keys.len() > 0,
    ensures
        first_of(Ok(keys)) == Ok::<Option<Seq<u8>>, Seq<char>>(Some(keys[0])),
        first_of(Ok(keys + more)) == first_of(Ok(keys)),
        first_of(Ok(Seq::empty())) == Ok::<Option<Seq<u8>>, Seq<char>>(None),
        first_of(Err(error)) == Err::<Option<Seq<u8>>, Seq<char>>(error),
{
}

/// A sender or an admin client uses the last key of the first form of which there
/// are any; keys of later forms do not matter then, and errors in reading earlier
/// ones do.
pub proof fn law_last_key_of_the_first_form_is_used(
    keys: Seq<Seq<u8>>,
    key: Seq<u8>,
    a: Result<Seq<Seq<u8>>, Seq<char>>,
    b: Result<Seq<Seq<u8>>, Seq<char>>,
    error: Seq<char>,
)
    ensures
        last_of(Ok(keys.push(key)), a, b) == Ok::<Option<(KeyForm, Seq<u8>)>, Seq<char>>(
            Some((KeyForm::Pkcs8, key)),
        ),
        last_of(Ok(Seq::empty()), Ok(keys.push(key)), a) == Ok::<
            Option<(KeyForm, Seq<u8>)>,
            Seq<char>,
        >(Some((KeyForm::Pkcs1, key))),
        last_of(Ok(Seq::empty()), Ok(Seq::empty()), Ok(keys.push(key))) == Ok::<
            Option<(KeyForm, Seq<u8>)>,
            Seq<char>,
        >(Some((KeyForm::Sec1, key))),
        last_of(Ok(Seq::empty()), Ok(Seq::empty()), Ok(Seq::empty())) == Ok::<
            Option<(KeyForm, Seq<u8>)>,
            Seq<char>,
        >(None),
        last_of(Err(error), a, b) == Err::<Option<(KeyForm, Seq<u8>)>, Seq<char>>(error),
        last_of(Ok(Seq::empty()), Err(error), a) == Err::<Option<(KeyForm, Seq<u8>)>, Seq<char>>(
            error,
        ),
        last_of(Ok(Seq::empty()), Ok(Seq::empty()), Err(error)) == Err::<
            Option<(KeyForm, Seq<u8>)>,
            Seq<char>,
        >(error),
{
}

/// Keys and errors are seen as they are, byte for byte and text for text.
pub proof fn law_keys_are_seen_whole(
    keys: Result<Vec<Vec<u8>>, String>,
    key: Result<Option<Vec<u8>>, String>,
    formed: Result<Option<(KeyForm, Vec<u8>)>, String>,
)
    ensures
        keys matches Ok(v) ==> as_keys(keys) == Ok::<Seq<Seq<u8>>, Seq<char>>(v.deep_view()),
        keys matches Err(e) ==> as_keys(keys) == Err::<Seq<Seq<u8>>, Seq<char>>(e@),
        key matches Ok(Some(k)) ==> as_key(key) == Ok::<Option<Seq<u8>>, Seq<char>>(Some(k@)),
        key matches Ok(None) ==> as_key(key) == Ok::<Option<Seq<u8>>, Seq<char>>(None),
        key matches Err(e) ==> as_key(key) == Err::<Option<Seq<u8>>, Seq<char>>(e@),
        formed matches Ok(Some(k)) ==> as_formed_key(formed) == Ok::<
            Option<(KeyForm, Seq<u8>)>,
            Seq<char>,
        >(Some((k.0, k.1@))),
        formed matches Ok(None) ==> as_formed_key(formed) == Ok::<
            Option<(KeyForm, Seq<u8>)>,
            Seq<char>,
        >(None),
        formed matches Err(e) ==> as_formed_key(formed) == Err::<
            Option<(KeyForm, Seq<u8>)>,
            Seq<char>,
        >(e@),
{
}

} // verus!
