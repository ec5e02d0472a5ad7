//! The certificate of this client, and which names it may be asked by.
use vstd::prelude::*;

use crate::server::pkcs12::{is_readable, read_certs, read_keys};

verus! {

/// Rows of bytes as sequences.
pub open spec fn byte_rows(rows: Seq<Vec<u8>>) -> Seq<Seq<u8>> {
    rows.map_values(|row: Vec<u8>| row@)
}

/// Rows of bytes as sequences, if there are any.
pub open spec fn opt_rows(rows: Option<Vec<Vec<u8>>>) -> Option<Seq<Seq<u8>>> {
    match rows {
        Some(list) => Some(byte_rows(list@)),
        None => None,
    }
}

/// Whether a certificate is valid for a name.
pub uninterp spec fn name_covered(cert: Seq<u8>, name: Seq<char>) -> bool;

/// `rustls::client::verify_server_name`, on the certificate and the name that `rustls` reads from the
/// arguments; what cannot be read is not valid. The result depends on the certificate and the name
/// alone.
#[verifier::external_body]
fn verify_name(cert: &[u8], name: &str) -> (r: bool)
    ensures
        r == name_covered(cert@, name@),
{
    let der = rustls::pki_types::CertificateDer::from(cert);
    let cert = rustls::server::ParsedCertificate::try_from(&der);
    let name = rustls::pki_types::ServerName::try_from(name);
    match (cert, name) {
        (Ok(cert), Ok(name)) => rustls::client::verify_server_name(&cert, &name).is_ok(),
        _ => false,
    }
}

/// A certificate chain and the key that belongs to it.
#[derive(Debug)]
pub struct ParsedCert {
    certs: Vec<Vec<u8>>,
    key: Vec<u8>,
}

impl ParsedCert {
    /// The certificates, that of this client first.
    pub closed spec fn chain(&self) -> Seq<Seq<u8>> {
        byte_rows(self.certs@)
    }

    /// The private key.
    pub closed spec fn secret(&self) -> Seq<u8> {
        self.key@
    }

    /// The certificates and the last of the keys of a file, `None` if either cannot be read or there
    /// is no key.
    pub fn from_bags(keys: Option<Vec<Vec<u8>>>, certs: Option<Vec<Vec<u8>>>) -> (r: Option<ParsedCert>)
        ensures
            match r {
                Some(cert) => (opt_rows(keys) matches Some(k) && k.len() > 0 && cert.secret()
                    == k.last()) && opt_rows(certs) == Some(cert.chain()),
                None => !(opt_rows(keys) matches Some(k) && k.len() > 0) || certs is None,
            },
    {
        match (keys, certs) {
            (Some(keys), Some(certs)) => {
                let mut keys = keys;
                assert(byte_rows(keys@).len() == keys@.len());
                assert(keys@.len() > 0 ==> byte_rows(keys@).last() == keys@.last()@);
                match keys.pop() {
                    Some(key) => Some(ParsedCert { certs, key }),
                    None => None,
                }
            },
            _ => None,
        }
    }

    /// The certificates and the last of the keys of a PKCS #12 file. A file is opened only if it can be
    /// read with the password.
    pub fn from_p12(p12: &[u8], password: &str) -> (r: Option<ParsedCert>)
        ensures
            ({
                let keys = crate::server::pkcs12::p12_keys(p12@, password@);
                let certs = crate::server::pkcs12::p12_certs(p12@, password@);
                let readable = crate::server::pkcs12::can_be_read(
                    p12@,
                    crate::server::pkcs12::password_bytes(password@),
                );
                match r {
                    Some(cert) => readable && (keys matches Some(k) && k.len() > 0 && cert.secret()
                        == k.last()) && certs == Some(cert.chain()),
                    None => !readable || !(keys matches Some(k) && k.len() > 0) || certs is None,
                }
            }),
    {
        if !is_readable(p12, password) {
            return None;
        }
        let keys = read_keys(p12, password);
        let certs = read_certs(p12, password);
        ParsedCert::from_bags(keys, certs)
    }

    /// The certificates, that of this client first.
    pub fn certs(&self) -> (r: &Vec<Vec<u8>>)
        ensures
            byte_rows(r@) == self.chain(),
    {
        &self.certs
    }

    /// The private key.
    pub fn key(&self) -> (r: &Vec<u8>)
        ensures
            r@ == self.secret(),
    {
        &self.key
    }
}

/// Whether a chain and a key belong together, as far as that can be told.
pub uninterp spec fn pair_accepted(chain: Seq<Seq<u8>>, key: Seq<u8>) -> bool;

/// `rustls::sign::CertifiedKey::from_der`, with the keys that `rustls` reads through `aws_lc_rs`: a key
/// that can be read, and a chain whose first certificate belongs to it, are accepted. The answer
/// depends on the chain and the key alone.
#[verifier::external_body]
fn accepts(certs: &Vec<Vec<u8>>, key: &Vec<u8>) -> (r: bool)
    ensures
        r == pair_accepted(byte_rows(certs@), key@),
{
    let chain = certs.iter().map(|der| rustls::pki_types::CertificateDer::from(der.clone())).collect();
    let key = rustls::pki_types::PrivatePkcs8KeyDer::from(key.clone());
    let provider = rustls::crypto::aws_lc_rs::default_provider();
    rustls::sign::CertifiedKey::from_der(chain, key.into(), &provider).is_ok()
}

/// The chain and the key do not belong together, or cannot be read.
#[derive(Clone, Copy, PartialEq, Eq, Structural, Debug)]
pub struct CertRefused;

/// The certificate that is shown to clients.
#[derive(Debug)]
pub struct CertStore {
    cert: ParsedCert,
    strict: bool,
}

/// Whether a client is shown the certificate: in strict mode it must ask by a name that the
/// certificate is valid for.
pub open spec fn shown_to(strict: bool, chain: Seq<Seq<u8>>, server_name: Option<Seq<char>>) -> bool {
    !strict || (chain.len() > 0 && (server_name matches Some(name) && name_covered(chain[0], name)))
}

impl CertStore {
    /// The certificates, that of this client first.
    pub closed spec fn chain(&self) -> Seq<Seq<u8>> {
        self.cert.chain()
    }

    /// The private key.
    pub closed spec fn secret(&self) -> Seq<u8> {
        self.cert.secret()
    }

    /// Whether clients must ask by a valid name.
    pub closed spec fn is_strict(&self) -> bool {
        self.strict
    }

    /// Only a chain and a key that belong together are shown.
    pub open spec fn wf(&self) -> bool {
        pair_accepted(self.chain(), self.secret())
    }

    /// Shows a certificate that belongs to its key.
    pub fn new(cert: ParsedCert, strict: bool) -> (r: CertStore)
        requires
            pair_accepted(cert.chain(), cert.secret()),
        ensures
            r.wf(),
            r.chain() == cert.chain(),
            r.secret() == cert.secret(),
            r.is_strict() == strict,
    {
        CertStore { cert, strict }
    }

    /// Shows a certificate, if it belongs to its key.
    pub fn open(cert: ParsedCert, strict: bool) -> (r: Result<CertStore, CertRefused>)
        ensures
            match r {
                Ok(store) => pair_accepted(cert.chain(), cert.secret()) && store.wf() && store.chain()
                    == cert.chain() && store.secret() == cert.secret() && store.is_strict() == strict,
                Err(_) => !pair_accepted(cert.chain(), cert.secret()),
            },
    {
        if accepts(&cert.certs, &cert.key) {
            Ok(CertStore::new(cert, strict))
        } else {
            Err(CertRefused)
        }
    }

    /// Shows another certificate from now on, if it belongs to its key. If not, the old one is shown as
    /// before.
    pub fn update(&mut self, cert: ParsedCert) -> (r: Result<(), CertRefused>)
        requires
            old(self).wf(),
        ensures
            final(self).wf(),
            final(self).is_strict() == old(self).is_strict(),
            r is Ok <==> pair_accepted(cert.chain(), cert.secret()),
            final(self).chain() == if r is Ok {
                cert.chain()
            } else {
                old(self).chain()
            },
            final(self).secret() == if r is Ok {
                cert.secret()
            } else {
                old(self).secret()
            },
    {
        if accepts(&cert.certs, &cert.key) {
            self.cert = cert;
            Ok(())
        } else {
            Err(CertRefused)
        }
    }

    /// Whether a client that asks by a name is shown the certificate.
    pub fn resolve(&self, server_name: Option<&str>) -> (r: bool)
        ensures
            r == shown_to(self.is_strict(), self.chain(), crate::text::opt_str(server_name)),
    {
        if !self.strict {
            return true;
        }
        match server_name {
            Some(name) => {
                if self.cert.certs.len() == 0 {
                    return false;
                }
                assert(self.chain()[0] == self.cert.certs@[0]@);
                verify_name(self.cert.certs[0].as_slice(), name)
            },
            None => false,
        }
    }
}

/// A certificate that does not belong to its key is never shown: what was shown before is shown as before, to
/// the same clients. One that does is shown from then on, to the clients that ask by its names.
pub proof fn refused_certificate_changes_nothing(
    store: &mut CertStore,
    cert: ParsedCert,
    r: Result<(), CertRefused>,
    name: Option<&str>,
    before: bool,
    after: bool,
)
    requires
        call_ensures(CertStore::update, (store, cert), r),
        call_ensures(CertStore::resolve, (old(store), name), before),
        call_ensures(CertStore::resolve, (final(store), name), after),
    ensures
        r is Ok <==> pair_accepted(cert.chain(), cert.secret()),
        r is Err ==> after == before && final(store).chain() == old(store).chain() && final(store).secret() == old(
            store).secret(),
        r is Ok ==> final(store).chain() == cert.chain() && final(store).secret() == cert.secret(),
        r is Ok && final(store).is_strict() ==> (after <==> cert.chain().len() > 0 && (name matches Some(text)
            && name_covered(cert.chain()[0], text@))),
        !final(store).is_strict() ==> after,
        final(store).is_strict() == old(store).is_strict(),
{
}

/// A strict server shows its certificate to nobody who asks by no name, nor by one that it is not valid for;
/// another one shows it to everybody.
pub proof fn strict_server_wants_a_name(store: &CertStore, name: &str, r: bool, none: bool)
    requires
        call_ensures(CertStore::resolve, (store, Some(name)), r),
        call_ensures(CertStore::resolve, (store, None), none),
    ensures
        store.is_strict() ==> !none,
        store.is_strict() && store.chain().len() > 0 ==> (r <==> name_covered(store.chain()[0], name@)),
        !store.is_strict() ==> r && none,
{
}

/// A server starts only with a certificate that belongs to its key, and as strictly as it is told.
pub proof fn server_starts_with_its_certificate(cert: ParsedCert, strict: bool, r: Result<CertStore, CertRefused>)
    requires
        call_ensures(CertStore::open, (cert, strict), r),
    ensures
        r is Ok <==> pair_accepted(cert.chain(), cert.secret()),
        r matches Ok(store) ==> store.chain() == cert.chain() && store.secret() == cert.secret()
            && store.is_strict() == strict,
{
}

/// The last key of a file is taken, with all its certificates in order; without a key there is no certificate,
/// nor without a list of certificates.
pub proof fn last_key_is_taken(keys: Option<Vec<Vec<u8>>>, certs: Option<Vec<Vec<u8>>>, r: Option<ParsedCert>)
    requires
        call_ensures(ParsedCert::from_bags, (keys, certs), r),
    ensures
        r is Some <==> (keys matches Some(list) && list@.len() > 0) && certs is Some,
        r matches Some(cert) ==> cert.secret() == keys->0@[keys->0@.len() - 1]@ && cert.chain() == byte_rows(
            certs->0@,
        ),
{
}

/// A certificate from a file is the last key of the file, with all its certificates; a file that cannot be read
/// with the password gives none.
pub proof fn file_gives_its_certificate(p12: &[u8], password: &str, r: Option<ParsedCert>, readable: bool)
    requires
        call_ensures(ParsedCert::from_p12, (p12, password), r),
        call_ensures(crate::server::pkcs12::is_readable, (p12, password), readable),
    ensures
        !readable ==> r is None,
        r matches Some(cert) ==> crate::server::pkcs12::p12_certs(p12@, password@) == Some(cert.chain()) && (
        crate::server::pkcs12::p12_keys(p12@, password@) matches Some(keys) && keys.len() > 0 && cert.secret()
            == keys[keys.len() - 1]),
        readable && (crate::server::pkcs12::p12_keys(p12@, password@) matches Some(keys) && keys.len() > 0)
            && crate::server::pkcs12::p12_certs(p12@, password@) is Some ==> r is Some,
{
}

} // verus!
