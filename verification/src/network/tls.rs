//! Which certificates and keys a connection needs.

use vstd::prelude::*;

use crate::model::error::DbError;
use crate::text;

verus! {

/// How connections are secured.
#[derive(Debug)]
pub struct TlsConfig {
    pub enabled: bool,
    pub cert_path: Option<String>,
    pub key_path: Option<String>,
    /// Whether clients have to show a certificate too.
    pub mtls_enabled: bool,
    pub ca_cert_path: Option<String>,
}

impl Default for TlsConfig {
    fn default() -> (c: Self)
        ensures
            !c.enabled,
            c.cert_path is None,
            c.key_path is None,
            !c.mtls_enabled,
            c.ca_cert_path is None,
    {
        TlsConfig {
            enabled: false,
            cert_path: None,
            key_path: None,
            mtls_enabled: false,
            ca_cert_path: None,
        }
    }
}

/// The files of a certificate and its key.
#[derive(Debug)]
pub struct IdentityPaths {
    pub cert: String,
    pub key: String,
}

/// The files that a server reads.
#[derive(Debug)]
pub struct ServerTlsPaths {
    pub identity: IdentityPaths,
    pub client_ca: Option<String>,
}

/// What a client needs to connect.
#[derive(Debug)]
pub struct ClientTlsPaths {
    pub domain_name: String,
    pub ca_cert: Option<String>,
    pub identity: Option<IdentityPaths>,
}

/// The error of a secured server's identity.
pub open spec fn identity_error(tls: TlsConfig) -> Option<Seq<char>> {
    if tls.cert_path is None {
        Some("TLS cert_path required"@)
    } else if tls.key_path is None {
        Some("TLS key_path required"@)
    } else {
        None
    }
}

/// The certificate and the key of a secured server.
fn identity_of(tls: &TlsConfig) -> (r: Result<IdentityPaths, DbError>)
    ensures
        match (r, identity_error(*tls)) {
            (Ok(p), None) => p.cert@ == tls.cert_path->0@ && p.key@ == tls.key_path->0@,
            (Err(DbError::InvalidInput(m)), Some(text)) => m@ == text,
            _ => false,
        },
{
    let cert = match &tls.cert_path {
        Some(c) => c.clone(),
        None => {
            return Err(DbError::InvalidInput("TLS cert_path required".to_owned()));
        },
    };
    let key = match &tls.key_path {
        Some(k) => k.clone(),
        None => {
            return Err(DbError::InvalidInput("TLS key_path required".to_owned()));
        },
    };
    Ok(IdentityPaths { cert, key })
}

/// The error of a secured gRPC server: that of its identity, or that clients have to show
/// certificates and no authority is named for them.
pub open spec fn grpc_error(tls: TlsConfig) -> Option<Seq<char>> {
    match identity_error(tls) {
        Some(text) => Some(text),
        None => if tls.mtls_enabled && tls.ca_cert_path is None {
            Some("mTLS ca_cert_path required"@)
        } else {
            None
        },
    }
}

/// The files of a gRPC server, with that of the authority that vouches for clients where
/// they have to show certificates; `None` where connections are not secured.
pub fn build_grpc_server_tls(tls: &TlsConfig) -> (r: Result<Option<ServerTlsPaths>, DbError>)
    ensures
        match (r, grpc_error(*tls)) {
            (Ok(None), _) => !tls.enabled,
            (Ok(Some(p)), None) => {
                &&& tls.enabled
                &&& p.identity.cert@ == tls.cert_path->0@
                &&& p.identity.key@ == tls.key_path->0@
                &&& match p.client_ca {
                    Some(ca) => tls.mtls_enabled && ca@ == tls.ca_cert_path->0@,
                    None => !tls.mtls_enabled,
                }
            },
            (Err(DbError::InvalidInput(m)), Some(text)) => tls.enabled && m@ == text,
            _ => false,
        },
{
    if !tls.enabled {
        return Ok(None);
    }
    let identity = match identity_of(tls) {
        Ok(p) => p,
        Err(e) => {
            return Err(e);
        },
    };
    let client_ca = if tls.mtls_enabled {
        match &tls.ca_cert_path {
            Some(c) => Some(c.clone()),
            None => {
                return Err(DbError::InvalidInput("mTLS ca_cert_path required".to_owned()));
            },
        }
    } else {
        None
    };
    Ok(Some(ServerTlsPaths { identity, client_ca }))
}

/// The files of the HTTP server; `None` where connections are not secured.  It does
/// without an authority where none is named.
pub fn load_http_tls_config(tls: &TlsConfig) -> (r: Result<Option<ServerTlsPaths>, DbError>)
    ensures
        match (r, identity_error(*tls)) {
            (Ok(None), _) => !tls.enabled,
            (Ok(Some(p)), None) => {
                &&& tls.enabled
                &&& p.identity.cert@ == tls.cert_path->0@
                &&& p.identity.key@ == tls.key_path->0@
                &&& match p.client_ca {
                    Some(ca) => tls.mtls_enabled && tls.ca_cert_path is Some && ca@
                        == tls.ca_cert_path->0@,
                    None => !tls.mtls_enabled || tls.ca_cert_path is None,
                }
            },
            (Err(DbError::InvalidInput(m)), Some(text)) => tls.enabled && m@ == text,
            _ => false,
        },
{
    if !tls.enabled {
        return Ok(None);
    }
    let identity = match identity_of(tls) {
        Ok(p) => p,
        Err(e) => {
            return Err(e);
        },
    };
    let client_ca = if tls.mtls_enabled {
        match &tls.ca_cert_path {
            Some(c) => Some(c.clone()),
            None => None,
        }
    } else {
        None
    };
    Ok(Some(ServerTlsPaths { identity, client_ca }))
}

/// The files of a client: it has an identity only where both of its files are named.
pub fn build_grpc_client_tls(
    ca_cert_path: Option<String>,
    client_cert_path: Option<String>,
    client_key_path: Option<String>,
    domain_name: &str,
) -> (p: ClientTlsPaths)
    ensures
        p.domain_name@ == domain_name@,
        p.ca_cert == ca_cert_path,
        match p.identity {
            Some(i) => client_cert_path == Some(i.cert) && client_key_path == Some(i.key),
            None => client_cert_path is None || client_key_path is None,
        },
{
    let identity = match (client_cert_path, client_key_path) {
        (Some(cert), Some(key)) => Some(IdentityPaths { cert, key }),
        _ => None,
    };
    ClientTlsPaths { domain_name: domain_name.to_owned(), ca_cert: ca_cert_path, identity }
}

/// What a file is read for.
#[derive(Clone, Copy, Debug, PartialEq, Eq, Structural)]
pub enum PemFile {
    Cert,
    Key,
    CaCert,
}

impl PemFile {
    pub open spec fn spelled(self) -> Seq<char> {
        match self {
            PemFile::Cert => "cannot read cert '"@,
            PemFile::Key => "cannot read key '"@,
            PemFile::CaCert => "cannot read CA cert '"@,
        }
    }
}

/// The error of a file that cannot be read.
pub fn cannot_read(what: PemFile, path: &str, error: &str) -> (e: DbError)
    ensures
        e matches DbError::StorageError(m) && m@ == what.spelled() + path@ + "': "@ + error@,
{
    let start = match what {
        PemFile::Cert => "cannot read cert '",
        PemFile::Key => "cannot read key '",
        PemFile::CaCert => "cannot read CA cert '",
    };
    let mut m = text::concat3(start, path, "': ");
    m.append(error);
    DbError::StorageError(m)
}

// ---------------------------------------------------------------------------
// Laws
// ---------------------------------------------------------------------------

/// A secured server needs a certificate and a key, and a secured gRPC server whose clients
/// have to show certificates needs an authority too; the first that is missing is told.
pub proof fn missing_files_are_told(tls: TlsConfig)
    ensures
        tls.cert_path is None ==> identity_error(tls) == Some("TLS cert_path required"@),
        tls.cert_path is Some && tls.key_path is None ==> identity_error(tls) == Some(
            "TLS key_path required"@,
        ),
        tls.cert_path is Some && tls.key_path is Some ==> identity_error(tls) is None,
        identity_error(tls) is Some ==> grpc_error(tls) == identity_error(tls),
        identity_error(tls) is None && tls.mtls_enabled && tls.ca_cert_path is None ==> grpc_error(
            tls,
        ) == Some("mTLS ca_cert_path required"@),
        identity_error(tls) is None && (!tls.mtls_enabled || tls.ca_cert_path is Some)
            ==> grpc_error(tls) is None,
{
}

/// A file that cannot be read is named by what it is read for.
pub proof fn files_are_named_by_their_use()
    ensures
        PemFile::Cert.spelled() == "cannot read cert '"@,
        PemFile::Key.spelled() == "cannot read key '"@,
        PemFile::CaCert.spelled() == "cannot read CA cert '"@,
{
}

} // verus!
