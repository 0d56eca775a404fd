//! The certificates and the key of the listener, which clients need a certificate, and the
//! identity in a client's certificate with the role that it gives.
use crate::config;
use crate::config::{CertRoleView, MtlsConfig, MtlsView, TlsConfig, TlsView};
use crate::text;
use rustls::pki_types::PrivateKeyDer;
use vstd::prelude::*;
use vstd::slice::slice_subrange;
use x509_parser::extensions::GeneralName;

verus! {

/// Who a certificate is for.
#[derive(Debug, Clone)]
pub struct CertIdentity {
    pub common_name: Option<String>,
    pub sans: Vec<String>,
}

/// What a [`CertIdentity`] stands for.
pub struct IdentityView {
    pub common_name: Option<Seq<char>>,
    pub sans: Seq<Seq<char>>,
}

impl View for CertIdentity {
    type V = IdentityView;

    open spec fn view(&self) -> IdentityView {
        IdentityView {
            common_name: text::opt_text(self.common_name),
            sans: text::strings(self.sans@),
        }
    }
}

/// An alternative name in a certificate.
#[derive(Debug)]
pub enum SubjectName {
    Dns(String),
    Uri(String),
    Email(String),
    Other,
}

/// What a [`SubjectName`] stands for.
pub enum SubjectNameView {
    Dns(Seq<char>),
    Uri(Seq<char>),
    Email(Seq<char>),
    Other,
}

impl View for SubjectName {
    type V = SubjectNameView;

    open spec fn view(&self) -> SubjectNameView {
        match self {
            SubjectName::Dns(s) => SubjectNameView::Dns(s@),
            SubjectName::Uri(s) => SubjectNameView::Uri(s@),
            SubjectName::Email(s) => SubjectNameView::Email(s@),
            SubjectName::Other => SubjectNameView::Other,
        }
    }
}

/// The names in a certificate: its common names, where they are text, and its alternative names.
#[derive(Debug)]
pub struct CertNames {
    pub common_names: Vec<Option<String>>,
    pub alternatives: Vec<SubjectName>,
}

/// What [`CertNames`] stand for.
pub struct CertNamesView {
    pub common_names: Seq<Option<Seq<char>>>,
    pub alternatives: Seq<SubjectNameView>,
}

impl View for CertNames {
    type V = CertNamesView;

    open spec fn view(&self) -> CertNamesView {
        CertNamesView {
            common_names: Seq::new(
                self.common_names@.len(),
                |i: int| text::opt_text(self.common_names@[i]),
            ),
            alternatives: Seq::new(self.alternatives@.len(), |i: int| self.alternatives@[i]@),
        }
    }
}

/// The names that `x509_parser` reads from a certificate; `None` where it is none.
pub uninterp spec fn certificate_names(der: Seq<u8>) -> Option<CertNamesView>;

/// `x509_parser::parse_x509_certificate` reads a certificate, whose `subject` and
/// `subject_alternative_name` hold its names: they depend on the bytes alone.
#[verifier::external_body]
fn read_certificate(der: &[u8]) -> (r: Option<CertNames>)
    ensures
        match r {
            Some(n) => certificate_names(der@) == Some(n@),
            None => certificate_names(der@) is None,
        },
{
    let (_, cert) = x509_parser::parse_x509_certificate(der).ok()?;
    let names = cert.subject().iter_common_name();
    let common_names = names.map(|n| n.as_str().ok().map(str::to_string)).collect();
    let ext = cert.subject_alternative_name().ok().flatten();
    let alternatives = ext.map_or(Vec::new(), |e| e.value.general_names.iter().map(|n| match n {
        GeneralName::DNSName(s) => SubjectName::Dns(s.to_string()),
        GeneralName::URI(s) => SubjectName::Uri(s.to_string()),
        GeneralName::RFC822Name(s) => SubjectName::Email(s.to_string()),
        _ => SubjectName::Other,
    }).collect());
    Some(CertNames { common_names, alternatives })
}

/// The host names, addresses and resource names among the alternative names.
pub open spec fn usable_names(v: Seq<SubjectNameView>) -> Seq<Seq<char>>
    decreases v.len(),
{
    if v.len() == 0 {
        Seq::empty()
    } else {
        let earlier = usable_names(v.drop_last());
        match v.last() {
            SubjectNameView::Dns(s) => earlier.push(s),
            SubjectNameView::Uri(s) => earlier.push(s),
            SubjectNameView::Email(s) => earlier.push(s),
            SubjectNameView::Other => earlier,
        }
    }
}

/// The identity that the names in a certificate make up: its first common name, where that is
/// text, and its usable alternative names.
pub open spec fn identity_of(n: CertNamesView) -> IdentityView {
    IdentityView {
        common_name: if n.common_names.len() > 0 {
            n.common_names[0]
        } else {
            None
        },
        sans: usable_names(n.alternatives),
    }
}

/// The identity that the names in a certificate make up.
pub fn identity_from_names(n: &CertNames) -> (r: CertIdentity)
    ensures
        r@ == identity_of(n@),
{
    let common_name = if n.common_names.len() > 0 {
        text::copy_opt(&n.common_names[0])
    } else {
        None
    };
    let ghost all = n@.alternatives;
    let mut sans: Vec<String> = Vec::new();
    let mut i: usize = 0;
    assert(text::strings(sans@) =~= usable_names(all.take(0)));
    while i < n.alternatives.len()
        invariant
            i <= n.alternatives@.len(),
            all == n@.alternatives,
            text::strings(sans@) == usable_names(all.take(i as int)),
        decreases n.alternatives@.len() - i,
    {
        let ghost before = sans@;
        assert(all.take(i + 1).drop_last() =~= all.take(i as int));
        assert(all.take(i + 1).last() == n.alternatives@[i as int]@);
        match &n.alternatives[i] {
            SubjectName::Dns(s) => {
                sans.push(s.clone());
                assert(text::strings(sans@) =~= text::strings(before).push(s@));
            },
            SubjectName::Uri(s) => {
                sans.push(s.clone());
                assert(text::strings(sans@) =~= text::strings(before).push(s@));
            },
            SubjectName::Email(s) => {
                sans.push(s.clone());
                assert(text::strings(sans@) =~= text::strings(before).push(s@));
            },
            SubjectName::Other => {},
        }
        i += 1;
    }
    assert(all.take(i as int) =~= all);
    CertIdentity { common_name, sans }
}

/// The identity in a certificate; `None` where the bytes are none.
pub fn extract_identity(cert_der: &[u8]) -> (r: Option<CertIdentity>)
    ensures
        match r {
            Some(id) => certificate_names(cert_der@) is Some && id@ == identity_of(
                certificate_names(cert_der@)->0,
            ),
            None => certificate_names(cert_der@) is None,
        },
{
    match read_certificate(cert_der) {
        Some(n) => Some(identity_from_names(&n)),
        None => None,
    }
}

/// Whether a pattern stands for a name: it is the name, or has a wildcard in place of the name's
/// first label.
pub open spec fn name_matches(pattern: Seq<char>, value: Seq<char>) -> bool {
    let dot = text::find_char(value, '.');
    ||| pattern == value
    ||| text::begins_with(pattern, "*."@) && dot < value.len() && value.skip(dot + 1)
        == pattern.skip(2)
}

/// Whether a pattern stands for a name.
pub fn cn_match(pattern: &str, value: &str) -> (r: bool)
    ensures
        r == name_matches(pattern@, value@),
{
    if text::same(pattern, value) {
        return true;
    }
    let p = text::chars_of(pattern);
    let v = text::chars_of(value);
    let star = text::chars_of("*.");
    proof {
        reveal_strlit("*.");
    }
    if !text::has_prefix(p.as_slice(), star.as_slice()) {
        return false;
    }
    let dot: usize = text::position_of(v.as_slice(), '.');
    if dot >= v.len() {
        return false;
    }
    let rest = slice_subrange(p.as_slice(), 2, p.len());
    let tail = slice_subrange(v.as_slice(), dot + 1, v.len());
    assert(rest@ =~= pattern@.skip(2));
    assert(tail@ =~= value@.skip(dot + 1));
    text::chars_same(tail, rest)
}

/// The names of an identity: its common name, then its alternative names.
pub open spec fn names_of(id: IdentityView) -> Seq<Seq<char>> {
    match id.common_name {
        Some(n) => seq![n] + id.sans,
        None => id.sans,
    }
}

/// Whether a mapping's pattern stands for one of the names.
pub open spec fn mapping_matches(m: CertRoleView, names: Seq<Seq<char>>) -> bool {
    exists|i: int| 0 <= i < names.len() && name_matches(m.cn, #[trigger] names[i])
}

/// The role of the first mapping whose pattern stands for one of the names.
pub open spec fn mapped_role(map: Seq<CertRoleView>, names: Seq<Seq<char>>) -> Option<Seq<char>>
    decreases map.len(),
{
    if map.len() == 0 {
        None
    } else if mapping_matches(map[0], names) {
        Some(map[0].role)
    } else {
        mapped_role(map.skip(1), names)
    }
}

/// The role of an identity: that of the first mapping that matches, else the default role.
pub open spec fn mtls_role(id: IdentityView, mtls: Option<MtlsView>) -> Option<Seq<char>> {
    match mtls {
        Some(m) => {
            let mapped = match m.cert_role_map {
                Some(map) => mapped_role(map, names_of(id)),
                None => None,
            };
            if mapped is Some {
                mapped
            } else {
                m.default_role
            }
        },
        None => None,
    }
}

fn any_name_matches(pattern: &str, id: &CertIdentity) -> (r: bool)
    ensures
        r == exists|i: int|
            0 <= i < names_of(id@).len() && name_matches(pattern@, #[trigger] names_of(id@)[i]),
{
    let ghost names = names_of(id@);
    if let Some(n) = &id.common_name {
        if cn_match(pattern, n.as_str()) {
            assert(names[0] == n@);
            return true;
        }
    }
    let ghost offset: int = if id.common_name is Some {
        1
    } else {
        0
    };
    let mut i: usize = 0;
    while i < id.sans.len()
        invariant
            i <= id.sans@.len(),
            names == names_of(id@),
            names.len() == offset + id.sans@.len(),
            forall|k: int| 0 <= k < id.sans@.len() ==> names[offset + k] == #[trigger] id.sans@[k]@,
            offset == 0 || offset == 1,
            forall|j: int| 0 <= j < offset + i ==> !name_matches(pattern@, #[trigger] names[j]),
        decreases id.sans@.len() - i,
    {
        assert(names[offset + i] == id.sans@[i as int]@);
        if cn_match(pattern, id.sans[i].as_str()) {
            assert(name_matches(pattern@, names[offset + i]));
            return true;
        }
        i += 1;
    }
    false
}

/// The role of an identity.
pub fn resolve_mtls_role(identity: &CertIdentity, mtls: Option<&MtlsConfig>) -> (r: Option<String>)
    ensures
        text::opt_text(r) == mtls_role(
            identity@,
            match mtls {
                Some(m) => Some(m@),
                None => None,
            },
        ),
{
    match mtls {
        Some(m) => {
            if let Some(map) = &m.cert_role_map {
                let ghost list = config::cert_role_list(map@);
                let ghost names = names_of(identity@);
                let mut i: usize = 0;
                assert(list.skip(0) =~= list);
                while i < map.len()
                    invariant
                        i <= map@.len(),
                        mtls == Some(m),
                        m.cert_role_map == Some(*map),
                        list == config::cert_role_list(map@),
                        names == names_of(identity@),
                        mapped_role(list, names) == mapped_role(list.skip(i as int), names),
                    decreases map@.len() - i,
                {
                    assert(list.skip(i as int)[0] == map@[i as int]@);
                    assert(list.skip(i as int).skip(1) =~= list.skip(i + 1));
                    if any_name_matches(map[i].cn.as_str(), identity) {
                        assert(mapping_matches(map@[i as int]@, names));
                        return Some(map[i].role.clone());
                    }
                    assert(!mapping_matches(map@[i as int]@, names));
                    i += 1;
                }
            }
            text::copy_opt(&m.default_role)
        },
        None => None,
    }
}

/// An identity that no mapping matches has the default role and no other: a name is never used as
/// a role.
pub proof fn law_unmapped_identity_has_the_default_role(
    id: IdentityView,
    m: MtlsView,
)
    requires
        m.cert_role_map is Some ==> forall|i: int|
            0 <= i < m.cert_role_map->0.len() ==> !mapping_matches(
                #[trigger] m.cert_role_map->0[i],
                names_of(id),
            ),
    ensures
        mtls_role(id, Some(m)) == m.default_role,
{
    if m.cert_role_map is Some {
        lemma_no_mapping(m.cert_role_map->0, names_of(id));
    }
}

proof fn lemma_no_mapping(map: Seq<CertRoleView>, names: Seq<Seq<char>>)
    requires
        forall|i: int| 0 <= i < map.len() ==> !mapping_matches(#[trigger] map[i], names),
    ensures
        mapped_role(map, names) is None,
    decreases map.len(),
{
    if map.len() > 0 {
        assert forall|i: int| 0 <= i < map.skip(1).len() implies !mapping_matches(
            #[trigger] map.skip(1)[i],
            names,
        ) by {
            assert(map.skip(1)[i] == map[i + 1]);
        }
        lemma_no_mapping(map.skip(1), names);
    }
}

/// The first mapping that matches decides, whatever the ones after it say.
pub proof fn law_first_matching_mapping_decides(
    map: Seq<CertRoleView>,
    names: Seq<Seq<char>>,
    i: int,
)
    requires
        0 <= i < map.len(),
        mapping_matches(map[i], names),
        forall|j: int| 0 <= j < i ==> !mapping_matches(#[trigger] map[j], names),
    ensures
        mapped_role(map, names) == Some(map[i].role),
    decreases i,
{
    if i > 0 {
        let rest = map.skip(1);
        assert forall|j: int| 0 <= j < i - 1 implies !mapping_matches(
            #[trigger] rest[j],
            names,
        ) by {
            assert(rest[j] == map[j + 1]);
        }
        law_first_matching_mapping_decides(rest, names, i - 1);
    }
}

/// The label before the first dot of a name.
pub open spec fn first_label(value: Seq<char>) -> Seq<char> {
    value.take(text::find_char(value, '.'))
}

/// A wildcard stands for one label: it matches the names of a label and the domain, and, but for
/// the pattern itself, no others.
pub proof fn law_wildcard_stands_for_one_label(
    pattern: Seq<char>,
    label: Seq<char>,
    domain: Seq<char>,
    other: Seq<char>,
)
    requires
        pattern == "*."@ + domain,
        !label.contains('.'),
    ensures
        name_matches(pattern, label + seq!['.'] + domain),
        name_matches(pattern, other) && other != pattern ==> other == first_label(other) + seq!['.']
            + domain && !first_label(other).contains('.'),
{
    reveal_strlit("*.");
    let value = label + seq!['.'] + domain;
    let dot = text::find_char(other, '.');
    text::lemma_find_char(other, '.');
    assert(pattern.skip(2) =~= domain);
    if dot < other.len() && other.skip(dot + 1) == domain {
        assert(other =~= first_label(other) + seq!['.'] + domain) by {
            assert(forall|k: int|
                dot < k < other.len() ==> #[trigger] other[k] == other.skip(dot + 1)[k - dot - 1]);
        }
    }
    assert forall|j: int| 0 <= j < label.len() implies value[j] != '.' by {
        assert(value[j] == label[j]);
        assert(label.contains(label[j]));
    }
    text::lemma_find_char_unique(value, '.', label.len() as int);
    assert(value.skip(label.len() as int + 1) =~= domain);
    assert(pattern.skip(2) =~= domain);
    assert(pattern.subrange(0, 2) =~= "*."@);
}

/// What a list of byte strings stands for.
pub open spec fn byte_lists(v: Seq<Vec<u8>>) -> Seq<Seq<u8>> {
    Seq::new(v.len(), |i: int| v[i]@)
}

/// What reading certificates gave.
pub open spec fn certificates_read(r: Result<Vec<Vec<u8>>, String>) -> Result<
    Seq<Seq<u8>>,
    Seq<char>,
> {
    match r {
        Ok(v) => Ok(byte_lists(v@)),
        Err(e) => Err(e@),
    }
}

/// The certificates that `rustls_pemfile` finds in a PEM text, in their order, or what is wrong
/// with the text.
pub uninterp spec fn pem_certs(pem: Seq<u8>) -> Result<Seq<Seq<u8>>, Seq<char>>;

/// `rustls_pemfile::certs` reads the certificates of a PEM text, up to the first section that it
/// cannot read: what it gives depends on the bytes alone.
#[verifier::external_body]
fn read_certificates(pem: &[u8]) -> (r: Result<Vec<Vec<u8>>, String>)
    ensures
        certificates_read(r) == pem_certs(pem@),
{
    let mut rest = pem;
    rustls_pemfile::certs(&mut rest)
        .map(|c| c.map(|der| der.to_vec()).map_err(|e| e.to_string()))
        .collect()
}

/// The form in which a private key is written: PKCS#1, PKCS#8 or SEC1.
#[derive(Debug, Clone, Copy, PartialEq, Eq, Structural)]
pub enum KeyKind {
    Pkcs1,
    Pkcs8,
    Sec1,
    Other,
}

/// A private key.
pub struct PrivateKey {
    pub kind: KeyKind,
    pub der: Vec<u8>,
}

/// What a [`PrivateKey`] stands for.
pub struct PrivateKeyView {
    pub kind: KeyKind,
    pub der: Seq<u8>,
}

impl View for PrivateKey {
    type V = PrivateKeyView;

    open spec fn view(&self) -> PrivateKeyView {
        PrivateKeyView { kind: self.kind, der: self.der@ }
    }
}

/// What reading a private key gave.
pub open spec fn key_read(r: Result<Option<PrivateKey>, String>) -> Result<
    Option<PrivateKeyView>,
    Seq<char>,
> {
    match r {
        Ok(Some(k)) => Ok(Some(k@)),
        Ok(None) => Ok(None),
        Err(e) => Err(e@),
    }
}

/// Whether a key that was read is of one of the known forms.
pub open spec fn kind_is_known(found: Result<Option<PrivateKeyView>, Seq<char>>) -> bool {
    match found {
        Ok(Some(k)) => k.kind != KeyKind::Other,
        _ => true,
    }
}

/// The first private key that `rustls_pemfile` finds in a PEM text, or what is wrong with the
/// text before it.
pub uninterp spec fn pem_key(pem: Seq<u8>) -> Result<Option<PrivateKeyView>, Seq<char>>;

/// `rustls_pemfile::private_key` reads the first private key of a PEM text: what it gives depends
/// on the bytes alone, and is a PKCS#1, a PKCS#8 or a SEC1 key.
#[verifier::external_body]
fn read_private_key(pem: &[u8]) -> (r: Result<Option<PrivateKey>, String>)
    ensures
        key_read(r) == pem_key(pem@),
        kind_is_known(key_read(r)),
{
    let mut rest = pem;
    let found = rustls_pemfile::private_key(&mut rest).map_err(|e| e.to_string())?;
    Ok(found.map(|k| PrivateKey {
        kind: match &k {
            PrivateKeyDer::Pkcs1(_) => KeyKind::Pkcs1,
            PrivateKeyDer::Pkcs8(_) => KeyKind::Pkcs8,
            PrivateKeyDer::Sec1(_) => KeyKind::Sec1,
            _ => KeyKind::Other,
        },
        der: k.secret_der().to_vec(),
    }))
}

/// The certificates for the listener or for checking clients, or why there are none.
pub open spec fn accepted_certificates(
    found: Result<Seq<Seq<u8>>, Seq<char>>,
    path: Seq<char>,
) -> Result<Seq<Seq<u8>>, Seq<char>> {
    match found {
        Ok(v) => if v.len() == 0 {
            Err("no certificates found in "@ + path)
        } else {
            Ok(v)
        },
        Err(e) => Err("parse cert failed: "@ + e),
    }
}

/// The certificates that were found in the file at `path`, or why there are none.
pub fn accept_certificates(found: Result<Vec<Vec<u8>>, String>, path: &str) -> (r: Result<
    Vec<Vec<u8>>,
    String,
>)
    ensures
        certificates_read(r) == accepted_certificates(certificates_read(found), path@),
{
    match found {
        Ok(v) => {
            if v.len() == 0 {
                let mut message = "no certificates found in ".to_string();
                message.append(path);
                Err(message)
            } else {
                Ok(v)
            }
        },
        Err(e) => {
            let mut message = "parse cert failed: ".to_string();
            message.append(e.as_str());
            Err(message)
        },
    }
}

/// The certificates in the PEM text of the file at `path`, or why there are none.
pub fn certificates_in(pem: &[u8], path: &str) -> (r: Result<Vec<Vec<u8>>, String>)
    ensures
        certificates_read(r) == accepted_certificates(pem_certs(pem@), path@),
{
    accept_certificates(read_certificates(pem), path)
}

/// The private key that is used, or why there is none.
pub open spec fn accepted_key(
    found: Result<Option<PrivateKeyView>, Seq<char>>,
    path: Seq<char>,
) -> Result<PrivateKeyView, Seq<char>> {
    match found {
        Ok(Some(k)) => Ok(k),
        Ok(None) => Err("no private key found in "@ + path),
        Err(e) => Err("parse key failed: "@ + e),
    }
}

/// The private key that was found in the file at `path`, or why there is none.
pub fn accept_private_key(found: Result<Option<PrivateKey>, String>, path: &str) -> (r: Result<
    PrivateKey,
    String,
>)
    ensures
        match r {
            Ok(k) => accepted_key(key_read(found), path@) == Ok::<PrivateKeyView, Seq<char>>(k@),
            Err(e) => accepted_key(key_read(found), path@) == Err::<PrivateKeyView, Seq<char>>(e@),
        },
{
    match found {
        Ok(Some(k)) => Ok(k),
        Ok(None) => {
            let mut message = "no private key found in ".to_string();
            message.append(path);
            Err(message)
        },
        Err(e) => {
            let mut message = "parse key failed: ".to_string();
            message.append(e.as_str());
            Err(message)
        },
    }
}

/// The private key in the PEM text of the file at `path`, or why there is none. A key is a PKCS#1,
/// a PKCS#8 or a SEC1 key.
pub fn private_key_in(pem: &[u8], path: &str) -> (r: Result<PrivateKey, String>)
    ensures
        match r {
            Ok(k) => accepted_key(pem_key(pem@), path@) == Ok::<PrivateKeyView, Seq<char>>(k@)
                && k.kind != KeyKind::Other,
            Err(e) => accepted_key(pem_key(pem@), path@) == Err::<PrivateKeyView, Seq<char>>(e@),
        },
{
    accept_private_key(read_private_key(pem), path)
}

/// Whether clients show a certificate: they are not asked for one, may show one, or must.
#[derive(Debug, Clone, Copy, PartialEq, Eq, Structural)]
pub enum ClientAuth {
    NotAsked,
    Optional,
    Required,
}

/// What TLS settings say of the certificates of clients. One cannot be required where nobody is
/// named who may have signed it.
pub open spec fn client_auth_of(t: TlsView) -> Result<ClientAuth, Seq<char>> {
    match (t.client_ca, t.require_client_cert) {
        (None, Some(true)) => Err("require_client_cert is set but client_ca is not"@),
        (None, _) => Ok(ClientAuth::NotAsked),
        (Some(_), Some(true)) => Ok(ClientAuth::Required),
        (Some(_), _) => Ok(ClientAuth::Optional),
    }
}

/// Whether clients show a certificate, or why the settings make no sense.
pub fn client_auth(tls: &TlsConfig) -> (r: Result<ClientAuth, String>)
    ensures
        match r {
            Ok(a) => client_auth_of(tls@) == Ok::<ClientAuth, Seq<char>>(a),
            Err(e) => client_auth_of(tls@) == Err::<ClientAuth, Seq<char>>(e@),
        },
{
    let required = match tls.require_client_cert {
        Some(b) => b,
        None => false,
    };
    match &tls.client_ca {
        Some(_) => {
            if required {
                Ok(ClientAuth::Required)
            } else {
                Ok(ClientAuth::Optional)
            }
        },
        None => {
            if required {
                Err("require_client_cert is set but client_ca is not".to_string())
            } else {
                Ok(ClientAuth::NotAsked)
            }
        },
    }
}

/// A client without a certificate gets in only where none is required, and settings that require
/// one are never taken to ask for less.
pub proof fn law_required_certificates_are_required(t: TlsView)
    requires
        t.require_client_cert == Some(true),
    ensures
        match client_auth_of(t) {
            Ok(a) => a == ClientAuth::Required,
            Err(_) => t.client_ca is None,
        },
{
}

/// The names of a certificate are its first common name and those of its other names that are
/// host names, URIs or mail addresses, in their order.
pub proof fn law_names_of_a_certificate(
    a: Seq<SubjectNameView>,
    b: Seq<SubjectNameView>,
    s: Seq<char>,
    cn: Seq<Option<Seq<char>>>,
)
    ensures
        usable_names(Seq::empty()) == Seq::<Seq<char>>::empty(),
        usable_names(seq![SubjectNameView::Dns(s)]) == seq![s],
        usable_names(seq![SubjectNameView::Uri(s)]) == seq![s],
        usable_names(seq![SubjectNameView::Email(s)]) == seq![s],
        usable_names(seq![SubjectNameView::Other]) == Seq::<Seq<char>>::empty(),
        usable_names(a + b) == usable_names(a) + usable_names(b),
        identity_of(CertNamesView { common_names: cn, alternatives: a }).sans == usable_names(a),
        cn.len() > 0 ==> identity_of(
            CertNamesView { common_names: cn, alternatives: a },
        ).common_name == cn[0],
        cn.len() == 0 ==> identity_of(
            CertNamesView { common_names: cn, alternatives: a },
        ).common_name is None,
    decreases b.len(),
{
    lemma_one_name(SubjectNameView::Dns(s));
    lemma_one_name(SubjectNameView::Uri(s));
    lemma_one_name(SubjectNameView::Email(s));
    lemma_one_name(SubjectNameView::Other);
    if b.len() == 0 {
        assert(a + b =~= a);
        assert(usable_names(a) + usable_names(b) =~= usable_names(a));
    } else {
        law_names_of_a_certificate(a, b.drop_last(), s, cn);
        assert((a + b).drop_last() =~= a + b.drop_last());
        assert((a + b).last() == b.last());
        assert(usable_names(a + b) =~= usable_names(a) + usable_names(b));
    }
}

proof fn lemma_one_name(n: SubjectNameView)
    ensures
        usable_names(seq![n]) == (match n {
            SubjectNameView::Dns(s) => seq![s],
            SubjectNameView::Uri(s) => seq![s],
            SubjectNameView::Email(s) => seq![s],
            SubjectNameView::Other => Seq::empty(),
        }),
{
    let none = Seq::<SubjectNameView>::empty();
    assert(seq![n].drop_last() =~= none);
    assert(usable_names(none) == Seq::<Seq<char>>::empty());
    assert(seq![n].last() == n);
}

/// A pattern that is no wildcard matches itself and nothing else.
pub proof fn law_plain_names_match_themselves(pattern: Seq<char>, value: Seq<char>)
    ensures
        name_matches(pattern, pattern),
        !(pattern.len() >= 2 && pattern[0] == '*' && pattern[1] == '.') && name_matches(
            pattern,
            value,
        ) ==> value == pattern,
{
    reveal_strlit("*.");
    text::law_beginning(pattern, "*."@);
    if text::begins_with(pattern, "*."@) {
        assert(pattern.take(2)[0] == pattern[0]);
        assert(pattern.take(2)[1] == pattern[1]);
    }
}

/// A mapping is met by a certificate exactly where it matches its common name or one of its other
/// names. The role is that of the first mapping that is met, else the default one; without
/// settings for certificates there is none.
pub proof fn law_role_of_a_certificate(id: IdentityView, m: MtlsView, map: Seq<CertRoleView>, i: int)
    requires
        m.cert_role_map == Some(map),
        0 <= i < map.len(),
        forall|k: int|
            0 <= k < i ==> !(id.common_name is Some && name_matches(
                (#[trigger] map[k]).cn,
                id.common_name->0,
            )) && !exists|j: int|
                0 <= j < id.sans.len() && name_matches(map[k].cn, #[trigger] id.sans[j]),
        (id.common_name is Some && name_matches(map[i].cn, id.common_name->0)) || exists|j: int|
            0 <= j < id.sans.len() && name_matches(map[i].cn, #[trigger] id.sans[j]),
    ensures
        mtls_role(id, Some(m)) == Some(map[i].role),
        mtls_role(id, None) is None,
        mtls_role(id, Some(MtlsView { cert_role_map: None, ..m })) == m.default_role,
{
    assert forall|k: int| 0 <= k < map.len() implies #[trigger] mapping_matches(
        map[k],
        names_of(id),
    ) == ((id.common_name is Some && name_matches(map[k].cn, id.common_name->0)) || exists|j: int|
        0 <= j < id.sans.len() && name_matches(map[k].cn, #[trigger] id.sans[j])) by {
        lemma_mapping_matches(id, map[k]);
    }
    assert(mapping_matches(map[i], names_of(id)));
    law_first_matching_mapping_decides(map, names_of(id), i);
}

proof fn lemma_mapping_matches(id: IdentityView, m: CertRoleView)
    ensures
        mapping_matches(m, names_of(id)) == ((id.common_name is Some && name_matches(
            m.cn,
            id.common_name->0,
        )) || exists|j: int| 0 <= j < id.sans.len() && name_matches(m.cn, #[trigger] id.sans[j])),
{
    let names = names_of(id);
    if id.common_name is Some {
        assert(names[0] == id.common_name->0);
    }
    if exists|j: int| 0 <= j < id.sans.len() && name_matches(m.cn, #[trigger] id.sans[j]) {
        let j = choose|j: int| 0 <= j < id.sans.len() && name_matches(m.cn, #[trigger] id.sans[j]);
        assert(names[names.len() - id.sans.len() + j] == id.sans[j]);
    }
    if mapping_matches(m, names) {
        let k = choose|k: int| 0 <= k < names.len() && name_matches(m.cn, #[trigger] names[k]);
        if k >= names.len() - id.sans.len() {
            assert(id.sans[k - (names.len() - id.sans.len())] == names[k]);
        }
    }
}

/// A file of certificates is accepted exactly where it can be read and holds one; a file of a key
/// where it can be read and holds one. Otherwise the error says what is wrong, with the file or
/// with what was found in it.
pub proof fn law_accepted_files(
    certs: Seq<Seq<u8>>,
    key: PrivateKeyView,
    e: Seq<char>,
    path: Seq<char>,
)
    ensures
        certs.len() > 0 ==> accepted_certificates(Ok(certs), path) == Ok::<
            Seq<Seq<u8>>,
            Seq<char>,
        >(certs),
        accepted_certificates(Ok(Seq::empty()), path) == Err::<Seq<Seq<u8>>, Seq<char>>(
            "no certificates found in "@ + path,
        ),
        accepted_certificates(Err(e), path) == Err::<Seq<Seq<u8>>, Seq<char>>(
            "parse cert failed: "@ + e,
        ),
        accepted_key(Ok(Some(key)), path) == Ok::<PrivateKeyView, Seq<char>>(key),
        accepted_key(Ok(None), path) == Err::<PrivateKeyView, Seq<char>>(
            "no private key found in "@ + path,
        ),
        accepted_key(Err(e), path) == Err::<PrivateKeyView, Seq<char>>("parse key failed: "@ + e),
{
}

/// Clients are asked for a certificate exactly where the settings name who may have signed it, and
/// must show one exactly where the settings say so as well.
pub proof fn law_certificates_are_asked_for(t: TlsView)
    ensures
        client_auth_of(t) is Err <==> t.client_ca is None && t.require_client_cert == Some(true),
        client_auth_of(t) == Ok::<ClientAuth, Seq<char>>(ClientAuth::NotAsked) <==> t.client_ca
            is None && t.require_client_cert != Some(true),
        client_auth_of(t) == Ok::<ClientAuth, Seq<char>>(ClientAuth::Required) <==> t.client_ca
            is Some && t.require_client_cert == Some(true),
        client_auth_of(t) == Ok::<ClientAuth, Seq<char>>(ClientAuth::Optional) <==> t.client_ca
            is Some && t.require_client_cert != Some(true),
        client_auth_of(t) is Err ==> client_auth_of(t)->Err_0
            == "require_client_cert is set but client_ca is not"@,
{
}

/// What a certificate's names and its identity stand for, field by field.
pub proof fn law_what_certificates_stand_for(id: CertIdentity, n: CertNames, s: SubjectName, i: int)
    ensures
        id@.common_name == text::opt_text(id.common_name),
        id@.sans == text::strings(id.sans@),
        n@.common_names.len() == n.common_names@.len(),
        0 <= i < n.common_names@.len() ==> n@.common_names[i] == text::opt_text(
            n.common_names@[i],
        ),
        n@.alternatives.len() == n.alternatives@.len(),
        0 <= i < n.alternatives@.len() ==> n@.alternatives[i] == n.alternatives@[i]@,
        s is Dns ==> s@ == SubjectNameView::Dns(s->Dns_0@),
        s is Uri ==> s@ == SubjectNameView::Uri(s->Uri_0@),
        s is Email ==> s@ == SubjectNameView::Email(s->Email_0@),
        s is Other ==> s@ == SubjectNameView::Other,
{
}

} // verus!
