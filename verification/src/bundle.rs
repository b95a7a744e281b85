//! Where the mail server is and which key it has, as a bundle tells it.

use vstd::prelude::*;

use crate::container::{file_entry, file_view, stored_file, stored_tlv, tlv_entry, tlv_view};
use crate::email::secret_bytes;
use crate::error::{ErrorKind, MailError};
use crate::keys::{
    is_x25519_spki_der, law_key_encoding_has_a_fixed_start, law_key_encoding_round_trips,
    parse_x25519_spki_der, x25519_spki_der,
};

verus! {

/// The TLV type of a bundle's identity secret, in the range that `.acai`
/// containers leave to applications (`0x8000..=0xFFFF`).
pub const LEDGER_SECRET_TLV_TYPE: u16 = 0xc001;

/// Where to reach the mail server: a fixed list of `host:port` addresses, or a
/// domain name and a port to resolve at connect time.
#[derive(Debug, Clone)]
pub enum MailServerConfig {
    Addresses { addresses: Vec<String> },
    Domain { domain: String, port: u16 },
}

/// What was found out about a [`MailServerConfig`].
pub enum Lookup<A> {
    /// Each of the addresses, in order, read as an address or with the reason why
    /// it is none.
    Parsed(Vec<Result<A, String>>),
    /// The addresses that the domain resolves to, or the reason why it does not
    /// resolve.
    Resolved(Result<Vec<A>, String>),
}

/// Whether `i` is the first place in `parsed` that holds no address.
pub open spec fn first_unparsed<A>(parsed: Seq<Result<A, String>>, i: int) -> bool {
    &&& 0 <= i < parsed.len()
    &&& parsed[i] is Err
    &&& forall|j: int| 0 <= j < i ==> #[trigger] parsed[j] is Ok
}

/// What is said about an address that is none.
pub open spec fn invalid_address(address: Seq<char>, reason: Seq<char>) -> Seq<char> {
    "invalid address '"@ + address + "': "@ + reason
}

/// What is said about a domain that does not resolve.
pub open spec fn unresolved_domain(domain: Seq<char>, reason: Seq<char>) -> Seq<char> {
    "failed to resolve '"@ + domain + "': "@ + reason
}

/// What is said about a domain without addresses.
pub open spec fn empty_domain(domain: Seq<char>) -> Seq<char> {
    "no addresses found for '"@ + domain + "'"@
}

impl MailServerConfig {
    /// Whether `lookup` answers this config: an answer for each address of a list,
    /// one answer for a domain.
    pub open spec fn answered_by<A>(self, lookup: Lookup<A>) -> bool {
        match (self, lookup) {
            (MailServerConfig::Addresses { addresses }, Lookup::Parsed(parsed)) => addresses@.len()
                == parsed@.len(),
            (MailServerConfig::Domain { .. }, Lookup::Resolved(_)) => true,
            _ => false,
        }
    }

    /// Whether `r` is what this config resolves to, with that answer to it.
    pub open spec fn resolves_to<A>(self, lookup: Lookup<A>, r: Result<Vec<A>, MailError>) -> bool {
        match (self, lookup) {
            (MailServerConfig::Addresses { addresses }, Lookup::Parsed(parsed)) => match r {
                Ok(candidates) => {
                    &&& parsed@.len() > 0
                    &&& candidates@.len() == parsed@.len()
                    &&& forall|i: int|
                        0 <= i < parsed@.len() ==> #[trigger] parsed@[i] == Ok::<A, String>(
                            candidates@[i],
                        )
                },
                Err(e) => if parsed@.len() == 0 {
                    e.says(ErrorKind::ConnectionError, "no mailserver addresses to try"@)
                } else {
                    exists|i: int| #[trigger]
                        first_unparsed(parsed@, i) && e.says(
                            ErrorKind::ConfigParsing,
                            invalid_address(addresses@[i]@, parsed@[i]->Err_0@),
                        )
                },
            },
            (MailServerConfig::Domain { domain, .. }, Lookup::Resolved(Ok(found))) => match r {
                Ok(candidates) => found@.len() > 0 && candidates == found,
                Err(e) => found@.len() == 0 && e.says(ErrorKind::NotFound, empty_domain(domain@)),
            },
            (MailServerConfig::Domain { domain, .. }, Lookup::Resolved(Err(reason))) => r is Err
                && r->Err_0.says(
                ErrorKind::ConnectionError,
                unresolved_domain(domain@, reason@),
            ),
            _ => true,
        }
    }

    /// One or more candidate addresses, in the order in which they are to be
    /// tried.
    ///
    /// A list may not be empty and every address in it must be one; a domain must
    /// have addresses.
    pub fn resolve<A>(&self, lookup: Lookup<A>) -> (r: Result<Vec<A>, MailError>)
        requires
            self.answered_by(lookup),
        ensures
            self.resolves_to(lookup, r),
            r is Ok ==> r->Ok_0@.len() > 0,
    {
        match (self, lookup) {
            (MailServerConfig::Addresses { addresses }, Lookup::Parsed(parsed)) => {
                if parsed.len() == 0 {
                    return Err(
                        MailError::new(
                            ErrorKind::ConnectionError,
                            "no mailserver addresses to try",
                        ),
                    );
                }
                collect_addresses(addresses, parsed)
            },
            (MailServerConfig::Domain { domain, .. }, Lookup::Resolved(resolved)) => match resolved {
                Ok(found) => {
                    if found.len() == 0 {
                        let mut message: String = String::new();
                        message.append("no addresses found for '");
                        message.append(domain.as_str());
                        message.append("'");
                        assert(message@ =~= empty_domain(domain@));
                        return Err(MailError { kind: ErrorKind::NotFound, message });
                    }
                    Ok(found)
                },
                Err(reason) => {
                    let mut message: String = String::new();
                    message.append("failed to resolve '");
                    message.append(domain.as_str());
                    message.append("': ");
                    message.append(reason.as_str());
                    assert(message@ =~= unresolved_domain(domain@, reason@));
                    Err(MailError { kind: ErrorKind::ConnectionError, message })
                },
            },
            _ => vstd::pervasive::unreached(),
        }
    }
}

/// The addresses in `parsed`, or the error for the first that is none.
fn collect_addresses<A>(addresses: &Vec<String>, parsed: Vec<Result<A, String>>) -> (r: Result<
    Vec<A>,
    MailError,
>)
    requires
        addresses@.len() == parsed@.len(),
    ensures
        match r {
            Ok(candidates) => {
                &&& candidates@.len() == parsed@.len()
                &&& forall|i: int|
                    0 <= i < parsed@.len() ==> #[trigger] parsed@[i] == Ok::<A, String>(
                        candidates@[i],
                    )
            },
            Err(e) => exists|i: int| #[trigger]
                first_unparsed(parsed@, i) && e.says(
                    ErrorKind::ConfigParsing,
                    invalid_address(addresses@[i]@, parsed@[i]->Err_0@),
                ),
        },
{
    let ghost all = parsed@;
    let mut candidates: Vec<A> = Vec::new();
    for item in it: parsed
        invariant
            it.seq() == all,
            addresses@.len() == all.len(),
            candidates@.len() == it.index(),
            forall|i: int|
                0 <= i < it.index() ==> #[trigger] all[i] == Ok::<A, String>(candidates@[i]),
    {
        let ghost i = it.index();
        match item {
            Ok(address) => {
                candidates.push(address);
            },
            Err(reason) => {
                let mut message: String = String::new();
                message.append("invalid address '");
                message.append(addresses[candidates.len()].as_str());
                message.append("': ");
                message.append(reason.as_str());
                assert(message@ =~= invalid_address(addresses@[i]@, all[i]->Err_0@));
                assert(first_unparsed(all, i));
                return Err(MailError { kind: ErrorKind::ConfigParsing, message });
            },
        }
    }
    Ok(candidates)
}

/// The file of a bundle that holds the [`MailServerConfig`], as JSON.
pub const CONFIG_ENTRY: &'static str = "config.json";

/// The file of a bundle that holds the mail server's X25519 public key, a
/// `SubjectPublicKeyInfo` in DER.
pub const KEY_ENTRY: &'static str = "mail_server_pub.der";

/// The mail server's connection info and its pinned public key. The identity
/// secret is there only where the bundle was issued to one identity; a shared
/// bundle has none.
#[derive(Debug, Clone)]
pub struct MailBundle {
    pub server_config: MailServerConfig,
    pub server_pub_key: [u8; 32],
    pub identity_secret: Option<[u8; 4]>,
}

/// What a bundle holds, as bytes.
#[derive(Debug, Clone)]
pub struct BundleEntries {
    pub config: Vec<u8>,
    pub key: Vec<u8>,
    pub identity_secret: Option<Vec<u8>>,
}

/// What [`BundleEntries`] hold.
pub struct EntryBytes {
    pub config: Seq<u8>,
    pub key: Seq<u8>,
    pub identity_secret: Option<Seq<u8>>,
}

impl View for BundleEntries {
    type V = EntryBytes;

    open spec fn view(&self) -> EntryBytes {
        EntryBytes {
            config: self.config@,
            key: self.key@,
            identity_secret: match self.identity_secret {
                None => None,
                Some(value) => Some(value@),
            },
        }
    }
}

/// The entries of a bundle, or the text of the first error, from what was read
/// of each.
pub open spec fn gathered(
    config: Result<Seq<u8>, Seq<char>>,
    key: Result<Seq<u8>, Seq<char>>,
    identity_secret: Result<Option<Seq<u8>>, Seq<char>>,
) -> Result<EntryBytes, Seq<char>> {
    match (config, key, identity_secret) {
        (Err(text), _, _) => Err(text),
        (_, Err(text), _) => Err(text),
        (_, _, Err(text)) => Err(text),
        (Ok(config), Ok(key), Ok(identity_secret)) => Ok(
            EntryBytes { config, key, identity_secret },
        ),
    }
}

impl BundleEntries {
    /// Whether these are the entries that `gathered` tells of.
    pub open spec fn answers(
        r: Result<BundleEntries, MailError>,
        gathered: Result<EntryBytes, Seq<char>>,
    ) -> bool {
        match (r, gathered) {
            (Ok(entries), Ok(bytes)) => entries@ == bytes,
            (Err(e), Err(text)) => e.says(ErrorKind::ConfigReading, text),
            _ => false,
        }
    }

    /// The entries of a bundle from what was read of each. Both files must be
    /// there; the identity secret need not.
    pub fn gather(
        config: Result<Vec<u8>, String>,
        key: Result<Vec<u8>, String>,
        identity_secret: Result<Option<Vec<u8>>, String>,
    ) -> (r: Result<BundleEntries, MailError>)
        ensures
            BundleEntries::answers(
                r,
                gathered(file_view(config), file_view(key), tlv_view(identity_secret)),
            ),
    {
        match (config, key, identity_secret) {
            (Err(message), _, _) => Err(MailError { kind: ErrorKind::ConfigReading, message }),
            (_, Err(message), _) => Err(MailError { kind: ErrorKind::ConfigReading, message }),
            (_, _, Err(message)) => Err(MailError { kind: ErrorKind::ConfigReading, message }),
            (Ok(config), Ok(key), Ok(identity_secret)) => Ok(
                BundleEntries { config, key, identity_secret },
            ),
        }
    }

    /// The entries of the bundle in an `.acai` container.
    pub fn read(container: &[u8]) -> (r: Result<BundleEntries, MailError>)
        ensures
            BundleEntries::answers(
                r,
                gathered(
                    file_entry(container@, CONFIG_ENTRY@),
                    file_entry(container@, KEY_ENTRY@),
                    tlv_entry(container@, LEDGER_SECRET_TLV_TYPE),
                ),
            ),
    {
        let config = stored_file(container, CONFIG_ENTRY);
        let key = stored_file(container, KEY_ENTRY);
        let identity_secret = stored_tlv(container, LEDGER_SECRET_TLV_TYPE);
        BundleEntries::gather(config, key, identity_secret)
    }
}

impl MailBundle {
    /// Whether `r` is what loading those entries gives, for that reading of the
    /// config.
    pub open spec fn answers(
        r: Result<MailBundle, MailError>,
        entries: EntryBytes,
        server_config: Result<MailServerConfig, String>,
    ) -> bool {
        match server_config {
            Err(reason) => r is Err && r->Err_0.says(ErrorKind::InputOutput, reason@),
            Ok(config) => if !is_x25519_spki_der(entries.key) {
                r is Err && r->Err_0.says(
                    ErrorKind::ConfigParsing,
                    "not a valid X25519 SubjectPublicKeyInfo DER"@,
                )
            } else if entries.identity_secret is Some && entries.identity_secret->Some_0.len() != 4 {
                r is Err && r->Err_0.says(
                    ErrorKind::ConfigParsing,
                    "identity secret TLV was not 4 bytes"@,
                )
            } else {
                &&& r is Ok
                &&& r->Ok_0.server_config == config
                &&& entries.key == x25519_spki_der(r->Ok_0.server_pub_key@)
                &&& secret_bytes(r->Ok_0.identity_secret) == entries.identity_secret
            },
        }
    }

    /// The bundle with those entries, given what its config says or the reason
    /// why that could not be read.
    ///
    /// The config comes first, then the key, then the identity secret: the first
    /// that is not what it should be is the error.
    pub fn load(entries: BundleEntries, server_config: Result<MailServerConfig, String>) -> (r:
        Result<MailBundle, MailError>)
        ensures
            MailBundle::answers(r, entries@, server_config),
    {
        let server_config: MailServerConfig = match server_config {
            Ok(config) => config,
            Err(message) => {
                return Err(MailError { kind: ErrorKind::InputOutput, message });
            },
        };
        let server_pub_key: [u8; 32] = match parse_x25519_spki_der(entries.key.as_slice()) {
            Ok(key) => key,
            Err(err) => {
                return Err(err);
            },
        };
        let identity_secret: Option<[u8; 4]> = match entries.identity_secret {
            None => None,
            Some(value) => {
                if value.len() != 4 {
                    return Err(
                        MailError::new(
                            ErrorKind::ConfigParsing,
                            "identity secret TLV was not 4 bytes",
                        ),
                    );
                }
                let secret: [u8; 4] = [value[0], value[1], value[2], value[3]];
                assert(secret@ =~= value@);
                Some(secret)
            },
        };
        Ok(MailBundle { server_config, server_pub_key, identity_secret })
    }
}

/// A bundle needs both of its files and no more: entries come out whenever both
/// files can be read and the container tells of the identity secret at all,
/// whether it holds one or not, and then they are what was read.
pub proof fn law_a_bundle_needs_both_files(
    config: Result<Seq<u8>, Seq<char>>,
    key: Result<Seq<u8>, Seq<char>>,
    identity_secret: Result<Option<Seq<u8>>, Seq<char>>,
)
    ensures
        gathered(config, key, identity_secret) is Ok <==> config is Ok && key is Ok
            && identity_secret is Ok,
        gathered(config, key, identity_secret) matches Ok(entries) ==> config == Ok::<
            Seq<u8>,
            Seq<char>,
        >(entries.config) && key == Ok::<Seq<u8>, Seq<char>>(entries.key) && identity_secret == Ok::<
            Option<Seq<u8>>,
            Seq<char>,
        >(entries.identity_secret),
{
}

/// A bundle gives back what was put into it: from the encoding of a key, with a
/// secret or without one, loading gives that key and that secret, and the
/// config as it was read.
pub proof fn law_loading_gives_back_key_and_secret(
    r: Result<MailBundle, MailError>,
    entries: EntryBytes,
    server_config: MailServerConfig,
    key: [u8; 32],
    identity_secret: Option<[u8; 4]>,
)
    requires
        MailBundle::answers(r, entries, Ok(server_config)),
        entries.key == x25519_spki_der(key@),
        entries.identity_secret == secret_bytes(identity_secret),
    ensures
        r is Ok,
        r->Ok_0.server_config == server_config,
        r->Ok_0.server_pub_key@ == key@,
        secret_bytes(r->Ok_0.identity_secret) == secret_bytes(identity_secret),
{
    law_key_encoding_round_trips(key@, entries.key);
    law_key_encoding_round_trips(r->Ok_0.server_pub_key@, entries.key);
}

/// From the container to the bundle: where the container holds both files and
/// the key is properly encoded, its entries can be read, and a bundle made of
/// them has that key and the config as it was read. Its secret is the four bytes of the identity TLV, and a
/// container without that TLV makes a bundle without a secret.
pub proof fn law_a_container_loads_as_what_it_holds(
    container: Seq<u8>,
    entries: Result<BundleEntries, MailError>,
    bundle: Result<MailBundle, MailError>,
    server_config: MailServerConfig,
    key: [u8; 32],
    identity_secret: Option<[u8; 4]>,
)
    ensures
        ({
            &&& file_entry(container, CONFIG_ENTRY@) is Ok
            &&& file_entry(container, KEY_ENTRY@) == Ok::<Seq<u8>, Seq<char>>(
                x25519_spki_der(key@),
            )
            &&& tlv_entry(container, LEDGER_SECRET_TLV_TYPE) == Ok::<
                Option<Seq<u8>>,
                Seq<char>,
            >(secret_bytes(identity_secret))
            &&& BundleEntries::answers(
                entries,
                gathered(
                    file_entry(container, CONFIG_ENTRY@),
                    file_entry(container, KEY_ENTRY@),
                    tlv_entry(container, LEDGER_SECRET_TLV_TYPE),
                ),
            )
        }) ==> {
            &&& entries is Ok
            &&& Ok::<Seq<u8>, Seq<char>>(entries->Ok_0@.config) == file_entry(
                container,
                CONFIG_ENTRY@,
            )
            &&& MailBundle::answers(bundle, entries->Ok_0@, Ok(server_config)) ==> {
                &&& bundle is Ok
                &&& bundle->Ok_0.server_config == server_config
                &&& bundle->Ok_0.server_pub_key@ == key@
                &&& secret_bytes(bundle->Ok_0.identity_secret) == secret_bytes(identity_secret)
            }
        },
{
    if entries is Ok && MailBundle::answers(bundle, entries->Ok_0@, Ok(server_config))
        && entries->Ok_0@.key == x25519_spki_der(key@) && entries->Ok_0@.identity_secret
        == secret_bytes(identity_secret) {
        law_loading_gives_back_key_and_secret(
            bundle,
            entries->Ok_0@,
            server_config,
            key,
            identity_secret,
        );
    }
}

/// What a bundle holds determines what it loads as: two loads of the same
/// entries with the same config agree on key and secret.
pub proof fn law_entries_determine_the_bundle(
    a: Result<MailBundle, MailError>,
    b: Result<MailBundle, MailError>,
    entries: EntryBytes,
    server_config: Result<MailServerConfig, String>,
)
    requires
        MailBundle::answers(a, entries, server_config),
        MailBundle::answers(b, entries, server_config),
    ensures
        a is Ok <==> b is Ok,
        a is Ok ==> {
            &&& a->Ok_0.server_config == b->Ok_0.server_config
            &&& a->Ok_0.server_pub_key@ == b->Ok_0.server_pub_key@
            &&& secret_bytes(a->Ok_0.identity_secret) == secret_bytes(b->Ok_0.identity_secret)
        },
        a is Err ==> a->Err_0.kind == b->Err_0.kind && a->Err_0.message@ == b->Err_0.message@,
{
    if a is Ok {
        law_key_encoding_round_trips(a->Ok_0.server_pub_key@, entries.key);
        law_key_encoding_round_trips(b->Ok_0.server_pub_key@, entries.key);
    }
}

/// Entries are their bytes, and what is gathered is what was read: the first error
/// where there is one, in the order config, key, secret, and all three otherwise.
pub proof fn law_gathering_hands_on_what_was_read(
    entries: BundleEntries,
    config: Result<Seq<u8>, Seq<char>>,
    key: Result<Seq<u8>, Seq<char>>,
    identity_secret: Result<Option<Seq<u8>>, Seq<char>>,
)
    ensures
        entries@.config == entries.config@,
        entries@.key == entries.key@,
        entries@.identity_secret is Some <==> entries.identity_secret is Some,
        entries.identity_secret matches Some(value) ==> entries@.identity_secret == Some(value@),
        config matches Err(text) ==> gathered(config, key, identity_secret) == Err::<
            EntryBytes,
            Seq<char>,
        >(text),
        config is Ok ==> (key matches Err(text) ==> gathered(config, key, identity_secret) == Err::<
            EntryBytes,
            Seq<char>,
        >(text)),
        config is Ok && key is Ok ==> (identity_secret matches Err(text) ==> gathered(
            config,
            key,
            identity_secret,
        ) == Err::<EntryBytes, Seq<char>>(text)),
        config is Ok && key is Ok && identity_secret is Ok ==> gathered(config, key, identity_secret)
            == Ok::<EntryBytes, Seq<char>>(
            EntryBytes {
                config: config->Ok_0,
                key: key->Ok_0,
                identity_secret: identity_secret->Ok_0,
            },
        ),
{
}

/// The entries that are handed out are those that were gathered, byte for byte, and
/// an error is handed out as an error of reading with the same text.
pub proof fn law_entries_are_handed_out_as_gathered(
    r: Result<BundleEntries, MailError>,
    found: Result<EntryBytes, Seq<char>>,
)
    requires
        BundleEntries::answers(r, found),
    ensures
        r is Ok <==> found is Ok,
        r is Ok ==> r->Ok_0.config@ == found->Ok_0.config && r->Ok_0.key@ == found->Ok_0.key,
        r is Ok ==> (r->Ok_0.identity_secret is Some <==> found->Ok_0.identity_secret is Some),
        r is Ok && r->Ok_0.identity_secret is Some ==> r->Ok_0.identity_secret->Some_0@
            == found->Ok_0.identity_secret->Some_0,
        r is Err ==> r->Err_0.kind is ConfigReading && r->Err_0.message@ == found->Err_0,
{
}

/// What loading gives. A config that cannot be read is the error. Then the key must
/// be forty-four bytes with the right twelve in front, and a secret must be four
/// bytes. With all that the bundle holds the config, the last thirty-two bytes of
/// the key, and the four bytes of the secret or none.
pub proof fn law_what_a_bundle_is_made_of(
    r: Result<MailBundle, MailError>,
    entries: EntryBytes,
    server_config: Result<MailServerConfig, String>,
)
    requires
        MailBundle::answers(r, entries, server_config),
    ensures
        ({
            let good_key = entries.key.len() == 44 && entries.key.take(12) == seq![
                0x30u8,
                0x2a,
                0x30,
                0x05,
                0x06,
                0x03,
                0x2b,
                0x65,
                0x6e,
                0x03,
                0x21,
                0x00,
            ];
            let good_secret = entries.identity_secret is None
                || entries.identity_secret->Some_0.len() == 4;
            &&& r is Ok <==> server_config is Ok && good_key && good_secret
            &&& server_config is Err ==> r->Err_0.kind is InputOutput && r->Err_0.message@
                == server_config->Err_0@
            &&& server_config is Ok && !good_key ==> r->Err_0.kind is ConfigParsing
                && r->Err_0.message@ == "not a valid X25519 SubjectPublicKeyInfo DER"@
            &&& server_config is Ok && good_key && !good_secret ==> r->Err_0.kind is ConfigParsing
                && r->Err_0.message@ == "identity secret TLV was not 4 bytes"@
            &&& r is Ok ==> r->Ok_0.server_config == server_config->Ok_0
            &&& r is Ok ==> r->Ok_0.server_pub_key@ == entries.key.skip(12)
            &&& r is Ok ==> (r->Ok_0.identity_secret is Some <==> entries.identity_secret is Some)
            &&& r is Ok && r->Ok_0.identity_secret is Some ==> r->Ok_0.identity_secret->Some_0@
                == entries.identity_secret->Some_0
        }),
{
    law_key_encoding_has_a_fixed_start(seq![], entries.key);
    let start = seq![
        0x30u8,
        0x2a,
        0x30,
        0x05,
        0x06,
        0x03,
        0x2b,
        0x65,
        0x6e,
        0x03,
        0x21,
        0x00,
    ];
    if entries.key.len() == 44 {
        if is_x25519_spki_der(entries.key) {
            assert(entries.key.take(12) =~= start);
        }
        if entries.key.take(12) == start {
            assert forall|i: int| 0 <= i < 12 implies #[trigger] entries.key[i] == start[i] by {
                assert(entries.key.take(12)[i] == entries.key[i]);
            }
        }
    }
    if r is Ok {
        law_key_encoding_has_a_fixed_start(r->Ok_0.server_pub_key@, entries.key);
        assert(entries.key.skip(12) =~= r->Ok_0.server_pub_key@);
    }
}

/// What a list of addresses resolves to: every address of a list that is not
/// empty, in the order of the list, or the error of the first that is none, with
/// that address and the reason in it.
pub proof fn law_a_list_resolves_to_its_addresses<A>(
    addresses: Vec<String>,
    parsed: Vec<Result<A, String>>,
    r: Result<Vec<A>, MailError>,
    i: int,
)
    requires
        addresses@.len() == parsed@.len(),
        (MailServerConfig::Addresses { addresses }).resolves_to(Lookup::Parsed(parsed), r),
    ensures
        (MailServerConfig::Addresses { addresses }).answered_by(Lookup::Parsed(parsed)),
        parsed@.len() == 0 ==> r is Err && r->Err_0.kind is ConnectionError && r->Err_0.message@
            == "no mailserver addresses to try"@,
        parsed@.len() > 0 && (forall|j: int|
            0 <= j < parsed@.len() ==> #[trigger] parsed@[j] is Ok) ==> r is Ok,
        r is Ok ==> r->Ok_0@.len() == parsed@.len() && r->Ok_0@.len() > 0,
        r is Ok && 0 <= i < parsed@.len() ==> parsed@[i] == Ok::<A, String>(r->Ok_0@[i]),
        0 <= i < parsed@.len() && parsed@[i] is Err && (forall|j: int|
            0 <= j < i ==> #[trigger] parsed@[j] is Ok) ==> r is Err && r->Err_0.kind
            is ConfigParsing && r->Err_0.message@ == "invalid address '"@ + addresses@[i]@ + "': "@
            + parsed@[i]->Err_0@,
{
    if r is Err && parsed@.len() > 0 {
        let k = choose|k: int| #[trigger]
            first_unparsed(parsed@, k) && r->Err_0.says(
                ErrorKind::ConfigParsing,
                invalid_address(addresses@[k]@, parsed@[k]->Err_0@),
            );
        assert(first_unparsed(parsed@, k));
        assert(parsed@[k] is Err);
        if 0 <= i < parsed@.len() && parsed@[i] is Err && (forall|j: int|
            0 <= j < i ==> #[trigger] parsed@[j] is Ok) {
            if k < i {
                assert(parsed@[k] is Ok);
            } else if i < k {
                assert(parsed@[i] is Ok);
            }
        }
    }
    if r is Ok && 0 <= i < parsed@.len() {
        assert(parsed@[i] == Ok::<A, String>(r->Ok_0@[i]));
    }
}

/// What a domain resolves to: all that was found, in that order, or an error that
/// names the domain.
pub proof fn law_a_domain_resolves_to_what_was_found<A>(
    domain: String,
    port: u16,
    found: Result<Vec<A>, String>,
    r: Result<Vec<A>, MailError>,
)
    requires
        (MailServerConfig::Domain { domain, port }).resolves_to(Lookup::Resolved(found), r),
    ensures
        (MailServerConfig::Domain { domain, port }).answered_by(Lookup::Resolved(found)),
        found is Ok && found->Ok_0@.len() > 0 ==> r is Ok && r->Ok_0@ == found->Ok_0@,
        found is Ok && found->Ok_0@.len() == 0 ==> r is Err && r->Err_0.kind is NotFound
            && r->Err_0.message@ == "no addresses found for '"@ + domain@ + "'"@,
        found is Err ==> r is Err && r->Err_0.kind is ConnectionError && r->Err_0.message@
            == "failed to resolve '"@ + domain@ + "': "@ + found->Err_0@,
{
}

} // verus!
