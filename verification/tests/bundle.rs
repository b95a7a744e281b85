use std::io::Write;

use apostle_client::bundle::{
    BundleEntries, Lookup, CONFIG_ENTRY, KEY_ENTRY, LEDGER_SECRET_TLV_TYPE,
};
use apostle_client::container::{stored_file, stored_tlv};
use apostle_client::error::ErrorKind;
use apostle_client::issuance::secret_tlv_request;
use apostle_client::{BundleChunkOptions, MailBundle, MailServerConfig};

const DER: [u8; 44] = [
    0x30, 0x2a, 0x30, 0x05, 0x06, 0x03, 0x2b, 0x65, 0x6e, 0x03, 0x21, 0x00, 4, 174, 4, 246, 179,
    162, 129, 67, 40, 38, 19, 206, 110, 212, 181, 156, 135, 163, 139, 211, 132, 147, 103, 80, 141,
    7, 41, 46, 32, 80, 190, 84,
];

const CONFIG: &[u8] = br#"{"addresses":["172.237.134.238:1827"]}"#;

fn addresses(list: &[&str]) -> MailServerConfig {
    MailServerConfig::Addresses {
        addresses: list.iter().map(|a| a.to_string()).collect(),
    }
}

fn domain(name: &str) -> MailServerConfig {
    MailServerConfig::Domain {
        domain: name.to_string(),
        port: 1827,
    }
}

/// A directory with the files of a bundle; the files go when the guards do.
fn source_dir(files: &[(&str, &[u8])]) -> (tempfile::TempDir, Vec<tempfile::NamedTempFile>) {
    let dir = tempfile::tempdir().unwrap();
    let mut kept = Vec::new();
    for (name, content) in files {
        let mut file = tempfile::Builder::new()
            .prefix(*name)
            .rand_bytes(0)
            .tempfile_in(dir.path())
            .unwrap();
        file.write_all(content).unwrap();
        file.flush().unwrap();
        kept.push(file);
    }
    (dir, kept)
}

fn write_bundle_source() -> (tempfile::TempDir, Vec<tempfile::NamedTempFile>) {
    source_dir(&[("config.json", CONFIG), ("mail_server_pub.der", &DER)])
}

fn load(container: &[u8]) -> MailBundle {
    let entries = BundleEntries::read(container).unwrap();
    assert_eq!(entries.config, CONFIG);
    assert_eq!(entries.key, DER);
    MailBundle::load(entries, Ok(addresses(&["172.237.134.238:1827"]))).unwrap()
}

#[test]
fn resolves_addresses_without_network() {
    let cfg = addresses(&["172.237.134.238:1827", "172.234.222.191:1827"]);
    let addrs = cfg
        .resolve(Lookup::Parsed(vec![
            Ok("172.237.134.238:1827".to_string()),
            Ok("172.234.222.191:1827".to_string()),
        ]))
        .expect("should resolve");
    assert_eq!(addrs.len(), 2);
    assert_eq!(addrs, ["172.237.134.238:1827", "172.234.222.191:1827"]);
}

#[test]
fn the_first_address_that_is_none_is_the_error() {
    let cfg = addresses(&["1.2.3.4:5", "nonsense", "worse"]);
    let err = cfg
        .resolve(Lookup::Parsed(vec![
            Ok(1u8),
            Err("invalid socket address syntax".to_string()),
            Err("later".to_string()),
        ]))
        .unwrap_err();
    assert_eq!(err.kind, ErrorKind::ConfigParsing);
    assert_eq!(
        err.message,
        "invalid address 'nonsense': invalid socket address syntax"
    );
}

#[test]
fn an_empty_list_has_no_candidates_to_try() {
    let err = addresses(&[])
        .resolve(Lookup::<u8>::Parsed(vec![]))
        .unwrap_err();
    assert_eq!(err.kind, ErrorKind::ConnectionError);
    assert_eq!(err.message, "no mailserver addresses to try");
}

#[test]
fn a_domain_resolves_to_what_was_found() {
    let cfg = domain("mail.artisanhosting.net");
    assert_eq!(
        cfg.resolve(Lookup::Resolved(Ok(vec![7u8, 3, 7]))).unwrap(),
        [7, 3, 7]
    );
}

#[test]
fn a_domain_without_addresses_is_not_found() {
    let err = domain("mail.example")
        .resolve(Lookup::<u8>::Resolved(Ok(vec![])))
        .unwrap_err();
    assert_eq!(err.kind, ErrorKind::NotFound);
    assert_eq!(err.message, "no addresses found for 'mail.example'");
}

#[test]
fn a_domain_that_does_not_resolve_is_a_connection_error() {
    let err = domain("mail.example")
        .resolve(Lookup::<u8>::Resolved(Err("timed out".to_string())))
        .unwrap_err();
    assert_eq!(err.kind, ErrorKind::ConnectionError);
    assert_eq!(err.message, "failed to resolve 'mail.example': timed out");
}

#[test]
fn issue_bundle_writes_a_readable_identity_secret() {
    let (dir, _files) = write_bundle_source();
    let out = tempfile::tempdir().unwrap();

    let secret = [1, 2, 3, 4];
    let output_path = out.path().join("bundle.acai");
    acai_core::build_container_file_from_directory(
        dir.path(),
        &secret_tlv_request(secret, BundleChunkOptions::default()),
        &output_path,
    )
    .unwrap();

    let runtime = tokio::runtime::Runtime::new().unwrap();
    let bytes = runtime.block_on(tokio::fs::read(&output_path)).unwrap();
    assert_eq!(load(&bytes).identity_secret, Some(secret));
}

#[test]
fn issue_bundle_bytes_matches_the_file_based_bundle() {
    let (dir, _files) = write_bundle_source();

    let secret = [5, 6, 7, 8];
    let bytes = acai_core::build_container_from_directory(
        dir.path(),
        &secret_tlv_request(secret, BundleChunkOptions::default()),
    )
    .unwrap();

    let bundle = load(&bytes);
    assert_eq!(bundle.identity_secret, Some(secret));
    assert_eq!(&bundle.server_pub_key, &DER[12..]);
}

#[test]
fn chunk_options_do_not_shrink_the_fixed_index_region() {
    let (dir, _files) = write_bundle_source();

    let secret = [9, 9, 9, 9];
    let bytes = acai_core::build_container_from_directory(
        dir.path(),
        &secret_tlv_request(
            secret,
            BundleChunkOptions {
                chunk_padding: Some(false),
                chunk_target_size: Some(1),
            },
        ),
    )
    .unwrap();

    assert!(
        bytes.len() > 50_000_000,
        "expected the fixed index region to still dominate bundle size, got {} bytes",
        bytes.len()
    );
    assert_eq!(load(&bytes).identity_secret, Some(secret));
}

#[test]
fn a_shared_bundle_has_no_secret() {
    let (dir, _files) = write_bundle_source();
    let bytes = acai_core::build_container_from_directory(dir.path(), b"{}").unwrap();
    let bundle = load(&bytes);
    assert_eq!(bundle.identity_secret, None);
    assert_eq!(&bundle.server_pub_key, &DER[12..]);
}

#[test]
fn a_container_without_the_config_is_no_bundle() {
    let (dir, _files) = source_dir(&[("mail_server_pub.der", &DER)]);
    let bytes = acai_core::build_container_from_directory(dir.path(), b"{}").unwrap();
    let err = BundleEntries::read(&bytes).unwrap_err();
    assert_eq!(err.kind, ErrorKind::ConfigReading);
    let expected = acai_core::reader::read_file(&bytes, CONFIG_ENTRY, None).unwrap_err();
    assert_eq!(err.message, expected.to_string());
}

#[test]
fn a_container_without_the_key_is_no_bundle() {
    let (dir, _files) = source_dir(&[("config.json", CONFIG)]);
    let bytes = acai_core::build_container_from_directory(dir.path(), b"{}").unwrap();
    let err = BundleEntries::read(&bytes).unwrap_err();
    assert_eq!(err.kind, ErrorKind::ConfigReading);
    let expected = acai_core::reader::read_file(&bytes, KEY_ENTRY, None).unwrap_err();
    assert_eq!(err.message, expected.to_string());
}

#[test]
fn bytes_that_are_no_container_are_refused() {
    for bytes in [&b""[..], &b"not a container"[..], &[0u8; 4096][..], &[0xffu8; 4096][..]] {
        let err = BundleEntries::read(bytes).unwrap_err();
        assert_eq!(err.kind, ErrorKind::ConfigReading);
    }
}

#[test]
fn damaged_containers_are_refused_or_read_without_a_panic() {
    let (dir, _files) = write_bundle_source();
    let bytes = acai_core::build_container_from_directory(
        dir.path(),
        &secret_tlv_request([1, 2, 3, 4], BundleChunkOptions::default()),
    )
    .unwrap();
    for at in (0..512).step_by(37) {
        let mut damaged = bytes.clone();
        for byte in &mut damaged[at..at + 8] {
            *byte = 0xff;
        }
        if let Ok(entries) = BundleEntries::read(&damaged) {
            assert_eq!(entries.key, DER);
        }
    }
    for len in [0, 1, 7, 8, 64, 100, 4096, bytes.len() / 2, bytes.len() - 1] {
        let _ = BundleEntries::read(&bytes[..len]);
    }
}

const OUT_OF_RANGE: &str = "container offsets exceed the range of this machine";

fn personal_bundle(secret: [u8; 4]) -> Vec<u8> {
    let (dir, _files) = write_bundle_source();
    acai_core::build_container_from_directory(
        dir.path(),
        &secret_tlv_request(secret, BundleChunkOptions::default()),
    )
    .unwrap()
}

/// The container with other offsets in its header.
fn with_offsets(container: &[u8], state_offset: Option<u64>, index_offset: Option<u64>) -> Vec<u8> {
    let header = acai_core::BootstrapHeader::parse(container).unwrap();
    let changed = acai_core::BootstrapHeader::new(acai_core::BootstrapHeaderFields {
        state_offset: state_offset.unwrap_or(header.state_offset()),
        state_len: header.state_len(),
        state_hash: header.state_hash(),
        index_offset: index_offset.unwrap_or(header.index_offset()),
        index_len: header.index_len(),
        index_hash: header.index_hash(),
        chunk_area_offset: header.chunk_area_offset(),
    });
    let mut bytes = container.to_vec();
    bytes[..acai_core::BOOTSTRAP_HEADER_SIZE].copy_from_slice(changed.as_bytes());
    bytes
}

#[test]
fn a_state_section_out_of_range_is_refused() {
    let bytes = with_offsets(&personal_bundle([1, 2, 3, 4]), Some(u64::MAX), None);
    let err = BundleEntries::read(&bytes).unwrap_err();
    assert_eq!(err.kind, ErrorKind::ConfigReading);
    assert_eq!(err.message, OUT_OF_RANGE);
    assert_eq!(
        stored_tlv(&bytes, LEDGER_SECRET_TLV_TYPE).unwrap_err(),
        OUT_OF_RANGE
    );
}

#[test]
fn an_index_out_of_range_keeps_files_from_being_read_but_not_the_secret() {
    let bytes = with_offsets(&personal_bundle([1, 2, 3, 4]), None, Some(u64::MAX - 5));
    assert_eq!(stored_file(&bytes, CONFIG_ENTRY).unwrap_err(), OUT_OF_RANGE);
    assert_eq!(
        stored_tlv(&bytes, LEDGER_SECRET_TLV_TYPE),
        Ok(Some(vec![1, 2, 3, 4]))
    );
}

#[test]
fn an_offset_behind_the_end_is_the_readers_error() {
    let bytes = with_offsets(&personal_bundle([1, 2, 3, 4]), None, Some(1 << 60));
    let expected = acai_core::reader::read_file(&bytes, CONFIG_ENTRY, None).unwrap_err();
    assert_eq!(stored_file(&bytes, CONFIG_ENTRY).unwrap_err(), expected.to_string());
}

#[test]
fn a_header_with_a_wrong_checksum_is_the_readers_error() {
    let mut bytes = personal_bundle([1, 2, 3, 4]);
    for byte in &mut bytes[0x18..0x28] {
        *byte = 0xff;
    }
    let expected = acai_core::reader::read_file(&bytes, CONFIG_ENTRY, None).unwrap_err();
    assert_eq!(BundleEntries::read(&bytes).unwrap_err().message, expected.to_string());
}

#[test]
fn a_damaged_head_of_the_index_does_no_harm_while_the_other_stands() {
    let bytes = personal_bundle([1, 2, 3, 4]);
    let index = acai_core::BootstrapHeader::parse(&bytes)
        .unwrap()
        .index_offset() as usize;
    for head in [index, index + 64] {
        let mut damaged = bytes.clone();
        // Where its generation is, and how long.
        for byte in &mut damaged[head + 24..head + 32] {
            *byte = 0xff;
        }
        assert_eq!(load(&damaged).identity_secret, Some([1, 2, 3, 4]));
    }
    let mut damaged = bytes.clone();
    damaged[index + 24] ^= 1;
    damaged[index + 64 + 24] ^= 1;
    let expected = acai_core::reader::read_file(&damaged, CONFIG_ENTRY, None).unwrap_err();
    assert_eq!(BundleEntries::read(&damaged).unwrap_err().message, expected.to_string());
}

#[test]
fn a_file_that_is_not_there_is_the_readers_error() {
    let bytes = personal_bundle([1, 2, 3, 4]);
    assert_eq!(
        stored_file(&bytes, "other.json").unwrap_err(),
        "file 'other.json' not found"
    );
    assert_eq!(stored_file(&bytes, CONFIG_ENTRY).unwrap(), CONFIG);
    assert_eq!(stored_file(&bytes, KEY_ENTRY).unwrap(), DER);
    assert_eq!(stored_tlv(&bytes, 0xc002), Ok(None));
}

#[test]
fn an_encrypted_container_is_the_readers_error() {
    let (dir, _files) = write_bundle_source();
    let request = br#"{"flags":{"encrypted":true,"readonly":true},"passphrase":"open sesame"}"#;
    let bytes = acai_core::build_container_from_directory(dir.path(), request).unwrap();
    assert_eq!(
        BundleEntries::read(&bytes).unwrap_err().message,
        "passphrase required for encrypted container"
    );
    // The index is not read, so its place does not matter.
    let bytes = with_offsets(&bytes, None, Some(u64::MAX));
    assert_eq!(
        BundleEntries::read(&bytes).unwrap_err().message,
        "passphrase required for encrypted container"
    );
}

#[test]
fn broken_promises_are_the_readers_error_where_they_are_to_be_kept() {
    let (dir, _files) = write_bundle_source();
    for strict in [true, false] {
        let request = format!(
            "{{\"flags\":{{\"strict_counts\":{strict}}},\
             \"promises\":{{\"expected_file_count\":7}}}}"
        );
        let bytes =
            acai_core::build_container_from_directory(dir.path(), request.as_bytes()).unwrap();
        match acai_core::reader::read_file(&bytes, CONFIG_ENTRY, None) {
            Ok(content) => assert_eq!(stored_file(&bytes, CONFIG_ENTRY), Ok(content)),
            Err(err) => assert_eq!(stored_file(&bytes, CONFIG_ENTRY), Err(err.to_string())),
        }
    }
}

#[test]
fn a_tlv_of_another_type_is_no_secret() {
    let (dir, _files) = write_bundle_source();
    let request = String::from_utf8(secret_tlv_request(
        [1, 2, 3, 4],
        BundleChunkOptions::default(),
    ))
    .unwrap()
    .replace(&LEDGER_SECRET_TLV_TYPE.to_string(), "49154");
    let bytes =
        acai_core::build_container_from_directory(dir.path(), request.as_bytes()).unwrap();
    assert_eq!(load(&bytes).identity_secret, None);
}

#[test]
fn a_secret_of_another_length_is_refused() {
    let (dir, _files) = write_bundle_source();
    let request = String::from_utf8(secret_tlv_request(
        [1, 2, 3, 4],
        BundleChunkOptions::default(),
    ))
    .unwrap()
    .replace("[1,2,3,4]", "[1,2,3]");
    let bytes =
        acai_core::build_container_from_directory(dir.path(), request.as_bytes()).unwrap();
    let entries = BundleEntries::read(&bytes).unwrap();
    assert_eq!(entries.identity_secret, Some(vec![1, 2, 3]));
    let err = MailBundle::load(entries, Ok(addresses(&[]))).unwrap_err();
    assert_eq!(err.kind, ErrorKind::ConfigParsing);
    assert_eq!(err.message, "identity secret TLV was not 4 bytes");
}

fn entries(key: &[u8], identity_secret: Option<Vec<u8>>) -> BundleEntries {
    BundleEntries {
        config: CONFIG.to_vec(),
        key: key.to_vec(),
        identity_secret,
    }
}

#[test]
fn loading_gives_back_config_key_and_secret() {
    let bundle = MailBundle::load(
        entries(&DER, Some(vec![0, 1, 254, 255])),
        Ok(domain("mail.example")),
    )
    .unwrap();
    assert!(matches!(
        bundle.server_config,
        MailServerConfig::Domain { domain, port: 1827 } if domain == "mail.example"
    ));
    assert_eq!(&bundle.server_pub_key, &DER[12..]);
    assert_eq!(bundle.identity_secret, Some([0, 1, 254, 255]));
}

#[test]
fn the_config_is_looked_at_before_the_key_and_the_key_before_the_secret() {
    let bad_key = entries(&DER[1..], Some(vec![1]));
    let err = MailBundle::load(bad_key.clone(), Err("expected value".to_string())).unwrap_err();
    assert_eq!(err.kind, ErrorKind::InputOutput);
    assert_eq!(err.message, "expected value");

    let err = MailBundle::load(bad_key, Ok(addresses(&[]))).unwrap_err();
    assert_eq!(err.kind, ErrorKind::ConfigParsing);
    assert_eq!(err.message, "not a valid X25519 SubjectPublicKeyInfo DER");

    let err = MailBundle::load(entries(&DER, Some(vec![1; 5])), Ok(addresses(&[]))).unwrap_err();
    assert_eq!(err.message, "identity secret TLV was not 4 bytes");
}

#[test]
fn entries_are_gathered_only_when_all_were_read() {
    let file = |text: &str| Ok(text.as_bytes().to_vec());
    let no = |text: &str| Err(text.to_string());

    let gathered = BundleEntries::gather(file("c"), file("k"), Ok(Some(vec![1]))).unwrap();
    assert_eq!(gathered.config, b"c");
    assert_eq!(gathered.key, b"k");
    assert_eq!(gathered.identity_secret, Some(vec![1]));
    let gathered = BundleEntries::gather(file("c"), file("k"), Ok(None)).unwrap();
    assert_eq!(gathered.identity_secret, None);

    let tlv = || Err("tlv".to_string());
    let err = BundleEntries::gather(no("config"), no("key"), tlv()).unwrap_err();
    assert_eq!(err.message, "config");
    let err = BundleEntries::gather(file("c"), no("key"), tlv()).unwrap_err();
    assert_eq!(err.message, "key");
    let err = BundleEntries::gather(file("c"), file("k"), tlv()).unwrap_err();
    assert_eq!(err.kind, ErrorKind::ConfigReading);
    assert_eq!(err.message, "tlv");
}
