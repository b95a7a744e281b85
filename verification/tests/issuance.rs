use apostle_client::bundle::LEDGER_SECRET_TLV_TYPE;
use apostle_client::issuance::secret_tlv_request;
use apostle_client::BundleChunkOptions;
use serde_json::Value;

fn text(secret: [u8; 4], options: BundleChunkOptions) -> String {
    String::from_utf8(secret_tlv_request(secret, options)).unwrap()
}

fn options(chunk_padding: Option<bool>, chunk_target_size: Option<u64>) -> BundleChunkOptions {
    BundleChunkOptions {
        chunk_padding,
        chunk_target_size,
    }
}

/// The request as serde_json writes it down.
fn serialized(secret: [u8; 4], options: BundleChunkOptions) -> Vec<u8> {
    let mut tlv = serde_json::Map::new();
    tlv.insert("ty".to_string(), Value::from(LEDGER_SECRET_TLV_TYPE));
    tlv.insert("immutable".to_string(), Value::from(true));
    tlv.insert("critical".to_string(), Value::from(false));
    tlv.insert("secret".to_string(), Value::from(true));
    tlv.insert("value".to_string(), Value::from(secret.to_vec()));
    let mut request = serde_json::Map::new();
    request.insert(
        "extra_tlvs".to_string(),
        Value::from(vec![Value::Object(tlv)]),
    );
    if let Some(padding) = options.chunk_padding {
        request.insert("chunk_padding".to_string(), Value::from(padding));
    }
    if let Some(size) = options.chunk_target_size {
        request.insert("chunk_target_size".to_string(), Value::from(size));
    }
    serde_json::to_vec(&Value::Object(request)).unwrap()
}

#[test]
fn by_default_no_option_is_set() {
    let options = BundleChunkOptions::default();
    assert_eq!(options.chunk_padding, None);
    assert_eq!(options.chunk_target_size, None);
}

#[test]
fn unset_options_are_left_out_of_the_request() {
    assert_eq!(
        text([1, 2, 3, 4], BundleChunkOptions::default()),
        "{\"extra_tlvs\":[{\"critical\":false,\"immutable\":true,\"secret\":true,\
         \"ty\":49153,\"value\":[1,2,3,4]}]}"
    );
}

#[test]
fn set_options_stand_before_the_secret() {
    assert_eq!(
        text([0, 10, 100, 255], options(Some(false), Some(u64::MAX))),
        "{\"chunk_padding\":false,\"chunk_target_size\":18446744073709551615,\
         \"extra_tlvs\":[{\"critical\":false,\"immutable\":true,\"secret\":true,\
         \"ty\":49153,\"value\":[0,10,100,255]}]}"
    );
    assert!(text([0; 4], options(Some(true), None))
        .starts_with("{\"chunk_padding\":true,\"extra_tlvs\":"));
    assert!(text([0; 4], options(None, Some(0)))
        .starts_with("{\"chunk_target_size\":0,\"extra_tlvs\":"));
}

#[test]
fn the_request_is_what_a_serializer_writes() {
    for secret in [[0, 0, 0, 0], [1, 2, 3, 4], [255, 128, 64, 10]] {
        for padding in [None, Some(false), Some(true)] {
            for size in [None, Some(0), Some(9), Some(10), Some(33_554_432), Some(u64::MAX)] {
                let options = options(padding, size);
                assert_eq!(
                    secret_tlv_request(secret, options),
                    serialized(secret, options)
                );
            }
        }
    }
}

#[test]
fn requests_differ_where_secret_or_options_do() {
    let mut seen: Vec<String> = Vec::new();
    for secret in [[1, 23, 4, 5], [12, 3, 4, 5], [1, 2, 34, 5]] {
        for padding in [None, Some(false), Some(true)] {
            for size in [None, Some(1), Some(12)] {
                let request = text(secret, options(padding, size));
                assert!(!seen.contains(&request));
                seen.push(request);
            }
        }
    }
}
