use nocturned::ota::{
    advertised_ota_pull_window, announced_version, is_safe_target_version, app_rpc_error, ota_transfer_params, checked_window, parse_ota_package_ready,
    OtaReadyError, transfer_result_bytes, transfer_retry_delay_ms,
    OtaPackageReady, OtaPullPlan, TransferError, OTA_LEGACY_PULL_SIZE,
    OTA_MAX_PULL_WINDOW_SIZE,
};
use nocturned::json::{Json, JsonMember, JsonNumber};

fn response(data: Option<Json>) -> Json {
    let mut members = vec![JsonMember { key: "offset".to_string(), value: Json::Number(JsonNumber::PosInt(0)) }];
    if let Some(d) = data {
        members.push(JsonMember { key: "data".to_string(), value: d });
    }
    Json::Object(members)
}

fn text(t: &str) -> Option<Json> {
    Some(Json::Str(t.to_string()))
}

fn numbers(values: Vec<Json>) -> Option<Json> {
    Some(Json::Array(values))
}

fn byte(v: u64) -> Json {
    Json::Number(JsonNumber::PosInt(v))
}

fn ready(chunk: Option<u32>, chunked: Option<bool>, encoding: Option<&str>) -> OtaPackageReady {
    OtaPackageReady {
        update_id: "update-1".to_string(),
        version: "4.2.0+20260725010101".to_string(),
        size: 4,
        expected_sha256: "a".repeat(64),
        resume_from_offset: 0,
        max_transfer_chunk_size: chunk,
        supports_chunked_transfer_response: chunked,
        transfer_data_encoding: encoding.map(str::to_string),
    }
}

#[test]
fn legacy_phones_get_the_legacy_window() {
    assert_eq!(advertised_ota_pull_window(&ready(None, None, None)), OTA_LEGACY_PULL_SIZE);
    assert_eq!(
        advertised_ota_pull_window(&ready(Some(4096), Some(false), Some("msgpack_binary"))),
        OTA_LEGACY_PULL_SIZE
    );
    assert_eq!(advertised_ota_pull_window(&ready(Some(4096), Some(true), Some("base64"))), OTA_LEGACY_PULL_SIZE);
}

#[test]
fn binary_capable_phones_get_their_window_up_to_the_cap() {
    assert_eq!(
        advertised_ota_pull_window(&ready(Some(OTA_MAX_PULL_WINDOW_SIZE * 2), Some(true), Some("msgpack_binary"))),
        OTA_MAX_PULL_WINDOW_SIZE
    );
    assert_eq!(advertised_ota_pull_window(&ready(Some(4096), Some(true), Some("msgpack_binary"))), 4096);
    assert_eq!(advertised_ota_pull_window(&ready(Some(0), Some(true), Some("msgpack_binary"))), OTA_LEGACY_PULL_SIZE);
    assert_eq!(advertised_ota_pull_window(&ready(None, Some(true), Some("msgpack_binary"))), OTA_LEGACY_PULL_SIZE);
}

#[test]
fn pulls_use_bounded_windows_from_the_device_offset() {
    let window = OTA_MAX_PULL_WINDOW_SIZE;
    let size = window * 2 + 1;
    let mut plan = OtaPullPlan::new(size, 0, window);
    assert!(!plan.is_complete());
    assert_eq!(plan.next_window(), Some((0, window as u64)));
    assert_eq!(plan.record_window(), (false, false));
    assert_eq!(plan.next_window(), Some((window as u64, window as u64)));
    assert_eq!(plan.record_window(), (false, false));
    assert_eq!(plan.next_window(), Some(((window * 2) as u64, 1)));
    assert_eq!(plan.record_window(), (true, false));
    assert_eq!(plan.next_window(), None);
}

#[test]
fn resumed_pulls_start_at_the_device_offset_and_finished_ones_send_nothing() {
    let plan = OtaPullPlan::new(1000, 400, 1800);
    assert_eq!(plan.next_window(), Some((400, 600)));
    let done = OtaPullPlan::new(1000, 5000, 1800);
    assert!(done.is_complete());
    assert_eq!(done.next_window(), None);
    let tiny = OtaPullPlan::new(3, 0, 0);
    assert_eq!(tiny.window, 1);
}

#[test]
fn the_puller_pauses_after_every_sixteenth_window() {
    let mut plan = OtaPullPlan::new(100, 0, 1);
    let mut pauses = Vec::new();
    let mut windows = 0;
    while plan.next_window().is_some() {
        let (last, pause) = plan.record_window();
        windows += 1;
        if pause {
            pauses.push(windows);
        }
        if last {
            break;
        }
    }
    assert_eq!(windows, 100);
    assert_eq!(pauses, vec![16, 32, 48, 64, 80, 96]);
}

#[test]
fn transfer_retries_back_off_then_give_up() {
    assert_eq!(transfer_retry_delay_ms(1), Some(250));
    assert_eq!(transfer_retry_delay_ms(2), Some(500));
    assert_eq!(transfer_retry_delay_ms(3), None);
}

#[test]
fn transfer_responses_decode_base64_or_byte_arrays() {
    assert_eq!(transfer_result_bytes(&response(text("AQID"))), Ok(vec![1, 2, 3]));
    assert_eq!(
        transfer_result_bytes(&response(text("not base64!"))),
        Err(TransferError::InvalidBase64)
    );
    assert_eq!(
        transfer_result_bytes(&response(numbers(vec![byte(1), byte(255)]))),
        Ok(vec![1, 255])
    );
    assert_eq!(
        transfer_result_bytes(&response(numbers(vec![byte(1), byte(256), Json::Null]))),
        Err(TransferError::ByteOutOfRange)
    );
    assert_eq!(
        transfer_result_bytes(&response(numbers(vec![Json::Str("1".to_string()), byte(256)]))),
        Err(TransferError::InvalidByteValue)
    );
    assert_eq!(
        transfer_result_bytes(&response(numbers(vec![Json::Number(JsonNumber::NegInt(-1))]))),
        Err(TransferError::InvalidByteValue)
    );
    assert_eq!(transfer_result_bytes(&response(None)), Err(TransferError::MissingData));
    assert_eq!(
        transfer_result_bytes(&response(Some(Json::Bool(true)))),
        Err(TransferError::UnsupportedData)
    );
    assert_eq!(transfer_result_bytes(&Json::Null), Err(TransferError::MissingData));
}

#[test]
fn windows_must_come_back_whole() {
    assert_eq!(checked_window(vec![1, 2], 2), Ok(vec![1, 2]));
    assert_eq!(checked_window(vec![1, 2], 3), Err(TransferError::SizeMismatch));
}

fn announcement(version: Json, extra: Vec<(&str, Json)>) -> Json {
    let mut members = vec![
        JsonMember { key: "updateId".to_string(), value: Json::Str("update-1".to_string()) },
        JsonMember { key: "version".to_string(), value: version },
        JsonMember { key: "size".to_string(), value: byte(4) },
        JsonMember { key: "expectedSha256".to_string(), value: Json::Str("a".repeat(64)) },
        JsonMember { key: "resumeFromOffset".to_string(), value: byte(0) },
    ];
    for (k, v) in extra {
        members.push(JsonMember { key: k.to_string(), value: v });
    }
    Json::Object(members)
}

#[test]
fn ota_package_ready_requires_a_safe_target_version() {
    let params = announcement(Json::Str("4.2.0+20260725010101".to_string()), vec![]);
    assert_eq!(announced_version(&params).as_deref(), Some("4.2.0+20260725010101"));
    let valid = parse_ota_package_ready(&params).expect("valid package metadata should parse");
    assert_eq!(valid.version, "4.2.0+20260725010101");
    assert_eq!(advertised_ota_pull_window(&valid), OTA_LEGACY_PULL_SIZE);

    let capable = parse_ota_package_ready(
        &announcement(
            Json::Str("4.2.0+20260725010101".to_string()),
            vec![
                ("maxTransferChunkSize", byte(OTA_MAX_PULL_WINDOW_SIZE as u64 * 2)),
                ("supportsChunkedTransferResponse", Json::Bool(true)),
                ("transferDataEncoding", Json::Str("msgpack_binary".to_string())),
            ],
        ),
    )
    .expect("capable package metadata should parse");
    assert_eq!(advertised_ota_pull_window(&capable), OTA_MAX_PULL_WINDOW_SIZE);

    let missing = parse_ota_package_ready(&announcement(Json::Null, vec![]));
    assert!(missing.is_err());
    assert_eq!(missing.err(), Some(OtaReadyError::MissingVersion));

    let unsafe_version = announcement(Json::Str("4.2.0\nunsafe".to_string()), vec![]);
    assert_eq!(announced_version(&unsafe_version).as_deref(), Some("4.2.0\nunsafe"));
    let result = parse_ota_package_ready(&unsafe_version);
    assert!(result.is_err());
    assert_eq!(result.err(), Some(OtaReadyError::UnsafeVersion));
}

#[test]
fn package_announcements_are_checked_in_order() {
    let version = || Json::Str("1.0.0".to_string());
    let not_ready = announcement(version(), vec![("state", Json::Str("downloading".to_string()))]);
    assert_eq!(parse_ota_package_ready(&not_ready).err(), Some(OtaReadyError::NotReady));

    let done = announcement(version(), vec![("state", Json::Str("download_success".to_string()))]);
    assert!(parse_ota_package_ready(&done).is_ok());

    let no_id = Json::Object(vec![JsonMember { key: "version".to_string(), value: version() }]);
    assert_eq!(parse_ota_package_ready(&no_id).err(), Some(OtaReadyError::MissingUpdateId));

    let no_size = Json::Object(vec![
        JsonMember { key: "update_id".to_string(), value: Json::Str("u".to_string()) },
        JsonMember { key: "version".to_string(), value: version() },
    ]);
    assert_eq!(parse_ota_package_ready(&no_size).err(), Some(OtaReadyError::MissingSize));

    let big_chunk = announcement(version(), vec![("max_transfer_chunk_size", byte(1 << 32))]);
    assert_eq!(
        parse_ota_package_ready(&big_chunk).err(),
        Some(OtaReadyError::ChunkSizeTooLarge)
    );

    let big = Json::Object(vec![
        JsonMember { key: "update_id".to_string(), value: Json::Str("u".to_string()) },
        JsonMember { key: "version".to_string(), value: version() },
        JsonMember { key: "expected_size".to_string(), value: byte(1 << 32) },
    ]);
    assert_eq!(parse_ota_package_ready(&big).err(), Some(OtaReadyError::PackageTooLarge));

    let resumed = parse_ota_package_ready(
        &announcement(version(), vec![("sha256", Json::Str("b".to_string()))]),
    )
    .unwrap();
    assert_eq!(resumed.expected_sha256, "a".repeat(64));
    assert_eq!(resumed.resume_from_offset, 0);
    assert_eq!(resumed.size, 4);
    assert_eq!(resumed.max_transfer_chunk_size, None);

    let fallback_hash = Json::Object(vec![
        JsonMember { key: "update_id".to_string(), value: Json::Str("u".to_string()) },
        JsonMember { key: "version".to_string(), value: version() },
        JsonMember { key: "size".to_string(), value: byte(9) },
        JsonMember { key: "hash".to_string(), value: Json::Str("h".to_string()) },
        JsonMember { key: "resume_from_offset".to_string(), value: byte(u64::MAX) },
    ]);
    let parsed = parse_ota_package_ready(&fallback_hash).unwrap();
    assert_eq!(parsed.expected_sha256, "h");
    assert_eq!(parsed.resume_from_offset, u32::MAX);
}

#[test]
fn transfer_calls_name_the_window_in_both_spellings() {
    let params = ota_transfer_params("update-1", "9.9.9", 1800, 64);
    assert_eq!(params.get("updateId").and_then(|v| v.as_str()), Some("update-1"));
    assert_eq!(params.get("update_id").and_then(|v| v.as_str()), Some("update-1"));
    assert_eq!(params.get("name").and_then(|v| v.as_str()), Some("nocturne-os"));
    assert_eq!(params.get("offset").and_then(|v| v.as_u64()), Some(1800));
    assert_eq!(params.get("size").and_then(|v| v.as_u64()), Some(64));
    assert_eq!(params.get("version").and_then(|v| v.as_str()), Some("9.9.9"));
}

#[test]
fn app_rpc_results_report_their_error_member() {
    let failed = Json::Object(vec![JsonMember { key: "__error".to_string(), value: Json::Str("busy".to_string()) }]);
    assert_eq!(app_rpc_error(&failed).as_deref(), Some("busy"));
    assert_eq!(app_rpc_error(&response(text("AAEC"))), None);
    let odd = Json::Object(vec![JsonMember { key: "__error".to_string(), value: Json::Bool(true) }]);
    assert_eq!(app_rpc_error(&odd), None);
}

#[test]
fn target_versions_are_plain_version_text() {
    assert!(is_safe_target_version("4.2.0+20260725010101"));
    assert!(is_safe_target_version("1.0.0-rc_1"));
    assert!(!is_safe_target_version("4.2.0\nunsafe"));
    assert!(!is_safe_target_version("4.2.0 beta"));
    assert!(!is_safe_target_version("../4.2.0"));
    assert!(!is_safe_target_version(""));
}
