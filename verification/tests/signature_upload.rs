use room_sync::signature_upload::{
    classify_errcode, nested_signature_upload_failure_summary,
    record_signature_upload_failure_details, report_errcode, sanitize_signature_upload_errcode,
    signature_upload_error, signature_upload_failure_errcode,
    signature_upload_failure_errcode_counts, signature_upload_failure_kind,
    signature_upload_failure_summary, signature_upload_request_summary, ManualVerifyError,
    RequestVerificationError, SignatureUploadFailure, SignatureUploadFailureKind,
    SignatureUploadFailureSummary, SignatureUploadRequestSummary,
};

fn failure(json: &str) -> SignatureUploadFailure {
    SignatureUploadFailure { json: json.to_owned() }
}

fn code(errcode: &str) -> SignatureUploadFailure {
    failure(&format!("{{\"errcode\":\"{errcode}\",\"error\":\"no\"}}"))
}

type Failures = Vec<(String, Vec<(String, SignatureUploadFailure)>)>;

fn failures(users: Vec<Vec<SignatureUploadFailure>>) -> Failures {
    users
        .into_iter()
        .enumerate()
        .map(|(u, keys)| {
            let keys =
                keys.into_iter().enumerate().map(|(k, f)| (format!("KEY{k}"), f)).collect();
            (format!("@user{u}:example.org"), keys)
        })
        .collect()
}

#[test]
fn signature_upload_failures_are_reported() {
    let failures = vec![
        (
            "@alice:example.org",
            vec![("DEVICE", SignatureUploadFailureKind::InvalidSignature)],
        ),
        (
            "@bob:example.org",
            vec![
                ("DEVICE1", SignatureUploadFailureKind::Other),
                ("DEVICE2", SignatureUploadFailureKind::Unknown),
            ],
        ),
    ];

    assert_eq!(
        nested_signature_upload_failure_summary(&failures, |failure| *failure),
        SignatureUploadFailureSummary {
            failure_user_count: 2,
            failure_key_count: 3,
            invalid_signature_count: 1,
            other_failure_count: 1,
            unknown_failure_count: 1,
        }
    );
}

#[test]
fn error_codes_are_classified() {
    assert_eq!(
        signature_upload_failure_kind(&code("M_INVALID_SIGNATURE")),
        SignatureUploadFailureKind::InvalidSignature
    );
    assert_eq!(
        signature_upload_failure_kind(&code("M_FORBIDDEN")),
        SignatureUploadFailureKind::Other
    );
    for unknown in ["{}", "{\"errcode\":5}", "[]", "not json", ""] {
        assert_eq!(
            signature_upload_failure_kind(&failure(unknown)),
            SignatureUploadFailureKind::Unknown
        );
    }
    assert_eq!(classify_errcode(&None), SignatureUploadFailureKind::Unknown);
    assert_eq!(classify_errcode(&Some(None)), SignatureUploadFailureKind::Unknown);
}

#[test]
fn error_codes_are_sanitized() {
    assert_eq!(sanitize_signature_upload_errcode("M_INVALID_SIGNATURE"), "M_INVALID_SIGNATURE");
    assert_eq!(sanitize_signature_upload_errcode("a b\n<c>.d-e_9é"), "abc.d-e_9");
    assert_eq!(sanitize_signature_upload_errcode(""), "EMPTY");
    assert_eq!(sanitize_signature_upload_errcode("é "), "EMPTY");
    assert_eq!(sanitize_signature_upload_errcode(&"x".repeat(100)), "x".repeat(80));
    assert_eq!(sanitize_signature_upload_errcode(&"x".repeat(80)), "x".repeat(80));
    let once = sanitize_signature_upload_errcode("<>");
    assert_eq!(sanitize_signature_upload_errcode(&once), once);
}

#[test]
fn error_codes_are_reported() {
    assert_eq!(signature_upload_failure_errcode(&code("M_FORBIDDEN")), "M_FORBIDDEN");
    assert_eq!(signature_upload_failure_errcode(&failure("{}")), "MISSING");
    assert_eq!(signature_upload_failure_errcode(&failure("{")), "SERDE_FAILED");
    assert_eq!(report_errcode(&Some(Some("a b".to_owned()))), "ab");
}

#[test]
fn error_codes_are_counted_in_order() {
    let all = failures(vec![
        vec![code("M_UNKNOWN"), code("M_FORBIDDEN")],
        vec![],
        vec![code("M_UNKNOWN"), failure("{}")],
    ]);
    assert_eq!(
        signature_upload_failure_errcode_counts(&all),
        vec![
            ("MISSING".to_owned(), 1),
            ("M_FORBIDDEN".to_owned(), 1),
            ("M_UNKNOWN".to_owned(), 2)
        ]
    );
    assert!(signature_upload_failure_errcode_counts(&failures(vec![])).is_empty());
}

#[test]
fn summaries_add_up() {
    let all = failures(vec![
        vec![code("M_INVALID_SIGNATURE"), code("M_FORBIDDEN")],
        vec![failure("{}")],
    ]);
    let summary = signature_upload_failure_summary(&all);
    assert_eq!(
        summary,
        SignatureUploadFailureSummary {
            failure_user_count: 2,
            failure_key_count: 3,
            invalid_signature_count: 1,
            other_failure_count: 1,
            unknown_failure_count: 1,
        }
    );
    let request = signature_upload_request_summary(&[
        ("@a:b.c".to_owned(), vec![("K".to_owned(), ()), ("L".to_owned(), ())]),
        ("@d:b.c".to_owned(), vec![("M".to_owned(), ())]),
    ]);
    assert_eq!(
        request,
        SignatureUploadRequestSummary { signed_target_count: 2, signed_key_count: 3 }
    );
    match signature_upload_error(request, summary) {
        Some(error) => {
            assert_eq!(error.message(), "signature upload response contained 3 failures");
            match error {
                ManualVerifyError::SignatureUploadFailures {
                    signed_target_count,
                    signed_key_count,
                    failure_user_count,
                    failure_key_count,
                    invalid_signature_count,
                    other_failure_count,
                    unknown_failure_count,
                } => assert_eq!(
                    (
                        signed_target_count,
                        signed_key_count,
                        failure_user_count,
                        failure_key_count,
                        invalid_signature_count,
                        other_failure_count,
                        unknown_failure_count
                    ),
                    (2, 3, 2, 3, 1, 1, 1)
                ),
                other => panic!("unexpected {other:?}"),
            }
        }
        None => panic!("refused signatures must give an error"),
    }
    let details = record_signature_upload_failure_details(request, &all).unwrap();
    assert_eq!(details.failure, summary);
    assert_eq!(details.request, request);
    assert_eq!(details.errcode_counts.len(), 3);
}

#[test]
fn accepted_signatures_give_no_error() {
    let none = failures(vec![vec![]]);
    let request = SignatureUploadRequestSummary { signed_target_count: 1, signed_key_count: 1 };
    let summary = signature_upload_failure_summary(&none);
    assert_eq!(summary.failure_user_count, 1);
    assert!(signature_upload_error(request, summary).is_none());
    assert!(record_signature_upload_failure_details(request, &none).is_none());
}

#[test]
fn errors_describe_themselves() {
    assert_eq!(
        RequestVerificationError::RoomCreation("@bob:example.org".to_owned()).message(),
        "Couldn't create a DM with user @bob:example.org where the verification should take place"
    );
    assert_eq!(RequestVerificationError::Sdk { reason: "r".to_owned() }.message(), "r");
    assert_eq!(ManualVerifyError::Http { reason: "h".to_owned() }.message(), "h");
    assert_eq!(ManualVerifyError::Signature { reason: "s".to_owned() }.message(), "s");
}
