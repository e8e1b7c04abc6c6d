//! What the server says of uploaded signatures: counts of the keys it refused, and why.

use vstd::prelude::*;
use vstd::string::*;

use crate::json::{read_text_member, text_member};
use crate::text::{decimal, same_text, text_less, text_order_is_irreflexive, text_order_is_transitive,
    text_order_is_total, text_precedes, texts, write_decimal};

verus! {

/// Error of the manual verification step, when users or devices are signed by hand.
#[derive(Debug)]
pub enum ManualVerifyError {
    /// The signature could not be uploaded.
    Http {
        /// The reason given.
        reason: String,
    },
    /// The user or device could not be signed.
    Signature {
        /// The reason given.
        reason: String,
    },
    /// The server took the request but refused one or more of the signatures in it.
    SignatureUploadFailures {
        /// Users in the request.
        signed_target_count: usize,
        /// Signed keys in the request.
        signed_key_count: usize,
        /// Users with refused signatures.
        failure_user_count: usize,
        /// Refused signatures.
        failure_key_count: usize,
        /// Refused signatures whose error code is `M_INVALID_SIGNATURE`.
        invalid_signature_count: usize,
        /// Refused signatures with another error code.
        other_failure_count: usize,
        /// Refused signatures without a readable error code.
        unknown_failure_count: usize,
    },
}

impl ManualVerifyError {
    /// The text that describes the error.
    pub open spec fn text(self) -> Seq<char> {
        match self {
            ManualVerifyError::Http { reason } => reason@,
            ManualVerifyError::Signature { reason } => reason@,
            ManualVerifyError::SignatureUploadFailures { failure_key_count, .. } =>
            "signature upload response contained "@ + decimal(failure_key_count as nat)
                + " failures"@,
        }
    }

    /// Describes the error.
    pub fn message(&self) -> (r: String)
        ensures
            r@ == self.text(),
    {
        match self {
            ManualVerifyError::Http { reason } => reason.clone(),
            ManualVerifyError::Signature { reason } => reason.clone(),
            ManualVerifyError::SignatureUploadFailures { failure_key_count, .. } => {
                let mut text = "signature upload response contained ".to_owned();
                text.append(write_decimal(*failure_key_count as u64).as_str());
                text.append(" failures");
                text
            },
        }
    }
}

/// Error when requesting a verification.
#[derive(Debug)]
pub enum RequestVerificationError {
    /// An error of the client.
    Sdk {
        /// The reason given.
        reason: String,
    },
    /// There is no direct room with the user, and none could be made.
    RoomCreation(String),
}

impl RequestVerificationError {
    /// The text that describes the error.
    pub open spec fn text(self) -> Seq<char> {
        match self {
            RequestVerificationError::Sdk { reason } => reason@,
            RequestVerificationError::RoomCreation(user) => "Couldn't create a DM with user "@
                + user@ + " where the verification should take place"@,
        }
    }

    /// Describes the error.
    pub fn message(&self) -> (r: String)
        ensures
            r@ == self.text(),
    {
        match self {
            RequestVerificationError::Sdk { reason } => reason.clone(),
            RequestVerificationError::RoomCreation(user) => {
                let mut text = "Couldn't create a DM with user ".to_owned();
                text.append(user.as_str());
                text.append(" where the verification should take place");
                text
            },
        }
    }
}

/// Counts that describe a request.
#[derive(Clone, Copy, Debug, PartialEq, Eq, Structural)]
pub struct SignatureUploadRequestSummary {
    /// Users in the request.
    pub signed_target_count: usize,
    /// Signed keys in the request.
    pub signed_key_count: usize,
}

/// Counts that describe a response.
#[derive(Clone, Copy, Debug, PartialEq, Eq, Structural)]
pub struct SignatureUploadFailureSummary {
    /// Users with refused signatures.
    pub failure_user_count: usize,
    /// Refused signatures.
    pub failure_key_count: usize,
    /// Refused signatures whose error code is `M_INVALID_SIGNATURE`.
    pub invalid_signature_count: usize,
    /// Refused signatures with another error code.
    pub other_failure_count: usize,
    /// Refused signatures without a readable error code.
    pub unknown_failure_count: usize,
}

/// Why a signature was refused.
#[derive(Clone, Copy, Debug, PartialEq, Eq, Structural)]
pub enum SignatureUploadFailureKind {
    /// The signature is invalid.
    InvalidSignature,
    /// Another error code was given.
    Other,
    /// No error code could be read.
    Unknown,
}

/// The values of a map of maps, one after the other.
pub open spec fn nested_values<K1, K2, V>(nested: Seq<(K1, Vec<(K2, V)>)>) -> Seq<V>
    decreases nested.len(),
{
    if nested.len() == 0 {
        Seq::empty()
    } else {
        nested_values(nested.drop_last()) + nested.last().1@.map_values(|entry: (K2, V)| entry.1)
    }
}

/// The number of entries of a kind.
pub open spec fn count_kind(
    kinds: Seq<SignatureUploadFailureKind>,
    kind: SignatureUploadFailureKind,
) -> nat {
    kinds.filter(|k: SignatureUploadFailureKind| k == kind).len()
}

/// Whether the summary is right for a number of users, and for the kind of each refused signature.
pub open spec fn summarizes(
    summary: SignatureUploadFailureSummary,
    users: int,
    kinds: Seq<SignatureUploadFailureKind>,
) -> bool {
    &&& summary.failure_user_count == users
    &&& summary.failure_key_count == kinds.len()
    &&& summary.invalid_signature_count == count_kind(
        kinds,
        SignatureUploadFailureKind::InvalidSignature,
    )
    &&& summary.other_failure_count == count_kind(kinds, SignatureUploadFailureKind::Other)
    &&& summary.unknown_failure_count == count_kind(kinds, SignatureUploadFailureKind::Unknown)
}

proof fn count_kind_push(
    kinds: Seq<SignatureUploadFailureKind>,
    last: SignatureUploadFailureKind,
    kind: SignatureUploadFailureKind,
)
    ensures
        count_kind(kinds.push(last), kind) == count_kind(kinds, kind) + (if last == kind {
            1nat
        } else {
            0nat
        }),
        count_kind(kinds, kind) <= kinds.len(),
{
    reveal(Seq::filter);
    assert(kinds.push(last).drop_last() =~= kinds);
    kinds.lemma_filter_len(|k: SignatureUploadFailureKind| k == kind);
}

/// Every refused signature is counted under exactly one kind.
pub proof fn kinds_add_up(kinds: Seq<SignatureUploadFailureKind>)
    ensures
        count_kind(kinds, SignatureUploadFailureKind::InvalidSignature) + count_kind(
            kinds,
            SignatureUploadFailureKind::Other,
        ) + count_kind(kinds, SignatureUploadFailureKind::Unknown) == kinds.len(),
    decreases kinds.len(),
{
    if kinds.len() == 0 {
        reveal(Seq::filter);
    } else {
        let rest = kinds.drop_last();
        assert(rest.push(kinds.last()) =~= kinds);
        kinds_add_up(rest);
        count_kind_push(rest, kinds.last(), SignatureUploadFailureKind::InvalidSignature);
        count_kind_push(rest, kinds.last(), SignatureUploadFailureKind::Other);
        count_kind_push(rest, kinds.last(), SignatureUploadFailureKind::Unknown);
    }
}

proof fn nested_values_grow<K1, K2, V>(nested: Seq<(K1, Vec<(K2, V)>)>, i: int)
    requires
        0 <= i < nested.len(),
    ensures
        nested_values(nested.take(i + 1)) == nested_values(nested.take(i)) + nested[i].1@.map_values(
            |entry: (K2, V)| entry.1,
        ),
        nested_values(nested.take(i + 1)).len() <= nested_values(nested).len(),
    decreases nested.len() - i,
{
    assert(nested.take(i + 1).drop_last() =~= nested.take(i));
    assert(nested.take(i + 1).last() == nested[i]);
    if i + 1 < nested.len() {
        nested_values_grow(nested, i + 1);
    } else {
        assert(nested.take(i + 1) =~= nested);
    }
}

/// Counts the refused signatures of a response by kind.
pub fn nested_signature_upload_failure_summary<K1, K2, V, F: Fn(&V) -> SignatureUploadFailureKind>(
    failures: &[(K1, Vec<(K2, V)>)],
    classify: F,
) -> (summary: SignatureUploadFailureSummary)
    requires
        nested_values(failures@).len() <= usize::MAX,
        forall|v: &V| call_requires(classify, (v,)),
    ensures
        exists|kinds: Seq<SignatureUploadFailureKind>|
            {
                &&& kinds.len() == nested_values(failures@).len()
                &&& forall|i: int|
                    0 <= i < kinds.len() ==> call_ensures(
                        classify,
                        (&nested_values(failures@)[i],),
                        #[trigger] kinds[i],
                    )
                &&& summarizes(summary, failures@.len() as int, kinds)
            },
{
    let mut summary = SignatureUploadFailureSummary {
        failure_user_count: failures.len(),
        failure_key_count: 0,
        invalid_signature_count: 0,
        other_failure_count: 0,
        unknown_failure_count: 0,
    };
    let ghost mut kinds: Seq<SignatureUploadFailureKind> = Seq::empty();
    let ghost all = nested_values(failures@);
    let mut i: usize = 0;
    proof {
        reveal(Seq::filter);
        assert(nested_values(failures@.take(0)) =~= Seq::<V>::empty());
    }
    while i < failures.len()
        invariant
            i <= failures@.len(),
            all == nested_values(failures@),
            all.len() <= usize::MAX,
            forall|v: &V| call_requires(classify, (v,)),
            kinds.len() == nested_values(failures@.take(i as int)).len(),
            forall|j: int|
                0 <= j < kinds.len() ==> call_ensures(
                    classify,
                    (&nested_values(failures@.take(i as int))[j],),
                    #[trigger] kinds[j],
                ),
            summarizes(summary, failures@.len() as int, kinds),
        decreases failures@.len() - i,
    {
        let entries = &failures[i].1;
        let ghost seen = nested_values(failures@.take(i as int));
        let ghost here = entries@.map_values(|entry: (K2, V)| entry.1);
        proof {
            nested_values_grow(failures@, i as int);
        }
        let mut k: usize = 0;
        while k < entries.len()
            invariant
                k <= entries@.len(),
                all.len() <= usize::MAX,
                forall|v: &V| call_requires(classify, (v,)),
                here == entries@.map_values(|entry: (K2, V)| entry.1),
                seen.len() + here.len() <= all.len(),
                kinds.len() == seen.len() + k,
                forall|j: int|
                    0 <= j < kinds.len() ==> call_ensures(
                        classify,
                        (&(seen + here)[j],),
                        #[trigger] kinds[j],
                    ),
                summarizes(summary, failures@.len() as int, kinds),
            decreases entries@.len() - k,
        {
            let kind = classify(&entries[k].1);
            proof {
                assert((seen + here)[seen.len() + k] == entries@[k as int].1);
                count_kind_push(kinds, kind, SignatureUploadFailureKind::InvalidSignature);
                count_kind_push(kinds, kind, SignatureUploadFailureKind::Other);
                count_kind_push(kinds, kind, SignatureUploadFailureKind::Unknown);
                kinds = kinds.push(kind);
            }
            summary.failure_key_count = summary.failure_key_count + 1;
            match kind {
                SignatureUploadFailureKind::InvalidSignature => {
                    summary.invalid_signature_count = summary.invalid_signature_count + 1;
                },
                SignatureUploadFailureKind::Other => {
                    summary.other_failure_count = summary.other_failure_count + 1;
                },
                SignatureUploadFailureKind::Unknown => {
                    summary.unknown_failure_count = summary.unknown_failure_count + 1;
                },
            }
            k += 1;
        }
        i += 1;
    }
    assert(failures@.take(i as int) =~= failures@);
    summary
}

/// A signature that the server refused, as JSON text.
#[derive(Debug)]
pub struct SignatureUploadFailure {
    /// The JSON text.
    pub json: String,
}

/// The refused signatures of a response: for each user, for each key.
pub type SignatureUploadFailures = [(String, Vec<(String, SignatureUploadFailure)>)];

/// The kind that an error code stands for; the code is as [`text_member`] gives it.
pub open spec fn kind_of_errcode(errcode: Option<Option<Seq<char>>>) -> SignatureUploadFailureKind {
    match errcode {
        Some(Some(code)) => if code == "M_INVALID_SIGNATURE"@ {
            SignatureUploadFailureKind::InvalidSignature
        } else {
            SignatureUploadFailureKind::Other
        },
        _ => SignatureUploadFailureKind::Unknown,
    }
}

/// Tells what kind an error code stands for. `None` is a failure that could not be read,
/// `Some(None)` one without an error code.
pub fn classify_errcode(errcode: &Option<Option<String>>) -> (kind: SignatureUploadFailureKind)
    ensures
        kind == kind_of_errcode(code_text(*errcode)),
{
    match errcode {
        Some(Some(code)) => if same_text(code.as_str(), "M_INVALID_SIGNATURE") {
            SignatureUploadFailureKind::InvalidSignature
        } else {
            SignatureUploadFailureKind::Other
        },
        _ => SignatureUploadFailureKind::Unknown,
    }
}

/// The characters of an error code as it was read.
pub open spec fn code_text(errcode: Option<Option<String>>) -> Option<Option<Seq<char>>> {
    match errcode {
        Some(Some(code)) => Some(Some(code@)),
        Some(None) => Some(None),
        None => None,
    }
}

/// The kind of a refused signature.
pub open spec fn failure_kind(failure: SignatureUploadFailure) -> SignatureUploadFailureKind {
    kind_of_errcode(text_member(failure.json@, "errcode"@))
}

/// Tells why a signature was refused.
pub fn signature_upload_failure_kind(failure: &SignatureUploadFailure) -> (kind:
    SignatureUploadFailureKind)
    ensures
        kind == failure_kind(*failure),
{
    let errcode = read_text_member(failure.json.as_str(), "errcode");
    classify_errcode(&errcode)
}

/// Counts the refused signatures of a response by kind.
pub fn signature_upload_failure_summary(failures: &SignatureUploadFailures) -> (summary:
    SignatureUploadFailureSummary)
    requires
        nested_values(failures@).len() <= usize::MAX,
    ensures
        summarizes(
            summary,
            failures@.len() as int,
            nested_values(failures@).map_values(|f: SignatureUploadFailure| failure_kind(f)),
        ),
{
    let classify = |failure: &SignatureUploadFailure| -> (kind: SignatureUploadFailureKind)
        ensures
            kind == failure_kind(*failure),
        { signature_upload_failure_kind(failure) };
    let summary = nested_signature_upload_failure_summary(failures, classify);
    proof {
        let all = nested_values(failures@);
        let kinds = choose|kinds: Seq<SignatureUploadFailureKind>|
            {
                &&& kinds.len() == all.len()
                &&& forall|i: int|
                    0 <= i < kinds.len() ==> call_ensures(
                        classify,
                        (&all[i],),
                        #[trigger] kinds[i],
                    )
                &&& summarizes(summary, failures@.len() as int, kinds)
            };
        assert(kinds =~= all.map_values(|f: SignatureUploadFailure| failure_kind(f)));
    }
    summary
}

/// The error that a response stands for: one where the server refused a signature, and none
/// otherwise.
pub fn signature_upload_error(
    request: SignatureUploadRequestSummary,
    failure: SignatureUploadFailureSummary,
) -> (r: Option<ManualVerifyError>)
    ensures
        failure.failure_key_count == 0 ==> r is None,
        failure.failure_key_count != 0 ==> r == Some(
            (ManualVerifyError::SignatureUploadFailures {
                signed_target_count: request.signed_target_count,
                signed_key_count: request.signed_key_count,
                failure_user_count: failure.failure_user_count,
                failure_key_count: failure.failure_key_count,
                invalid_signature_count: failure.invalid_signature_count,
                other_failure_count: failure.other_failure_count,
                unknown_failure_count: failure.unknown_failure_count,
            }),
        ),
{
    if failure.failure_key_count == 0 {
        return None;
    }
    Some(
        ManualVerifyError::SignatureUploadFailures {
            signed_target_count: request.signed_target_count,
            signed_key_count: request.signed_key_count,
            failure_user_count: failure.failure_user_count,
            failure_key_count: failure.failure_key_count,
            invalid_signature_count: failure.invalid_signature_count,
            other_failure_count: failure.other_failure_count,
            unknown_failure_count: failure.unknown_failure_count,
        },
    )
}

/// Counts the users and keys of a request: for each user, the keys that were signed.
pub fn signature_upload_request_summary<K>(signed_keys: &[(String, Vec<(String, K)>)]) -> (summary:
    SignatureUploadRequestSummary)
    requires
        nested_values(signed_keys@).len() <= usize::MAX,
    ensures
        summary.signed_target_count == signed_keys@.len(),
        summary.signed_key_count == nested_values(signed_keys@).len(),
{
    let mut signed_key_count: usize = 0;
    let mut i: usize = 0;
    assert(nested_values(signed_keys@.take(0)).len() == 0);
    while i < signed_keys.len()
        invariant
            i <= signed_keys@.len(),
            nested_values(signed_keys@).len() <= usize::MAX,
            signed_key_count == nested_values(signed_keys@.take(i as int)).len(),
        decreases signed_keys@.len() - i,
    {
        proof {
            nested_values_grow(signed_keys@, i as int);
        }
        signed_key_count = signed_key_count + signed_keys[i].1.len();
        i += 1;
    }
    assert(signed_keys@.take(i as int) =~= signed_keys@);
    SignatureUploadRequestSummary { signed_target_count: signed_keys.len(), signed_key_count }
}

/// Whether a character may stand in a reported error code.
pub open spec fn is_errcode_char(c: char) -> bool {
    ||| '0' <= c && c <= '9'
    ||| 'a' <= c && c <= 'z'
    ||| 'A' <= c && c <= 'Z'
    ||| c == '_'
    ||| c == '.'
    ||| c == '-'
}

/// An error code as it is reported: its first eighty permitted characters.
pub open spec fn sanitized_errcode(value: Seq<char>) -> Seq<char> {
    let kept = value.filter(|c: char| is_errcode_char(c));
    if kept.len() == 0 {
        "EMPTY"@
    } else if kept.len() > 80 {
        kept.take(80)
    } else {
        kept
    }
}

/// Cuts an error code down to what may be reported.
pub fn sanitize_signature_upload_errcode(value: &str) -> (r: String)
    ensures
        r@ == sanitized_errcode(value@),
{
    let mut sanitized = String::new();
    let mut kept: usize = 0;
    let ghost permitted = |c: char| is_errcode_char(c);
    let ghost all = value@.filter(permitted);
    proof {
        reveal(Seq::filter);
        assert(value@.take(0).filter(permitted) =~= Seq::<char>::empty());
    }
    for c in chars: value.chars()
        invariant
            permitted == (|c: char| is_errcode_char(c)),
            chars.seq() == value@,
            kept <= 80,
            kept == sanitized@.len(),
            ({
                let seen = value@.take(chars.index() as int).filter(permitted);
                &&& kept < 80 ==> sanitized@ == seen
                &&& kept == 80 ==> seen.len() >= 80 && sanitized@ == seen.take(80)
            }),
    {
        let ghost seen = value@.take(chars.index() as int).filter(permitted);
        proof {
            reveal(Seq::filter);
            assert(value@.take(chars.index() + 1).drop_last() =~= value@.take(chars.index() as int));
            assert(value@.take(chars.index() + 1).last() == c);
        }
        if kept < 80 && ((c >= '0' && c <= '9') || (c >= 'a' && c <= 'z') || (c >= 'A' && c <= 'Z')
            || c == '_' || c == '.' || c == '-') {
            sanitized.push(c);
            kept = kept + 1;
            assert(kept == 80 ==> seen.push(c).take(80) =~= seen.push(c));
        } else {
            assert(kept == 80 && permitted(c) ==> seen.push(c).take(80) =~= seen.take(80));
        }
    }
    assert(value@.take(value@.len() as int) =~= value@);
    assert(all.len() == 80 ==> all.take(80) =~= all);
    if kept == 0 {
        "EMPTY".to_owned()
    } else {
        sanitized
    }
}

/// The error code that is reported of a failure; the code is as [`text_member`] gives it.
pub open spec fn reported_errcode(errcode: Option<Option<Seq<char>>>) -> Seq<char> {
    match errcode {
        None => "SERDE_FAILED"@,
        Some(None) => "MISSING"@,
        Some(Some(code)) => sanitized_errcode(code),
    }
}

/// The error code to report. `None` is a failure that could not be read, `Some(None)` one without
/// an error code.
pub fn report_errcode(errcode: &Option<Option<String>>) -> (r: String)
    ensures
        r@ == reported_errcode(code_text(*errcode)),
{
    match errcode {
        None => "SERDE_FAILED".to_owned(),
        Some(None) => "MISSING".to_owned(),
        Some(Some(code)) => sanitize_signature_upload_errcode(code.as_str()),
    }
}

/// The error code that is reported of a refused signature.
pub open spec fn failure_errcode(failure: SignatureUploadFailure) -> Seq<char> {
    reported_errcode(text_member(failure.json@, "errcode"@))
}

/// The error code to report of a refused signature.
pub fn signature_upload_failure_errcode(failure: &SignatureUploadFailure) -> (r: String)
    ensures
        r@ == failure_errcode(*failure),
{
    let errcode = read_text_member(failure.json.as_str(), "errcode");
    report_errcode(&errcode)
}

/// The number of times that a text stands in a list.
pub open spec fn occurrences(list: Seq<Seq<char>>, text: Seq<char>) -> nat {
    list.filter(|t: Seq<char>| t == text).len()
}

/// Whether `counts` is the tally of a list: each text of the list once, in ascending order, with
/// the number of times that it stands in the list.
pub open spec fn is_tally(counts: Seq<(String, usize)>, list: Seq<Seq<char>>) -> bool {
    &&& forall|i: int, j: int|
        0 <= i < j < counts.len() ==> text_precedes(
            #[trigger] counts[i].0@,
            #[trigger] counts[j].0@,
        )
    &&& forall|i: int|
        0 <= i < counts.len() ==> counts[i].1 == occurrences(list, #[trigger] counts[i].0@)
    &&& forall|i: int| 0 <= i < counts.len() ==> 0 < #[trigger] counts[i].1
    &&& forall|k: int| 0 <= k < list.len() ==> tallied(counts, #[trigger] list[k])
}

/// Whether a text has an entry in a tally.
pub open spec fn tallied(counts: Seq<(String, usize)>, text: Seq<char>) -> bool {
    exists|i: int| 0 <= i < counts.len() && #[trigger] counts[i].0@ == text
}

proof fn occurrences_push(list: Seq<Seq<char>>, last: Seq<char>, text: Seq<char>)
    ensures
        occurrences(list.push(last), text) == occurrences(list, text) + (if last == text {
            1nat
        } else {
            0nat
        }),
        occurrences(list, text) <= list.len(),
{
    reveal(Seq::filter);
    assert(list.push(last).drop_last() =~= list);
    list.lemma_filter_len(|t: Seq<char>| t == text);
}

proof fn absent_text_does_not_occur(list: Seq<Seq<char>>, text: Seq<char>)
    requires
        forall|k: int| 0 <= k < list.len() ==> list[k] != text,
    ensures
        occurrences(list, text) == 0,
    decreases list.len(),
{
    if list.len() == 0 {
        reveal(Seq::filter);
    } else {
        let rest = list.drop_last();
        assert forall|k: int| 0 <= k < rest.len() implies rest[k] != text by {
            assert(rest[k] == list[k]);
        }
        absent_text_does_not_occur(rest, text);
        assert(rest.push(list.last()) =~= list);
        occurrences_push(rest, list.last(), text);
    }
}

/// Counts the texts of a list, in ascending order.
fn tally(list: &[String]) -> (counts: Vec<(String, usize)>)
    ensures
        is_tally(counts@, texts(list@)),
{
    let mut counts: Vec<(String, usize)> = Vec::new();
    let mut k: usize = 0;
    while k < list.len()
        invariant
            k <= list@.len(),
            is_tally(counts@, texts(list@.take(k as int))),
        decreases list@.len() - k,
    {
        let ghost seen = texts(list@.take(k as int));
        let ghost text = list@[k as int]@;
        let ghost before = counts@;
        assert(texts(list@.take(k + 1)) =~= seen.push(text));
        let mut p: usize = 0;
        while p < counts.len() && text_less(counts[p].0.as_str(), list[k].as_str())
            invariant
                p <= counts@.len(),
                counts@ == before,
                k < list@.len(),
                text == list@[k as int]@,
                forall|i: int| 0 <= i < p ==> text_precedes(#[trigger] counts@[i].0@, text),
            decreases counts@.len() - p,
        {
            p += 1;
        }
        proof {
            assert forall|i: int| 0 <= i < before.len() implies occurrences(
                seen.push(text),
                #[trigger] before[i].0@,
            ) == before[i].1 + (if before[i].0@ == text {
                1nat
            } else {
                0nat
            }) by {
                occurrences_push(seen, text, before[i].0@);
            }
            occurrences_push(seen, text, text);
        }
        if p < counts.len() && same_text(counts[p].0.as_str(), list[k].as_str()) {
            let n = counts[p].1;
            let code = list[k].clone();
            counts[p] = (code, n + 1);
            proof {
                assert(counts@ =~= before.update(p as int, (code, (n + 1) as usize)));
                assert forall|i: int| 0 <= i < counts@.len() implies counts@[i].1 == occurrences(
                    seen.push(text),
                    #[trigger] counts@[i].0@,
                ) by {
                    assert(before[i].1 == occurrences(seen, before[i].0@));
                    if i != p {
                        if before[i].0@ == text {
                            text_order_is_irreflexive(text);
                            if i < p {
                                assert(text_precedes(before[i].0@, before[p as int].0@));
                            } else {
                                assert(text_precedes(before[p as int].0@, before[i].0@));
                            }
                        }
                    }
                }
                assert forall|i: int, j: int| 0 <= i < j < counts@.len() implies text_precedes(
                    #[trigger] counts@[i].0@,
                    #[trigger] counts@[j].0@,
                ) by {
                    assert(text_precedes(before[i].0@, before[j].0@));
                }
                assert forall|m: int| 0 <= m < seen.push(text).len() implies tallied(
                    counts@,
                    #[trigger] seen.push(text)[m],
                ) by {
                    if m < seen.len() {
                        assert(tallied(before, seen[m]));
                        let i = choose|i: int|
                            0 <= i < before.len() && #[trigger] before[i].0@ == seen[m];
                        assert(counts@[i].0@ == seen[m]);
                    } else {
                        assert(counts@[p as int].0@ == text);
                    }
                }
                assert forall|i: int| 0 <= i < counts@.len() implies 0
                    < #[trigger] counts@[i].1 by {
                    assert(0 < before[i].1);
                }
            }
        } else {
            let code = list[k].clone();
            counts.insert(p, (code, 1));
            proof {
                if p < before.len() {
                    text_order_is_total(before[p as int].0@, text);
                }
                assert forall|i: int| p <= i < before.len() implies text_precedes(
                    text,
                    #[trigger] before[i].0@,
                ) by {
                    if i > p {
                        assert(text_precedes(before[p as int].0@, before[i].0@));
                        text_order_is_transitive(text, before[p as int].0@, before[i].0@);
                    }
                }
                assert forall|i: int| 0 <= i < before.len() implies #[trigger] before[i].0@
                    != text by {
                    text_order_is_irreflexive(text);
                }
                assert forall|m: int| 0 <= m < seen.len() implies seen[m] != text by {
                    assert(tallied(before, seen[m]));
                }
                absent_text_does_not_occur(seen, text);
                assert forall|i: int| 0 <= i < counts@.len() implies counts@[i].1 == occurrences(
                    seen.push(text),
                    #[trigger] counts@[i].0@,
                ) by {
                    if i < p {
                        assert(counts@[i] == before[i]);
                        assert(before[i].1 == occurrences(seen, before[i].0@));
                    } else if i > p {
                        assert(counts@[i] == before[i - 1]);
                        assert(before[i - 1].1 == occurrences(seen, before[i - 1].0@));
                    }
                }
                assert forall|i: int, j: int| 0 <= i < j < counts@.len() implies text_precedes(
                    #[trigger] counts@[i].0@,
                    #[trigger] counts@[j].0@,
                ) by {
                    let old_i = if i < p {
                        i
                    } else {
                        i - 1
                    };
                    let old_j = if j < p {
                        j
                    } else {
                        j - 1
                    };
                    if i != p {
                        assert(counts@[i] == before[old_i]);
                    }
                    if j != p {
                        assert(counts@[j] == before[old_j]);
                    }
                    if i != p && j != p {
                        assert(text_precedes(before[old_i].0@, before[old_j].0@));
                    }
                }
                assert forall|m: int| 0 <= m < seen.push(text).len() implies tallied(
                    counts@,
                    #[trigger] seen.push(text)[m],
                ) by {
                    if m < seen.len() {
                        assert(tallied(before, seen[m]));
                        let i = choose|i: int|
                            0 <= i < before.len() && #[trigger] before[i].0@ == seen[m];
                        if i < p {
                            assert(counts@[i].0@ == seen[m]);
                        } else {
                            assert(counts@[i + 1].0@ == seen[m]);
                        }
                    } else {
                        assert(counts@[p as int].0@ == text);
                    }
                }
                assert forall|i: int| 0 <= i < counts@.len() implies 0
                    < #[trigger] counts@[i].1 by {
                    if i < p {
                        assert(0 < before[i].1);
                    } else if i > p {
                        assert(0 < before[i - 1].1);
                    }
                }
            }
        }
        k += 1;
    }
    assert(list@.take(k as int) =~= list@);
    counts
}

/// The reported error codes of all refused signatures.
pub open spec fn all_errcodes(
    failures: Seq<(String, Vec<(String, SignatureUploadFailure)>)>,
) -> Seq<Seq<char>> {
    nested_values(failures).map_values(|f: SignatureUploadFailure| failure_errcode(f))
}

/// Counts the error codes of a response, in ascending order.
pub fn signature_upload_failure_errcode_counts(failures: &SignatureUploadFailures) -> (counts: Vec<
    (String, usize),
>)
    ensures
        is_tally(counts@, all_errcodes(failures@)),
{
    let mut codes: Vec<String> = Vec::new();
    let mut i: usize = 0;
    assert(texts(codes@) =~= all_errcodes(failures@.take(0)));
    while i < failures.len()
        invariant
            i <= failures@.len(),
            texts(codes@) == all_errcodes(failures@.take(i as int)),
        decreases failures@.len() - i,
    {
        let entries = &failures[i].1;
        let ghost before = texts(codes@);
        let ghost here = entries@.map_values(|entry: (String, SignatureUploadFailure)| entry.1);
        let mut k: usize = 0;
        assert(texts(codes@) =~= before + here.take(0).map_values(
            |f: SignatureUploadFailure| failure_errcode(f),
        ));
        while k < entries.len()
            invariant
                k <= entries@.len(),
                here == entries@.map_values(|entry: (String, SignatureUploadFailure)| entry.1),
                texts(codes@) == before + here.take(k as int).map_values(
                    |f: SignatureUploadFailure| failure_errcode(f),
                ),
            decreases entries@.len() - k,
        {
            let ghost earlier = codes@;
            codes.push(signature_upload_failure_errcode(&entries[k].1));
            proof {
                assert(texts(codes@) =~= texts(earlier).push(failure_errcode(here[k as int])));
                assert(texts(codes@) =~= before + here.take(k + 1).map_values(
                    |f: SignatureUploadFailure| failure_errcode(f),
                ));
            }
            k += 1;
        }
        proof {
            nested_values_grow(failures@, i as int);
            assert(here.take(k as int) =~= here);
            assert(texts(codes@) =~= all_errcodes(failures@.take(i + 1)));
        }
        i += 1;
    }
    assert(failures@.take(i as int) =~= failures@);
    tally(&codes)
}

/// What is recorded of a response with refused signatures.
#[derive(Debug)]
pub struct SignatureUploadFailureDetails {
    /// Counts that describe the request.
    pub request: SignatureUploadRequestSummary,
    /// Counts that describe the response.
    pub failure: SignatureUploadFailureSummary,
    /// The error codes in ascending order, each with the number of times that it was given.
    pub errcode_counts: Vec<(String, usize)>,
}

/// What to record of a response: nothing where no signature was refused.
pub fn record_signature_upload_failure_details(
    request: SignatureUploadRequestSummary,
    failures: &SignatureUploadFailures,
) -> (r: Option<SignatureUploadFailureDetails>)
    requires
        nested_values(failures@).len() <= usize::MAX,
    ensures
        r is Some <==> nested_values(failures@).len() > 0,
        r matches Some(details) ==> {
            &&& details.request == request
            &&& summarizes(
                details.failure,
                failures@.len() as int,
                nested_values(failures@).map_values(|f: SignatureUploadFailure| failure_kind(f)),
            )
            &&& is_tally(details.errcode_counts@, all_errcodes(failures@))
        },
{
    let failure = signature_upload_failure_summary(failures);
    if failure.failure_key_count == 0 {
        return None;
    }
    let errcode_counts = signature_upload_failure_errcode_counts(failures);
    Some(SignatureUploadFailureDetails { request, failure, errcode_counts })
}

/// A reported error code has between one and eighty characters, all of them permitted.
pub proof fn sanitized_errcode_is_short_and_clean(value: Seq<char>)
    ensures
        1 <= sanitized_errcode(value).len() <= 80,
        forall|i: int|
            0 <= i < sanitized_errcode(value).len() ==> is_errcode_char(
                #[trigger] sanitized_errcode(value)[i],
            ),
{
    let permitted = |c: char| is_errcode_char(c);
    let kept = value.filter(permitted);
    reveal_strlit("EMPTY");
    assert forall|i: int| 0 <= i < kept.len() implies is_errcode_char(#[trigger] kept[i]) by {
        value.lemma_filter_pred(permitted, i);
    }
}

/// Sanitizing an error code twice is sanitizing it once.
pub proof fn sanitizing_is_idempotent(value: Seq<char>)
    ensures
        sanitized_errcode(sanitized_errcode(value)) == sanitized_errcode(value),
{
    let once = sanitized_errcode(value);
    sanitized_errcode_is_short_and_clean(value);
    clean_text_is_kept(once);
}

proof fn clean_text_is_kept(text: Seq<char>)
    requires
        forall|i: int| 0 <= i < text.len() ==> is_errcode_char(#[trigger] text[i]),
    ensures
        text.filter(|c: char| is_errcode_char(c)) == text,
    decreases text.len(),
{
    reveal(Seq::filter);
    if text.len() > 0 {
        let rest = text.drop_last();
        assert forall|i: int| 0 <= i < rest.len() implies is_errcode_char(#[trigger] rest[i]) by {
            assert(rest[i] == text[i]);
        }
        clean_text_is_kept(rest);
        assert(is_errcode_char(text.last()));
        assert(rest.push(text.last()) =~= text);
    }
}

/// The values of a map of maps grow by those of one more inner map, in order.
pub proof fn values_grow_with_the_maps<K1, K2, V>(
    nested: Seq<(K1, Vec<(K2, V)>)>,
    last: (K1, Vec<(K2, V)>),
)
    ensures
        nested_values(Seq::<(K1, Vec<(K2, V)>)>::empty()).len() == 0,
        ({
            let before = nested_values(nested);
            let now = nested_values(nested.push(last));
            &&& now.len() == before.len() + last.1@.len()
            &&& now.take(before.len() as int) == before
            &&& forall|i: int|
                0 <= i < last.1@.len() ==> now[before.len() + i] == (#[trigger] last.1@[i]).1
        }),
{
    assert(nested.push(last).drop_last() =~= nested);
    assert(nested_values(nested.push(last)).take(nested_values(nested).len() as int)
        =~= nested_values(nested));
}

/// One more refused signature adds one to the count of its own kind, and to no other.
pub proof fn refused_signature_is_counted_under_its_kind(
    kinds: Seq<SignatureUploadFailureKind>,
    last: SignatureUploadFailureKind,
    kind: SignatureUploadFailureKind,
)
    ensures
        count_kind(Seq::empty(), kind) == 0,
        last == kind ==> count_kind(kinds.push(last), kind) == count_kind(kinds, kind) + 1,
        last != kind ==> count_kind(kinds.push(last), kind) == count_kind(kinds, kind),
{
    count_kind_push(kinds, last, kind);
    reveal(Seq::filter);
}

/// The summary of a response counts its users and its refused signatures, and grows with one more
/// refused signature in the total and in the count of its kind only.
pub proof fn summary_grows_with_a_refused_signature(
    one: SignatureUploadFailureSummary,
    other: SignatureUploadFailureSummary,
    users: int,
    kinds: Seq<SignatureUploadFailureKind>,
    last: SignatureUploadFailureKind,
)
    requires
        summarizes(one, users, kinds),
        summarizes(other, users, kinds.push(last)),
    ensures
        one.failure_user_count == users,
        one.failure_key_count == kinds.len(),
        other.failure_key_count == one.failure_key_count + 1,
        one.invalid_signature_count + one.other_failure_count + one.unknown_failure_count
            == one.failure_key_count,
        last is InvalidSignature ==> other.invalid_signature_count == one.invalid_signature_count
            + 1 && other.other_failure_count == one.other_failure_count
            && other.unknown_failure_count == one.unknown_failure_count,
        last is Other ==> other.other_failure_count == one.other_failure_count + 1
            && other.invalid_signature_count == one.invalid_signature_count
            && other.unknown_failure_count == one.unknown_failure_count,
        last is Unknown ==> other.unknown_failure_count == one.unknown_failure_count + 1
            && other.invalid_signature_count == one.invalid_signature_count
            && other.other_failure_count == one.other_failure_count,
{
    kinds_add_up(kinds);
    count_kind_push(kinds, last, SignatureUploadFailureKind::InvalidSignature);
    count_kind_push(kinds, last, SignatureUploadFailureKind::Other);
    count_kind_push(kinds, last, SignatureUploadFailureKind::Unknown);
}

/// A refused signature is invalid where its error code says so, another failure where it has another
/// code, and unknown without a code that can be read.
pub proof fn kind_follows_the_error_code(errcode: Option<Option<Seq<char>>>)
    ensures
        errcode is None || errcode->0 is None ==> kind_of_errcode(errcode) is Unknown,
        errcode is Some && errcode->0 is Some ==> {
            let code = errcode->0->0;
            &&& kind_of_errcode(errcode) is InvalidSignature <==> code == "M_INVALID_SIGNATURE"@
            &&& kind_of_errcode(errcode) is Other <==> code != "M_INVALID_SIGNATURE"@
        },
{
}

/// The kind and the reported code of a refused signature are those of the error code in its JSON.
pub proof fn refused_signature_is_told_by_its_error_code(failure: SignatureUploadFailure)
    ensures
        failure_kind(failure) == kind_of_errcode(text_member(failure.json@, "errcode"@)),
        failure_errcode(failure) == reported_errcode(text_member(failure.json@, "errcode"@)),
{
}

/// An error code that was read is taken as it is.
pub proof fn error_code_is_read_as_it_is(errcode: Option<Option<String>>)
    ensures
        code_text(errcode) is Some <==> errcode is Some,
        errcode is Some ==> (code_text(errcode)->0 is Some <==> errcode->0 is Some),
        errcode is Some && errcode->0 is Some ==> code_text(errcode)->0->0 == errcode->0->0@,
{
}

/// The characters that may stand in a reported error code are the digits and letters of ASCII, the
/// underscore, the full stop and the hyphen.
pub proof fn permitted_characters_are_those_of_error_codes(c: char)
    ensures
        is_errcode_char(c) <==> 48 <= c as int <= 57 || 65 <= c as int <= 90 || 97 <= c as int
            <= 122 || c as int == 95 || c as int == 46 || c as int == 45,
{
}

/// An error code of permitted characters is reported as it is, up to its eightieth character; an empty
/// one is reported as such.
pub proof fn clean_error_code_is_reported_as_it_is(value: Seq<char>)
    requires
        forall|i: int| 0 <= i < value.len() ==> is_errcode_char(#[trigger] value[i]),
    ensures
        value.len() == 0 ==> sanitized_errcode(value) == "EMPTY"@,
        0 < value.len() <= 80 ==> sanitized_errcode(value) == value,
        value.len() > 80 ==> sanitized_errcode(value) == value.take(80),
{
    clean_text_is_kept(value);
}

/// A character that is not permitted makes no difference to what is reported, wherever it stands.
pub proof fn characters_that_are_not_permitted_are_left_out(
    before: Seq<char>,
    c: char,
    after: Seq<char>,
)
    requires
        !is_errcode_char(c),
    ensures
        sanitized_errcode(before.push(c) + after) == sanitized_errcode(before + after),
{
    let permitted = |c: char| is_errcode_char(c);
    Seq::filter_distributes_over_add(before.push(c), after, permitted);
    Seq::filter_distributes_over_add(before, after, permitted);
    assert(before.push(c).filter(permitted) == before.filter(permitted)) by {
        reveal(Seq::filter);
        assert(before.push(c).drop_last() =~= before);
    }
}

/// A failure that cannot be read, and one without an error code, are reported as such; a code is
/// reported as far as it is permitted.
pub proof fn report_tells_why_there_is_no_code(errcode: Option<Option<Seq<char>>>)
    ensures
        errcode is None ==> reported_errcode(errcode) == "SERDE_FAILED"@,
        errcode is Some && errcode->0 is None ==> reported_errcode(errcode) == "MISSING"@,
        errcode is Some && errcode->0 is Some ==> reported_errcode(errcode) == sanitized_errcode(
            errcode->0->0,
        ),
{
}

/// The reported error codes are those of the refused signatures, one for one.
pub proof fn error_codes_are_reported_one_for_one(
    failures: Seq<(String, Vec<(String, SignatureUploadFailure)>)>,
)
    ensures
        all_errcodes(failures).len() == nested_values(failures).len(),
        forall|i: int|
            0 <= i < nested_values(failures).len() ==> #[trigger] all_errcodes(failures)[i]
                == failure_errcode(nested_values(failures)[i]),
{
}

/// A text occurs once more with each time that it is put behind a list, and a text that is not in the
/// list does not occur.
pub proof fn occurrences_are_counted_one_by_one(
    list: Seq<Seq<char>>,
    last: Seq<char>,
    text: Seq<char>,
)
    ensures
        occurrences(Seq::empty(), text) == 0,
        last == text ==> occurrences(list.push(last), text) == occurrences(list, text) + 1,
        last != text ==> occurrences(list.push(last), text) == occurrences(list, text),
{
    occurrences_push(list, last, text);
    reveal(Seq::filter);
}

/// A tally has one entry for each text of its list, and none for any other text. Each entry has the
/// number of times that its text stands in the list, and the entries stand in ascending order.
pub proof fn tally_has_one_entry_for_each_text(
    counts: Seq<(String, usize)>,
    list: Seq<Seq<char>>,
    text: Seq<char>,
)
    requires
        is_tally(counts, list),
    ensures
        list.contains(text) <==> exists|i: int|
            0 <= i < counts.len() && #[trigger] counts[i].0@ == text,
        forall|i: int|
            0 <= i < counts.len() && #[trigger] counts[i].0@ == text ==> counts[i].1 == occurrences(
                list,
                text,
            ),
        forall|i: int, j: int|
            0 <= i < j < counts.len() ==> text_precedes(
                #[trigger] counts[i].0@,
                #[trigger] counts[j].0@,
            ) && counts[i].0@ != counts[j].0@,
{
    if list.contains(text) {
        let k = choose|k: int| 0 <= k < list.len() && list[k] == text;
        assert(tallied(counts, list[k]));
    }
    if exists|i: int| 0 <= i < counts.len() && #[trigger] counts[i].0@ == text {
        let i = choose|i: int| 0 <= i < counts.len() && #[trigger] counts[i].0@ == text;
        assert(0 < counts[i].1);
        if !list.contains(text) {
            assert forall|k: int| 0 <= k < list.len() implies list[k] != text by {}
            absent_text_does_not_occur(list, text);
        }
    }
    assert forall|i: int, j: int| 0 <= i < j < counts.len() implies text_precedes(
        #[trigger] counts[i].0@,
        #[trigger] counts[j].0@,
    ) && counts[i].0@ != counts[j].0@ by {
        text_order_is_irreflexive(counts[i].0@);
    }
}

/// The descriptions of the errors hold what they were given: a reason, a user, or the number of refused
/// signatures.
pub proof fn errors_are_described_by_what_they_hold(
    error: ManualVerifyError,
    request_error: RequestVerificationError,
)
    ensures
        error matches ManualVerifyError::Http { reason } ==> error.text() == reason@,
        error matches ManualVerifyError::Signature { reason } ==> error.text() == reason@,
        error matches ManualVerifyError::SignatureUploadFailures { failure_key_count, .. } ==> {
            let count = decimal(failure_key_count as nat);
            &&& error.text().len() == count.len() + 45
            &&& error.text().take(36) == "signature upload response contained "@
            &&& error.text().subrange(36, 36 + count.len() as int) == count
            &&& error.text().skip(36 + count.len() as int) == " failures"@
        },
        request_error matches RequestVerificationError::Sdk { reason } ==> request_error.text()
            == reason@,
        request_error matches RequestVerificationError::RoomCreation(user) ==> {
            &&& request_error.text().len() == user@.len() + 72
            &&& request_error.text().take(31) == "Couldn't create a DM with user "@
            &&& request_error.text().subrange(31, 31 + user@.len() as int) == user@
            &&& request_error.text().skip(31 + user@.len() as int)
                == " where the verification should take place"@
        },
{
    reveal_strlit("signature upload response contained ");
    reveal_strlit(" failures");
    reveal_strlit("Couldn't create a DM with user ");
    reveal_strlit(" where the verification should take place");
    if let ManualVerifyError::SignatureUploadFailures { failure_key_count, .. } = error {
        let count = decimal(failure_key_count as nat);
        assert(error.text().take(36) =~= "signature upload response contained "@);
        assert(error.text().subrange(36, 36 + count.len() as int) =~= count);
        assert(error.text().skip(36 + count.len() as int) =~= " failures"@);
    }
    if let RequestVerificationError::RoomCreation(user) = request_error {
        assert(request_error.text().take(31) =~= "Couldn't create a DM with user "@);
        assert(request_error.text().subrange(31, 31 + user@.len() as int) =~= user@);
        assert(request_error.text().skip(31 + user@.len() as int)
            =~= " where the verification should take place"@);
    }
}

} // verus!
