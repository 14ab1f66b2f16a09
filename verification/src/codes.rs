//! The error codes that the implementation ships.

use crate::structure::is_valid_error_code;
#[allow(unused_imports)]
use crate::structure::valid_error_code;
use common_messages_sv2 as common;
use mining_sv2 as mining;
use vstd::prelude::*;
#[allow(unused_imports)]
use vstd::string::StringSliceAdditionalSpecFns;
#[allow(unused_imports)]
use vstd::utf8::{encode_utf8, is_ascii_chars};

verus! {

/// The first `n` characters are printable ASCII.
pub open spec fn printable(chars: Seq<char>, n: nat) -> bool
    decreases n,
{
    n == 0 || (printable(chars, (n - 1) as nat) && ' ' <= chars[n - 1] <= '~')
}

proof fn lemma_printable(chars: Seq<char>, n: nat, i: int)
    requires
        printable(chars, n),
        0 <= i < n,
    ensures
        ' ' <= chars[i] <= '~',
    decreases n,
{
    if i < n - 1 {
        lemma_printable(chars, (n - 1) as nat, i);
    }
}

/// A code made of printable characters is valid if its length is.
proof fn lemma_printable_code(code: &str)
    requires
        printable(code@, code@.len()),
        0 < code@.len() <= 255,
    ensures
        valid_error_code(code.spec_bytes()),
{
    assert forall|i: int| 0 <= i < code@.len() implies ' ' <= #[trigger] code@[i] <= '~' by {
        lemma_printable(code@, code@.len(), i);
    }
    assert(is_ascii_chars(code@));
    vstd::utf8::is_ascii_chars_encode_utf8(code@);
    assert forall|i: int| 0 <= i < code.spec_bytes().len() implies crate::structure::printable(
        #[trigger] code.spec_bytes()[i],
    ) by {
        assert(code.spec_bytes()[i] == code@[i] as u8);
    }
}

/// The characters of each of some codes.
pub open spec fn texts(codes: Seq<&'static str>) -> Seq<Seq<char>> {
    Seq::new(codes.len(), |i: int| codes[i]@)
}

/// The error codes of `SetupConnection.Error`.
pub open spec fn setup_connection_texts() -> Seq<Seq<char>> {
    seq![
        "unsupported-feature-flags"@,
        "unsupported-protocol"@,
        "missing-declare-tx-data-flag"@,
        "protocol-version-mismatch"@,
    ]
}

/// Reads the `ERROR_CODE_` constants of `common_messages_sv2` for `SetupConnection.Error`. Each
/// holds the text that the contract gives.
#[verifier::external_body]
fn setup_connection_codes() -> (r: Vec<&'static str>)
    ensures
        texts(r@) == setup_connection_texts(),
{
    vec![
        common::ERROR_CODE_SETUP_CONNECTION_UNSUPPORTED_FEATURE_FLAGS,
        common::ERROR_CODE_SETUP_CONNECTION_UNSUPPORTED_PROTOCOL,
        common::ERROR_CODE_SETUP_CONNECTION_MISSING_DECLARE_TX_DATA_FLAG,
        common::ERROR_CODE_SETUP_CONNECTION_PROTOCOL_VERSION_MISMATCH,
    ]
}

/// The error codes of `OpenMiningChannel.Error`.
pub open spec fn open_channel_texts() -> Seq<Seq<char>> {
    seq![
        "standard-channels-not-supported-for-custom-work"@,
        "extended-channels-not-supported-for-standard-jobs"@,
        "channel-capacity-exhausted"@,
        "invalid-user-identity"@,
        "invalid-nominal-hashrate"@,
        "min-extranonce-size-too-large"@,
        "max-target-out-of-range"@,
        "unsupported-min-extranonce-size"@,
        "unknown-user"@,
    ]
}

/// Reads the `ERROR_CODE_` constants of `mining_sv2` for `OpenMiningChannel.Error`. Each
/// holds the text that the contract gives.
#[verifier::external_body]
fn open_channel_codes() -> (r: Vec<&'static str>)
    ensures
        texts(r@) == open_channel_texts(),
{
    vec![
        mining::ERROR_CODE_OPEN_MINING_CHANNEL_STANDARD_CHANNELS_NOT_SUPPORTED_FOR_CUSTOM_WORK,
        mining::ERROR_CODE_OPEN_MINING_CHANNEL_EXTENDED_CHANNELS_NOT_SUPPORTED_FOR_STANDARD_JOBS,
        mining::ERROR_CODE_OPEN_MINING_CHANNEL_CHANNEL_CAPACITY_EXHAUSTED,
        mining::ERROR_CODE_OPEN_MINING_CHANNEL_INVALID_USER_IDENTITY,
        mining::ERROR_CODE_OPEN_MINING_CHANNEL_INVALID_NOMINAL_HASHRATE,
        mining::ERROR_CODE_OPEN_MINING_CHANNEL_MIN_EXTRANONCE_SIZE_TOO_LARGE,
        mining::ERROR_CODE_OPEN_MINING_CHANNEL_MAX_TARGET_OUT_OF_RANGE,
        mining::ERROR_CODE_OPEN_MINING_CHANNEL_UNSUPPORTED_MIN_EXTRANONCE_SIZE,
        mining::ERROR_CODE_OPEN_MINING_CHANNEL_UNKNOWN_USER,
    ]
}

/// The error codes of `UpdateChannel.Error`.
pub open spec fn update_channel_texts() -> Seq<Seq<char>> {
    seq![
        "invalid-nominal-hashrate"@,
        "invalid-channel-id"@,
    ]
}

/// Reads the `ERROR_CODE_` constants of `mining_sv2` for `UpdateChannel.Error`. Each
/// holds the text that the contract gives.
#[verifier::external_body]
fn update_channel_codes() -> (r: Vec<&'static str>)
    ensures
        texts(r@) == update_channel_texts(),
{
    vec![
        mining::ERROR_CODE_UPDATE_CHANNEL_INVALID_NOMINAL_HASHRATE,
        mining::ERROR_CODE_UPDATE_CHANNEL_INVALID_CHANNEL_ID,
    ]
}

/// The error codes of `SubmitShares.Error`.
pub open spec fn submit_shares_texts() -> Seq<Seq<char>> {
    seq![
        "invalid-channel-id"@,
        "invalid-share"@,
        "stale-share"@,
        "invalid-job-id"@,
        "difficulty-too-low"@,
        "duplicate-share"@,
        "bad-extranonce-size"@,
        "version-rolling-not-allowed"@,
        "invalid-non-rollable-version-bit"@,
    ]
}

/// Reads the `ERROR_CODE_` constants of `mining_sv2` for `SubmitShares.Error`. Each
/// holds the text that the contract gives.
#[verifier::external_body]
fn submit_shares_codes() -> (r: Vec<&'static str>)
    ensures
        texts(r@) == submit_shares_texts(),
{
    vec![
        mining::ERROR_CODE_SUBMIT_SHARES_INVALID_CHANNEL_ID,
        mining::ERROR_CODE_SUBMIT_SHARES_INVALID_SHARE,
        mining::ERROR_CODE_SUBMIT_SHARES_STALE_SHARE,
        mining::ERROR_CODE_SUBMIT_SHARES_INVALID_JOB_ID,
        mining::ERROR_CODE_SUBMIT_SHARES_DIFFICULTY_TOO_LOW,
        mining::ERROR_CODE_SUBMIT_SHARES_DUPLICATE_SHARE,
        mining::ERROR_CODE_SUBMIT_SHARES_BAD_EXTRANONCE_SIZE,
        mining::ERROR_CODE_VERSION_ROLLING_NOT_ALLOWED,
        mining::ERROR_CODE_SUBMIT_SHARES_INVALID_NON_ROLLABLE_VERSION_BIT,
    ]
}

/// The error codes of `SetCustomMiningJob.Error` that concern the channel, the token and the chain tip.
pub open spec fn custom_job_state_texts() -> Seq<Seq<char>> {
    seq![
        "jd-not-supported"@,
        "invalid-channel-id"@,
        "invalid-mining-job-token"@,
        "job-not-yet-validated"@,
        "stale-chain-tip"@,
        "invalid-min-ntime"@,
        "invalid-nbits"@,
        "invalid-version"@,
    ]
}

/// Reads the `ERROR_CODE_` constants of `mining_sv2` for `SetCustomMiningJob.Error` that
/// concern the channel, the token and the chain tip. Each holds the text that the contract
/// gives.
#[verifier::external_body]
fn custom_job_state_codes() -> (r: Vec<&'static str>)
    ensures
        texts(r@) == custom_job_state_texts(),
{
    vec![
        mining::ERROR_CODE_SET_CUSTOM_MINING_JOB_JD_NOT_SUPPORTED,
        mining::ERROR_CODE_SET_CUSTOM_MINING_JOB_INVALID_CHANNEL_ID,
        mining::ERROR_CODE_SET_CUSTOM_MINING_JOB_INVALID_MINING_JOB_TOKEN,
        mining::ERROR_CODE_SET_CUSTOM_MINING_JOB_JOB_NOT_YET_VALIDATED,
        mining::ERROR_CODE_SET_CUSTOM_MINING_JOB_STALE_CHAIN_TIP,
        mining::ERROR_CODE_SET_CUSTOM_MINING_JOB_INVALID_MIN_NTIME,
        mining::ERROR_CODE_SET_CUSTOM_MINING_JOB_INVALID_NBITS,
        mining::ERROR_CODE_SET_CUSTOM_MINING_JOB_INVALID_VERSION,
    ]
}

/// The error codes of `SetCustomMiningJob.Error` that concern the coinbase transaction and the Merkle path.
pub open spec fn custom_job_coinbase_texts() -> Seq<Seq<char>> {
    seq![
        "invalid-coinbase-tx"@,
        "invalid-coinbase-tx-version"@,
        "invalid-coinbase-prefix"@,
        "invalid-coinbase-tx-input-n-sequence"@,
        "invalid-coinbase-tx-outputs"@,
        "invalid-coinbase-tx-locktime"@,
        "invalid-merkle-path"@,
    ]
}

/// Reads the `ERROR_CODE_` constants of `mining_sv2` for `SetCustomMiningJob.Error` that
/// concern the coinbase transaction and the Merkle path. Each holds the text that the
/// contract gives.
#[verifier::external_body]
fn custom_job_coinbase_codes() -> (r: Vec<&'static str>)
    ensures
        texts(r@) == custom_job_coinbase_texts(),
{
    vec![
        mining::ERROR_CODE_SET_CUSTOM_MINING_JOB_INVALID_COINBASE_TX,
        mining::ERROR_CODE_SET_CUSTOM_MINING_JOB_INVALID_COINBASE_TX_VERSION,
        mining::ERROR_CODE_SET_CUSTOM_MINING_JOB_INVALID_COINBASE_PREFIX,
        mining::ERROR_CODE_SET_CUSTOM_MINING_JOB_INVALID_COINBASE_TX_INPUT_N_SEQUENCE,
        mining::ERROR_CODE_SET_CUSTOM_MINING_JOB_INVALID_COINBASE_TX_OUTPUTS,
        mining::ERROR_CODE_SET_CUSTOM_MINING_JOB_INVALID_COINBASE_TX_LOCKTIME,
        mining::ERROR_CODE_SET_CUSTOM_MINING_JOB_INVALID_MERKLE_PATH,
    ]
}

proof fn lemma_setup_connection_texts()
    ensures
        forall|i: int|
            0 <= i < setup_connection_texts().len() ==> valid_error_code(
                encode_utf8(#[trigger] setup_connection_texts()[i]),
            ),
{
    reveal_strlit("unsupported-feature-flags");
    assert(printable("unsupported-feature-flags"@, 25)) by {
        reveal_with_fuel(printable, 26);
    }
    lemma_printable_code("unsupported-feature-flags");
    reveal_strlit("unsupported-protocol");
    assert(printable("unsupported-protocol"@, 20)) by {
        reveal_with_fuel(printable, 21);
    }
    lemma_printable_code("unsupported-protocol");
    reveal_strlit("missing-declare-tx-data-flag");
    assert(printable("missing-declare-tx-data-flag"@, 28)) by {
        reveal_with_fuel(printable, 29);
    }
    lemma_printable_code("missing-declare-tx-data-flag");
    reveal_strlit("protocol-version-mismatch");
    assert(printable("protocol-version-mismatch"@, 25)) by {
        reveal_with_fuel(printable, 26);
    }
    lemma_printable_code("protocol-version-mismatch");
}

proof fn lemma_open_channel_texts()
    ensures
        forall|i: int|
            0 <= i < open_channel_texts().len() ==> valid_error_code(
                encode_utf8(#[trigger] open_channel_texts()[i]),
            ),
{
    reveal_strlit("standard-channels-not-supported-for-custom-work");
    assert(printable("standard-channels-not-supported-for-custom-work"@, 47)) by {
        reveal_with_fuel(printable, 48);
    }
    lemma_printable_code("standard-channels-not-supported-for-custom-work");
    reveal_strlit("extended-channels-not-supported-for-standard-jobs");
    assert(printable("extended-channels-not-supported-for-standard-jobs"@, 49)) by {
        reveal_with_fuel(printable, 50);
    }
    lemma_printable_code("extended-channels-not-supported-for-standard-jobs");
    reveal_strlit("channel-capacity-exhausted");
    assert(printable("channel-capacity-exhausted"@, 26)) by {
        reveal_with_fuel(printable, 27);
    }
    lemma_printable_code("channel-capacity-exhausted");
    reveal_strlit("invalid-user-identity");
    assert(printable("invalid-user-identity"@, 21)) by {
        reveal_with_fuel(printable, 22);
    }
    lemma_printable_code("invalid-user-identity");
    reveal_strlit("invalid-nominal-hashrate");
    assert(printable("invalid-nominal-hashrate"@, 24)) by {
        reveal_with_fuel(printable, 25);
    }
    lemma_printable_code("invalid-nominal-hashrate");
    reveal_strlit("min-extranonce-size-too-large");
    assert(printable("min-extranonce-size-too-large"@, 29)) by {
        reveal_with_fuel(printable, 30);
    }
    lemma_printable_code("min-extranonce-size-too-large");
    reveal_strlit("max-target-out-of-range");
    assert(printable("max-target-out-of-range"@, 23)) by {
        reveal_with_fuel(printable, 24);
    }
    lemma_printable_code("max-target-out-of-range");
    reveal_strlit("unsupported-min-extranonce-size");
    assert(printable("unsupported-min-extranonce-size"@, 31)) by {
        reveal_with_fuel(printable, 32);
    }
    lemma_printable_code("unsupported-min-extranonce-size");
    reveal_strlit("unknown-user");
    assert(printable("unknown-user"@, 12)) by {
        reveal_with_fuel(printable, 13);
    }
    lemma_printable_code("unknown-user");
}

proof fn lemma_update_channel_texts()
    ensures
        forall|i: int|
            0 <= i < update_channel_texts().len() ==> valid_error_code(
                encode_utf8(#[trigger] update_channel_texts()[i]),
            ),
{
    reveal_strlit("invalid-nominal-hashrate");
    assert(printable("invalid-nominal-hashrate"@, 24)) by {
        reveal_with_fuel(printable, 25);
    }
    lemma_printable_code("invalid-nominal-hashrate");
    reveal_strlit("invalid-channel-id");
    assert(printable("invalid-channel-id"@, 18)) by {
        reveal_with_fuel(printable, 19);
    }
    lemma_printable_code("invalid-channel-id");
}

proof fn lemma_submit_shares_texts()
    ensures
        forall|i: int|
            0 <= i < submit_shares_texts().len() ==> valid_error_code(
                encode_utf8(#[trigger] submit_shares_texts()[i]),
            ),
{
    reveal_strlit("invalid-channel-id");
    assert(printable("invalid-channel-id"@, 18)) by {
        reveal_with_fuel(printable, 19);
    }
    lemma_printable_code("invalid-channel-id");
    reveal_strlit("invalid-share");
    assert(printable("invalid-share"@, 13)) by {
        reveal_with_fuel(printable, 14);
    }
    lemma_printable_code("invalid-share");
    reveal_strlit("stale-share");
    assert(printable("stale-share"@, 11)) by {
        reveal_with_fuel(printable, 12);
    }
    lemma_printable_code("stale-share");
    reveal_strlit("invalid-job-id");
    assert(printable("invalid-job-id"@, 14)) by {
        reveal_with_fuel(printable, 15);
    }
    lemma_printable_code("invalid-job-id");
    reveal_strlit("difficulty-too-low");
    assert(printable("difficulty-too-low"@, 18)) by {
        reveal_with_fuel(printable, 19);
    }
    lemma_printable_code("difficulty-too-low");
    reveal_strlit("duplicate-share");
    assert(printable("duplicate-share"@, 15)) by {
        reveal_with_fuel(printable, 16);
    }
    lemma_printable_code("duplicate-share");
    reveal_strlit("bad-extranonce-size");
    assert(printable("bad-extranonce-size"@, 19)) by {
        reveal_with_fuel(printable, 20);
    }
    lemma_printable_code("bad-extranonce-size");
    reveal_strlit("version-rolling-not-allowed");
    assert(printable("version-rolling-not-allowed"@, 27)) by {
        reveal_with_fuel(printable, 28);
    }
    lemma_printable_code("version-rolling-not-allowed");
    reveal_strlit("invalid-non-rollable-version-bit");
    assert(printable("invalid-non-rollable-version-bit"@, 32)) by {
        reveal_with_fuel(printable, 33);
    }
    lemma_printable_code("invalid-non-rollable-version-bit");
}

proof fn lemma_custom_job_state_texts()
    ensures
        forall|i: int|
            0 <= i < custom_job_state_texts().len() ==> valid_error_code(
                encode_utf8(#[trigger] custom_job_state_texts()[i]),
            ),
{
    reveal_strlit("jd-not-supported");
    assert(printable("jd-not-supported"@, 16)) by {
        reveal_with_fuel(printable, 17);
    }
    lemma_printable_code("jd-not-supported");
    reveal_strlit("invalid-channel-id");
    assert(printable("invalid-channel-id"@, 18)) by {
        reveal_with_fuel(printable, 19);
    }
    lemma_printable_code("invalid-channel-id");
    reveal_strlit("invalid-mining-job-token");
    assert(printable("invalid-mining-job-token"@, 24)) by {
        reveal_with_fuel(printable, 25);
    }
    lemma_printable_code("invalid-mining-job-token");
    reveal_strlit("job-not-yet-validated");
    assert(printable("job-not-yet-validated"@, 21)) by {
        reveal_with_fuel(printable, 22);
    }
    lemma_printable_code("job-not-yet-validated");
    reveal_strlit("stale-chain-tip");
    assert(printable("stale-chain-tip"@, 15)) by {
        reveal_with_fuel(printable, 16);
    }
    lemma_printable_code("stale-chain-tip");
    reveal_strlit("invalid-min-ntime");
    assert(printable("invalid-min-ntime"@, 17)) by {
        reveal_with_fuel(printable, 18);
    }
    lemma_printable_code("invalid-min-ntime");
    reveal_strlit("invalid-nbits");
    assert(printable("invalid-nbits"@, 13)) by {
        reveal_with_fuel(printable, 14);
    }
    lemma_printable_code("invalid-nbits");
    reveal_strlit("invalid-version");
    assert(printable("invalid-version"@, 15)) by {
        reveal_with_fuel(printable, 16);
    }
    lemma_printable_code("invalid-version");
}

proof fn lemma_custom_job_coinbase_texts()
    ensures
        forall|i: int|
            0 <= i < custom_job_coinbase_texts().len() ==> valid_error_code(
                encode_utf8(#[trigger] custom_job_coinbase_texts()[i]),
            ),
{
    reveal_strlit("invalid-coinbase-tx");
    assert(printable("invalid-coinbase-tx"@, 19)) by {
        reveal_with_fuel(printable, 20);
    }
    lemma_printable_code("invalid-coinbase-tx");
    reveal_strlit("invalid-coinbase-tx-version");
    assert(printable("invalid-coinbase-tx-version"@, 27)) by {
        reveal_with_fuel(printable, 28);
    }
    lemma_printable_code("invalid-coinbase-tx-version");
    reveal_strlit("invalid-coinbase-prefix");
    assert(printable("invalid-coinbase-prefix"@, 23)) by {
        reveal_with_fuel(printable, 24);
    }
    lemma_printable_code("invalid-coinbase-prefix");
    reveal_strlit("invalid-coinbase-tx-input-n-sequence");
    assert(printable("invalid-coinbase-tx-input-n-sequence"@, 36)) by {
        reveal_with_fuel(printable, 37);
    }
    lemma_printable_code("invalid-coinbase-tx-input-n-sequence");
    reveal_strlit("invalid-coinbase-tx-outputs");
    assert(printable("invalid-coinbase-tx-outputs"@, 27)) by {
        reveal_with_fuel(printable, 28);
    }
    lemma_printable_code("invalid-coinbase-tx-outputs");
    reveal_strlit("invalid-coinbase-tx-locktime");
    assert(printable("invalid-coinbase-tx-locktime"@, 28)) by {
        reveal_with_fuel(printable, 29);
    }
    lemma_printable_code("invalid-coinbase-tx-locktime");
    reveal_strlit("invalid-merkle-path");
    assert(printable("invalid-merkle-path"@, 19)) by {
        reveal_with_fuel(printable, 20);
    }
    lemma_printable_code("invalid-merkle-path");
}

/// All error codes that the implementation ships.
pub open spec fn shipped_texts() -> Seq<Seq<char>> {
    setup_connection_texts() + open_channel_texts() + update_channel_texts()
        + submit_shares_texts() + custom_job_state_texts() + custom_job_coinbase_texts()
}

/// Every error code that the implementation ships is printable ASCII without
/// control characters.
pub proof fn lemma_shipped_codes_valid(i: int)
    requires
        0 <= i < shipped_texts().len(),
    ensures
        valid_error_code(encode_utf8(shipped_texts()[i])),
{
    lemma_setup_connection_texts();
    lemma_open_channel_texts();
    lemma_update_channel_texts();
    lemma_submit_shares_texts();
    lemma_custom_job_state_texts();
    lemma_custom_job_coinbase_texts();
    let a = setup_connection_texts();
    let b = open_channel_texts();
    let c = update_channel_texts();
    let d = submit_shares_texts();
    let e = custom_job_state_texts();
    let f = custom_job_coinbase_texts();
    let ab = a.len() + b.len();
    let abc = ab + c.len();
    let abcd = abc + d.len();
    let abcde = abcd + e.len();
    if i < a.len() {
        assert(shipped_texts()[i] == a[i]);
    } else if i < ab {
        assert(shipped_texts()[i] == b[i - a.len()]);
    } else if i < abc {
        assert(shipped_texts()[i] == c[i - ab]);
    } else if i < abcd {
        assert(shipped_texts()[i] == d[i - abc]);
    } else if i < abcde {
        assert(shipped_texts()[i] == e[i - abcd]);
    } else {
        assert(shipped_texts()[i] == f[i - abcde]);
    }
}

/// All error codes that the implementation ships.
fn shipped_codes() -> (r: Vec<&'static str>)
    ensures
        texts(r@) == shipped_texts(),
{
    let mut codes = setup_connection_codes();
    let mut open_channel = open_channel_codes();
    let mut update_channel = update_channel_codes();
    let mut submit_shares = submit_shares_codes();
    let mut job_state = custom_job_state_codes();
    let mut job_coinbase = custom_job_coinbase_codes();
    codes.append(&mut open_channel);
    assert(texts(codes@) =~= setup_connection_texts() + open_channel_texts());
    codes.append(&mut update_channel);
    assert(texts(codes@) =~= setup_connection_texts() + open_channel_texts()
        + update_channel_texts());
    codes.append(&mut submit_shares);
    assert(texts(codes@) =~= setup_connection_texts() + open_channel_texts()
        + update_channel_texts() + submit_shares_texts());
    codes.append(&mut job_state);
    assert(texts(codes@) =~= setup_connection_texts() + open_channel_texts()
        + update_channel_texts() + submit_shares_texts() + custom_job_state_texts());
    codes.append(&mut job_coinbase);
    assert(texts(codes@) =~= shipped_texts());
    codes
}

/// `place` is that of the first code that is not valid; there is none if all are.
pub open spec fn is_first_invalid(codes: Seq<&'static str>, place: Option<usize>) -> bool {
    match place {
        Some(i) => {
            &&& i < codes.len()
            &&& !valid_error_code(codes[i as int].spec_bytes())
            &&& forall|j: int| 0 <= j < i ==> valid_error_code((#[trigger] codes[j]).spec_bytes())
        },
        None => forall|j: int|
            0 <= j < codes.len() ==> valid_error_code((#[trigger] codes[j]).spec_bytes()),
    }
}

/// The place of the first code that is not valid.
pub fn first_invalid_code(codes: &Vec<&'static str>) -> (r: Option<usize>)
    ensures
        is_first_invalid(codes@, r),
{
    let mut i: usize = 0;
    while i < codes.len()
        invariant
            i <= codes@.len(),
            forall|j: int| 0 <= j < i ==> valid_error_code((#[trigger] codes@[j]).spec_bytes()),
        decreases codes@.len() - i,
    {
        if !is_valid_error_code(codes[i]) {
            return Some(i);
        }
        i += 1;
    }
    None
}

/// Checks the error codes that the implementation ships, and returns them; a code
/// that is not valid would come back as the error.
pub fn check_error_codes() -> (r: Result<Vec<&'static str>, &'static str>)
    ensures
        r matches Ok(codes) && texts(codes@) == shipped_texts(),
{
    let codes = shipped_codes();
    let invalid = first_invalid_code(&codes);
    match invalid {
        Some(i) => {
            proof {
                assert(texts(codes@)[i as int] == codes@[i as int]@);
                lemma_shipped_codes_valid(i as int);
            }
            Err(codes[i])
        },
        None => Ok(codes),
    }
}

/// Error codes are found valid exactly if each has one to 255 bytes, each from the space to the
/// tilde; the one that is found not to be valid is the first.
pub proof fn law_first_invalid_code(codes: &Vec<&'static str>, j: int, r: Option<usize>)
    requires
        call_ensures(first_invalid_code, (codes,), r),
    ensures
        r matches Some(i) ==> i < codes@.len(),
        0 <= j < codes@.len() ==> ({
            let bytes = codes@[j].spec_bytes();
            let valid = 1 <= bytes.len() <= 255 && forall|i: int|
                0 <= i < bytes.len() ==> 0x20 <= #[trigger] bytes[i] <= 0x7e;
            &&& r is None ==> valid
            &&& r matches Some(i) ==> (j < i ==> valid) && (j == i ==> !valid)
        }),
{
    let bytes = codes@[j].spec_bytes();
    if valid_error_code(bytes) {
        assert forall|i: int| 0 <= i < bytes.len() implies 0x20 <= #[trigger] bytes[i] <= 0x7e by {
            assert(crate::structure::printable(bytes[i]));
        }
    }
    if 1 <= bytes.len() <= 255 && forall|i: int|
        0 <= i < bytes.len() ==> 0x20 <= #[trigger] bytes[i] <= 0x7e {
        assert forall|i: int| 0 <= i < bytes.len() implies crate::structure::printable(
            #[trigger] bytes[i],
        ) by {}
    }
}

/// All 39 error codes that are shipped come back, and each of them has one to 255 bytes, each
/// from the space to the tilde.
pub proof fn law_check_error_codes(j: int, r: Result<Vec<&'static str>, &'static str>)
    requires
        call_ensures(check_error_codes, (), r),
        0 <= j < 39,
    ensures
        r matches Ok(codes) && {
            let bytes = codes@[j].spec_bytes();
            &&& codes@.len() == 39
            &&& 1 <= bytes.len() <= 255
            &&& forall|i: int| 0 <= i < bytes.len() ==> 0x20 <= #[trigger] bytes[i] <= 0x7e
        },
{
    let codes = r->Ok_0;
    assert(texts(codes@).len() == codes@.len());
    assert(shipped_texts().len() == 39);
    lemma_shipped_codes_valid(j);
    assert(texts(codes@)[j] == codes@[j]@);
    let bytes = codes@[j].spec_bytes();
    assert(valid_error_code(bytes));
    assert forall|i: int| 0 <= i < bytes.len() implies 0x20 <= #[trigger] bytes[i] <= 0x7e by {
        assert(crate::structure::printable(bytes[i]));
    }
}

} // verus!
