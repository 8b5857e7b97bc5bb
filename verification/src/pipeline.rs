//! The submission pipeline: what becomes of a claim request.
//!
//! A request goes through these stages, in this order and once:
//! received, canonicalized, verified, decoded, submitted, and then completed
//! or failed. The first three transitions are decided here. Submission is
//! the caller's to perform: [`batch_claim`] hands out the decoded arguments,
//! and [`conclude`] takes what the gateway answered. A failure at any stage
//! ends the request; nothing is tried again.

use crate::authority::{authority_holds, check_authority, VerificationPolicy};
use crate::bindings::json_quote;
use crate::canonical::{
    canonical_bytes, canonicalize, lemma_canonical_ignores_order, same_claim,
};
use crate::codec::Reason;
use crate::decode::{decode_args, decoded, DecodedArgs, DecodedArgsView, Field, MalformedInput};
use crate::json::json_quoted;
use crate::request::{ClaimRequest, ClaimRequestView};
use crate::text::{decimal_digits, decimal_text};
use crate::token_map::groups_ascending;
use vstd::prelude::*;
use vstd::string::{StringExecFns, StringSliceAdditionalSpecFns};

verus! {

/// How the decoded arguments are submitted.
#[derive(Clone, Copy, Debug, PartialEq, Eq, Structural)]
pub enum GatewayMode {
    /// The caller sends a transaction to the ledger.
    Live,
    /// Nothing is sent; the request completes with a made-up identifier.
    /// For operation outside production only.
    Simulated,
}

impl Default for GatewayMode {
    /// Transactions are sent unless asked otherwise.
    fn default() -> (m: GatewayMode)
        ensures
            m == GatewayMode::Live,
    {
        GatewayMode::Live
    }
}

/// The two choices that are made when the pipeline is set up.
#[derive(Clone, Copy, Debug, PartialEq, Eq, Structural)]
pub struct PipelineConfig {
    pub verification: VerificationPolicy,
    pub gateway: GatewayMode,
}

impl Default for PipelineConfig {
    /// Signatures are checked and transactions are sent.
    fn default() -> (c: PipelineConfig)
        ensures
            c == (PipelineConfig {
                verification: VerificationPolicy::Enforce,
                gateway: GatewayMode::Live,
            }),
    {
        PipelineConfig { verification: VerificationPolicy::Enforce, gateway: GatewayMode::Live }
    }
}

/// The transaction identifier that a simulated submission completes with.
pub const SIMULATED_TX_ID: &'static str = "0x123";

/// Why a request failed.
#[derive(Debug)]
pub enum ClaimError {
    /// A text field does not spell a value of its kind.
    MalformedInput(MalformedInput),
    /// The signature is not the claiming user's.
    Unauthorized,
    /// The gateway rejected the transaction or could not send it.
    SubmissionFailed { cause: String },
}

/// A failure as the contracts see it.
pub enum ClaimErrorView {
    MalformedInput(MalformedInput),
    Unauthorized,
    SubmissionFailed { cause: Seq<char> },
}

impl View for ClaimError {
    type V = ClaimErrorView;

    open spec fn view(&self) -> ClaimErrorView {
        match self {
            ClaimError::MalformedInput(e) => ClaimErrorView::MalformedInput(*e),
            ClaimError::Unauthorized => ClaimErrorView::Unauthorized,
            ClaimError::SubmissionFailed { cause } => ClaimErrorView::SubmissionFailed {
                cause: cause@,
            },
        }
    }
}

/// How a request ended: with one transaction identifier or with one failure.
#[derive(Debug)]
pub enum ClaimOutcome {
    Completed { tx_id: String },
    Failed(ClaimError),
}

/// An outcome as the contracts see it.
pub enum ClaimOutcomeView {
    Completed { tx_id: Seq<char> },
    Failed(ClaimErrorView),
}

impl View for ClaimOutcome {
    type V = ClaimOutcomeView;

    open spec fn view(&self) -> ClaimOutcomeView {
        match self {
            ClaimOutcome::Completed { tx_id } => ClaimOutcomeView::Completed { tx_id: tx_id@ },
            ClaimOutcome::Failed(e) => ClaimOutcomeView::Failed(e@),
        }
    }
}

/// What is to be done with a request once its own stages are through.
#[derive(Debug)]
pub enum ClaimStep {
    /// Submit these arguments, then [`conclude`] with the gateway's answer.
    Submit(DecodedArgs),
    /// Nothing is to be submitted: the request has ended.
    Finished(ClaimOutcome),
}

/// A step as the contracts see it.
pub enum ClaimStepView {
    Submit(DecodedArgsView),
    Finished(ClaimOutcomeView),
}

impl View for ClaimStep {
    type V = ClaimStepView;

    open spec fn view(&self) -> ClaimStepView {
        match self {
            ClaimStep::Submit(args) => ClaimStepView::Submit(args@),
            ClaimStep::Finished(outcome) => ClaimStepView::Finished(outcome@),
        }
    }
}

/// The request `r` counts as authorized under `policy`: the policy asks for
/// no check, or the signature over the canonical message is the user's.
pub open spec fn authorized(r: ClaimRequestView, policy: VerificationPolicy) -> bool {
    policy == VerificationPolicy::Bypass || authority_holds(
        r.user_address,
        r.signature,
        canonical_bytes(r),
    )
}

/// The step for the request `r`, given whether it is authorized.
///
/// A request that is not authorized fails as such, whatever else is wrong
/// with it. An authorized request with a malformed field fails on the first
/// such field. Otherwise its arguments are submitted, or, with a simulated
/// gateway, it completes at once.
pub open spec fn step_for(r: ClaimRequestView, is_authorized: bool, gateway: GatewayMode)
    -> ClaimStepView {
    if !is_authorized {
        ClaimStepView::Finished(ClaimOutcomeView::Failed(ClaimErrorView::Unauthorized))
    } else {
        match decoded(r) {
            Err(e) => ClaimStepView::Finished(
                ClaimOutcomeView::Failed(ClaimErrorView::MalformedInput(e)),
            ),
            Ok(args) => match gateway {
                GatewayMode::Live => ClaimStepView::Submit(args),
                GatewayMode::Simulated => ClaimStepView::Finished(
                    ClaimOutcomeView::Completed { tx_id: SIMULATED_TX_ID@ },
                ),
            },
        }
    }
}

/// Whether `request` counts as authorized under `policy`.
pub fn is_authorized(request: &ClaimRequest, policy: VerificationPolicy) -> (ok: bool)
    ensures
        ok == authorized(request@, policy),
{
    match policy {
        VerificationPolicy::Bypass => true,
        VerificationPolicy::Enforce => {
            let text = canonicalize(request);
            check_authority(
                request.user_address.as_str(),
                request.signature.as_str(),
                text.as_str().as_bytes(),
            )
        },
    }
}

/// Takes `request` from verified to the point of submission, given the
/// verdict of the authorization gate.
pub fn process_request(request: &ClaimRequest, is_authorized: bool, gateway: GatewayMode) -> (step:
    ClaimStep)
    ensures
        step@ == step_for(request@, is_authorized, gateway),
{
    if !is_authorized {
        return ClaimStep::Finished(ClaimOutcome::Failed(ClaimError::Unauthorized));
    }
    match decode_args(request) {
        Err(e) => ClaimStep::Finished(ClaimOutcome::Failed(ClaimError::MalformedInput(e))),
        Ok(args) => match gateway {
            GatewayMode::Live => ClaimStep::Submit(args),
            GatewayMode::Simulated => {
                let mut tx_id = String::new();
                tx_id.append(SIMULATED_TX_ID);
                assert(tx_id@ =~= SIMULATED_TX_ID@);
                ClaimStep::Finished(ClaimOutcome::Completed { tx_id })
            },
        },
    }
}

/// Takes `request` from receipt to the point of submission: canonicalizes
/// it, checks the authorization as `config` asks, and decodes it.
pub fn batch_claim(request: &ClaimRequest, config: &PipelineConfig) -> (step: ClaimStep)
    ensures
        step@ == step_for(request@, authorized(request@, config.verification), config.gateway),
{
    let ok = is_authorized(request, config.verification);
    process_request(request, ok, config.gateway)
}

/// What stands for the gateway's answer in contracts.
pub open spec fn outcome_of(reply: Result<Seq<char>, Seq<char>>) -> ClaimOutcomeView {
    match reply {
        Ok(tx_id) => ClaimOutcomeView::Completed { tx_id },
        Err(cause) => ClaimOutcomeView::Failed(ClaimErrorView::SubmissionFailed { cause }),
    }
}

/// Ends a submitted request with the gateway's answer: the transaction
/// identifier as it came, or the failure with its cause.
pub fn conclude(reply: Result<String, String>) -> (outcome: ClaimOutcome)
    ensures
        outcome@ == outcome_of(
            match reply {
                Ok(tx_id) => Ok(tx_id@),
                Err(cause) => Err(cause@),
            },
        ),
{
    match reply {
        Ok(tx_id) => ClaimOutcome::Completed { tx_id },
        Err(cause) => ClaimOutcome::Failed(ClaimError::SubmissionFailed { cause }),
    }
}

/// The words for a reason.
pub open spec fn reason_text(reason: Reason) -> Seq<char> {
    match reason {
        Reason::WrongLength => "wrong length"@,
        Reason::NonHex => "not hexadecimal"@,
        Reason::NegativeSign => "negative sign"@,
        Reason::NonDecimal => "not decimal"@,
        Reason::OutOfRange => "out of range"@,
        Reason::InvalidRecoveryId => "invalid recovery id"@,
    }
}

/// The name of a field, as the request spells it, with the position of the
/// entry where the field is a list.
pub open spec fn field_text(field: Field) -> Seq<char> {
    match field {
        Field::Proof { index } => "proof["@ + decimal_digits(index as nat) + "]"@,
        Field::Signature => "signature"@,
        Field::Group { index } => "tokenIds["@ + decimal_digits(index as nat) + "]"@,
        Field::ItemId { group, index } => "tokenIds["@ + decimal_digits(group as nat) + "]["@
            + decimal_digits(index as nat) + "]"@,
        Field::Amount => "amount"@,
        Field::UserAddress => "userAddress"@,
    }
}

/// The message that a failure is reported with. Each kind of failure has
/// its own wording; an authorization failure says nothing of the signer.
pub open spec fn error_text(e: ClaimErrorView) -> Seq<char> {
    match e {
        ClaimErrorView::MalformedInput(m) => "Malformed input: "@ + field_text(m.field) + ": "@
            + reason_text(m.reason),
        ClaimErrorView::Unauthorized => "Invalid authority"@,
        ClaimErrorView::SubmissionFailed { cause } => "Failed to send batch claim transaction: "@
            + cause,
    }
}

/// The words for `reason`.
fn reason_words(reason: Reason) -> (r: &'static str)
    ensures
        r@ == reason_text(reason),
{
    match reason {
        Reason::WrongLength => "wrong length",
        Reason::NonHex => "not hexadecimal",
        Reason::NegativeSign => "negative sign",
        Reason::NonDecimal => "not decimal",
        Reason::OutOfRange => "out of range",
        Reason::InvalidRecoveryId => "invalid recovery id",
    }
}

/// Appends the name of `field` to `out`.
fn write_field(out: &mut String, field: Field)
    ensures
        final(out)@ == old(out)@ + field_text(field),
{
    let ghost start = out@;
    match field {
        Field::Proof { index } => {
            out.append("proof[");
            out.append(decimal_text(index).as_str());
            out.append("]");
        },
        Field::Signature => {
            out.append("signature");
        },
        Field::Group { index } => {
            out.append("tokenIds[");
            out.append(decimal_text(index).as_str());
            out.append("]");
        },
        Field::ItemId { group, index } => {
            out.append("tokenIds[");
            out.append(decimal_text(group).as_str());
            out.append("][");
            out.append(decimal_text(index).as_str());
            out.append("]");
        },
        Field::Amount => {
            out.append("amount");
        },
        Field::UserAddress => {
            out.append("userAddress");
        },
    }
    assert(out@ =~= start + field_text(field));
}

impl ClaimError {
    /// The message that this failure is reported with.
    pub fn message(&self) -> (text: String)
        ensures
            text@ == error_text(self@),
    {
        let mut out = String::new();
        match self {
            ClaimError::MalformedInput(m) => {
                out.append("Malformed input: ");
                write_field(&mut out, m.field);
                out.append(": ");
                out.append(reason_words(m.reason));
            },
            ClaimError::Unauthorized => {
                out.append("Invalid authority");
            },
            ClaimError::SubmissionFailed { cause } => {
                out.append("Failed to send batch claim transaction: ");
                out.append(cause.as_str());
            },
        }
        assert(out@ =~= error_text(self@));
        out
    }
}

/// An answer to an HTTP request: the status code and the JSON body.
#[derive(Debug)]
pub struct HttpReply {
    pub status: u16,
    pub body: String,
}

/// The body that reports `outcome`: the transaction identifier under
/// `txHash`, or the failure's message under `error`.
pub open spec fn reply_body(outcome: ClaimOutcomeView) -> Seq<char> {
    match outcome {
        ClaimOutcomeView::Completed { tx_id } => "{\"txHash\":"@ + json_quoted(tx_id) + "}"@,
        ClaimOutcomeView::Failed(e) => "{\"error\":"@ + json_quoted(error_text(e)) + "}"@,
    }
}

/// The status that reports `outcome`: 200 for a completed request, 500 for
/// a failure of any kind.
pub open spec fn reply_status(outcome: ClaimOutcomeView) -> u16 {
    match outcome {
        ClaimOutcomeView::Completed { .. } => 200,
        ClaimOutcomeView::Failed(_) => 500,
    }
}

/// The answer to a claim request that ended with `outcome`.
pub fn reply_for(outcome: &ClaimOutcome) -> (reply: HttpReply)
    ensures
        reply.status == reply_status(outcome@),
        reply.body@ == reply_body(outcome@),
{
    let mut body = String::new();
    match outcome {
        ClaimOutcome::Completed { tx_id } => {
            body.append("{\"txHash\":");
            body.append(json_quote(tx_id.as_str()).as_str());
            body.append("}");
            assert(body@ =~= reply_body(outcome@));
            HttpReply { status: 200, body }
        },
        ClaimOutcome::Failed(e) => {
            body.append("{\"error\":");
            body.append(json_quote(e.message().as_str()).as_str());
            body.append("}");
            assert(body@ =~= reply_body(outcome@));
            HttpReply { status: 500, body }
        },
    }
}

/// The answer to a health check.
pub fn health_reply() -> (reply: HttpReply)
    ensures
        reply.status == 200,
        reply.body@ == "{\"status\":\"healthy\"}"@,
{
    let mut body = String::new();
    body.append("{\"status\":\"healthy\"}");
    assert(body@ =~= "{\"status\":\"healthy\"}"@);
    HttpReply { status: 200, body }
}

/// Whether a request is authorized does not depend on the order in which
/// its groups were put in, nor on the order of a group's identifiers.
pub proof fn lemma_authorization_ignores_order(
    a: ClaimRequestView,
    b: ClaimRequestView,
    policy: VerificationPolicy,
)
    requires
        groups_ascending(a.token_ids),
        groups_ascending(b.token_ids),
        same_claim(a, b),
    ensures
        authorized(a, policy) == authorized(b, policy),
{
    lemma_canonical_ignores_order(a, b);
}

/// A request that is not authorized is never submitted, whatever it holds
/// and however the gateway is set up.
pub proof fn lemma_unauthorized_never_submitted(r: ClaimRequestView, gateway: GatewayMode)
    ensures
        step_for(r, false, gateway) == ClaimStepView::Finished(
            ClaimOutcomeView::Failed(ClaimErrorView::Unauthorized),
        ),
{
}

/// A request with a malformed field is never submitted.
pub proof fn lemma_malformed_never_submitted(
    r: ClaimRequestView,
    is_authorized: bool,
    gateway: GatewayMode,
)
    requires
        decoded(r) is Err,
    ensures
        !(step_for(r, is_authorized, gateway) is Submit),
        is_authorized ==> step_for(r, is_authorized, gateway) == ClaimStepView::Finished(
            ClaimOutcomeView::Failed(ClaimErrorView::MalformedInput(decoded(r)->Err_0)),
        ),
{
}

/// What is submitted is what the request spells, and only for an authorized
/// request through a live gateway.
pub proof fn lemma_submitted_is_decoded(
    r: ClaimRequestView,
    is_authorized: bool,
    gateway: GatewayMode,
)
    ensures
        step_for(r, is_authorized, gateway) is Submit <==> (is_authorized && decoded(r) is Ok
            && gateway == GatewayMode::Live),
        step_for(r, is_authorized, gateway) is Submit ==> decoded(r) == Ok::<
            DecodedArgsView,
            MalformedInput,
        >(step_for(r, is_authorized, gateway)->Submit_0),
{
}

} // verus!
