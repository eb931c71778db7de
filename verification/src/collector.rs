//! The rollup transaction collector core: rollup-id derivation, the
//! reconnect backoff schedule, the connection status, and the backpressure
//! decision for handing transactions to the searcher.
//!
//! The websocket subscription and the channel sends stay outside; callers
//! feed each serialized transaction and each send outcome to the functions
//! here.

use vstd::prelude::*;

use crate::block::clone_bytes;

verus! {

/// How many connection attempts are made before giving up.
pub const MAX_CONNECT_ATTEMPTS: u32 = 1024;

/// Base delay of the exponential reconnect backoff, in milliseconds.
pub const BACKOFF_BASE_MS: u64 = 500;

/// Cap of the reconnect backoff, in milliseconds.
pub const BACKOFF_MAX_MS: u64 = 60000;

/// How long a send to the searcher may block before the transaction is
/// dropped, in milliseconds.
pub const SEND_TIMEOUT_MS: u64 = 500;

/// The SHA-256 digest of a byte string.
pub uninterp spec fn sha256_of(bytes: Seq<u8>) -> Seq<u8>;

/// Relies on sha2::Sha256 through the Digest trait: the digest is 32 bytes
/// long and depends on the input bytes alone.
#[verifier::external_body]
fn sha256(bytes: &Vec<u8>) -> (r: Vec<u8>)
    ensures
        r@ == sha256_of(bytes@),
        r@.len() == 32,
{
    <sha2::Sha256 as sha2::Digest>::digest(bytes.as_slice()).to_vec()
}

/// Derives the rollup id from the rollup chain name, as the sequencer does:
/// the SHA-256 digest of the name's bytes.
pub fn derive_rollup_id(chain_name: &Vec<u8>) -> (r: Vec<u8>)
    ensures
        r@ == sha256_of(chain_name@),
        r@.len() == 32,
{
    sha256(chain_name)
}

/// The denomination of the native fee asset.
pub open spec fn native_asset_denom() -> Seq<u8> {
    seq![110u8, 114u8, 105u8, 97u8]
}

/// The id of the default fee asset: the SHA-256 digest of the native asset
/// denomination "nria".
pub fn default_native_asset_id() -> (r: Vec<u8>)
    ensures
        r@ == sha256_of(native_asset_denom()),
        r@.len() == 32,
{
    let mut denom: Vec<u8> = Vec::new();
    denom.push(110);
    denom.push(114);
    denom.push(105);
    denom.push(97);
    proof {
        assert(denom@ =~= native_asset_denom());
    }
    sha256(&denom)
}

/// Mathematical image of a [`SequenceAction`].
pub struct SequenceActionView {
    pub rollup_id: Seq<u8>,
    pub data: Seq<u8>,
    pub fee_asset_id: Seq<u8>,
}

/// A sequencer action wrapping one serialized rollup transaction, routed by
/// the rollup id and paying fees in the given asset.
#[derive(Debug)]
pub struct SequenceAction {
    pub rollup_id: Vec<u8>,
    pub data: Vec<u8>,
    pub fee_asset_id: Vec<u8>,
}

impl View for SequenceAction {
    type V = SequenceActionView;

    open spec fn view(&self) -> SequenceActionView {
        SequenceActionView {
            rollup_id: self.rollup_id@,
            data: self.data@,
            fee_asset_id: self.fee_asset_id@,
        }
    }
}

/// Wraps one serialized rollup transaction as a sequencer action for the
/// given rollup, with the default fee asset.
pub fn make_sequence_action(rollup_id: &Vec<u8>, data: Vec<u8>) -> (a: SequenceAction)
    ensures
        a@.rollup_id == rollup_id@,
        a@.data == data@,
        a@.fee_asset_id == sha256_of(native_asset_denom()),
{
    SequenceAction {
        rollup_id: clone_bytes(rollup_id),
        data,
        fee_asset_id: default_native_asset_id(),
    }
}

/// The connection status of one collector instance.
#[derive(Debug)]
pub struct Status {
    is_connected: bool,
}

impl Status {
    /// Whether the collector's subscription is up.
    pub closed spec fn connected(self) -> bool {
        self.is_connected
    }

    /// A fresh status: not connected.
    pub fn new() -> (s: Status)
        ensures
            !s.connected(),
    {
        Status { is_connected: false }
    }

    /// Whether the collector's subscription is up.
    pub fn is_connected(&self) -> (b: bool)
        ensures
            b == self.connected(),
    {
        self.is_connected
    }

    /// Records that the subscription came up or went down.
    pub fn set_connected(&mut self, is_connected: bool)
        ensures
            final(self).connected() == is_connected,
    {
        self.is_connected = is_connected;
    }
}

/// Delay before the given reconnect attempt, in milliseconds: the base
/// delay for the first attempt, doubling with each further attempt, capped.
pub open spec fn backoff_delay_ms_spec(attempt: u32) -> int
    decreases attempt,
{
    if attempt <= 1 {
        BACKOFF_BASE_MS as int
    } else {
        let doubled = 2 * backoff_delay_ms_spec((attempt - 1) as u32);
        if doubled >= BACKOFF_MAX_MS as int {
            BACKOFF_MAX_MS as int
        } else {
            doubled
        }
    }
}

/// Delay before the given reconnect attempt, in milliseconds: 500 ms before
/// the first, doubling with each further attempt, capped at 60 s.
pub fn backoff_delay_ms(attempt: u32) -> (d: u64)
    ensures
        d == backoff_delay_ms_spec(attempt),
{
    let mut d: u64 = BACKOFF_BASE_MS;
    let mut i: u32 = 1;
    while i < attempt
        invariant
            1 <= i,
            attempt > 1 ==> i <= attempt,
            attempt <= 1 ==> i == 1,
            d == backoff_delay_ms_spec(i),
            BACKOFF_BASE_MS <= d <= BACKOFF_MAX_MS,
        decreases attempt - i,
    {
        if d >= BACKOFF_MAX_MS / 2 {
            d = BACKOFF_MAX_MS;
        } else {
            d = d * 2;
        }
        i += 1;
    }
    d
}

/// The outcome of the bounded, timed send of one action to the searcher.
#[derive(Clone, Copy, PartialEq, Eq, Structural, Debug)]
pub enum SendOutcome {
    /// The searcher accepted the action in time.
    Sent,
    /// The searcher did not accept the action within the timeout.
    TimedOut,
    /// The searcher's channel is closed.
    Closed,
}

/// What the collector loop does after one send attempt.
#[derive(Clone, Copy, PartialEq, Eq, Structural, Debug)]
pub enum LoopDirective {
    /// Keep the stream alive: on a timeout the one action is dropped.
    Continue,
    /// The searcher is gone: terminate cleanly.
    Exit,
}

/// Backpressure policy for one send attempt: a timed-out action is dropped
/// and the stream continues; only a closed channel ends the collector.
pub fn handle_send_outcome(outcome: &SendOutcome) -> (d: LoopDirective)
    ensures
        (d is Exit) == (outcome is Closed),
{
    match outcome {
        SendOutcome::Sent => LoopDirective::Continue,
        SendOutcome::TimedOut => LoopDirective::Continue,
        SendOutcome::Closed => LoopDirective::Exit,
    }
}

} // verus!
