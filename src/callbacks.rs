//! The text shown while a repository is cloned or fetched: the remote's
//! side-band messages, and a progress line for objects and deltas.
use crate::text::{decimal, push_char, push_decimal};
use crate::units::{
    bytes_text, bytes_to_rate, bytes_to_string, percent_text, rate_text, to_percent, NANOS_PER_SEC,
};
use std::time::Instant;
use vstd::prelude::*;
use vstd::utf8::{decode_utf8, valid_utf8};

verus! {

/// std's `Instant`, held opaque: only the clock wrappers below read it.
#[verifier::external_type_specification]
#[verifier::external_body]
pub struct ExInstant(std::time::Instant);

/// Relies on `Instant::now`: the current instant. Nothing is known of it.
#[verifier::external_body]
fn now() -> (r: Instant) {
    Instant::now()
}

/// Relies on `Instant::elapsed`: the time since `start`, in whole
/// nanoseconds. It depends on the clock, so nothing is known of it.
#[verifier::external_body]
fn nanos_since(start: &Instant) -> (r: u128) {
    start.elapsed().as_nanos()
}

/// What `String::from_utf8_lossy` makes of `bytes`: each invalid sequence
/// becomes a replacement character.
pub uninterp spec fn lossy_utf8(bytes: Seq<u8>) -> Seq<char>;

/// Relies on `String::from_utf8_lossy`: its characters depend on the bytes
/// alone, and are their decoding where the bytes are valid UTF-8.
#[verifier::external_body]
fn decode_lossy(bytes: &[u8]) -> (r: String)
    ensures
        r@ == lossy_utf8(bytes@),
        valid_utf8(bytes@) ==> r@ == decode_utf8(bytes@),
{
    String::from_utf8_lossy(bytes).into_owned()
}

/// The clone state.
#[derive(Debug, Clone, Copy, PartialEq, Eq, Structural)]
pub enum CloneState {
    /// Receiving objects.
    Receiving,
    /// Resolving deltas.
    Resolving,
}

/// Clone output shared state.
pub struct CallbackOutput {
    start: Instant,
    sideband: String,
    progress: String,
    state: CloneState,
}

/// What the callback output holds, as values.
pub struct CallbackOutputView {
    pub start: Instant,
    pub sideband: Seq<char>,
    pub progress: Seq<char>,
    pub state: CloneState,
}

impl View for CallbackOutput {
    type V = CallbackOutputView;

    closed spec fn view(&self) -> CallbackOutputView {
        CallbackOutputView {
            start: self.start,
            sideband: self.sideband@,
            progress: self.progress@,
            state: self.state,
        }
    }
}

impl Default for CallbackOutput {
    fn default() -> (r: Self)
        ensures
            r@.sideband.len() == 0,
            r@.progress.len() == 0,
            r@.state == CloneState::Receiving,
    {
        CallbackOutput {
            start: now(),
            sideband: String::new(),
            progress: String::new(),
            state: CloneState::Receiving,
        }
    }
}

impl CallbackOutput {
    /// The start instant.
    pub fn start(&self) -> (r: &Instant)
        ensures
            *r == self@.start,
    {
        &self.start
    }

    /// The last side-band message.
    pub fn sideband(&self) -> (r: &String)
        ensures
            r@ == self@.sideband,
    {
        &self.sideband
    }

    /// The current progress line.
    pub fn progress(&self) -> (r: &String)
        ensures
            r@ == self@.progress,
    {
        &self.progress
    }

    /// The current state.
    pub fn state(&self) -> (r: CloneState)
        ensures
            r == self@.state,
    {
        self.state
    }

    /// Replaces the progress line.
    pub fn set_progress(&mut self, progress: String)
        ensures
            final(self)@ == (CallbackOutputView { progress: progress@, ..old(self)@ }),
    {
        self.progress = progress;
    }

    /// Replaces the state.
    pub fn set_state(&mut self, state: CloneState)
        ensures
            final(self)@ == (CallbackOutputView { state, ..old(self)@ }),
    {
        self.state = state;
    }
}

/// Side band remote callback: keeps the remote's latest message, decoded,
/// and lets the transfer go on.
pub fn sideband(output: &mut CallbackOutput, text: &[u8]) -> (r: bool)
    ensures
        r,
        final(output)@ == (CallbackOutputView { sideband: lossy_utf8(text@), ..old(output)@ }),
{
    output.sideband = decode_lossy(text);
    true
}

/// The counters of a transfer, as the remote reports them.
#[derive(Debug, Clone, Copy, PartialEq, Eq, Structural)]
pub struct TransferProgress {
    pub received_objects: usize,
    pub total_objects: usize,
    pub received_bytes: usize,
    pub indexed_deltas: usize,
    pub total_deltas: usize,
}

/// Whether a rate can be given over `nanos` nanoseconds.
pub open spec fn rate_defined(nanos: u128) -> bool {
    nanos > 0 && nanos / NANOS_PER_SEC <= u32::MAX
}

/// The percent shown for `num` of `den`: `0%` where the total is zero.
pub open spec fn shown_percent(num: nat, den: nat) -> Seq<char> {
    if den == 0 {
        decimal(0).push('%')
    } else {
        percent_text(num, den)
    }
}

/// The line for objects being received. The rate part is left out where
/// the elapsed time gives none (no time elapsed, or more seconds than 32
/// bits hold).
pub open spec fn receiving_text(p: TransferProgress, nanos: u128) -> Seq<char> {
    let head = "Receiving Objects: "@ + shown_percent(
        p.received_objects as nat,
        p.total_objects as nat,
    ) + " ("@ + decimal(p.received_objects as nat) + "/"@ + decimal(p.total_objects as nat)
        + "), "@ + bytes_text(p.received_bytes as nat);
    if rate_defined(nanos) {
        head + " | "@ + rate_text(p.received_bytes as nat, nanos as nat)
    } else {
        head
    }
}

/// The line for deltas being resolved; `done` once all are.
pub open spec fn deltas_text(p: TransferProgress) -> Seq<char> {
    let pct = shown_percent(p.indexed_deltas as nat, p.total_deltas as nat);
    let line = "Resolving Deltas: "@ + pct + " ("@ + decimal(p.indexed_deltas as nat) + "/"@
        + decimal(p.total_deltas as nat) + ")"@;
    if p.indexed_deltas < p.total_deltas || p.indexed_deltas == 0 {
        line
    } else {
        line + ", done.\n"@
    }
}

/// The output after a progress report `p` arrives `nanos` nanoseconds after
/// the start. While objects arrive, the line shows them. When all have
/// arrived, in the receiving state, the line says so once and the state
/// moves to resolving, after which the line shows the deltas. A report of
/// more objects received than there are leaves the output as it was.
pub open spec fn progress_next(
    o: CallbackOutputView,
    p: TransferProgress,
    nanos: u128,
) -> CallbackOutputView {
    if p.received_objects < p.total_objects {
        CallbackOutputView { progress: receiving_text(p, nanos), ..o }
    } else if p.received_objects == p.total_objects {
        match o.state {
            CloneState::Receiving => CallbackOutputView {
                progress: receiving_text(p, nanos) + ", done.\n"@,
                state: CloneState::Resolving,
                ..o
            },
            CloneState::Resolving => CallbackOutputView { progress: deltas_text(p), ..o },
        }
    } else {
        o
    }
}

/// Appends the percent shown for `num` of `den`.
fn push_percent(line: &mut String, num: usize, den: usize)
    ensures
        final(line)@ == old(line)@ + shown_percent(num as nat, den as nat),
{
    if den == 0 {
        push_decimal(line, 0);
        push_char(line, '%');
    } else {
        match to_percent(num, den) {
            Ok(s) => line.append(s.as_str()),
            Err(_) => {},
        }
    }
}

/// Renders the objects line.
fn receiving_line(p: &TransferProgress, nanos: u128) -> (r: String)
    ensures
        r@ == receiving_text(*p, nanos),
{
    let mut line = String::new();
    line.append("Receiving Objects: ");
    push_percent(&mut line, p.received_objects, p.total_objects);
    line.append(" (");
    push_decimal(&mut line, p.received_objects as u128);
    line.append("/");
    push_decimal(&mut line, p.total_objects as u128);
    line.append("), ");
    match bytes_to_string(p.received_bytes) {
        Ok(bytes) => line.append(bytes.as_str()),
        Err(_) => {},
    }
    match bytes_to_rate(p.received_bytes, nanos) {
        Ok(rate) => {
            line.append(" | ");
            line.append(rate.as_str());
        },
        Err(_) => {},
    }
    proof {
        assert(line@ =~= receiving_text(*p, nanos));
    }
    line
}

/// Renders the deltas line.
fn deltas_line(p: &TransferProgress) -> (r: String)
    ensures
        r@ == deltas_text(*p),
{
    let mut line = String::new();
    line.append("Resolving Deltas: ");
    push_percent(&mut line, p.indexed_deltas, p.total_deltas);
    line.append(" (");
    push_decimal(&mut line, p.indexed_deltas as u128);
    line.append("/");
    push_decimal(&mut line, p.total_deltas as u128);
    line.append(")");
    if !(p.indexed_deltas < p.total_deltas || p.indexed_deltas == 0) {
        line.append(", done.\n");
    }
    proof {
        assert(line@ =~= deltas_text(*p));
    }
    line
}

/// Progress callback for a report that arrives `elapsed_nanos` after the
/// start; lets the transfer go on.
pub fn progress_at(
    output: &mut CallbackOutput,
    progress: &TransferProgress,
    elapsed_nanos: u128,
) -> (r: bool)
    ensures
        r,
        final(output)@ == progress_next(old(output)@, *progress, elapsed_nanos),
{
    if progress.received_objects < progress.total_objects {
        output.progress = receiving_line(progress, elapsed_nanos);
    } else if progress.received_objects == progress.total_objects {
        match output.state {
            CloneState::Receiving => {
                let mut line = receiving_line(progress, elapsed_nanos);
                line.append(", done.\n");
                output.state = CloneState::Resolving;
                output.progress = line;
            },
            CloneState::Resolving => {
                output.progress = deltas_line(progress);
            },
        }
    }
    true
}

/// Progress remote callback: renders the report against the time elapsed
/// since the output's start instant; lets the transfer go on. What the clock
/// reads is not known, so the result is that of [`progress_at`] for some
/// elapsed time.
pub fn progress(output: &mut CallbackOutput, info: &TransferProgress) -> (r: bool)
    ensures
        r,
        exists|nanos: u128| final(output)@ == progress_next(old(output)@, *info, nanos),
{
    let nanos = nanos_since(&output.start);
    progress_at(output, info, nanos)
}

} // verus!
