//! The EtherCAT device state machine: the state values, their wire codes,
//! their operational order, and the monotonicity of a polling sequence.

use vstd::prelude::*;

verus! {

/// Register offset of the application-layer control word (staged state).
pub const ADO_AL_CONTROL: u16 = 0x0120;
/// Register offset of the application-layer status word (actual state).
pub const ADO_AL_STATUS: u16 = 0x0130;

/// The device states. `NoValidState`, `Init`, `PreOp`, `SafeOp` and `Op`
/// form the normal ascent; `Boot` is the firmware-update mode outside it,
/// and `AckOrError` stands for the acknowledge/error flag a device may OR
/// onto any state.
#[derive(Clone, Copy, Debug, PartialEq, Eq, Structural)]
pub enum EtherCatState {
    /// No valid state reported.
    NoValidState,
    /// Init state.
    Init,
    /// Pre-operational state.
    PreOp,
    /// Firmware-update mode, outside the normal ascent.
    Boot,
    /// Safe-operational state: inputs valid, outputs ignored.
    SafeOp,
    /// Operational state: full cyclic exchange.
    Op,
    /// The acknowledge/error flag on its own.
    AckOrError,
}

impl EtherCatState {
    /// The wire code of a state, as carried in the AL control and status
    /// registers.
    pub open spec fn code_spec(self) -> u16 {
        match self {
            EtherCatState::NoValidState => 0x00,
            EtherCatState::Init => 0x01,
            EtherCatState::PreOp => 0x02,
            EtherCatState::Boot => 0x03,
            EtherCatState::SafeOp => 0x04,
            EtherCatState::Op => 0x08,
            EtherCatState::AckOrError => 0x10,
        }
    }

    /// The wire code of this state.
    pub fn code(&self) -> (r: u16)
        ensures
            r == self.code_spec(),
    {
        match self {
            EtherCatState::NoValidState => 0x00,
            EtherCatState::Init => 0x01,
            EtherCatState::PreOp => 0x02,
            EtherCatState::Boot => 0x03,
            EtherCatState::SafeOp => 0x04,
            EtherCatState::Op => 0x08,
            EtherCatState::AckOrError => 0x10,
        }
    }

    /// The state for a wire code: defined exactly on the seven codes a
    /// device can report.
    pub open spec fn from_code_spec(code: u16) -> Option<EtherCatState> {
        if code == 0x00 {
            Some(EtherCatState::NoValidState)
        } else if code == 0x01 {
            Some(EtherCatState::Init)
        } else if code == 0x02 {
            Some(EtherCatState::PreOp)
        } else if code == 0x03 {
            Some(EtherCatState::Boot)
        } else if code == 0x04 {
            Some(EtherCatState::SafeOp)
        } else if code == 0x08 {
            Some(EtherCatState::Op)
        } else if code == 0x10 {
            Some(EtherCatState::AckOrError)
        } else {
            None
        }
    }

    /// Decode a state from its wire code; `None` on any other code.
    pub fn from_code(code: u16) -> (r: Option<EtherCatState>)
        ensures
            r == EtherCatState::from_code_spec(code),
    {
        if code == 0x00 {
            Some(EtherCatState::NoValidState)
        } else if code == 0x01 {
            Some(EtherCatState::Init)
        } else if code == 0x02 {
            Some(EtherCatState::PreOp)
        } else if code == 0x03 {
            Some(EtherCatState::Boot)
        } else if code == 0x04 {
            Some(EtherCatState::SafeOp)
        } else if code == 0x08 {
            Some(EtherCatState::Op)
        } else if code == 0x10 {
            Some(EtherCatState::AckOrError)
        } else {
            None
        }
    }

    /// The state for a bare state code (the acknowledge/error flag already
    /// masked off): defined exactly on the six codes a device can be in.
    pub open spec fn base_from_code_spec(code: u16) -> Option<EtherCatState> {
        if code == 0x00 {
            Some(EtherCatState::NoValidState)
        } else if code == 0x01 {
            Some(EtherCatState::Init)
        } else if code == 0x02 {
            Some(EtherCatState::PreOp)
        } else if code == 0x03 {
            Some(EtherCatState::Boot)
        } else if code == 0x04 {
            Some(EtherCatState::SafeOp)
        } else if code == 0x08 {
            Some(EtherCatState::Op)
        } else {
            None
        }
    }

    /// The position of a state in the ascending operational order
    /// `NoValidState < Init < PreOp < SafeOp < Op`. `Boot` sits beside
    /// `PreOp` (it is entered from Init and is no nearer to `Op`), and the
    /// bare flag ranks lowest.
    pub open spec fn rank_spec(self) -> u16 {
        match self {
            EtherCatState::NoValidState => 0,
            EtherCatState::AckOrError => 0,
            EtherCatState::Init => 1,
            EtherCatState::PreOp => 2,
            EtherCatState::Boot => 2,
            EtherCatState::SafeOp => 3,
            EtherCatState::Op => 4,
        }
    }

    /// The position of this state in the ascending operational order.
    pub fn rank(&self) -> (r: u16)
        ensures
            r == self.rank_spec(),
    {
        match self {
            EtherCatState::NoValidState => 0,
            EtherCatState::AckOrError => 0,
            EtherCatState::Init => 1,
            EtherCatState::PreOp => 2,
            EtherCatState::Boot => 2,
            EtherCatState::SafeOp => 3,
            EtherCatState::Op => 4,
        }
    }

    /// A short name for the state.
    pub fn describe(&self) -> (r: &'static str)
        ensures
            self is Boot ==> r@ == "Boot"@,
            self is Init ==> r@ == "Init"@,
            self is NoValidState ==> r@ == "None"@,
            self is AckOrError ==> r@ == "Ack or Error"@,
            self is Op ==> r@ == "Operational"@,
            self is PreOp ==> r@ == "Pre-Operational"@,
            self is SafeOp ==> r@ == "Safe-Operational"@,
    {
        match self {
            EtherCatState::Boot => "Boot",
            EtherCatState::Init => "Init",
            EtherCatState::NoValidState => "None",
            EtherCatState::AckOrError => "Ack or Error",
            EtherCatState::Op => "Operational",
            EtherCatState::PreOp => "Pre-Operational",
            EtherCatState::SafeOp => "Safe-Operational",
        }
    }
}

/// What an application-layer status word decodes to: the device's state,
/// with the acknowledge/error flag — which a device may OR onto any state
/// code — masked off and surfaced beside it. `None` on any other word.
pub open spec fn decode_status_spec(word: u16) -> Option<(EtherCatState, bool)> {
    if word < 0x10 {
        match EtherCatState::base_from_code_spec(word) {
            Some(st) => Some((st, false)),
            None => None,
        }
    } else {
        match EtherCatState::base_from_code_spec((word - 0x10) as u16) {
            Some(st) => Some((st, true)),
            None => None,
        }
    }
}

/// Decode an application-layer status word into the device's state and the
/// acknowledge/error flag.
pub fn decode_status(word: u16) -> (r: Option<(EtherCatState, bool)>)
    ensures
        r == decode_status_spec(word),
{
    let flagged = word >= 0x10;
    let base = if flagged {
        word - 0x10
    } else {
        word
    };
    let st = if base == 0x00 {
        Some(EtherCatState::NoValidState)
    } else if base == 0x01 {
        Some(EtherCatState::Init)
    } else if base == 0x02 {
        Some(EtherCatState::PreOp)
    } else if base == 0x03 {
        Some(EtherCatState::Boot)
    } else if base == 0x04 {
        Some(EtherCatState::SafeOp)
    } else if base == 0x08 {
        Some(EtherCatState::Op)
    } else {
        None
    };
    match st {
        Some(st) => Some((st, flagged)),
        None => None,
    }
}

/// The state a poll sequence reports: the last observation if there was
/// one, else the state known before the poll began.
pub open spec fn poll_result(prior: EtherCatState, observed: Seq<EtherCatState>) -> EtherCatState {
    if observed.len() == 0 {
        prior
    } else {
        observed.last()
    }
}

/// Monotonicity of polling: once the segment has durably reached a state
/// of some rank — every observation the poll makes ranks at least `floor`,
/// and the state known beforehand does too — the state the poll reports
/// never ranks below `floor`, however early the poll stops.
pub proof fn lemma_poll_monotonic(
    prior: EtherCatState,
    observed: Seq<EtherCatState>,
    floor: EtherCatState,
)
    requires
        prior.rank_spec() >= floor.rank_spec(),
        forall|i: int|
            0 <= i < observed.len() ==> (#[trigger] observed[i]).rank_spec()
                >= floor.rank_spec(),
    ensures
        poll_result(prior, observed).rank_spec() >= floor.rank_spec(),
{
    if observed.len() > 0 {
        assert(observed[observed.len() - 1].rank_spec() >= floor.rank_spec());
    }
}

} // verus!
