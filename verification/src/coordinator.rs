use vstd::prelude::*;

verus! {

/// The step a sending peer is at. Each step but the last two names the work
/// that is done next; the steps are taken in the order written.
#[derive(Clone, Copy, Debug, PartialEq, Eq, Structural)]
pub enum SenderPhase {
    Init,
    OpenFile,
    BindListen,
    PrintEndpoint,
    Accept,
    TlsAccept,
    WriteSize,
    CopyPayload,
    Report,
    Done,
    Failed,
}

/// The step a receiving peer is at, in the order the steps are taken.
#[derive(Clone, Copy, Debug, PartialEq, Eq, Structural)]
pub enum ReceiverPhase {
    Init,
    ReadPeer,
    Connect,
    TlsConnect,
    ReadSize,
    OpenSink,
    CopyPayload,
    Report,
    Done,
    Failed,
}

impl SenderPhase {
    /// The position of a step in the order of the transfer.
    pub open spec fn rank(self) -> nat {
        match self {
            SenderPhase::Init => 0,
            SenderPhase::OpenFile => 1,
            SenderPhase::BindListen => 2,
            SenderPhase::PrintEndpoint => 3,
            SenderPhase::Accept => 4,
            SenderPhase::TlsAccept => 5,
            SenderPhase::WriteSize => 6,
            SenderPhase::CopyPayload => 7,
            SenderPhase::Report => 8,
            SenderPhase::Done => 9,
            SenderPhase::Failed => 10,
        }
    }

    /// Whether the transfer is over, one way or the other.
    pub open spec fn terminal(self) -> bool {
        self == SenderPhase::Done || self == SenderPhase::Failed
    }

    /// The step that follows `self` when its work ended well (`ok`) or
    /// badly. A failure ends the transfer; an ended transfer stays ended.
    pub open spec fn step(self, ok: bool) -> SenderPhase {
        if self.terminal() {
            self
        } else if !ok {
            SenderPhase::Failed
        } else {
            match self {
                SenderPhase::Init => SenderPhase::OpenFile,
                SenderPhase::OpenFile => SenderPhase::BindListen,
                SenderPhase::BindListen => SenderPhase::PrintEndpoint,
                SenderPhase::PrintEndpoint => SenderPhase::Accept,
                SenderPhase::Accept => SenderPhase::TlsAccept,
                SenderPhase::TlsAccept => SenderPhase::WriteSize,
                SenderPhase::WriteSize => SenderPhase::CopyPayload,
                SenderPhase::CopyPayload => SenderPhase::Report,
                _ => SenderPhase::Done,
            }
        }
    }

    /// Whether bytes of the transfer itself, prefix or payload, go over the
    /// session at this step.
    pub open spec fn on_wire(self) -> bool {
        self == SenderPhase::WriteSize || self == SenderPhase::CopyPayload
    }

    /// The step reached from the start after the outcomes `outcomes`, one
    /// for each step taken.
    pub open spec fn after(outcomes: Seq<bool>) -> SenderPhase
        decreases outcomes.len(),
    {
        if outcomes.len() == 0 {
            SenderPhase::Init
        } else {
            Self::after(outcomes.drop_last()).step(outcomes.last())
        }
    }

    /// Moves on from the current step, given how its work ended.
    pub fn advance(self, ok: bool) -> (next: SenderPhase)
        ensures
            next == self.step(ok),
    {
        match self {
            SenderPhase::Done => SenderPhase::Done,
            SenderPhase::Failed => SenderPhase::Failed,
            _ if !ok => SenderPhase::Failed,
            SenderPhase::Init => SenderPhase::OpenFile,
            SenderPhase::OpenFile => SenderPhase::BindListen,
            SenderPhase::BindListen => SenderPhase::PrintEndpoint,
            SenderPhase::PrintEndpoint => SenderPhase::Accept,
            SenderPhase::Accept => SenderPhase::TlsAccept,
            SenderPhase::TlsAccept => SenderPhase::WriteSize,
            SenderPhase::WriteSize => SenderPhase::CopyPayload,
            SenderPhase::CopyPayload => SenderPhase::Report,
            SenderPhase::Report => SenderPhase::Done,
        }
    }

    /// Whether the transfer is over.
    pub fn is_terminal(self) -> (b: bool)
        ensures
            b == self.terminal(),
    {
        match self {
            SenderPhase::Done | SenderPhase::Failed => true,
            _ => false,
        }
    }

    /// Whether the transfer ran through all its steps.
    pub fn succeeded(self) -> (b: bool)
        ensures
            b == (self == SenderPhase::Done),
    {
        match self {
            SenderPhase::Done => true,
            _ => false,
        }
    }

    /// The exit status of a process that ends at this step: zero after a
    /// complete transfer, one otherwise.
    pub fn exit_code(self) -> (code: u8)
        ensures
            code == if self == SenderPhase::Done { 0u8 } else { 1u8 },
    {
        match self {
            SenderPhase::Done => 0,
            _ => 1,
        }
    }

    /// Where a run stands: a run of `n` outcomes that has not failed is at
    /// the `n`-th step, or at the last one if `n` is larger; and it has not
    /// failed exactly if each outcome that a step was waiting for was good.
    pub proof fn lemma_after_rank(outcomes: Seq<bool>)
        ensures
            Self::after(outcomes) != SenderPhase::Failed ==> Self::after(outcomes).rank() == (
            if outcomes.len() <= 9 {
                outcomes.len()
            } else {
                9
            }),
            Self::after(outcomes) != SenderPhase::Failed <==> (forall|i: int|
                0 <= i < outcomes.len() && i < 9 ==> outcomes[i]),
        decreases outcomes.len(),
    {
        if outcomes.len() > 0 {
            let before = outcomes.drop_last();
            Self::lemma_after_rank(before);
            if Self::after(outcomes) != SenderPhase::Failed {
                assert forall|i: int| 0 <= i < outcomes.len() && i < 9 implies outcomes[i] by {
                    if i < before.len() {
                        assert(before[i] == outcomes[i]);
                    }
                }
            } else if Self::after(before) == SenderPhase::Failed {
                let i = choose|i: int| 0 <= i < before.len() && i < 9 && !before[i];
                assert(!outcomes[i]);
            } else {
                assert(!outcomes[outcomes.len() - 1]);
            }
        }
    }

    /// Handshake before payload: whenever a run stands at a step that puts
    /// the prefix or the payload on the wire, the handshake was the step
    /// just before the prefix, and it succeeded.
    pub proof fn lemma_handshake_first(outcomes: Seq<bool>)
        requires
            Self::after(outcomes).on_wire(),
        ensures
            outcomes.len() >= 6,
            Self::after(outcomes.take(5)) == SenderPhase::TlsAccept,
            outcomes[5],
            forall|i: int| 0 <= i < 5 ==> !(#[trigger] Self::after(outcomes.take(i))).on_wire(),
    {
        Self::lemma_after_rank(outcomes);
        Self::lemma_after_rank(outcomes.take(5));
        assert forall|i: int| 0 <= i < 5 implies !(#[trigger] Self::after(
            outcomes.take(i),
        )).on_wire() by {
            Self::lemma_after_rank(outcomes.take(i));
        }
    }

    /// One connection only: a run waits for an inbound connection at one
    /// point of its course at most, so a second connection is never
    /// accepted.
    pub proof fn lemma_accepts_once(outcomes: Seq<bool>, i: int, j: int)
        requires
            0 <= i < j <= outcomes.len(),
            Self::after(outcomes.take(i)) == SenderPhase::Accept,
        ensures
            Self::after(outcomes.take(j)) != SenderPhase::Accept,
    {
        Self::lemma_after_rank(outcomes.take(i));
        Self::lemma_after_rank(outcomes.take(j));
    }
}

impl ReceiverPhase {
    /// The position of a step in the order of the transfer.
    pub open spec fn rank(self) -> nat {
        match self {
            ReceiverPhase::Init => 0,
            ReceiverPhase::ReadPeer => 1,
            ReceiverPhase::Connect => 2,
            ReceiverPhase::TlsConnect => 3,
            ReceiverPhase::ReadSize => 4,
            ReceiverPhase::OpenSink => 5,
            ReceiverPhase::CopyPayload => 6,
            ReceiverPhase::Report => 7,
            ReceiverPhase::Done => 8,
            ReceiverPhase::Failed => 9,
        }
    }

    /// Whether the transfer is over, one way or the other.
    pub open spec fn terminal(self) -> bool {
        self == ReceiverPhase::Done || self == ReceiverPhase::Failed
    }

    /// The step that follows `self` when its work ended well (`ok`) or
    /// badly. A failure ends the transfer; an ended transfer stays ended.
    pub open spec fn step(self, ok: bool) -> ReceiverPhase {
        if self.terminal() {
            self
        } else if !ok {
            ReceiverPhase::Failed
        } else {
            match self {
                ReceiverPhase::Init => ReceiverPhase::ReadPeer,
                ReceiverPhase::ReadPeer => ReceiverPhase::Connect,
                ReceiverPhase::Connect => ReceiverPhase::TlsConnect,
                ReceiverPhase::TlsConnect => ReceiverPhase::ReadSize,
                ReceiverPhase::ReadSize => ReceiverPhase::OpenSink,
                ReceiverPhase::OpenSink => ReceiverPhase::CopyPayload,
                ReceiverPhase::CopyPayload => ReceiverPhase::Report,
                _ => ReceiverPhase::Done,
            }
        }
    }

    /// Whether bytes of the transfer itself, prefix or payload, are read
    /// from the session at this step.
    pub open spec fn on_wire(self) -> bool {
        self == ReceiverPhase::ReadSize || self == ReceiverPhase::CopyPayload
    }

    /// Whether this step needs the network or the destination file.
    pub open spec fn touches_outside(self) -> bool {
        self.rank() >= 2 && self.rank() <= 6
    }

    /// The step reached from the start after the outcomes `outcomes`, one
    /// for each step taken.
    pub open spec fn after(outcomes: Seq<bool>) -> ReceiverPhase
        decreases outcomes.len(),
    {
        if outcomes.len() == 0 {
            ReceiverPhase::Init
        } else {
            Self::after(outcomes.drop_last()).step(outcomes.last())
        }
    }

    /// Moves on from the current step, given how its work ended.
    pub fn advance(self, ok: bool) -> (next: ReceiverPhase)
        ensures
            next == self.step(ok),
    {
        match self {
            ReceiverPhase::Done => ReceiverPhase::Done,
            ReceiverPhase::Failed => ReceiverPhase::Failed,
            _ if !ok => ReceiverPhase::Failed,
            ReceiverPhase::Init => ReceiverPhase::ReadPeer,
            ReceiverPhase::ReadPeer => ReceiverPhase::Connect,
            ReceiverPhase::Connect => ReceiverPhase::TlsConnect,
            ReceiverPhase::TlsConnect => ReceiverPhase::ReadSize,
            ReceiverPhase::ReadSize => ReceiverPhase::OpenSink,
            ReceiverPhase::OpenSink => ReceiverPhase::CopyPayload,
            ReceiverPhase::CopyPayload => ReceiverPhase::Report,
            ReceiverPhase::Report => ReceiverPhase::Done,
        }
    }

    /// Whether the transfer is over.
    pub fn is_terminal(self) -> (b: bool)
        ensures
            b == self.terminal(),
    {
        match self {
            ReceiverPhase::Done | ReceiverPhase::Failed => true,
            _ => false,
        }
    }

    /// Whether the transfer ran through all its steps.
    pub fn succeeded(self) -> (b: bool)
        ensures
            b == (self == ReceiverPhase::Done),
    {
        match self {
            ReceiverPhase::Done => true,
            _ => false,
        }
    }

    /// The exit status of a process that ends at this step: zero after a
    /// complete transfer, one otherwise.
    pub fn exit_code(self) -> (code: u8)
        ensures
            code == if self == ReceiverPhase::Done { 0u8 } else { 1u8 },
    {
        match self {
            ReceiverPhase::Done => 0,
            _ => 1,
        }
    }

    /// Where a run stands: a run of `n` outcomes that has not failed is at
    /// the `n`-th step, or at the last one if `n` is larger; and it has not
    /// failed exactly if each outcome that a step was waiting for was good.
    pub proof fn lemma_after_rank(outcomes: Seq<bool>)
        ensures
            Self::after(outcomes) != ReceiverPhase::Failed ==> Self::after(outcomes).rank() == (
            if outcomes.len() <= 8 {
                outcomes.len()
            } else {
                8
            }),
            Self::after(outcomes) != ReceiverPhase::Failed <==> (forall|i: int|
                0 <= i < outcomes.len() && i < 8 ==> outcomes[i]),
        decreases outcomes.len(),
    {
        if outcomes.len() > 0 {
            let before = outcomes.drop_last();
            Self::lemma_after_rank(before);
            if Self::after(outcomes) != ReceiverPhase::Failed {
                assert forall|i: int| 0 <= i < outcomes.len() && i < 8 implies outcomes[i] by {
                    if i < before.len() {
                        assert(before[i] == outcomes[i]);
                    }
                }
            } else if Self::after(before) == ReceiverPhase::Failed {
                let i = choose|i: int| 0 <= i < before.len() && i < 8 && !before[i];
                assert(!outcomes[i]);
            } else {
                assert(!outcomes[outcomes.len() - 1]);
            }
        }
    }

    /// Handshake before payload: whenever a run stands at a step that reads
    /// the prefix or the payload, the handshake was the step just before
    /// the prefix, and it succeeded.
    pub proof fn lemma_handshake_first(outcomes: Seq<bool>)
        requires
            Self::after(outcomes).on_wire(),
        ensures
            outcomes.len() >= 4,
            Self::after(outcomes.take(3)) == ReceiverPhase::TlsConnect,
            outcomes[3],
            forall|i: int| 0 <= i < 3 ==> !(#[trigger] Self::after(outcomes.take(i))).on_wire(),
    {
        Self::lemma_after_rank(outcomes);
        Self::lemma_after_rank(outcomes.take(3));
        assert forall|i: int| 0 <= i < 3 implies !(#[trigger] Self::after(
            outcomes.take(i),
        )).on_wire() by {
            Self::lemma_after_rank(outcomes.take(i));
        }
    }

    /// A peer address that cannot be read ends the run at once: no step of
    /// it, however long it goes on, touches the network or the destination
    /// file.
    pub proof fn lemma_bad_peer_stops_all(outcomes: Seq<bool>, j: int)
        requires
            outcomes.len() >= 2,
            !outcomes[1],
            0 <= j <= outcomes.len(),
        ensures
            !Self::after(outcomes.take(j)).touches_outside(),
            j >= 2 ==> Self::after(outcomes.take(j)) == ReceiverPhase::Failed,
    {
        Self::lemma_after_rank(outcomes.take(j));
        if j >= 2 {
            assert(!outcomes.take(j)[1]);
        }
    }
}

} // verus!
