//! Error taxonomy and the error/event log.
//!
//! Low-level protocol anomalies (frame timeouts, unexpected echoes, SDO
//! aborts, mapping overflow) are appended to a bounded ring and surfaced by
//! polling and draining, never by aborting the call that produced them.
//! A reader takes the whole log when it is created, so the log is empty
//! again before the next independent operation even when the reader is
//! dropped half-read.

use vstd::prelude::*;
use vstd::string::StringExecFns;

verus! {

/// Capacity of the error ring; the oldest record falls out when a new one
/// arrives on a full ring.
pub const MAX_ERROR_RECORDS: usize = 64;

/// Typed failures of configuration calls, mapped from the three-valued
/// negative status of the wire exchange.
#[derive(Clone, Copy, Debug, PartialEq, Eq, Structural)]
pub enum EtherCatError {
    /// No frame came back at all.
    NoFrame,
    /// Only frames that belong to some other exchange came back.
    OtherFrame,
    /// A general protocol violation: a malformed or inconsistent reply.
    Error,
}

impl EtherCatError {
    /// The error for a negative status code: defined exactly on -1, -2 and
    /// -3; every other code is handed back unchanged.
    pub open spec fn from_code_spec(x: i32) -> Result<EtherCatError, i32> {
        if x == -1 {
            Ok(EtherCatError::NoFrame)
        } else if x == -2 {
            Ok(EtherCatError::OtherFrame)
        } else if x == -3 {
            Ok(EtherCatError::Error)
        } else {
            Err(x)
        }
    }

    /// Map a status code to the error it stands for; codes other than -1,
    /// -2 and -3 are not errors and come back unchanged.
    pub fn from_code(x: i32) -> (r: Result<EtherCatError, i32>)
        ensures
            r == EtherCatError::from_code_spec(x),
    {
        match x {
            -1 => Ok(EtherCatError::NoFrame),
            -2 => Ok(EtherCatError::OtherFrame),
            -3 => Ok(EtherCatError::Error),
            x => Err(x),
        }
    }

    /// A short description of the error.
    pub fn describe(&self) -> (r: &'static str)
        ensures
            self is NoFrame ==> r@ == "No frame received"@,
            self is OtherFrame ==> r@ == "Unknown frame received"@,
            self is Error ==> r@ == "General EtherCat error"@,
    {
        match self {
            EtherCatError::NoFrame => "No frame received",
            EtherCatError::OtherFrame => "Unknown frame received",
            EtherCatError::Error => "General EtherCat error",
        }
    }
}

/// Failures of context construction.
#[derive(Clone, Copy, Debug, PartialEq, Eq, Structural)]
pub enum InitError {
    /// The interface name is not usable (empty).
    BadName,
    /// The interface could not be opened or the link is down.
    Io,
}

impl InitError {
    /// A short description of the error.
    pub fn describe(&self) -> (r: &'static str)
        ensures
            self is BadName ==> r@ == "Bad interface name"@,
            self is Io ==> r@ == "I/O error"@,
    {
        match self {
            InitError::BadName => "Bad interface name",
            InitError::Io => "I/O error",
        }
    }
}

/// The kind of a logged protocol anomaly.
#[derive(Clone, Copy, Debug, PartialEq, Eq, Structural)]
pub enum ErrorKind {
    /// No echo arrived within the bounded wait.
    FrameTimeout,
    /// An echo arrived whose identifier belongs to no outstanding request.
    UnexpectedEcho,
    /// Every telegram identifier is still awaiting its echo: a caller
    /// protocol violation.
    IndexExhausted,
    /// The process-data layout did not fit the caller's buffer, or a slave
    /// misreported its size.
    MappingOverflow,
    /// The slave aborted or malformed a mailbox (SDO) transfer.
    SdoFailure,
    /// A device reported malformed configuration, did not acknowledge a
    /// configuration write, or the segment outgrew the slave table.
    ConfigFault,
}

/// The display text of an error kind.
pub open spec fn kind_text(k: ErrorKind) -> Seq<char> {
    match k {
        ErrorKind::FrameTimeout => "frame timeout"@,
        ErrorKind::UnexpectedEcho => "unexpected echo"@,
        ErrorKind::IndexExhausted => "index stack exhausted"@,
        ErrorKind::MappingOverflow => "mapping overflow"@,
        ErrorKind::SdoFailure => "SDO failure"@,
        ErrorKind::ConfigFault => "configuration fault"@,
    }
}

impl ErrorKind {
    /// The display text of this kind.
    pub fn describe(&self) -> (r: &'static str)
        ensures
            r@ == kind_text(*self),
    {
        match self {
            ErrorKind::FrameTimeout => "frame timeout",
            ErrorKind::UnexpectedEcho => "unexpected echo",
            ErrorKind::IndexExhausted => "index stack exhausted",
            ErrorKind::MappingOverflow => "mapping overflow",
            ErrorKind::SdoFailure => "SDO failure",
            ErrorKind::ConfigFault => "configuration fault",
        }
    }
}

/// One logged anomaly: its kind and a free-text detail.
pub struct ErrorRecord {
    /// What went wrong.
    pub kind: ErrorKind,
    /// Free-text detail naming the operation or address concerned.
    pub detail: String,
}

/// The display text of a record: its kind, a separator, its detail.
pub open spec fn record_text(r: ErrorRecord) -> Seq<char> {
    kind_text(r.kind) + ": "@ + r.detail@
}

impl ErrorRecord {
    /// Render the record as one line of text.
    pub fn text(&self) -> (r: String)
        ensures
            r@ == record_text(*self),
    {
        let mut s = String::from_str(self.kind.describe());
        s.append(": ");
        s.append(self.detail.as_str());
        s
    }
}

/// The append-only error ring. The newest `MAX_ERROR_RECORDS` records are
/// kept, oldest first.
pub struct ERing {
    records: Vec<ErrorRecord>,
}

impl View for ERing {
    type V = Seq<ErrorRecord>;

    closed spec fn view(&self) -> Seq<ErrorRecord> {
        self.records@
    }
}

impl ERing {
    /// The ring never holds more than its capacity.
    pub open spec fn wf(&self) -> bool {
        self@.len() <= MAX_ERROR_RECORDS
    }

    /// An empty ring.
    pub fn new() -> (r: ERing)
        ensures
            r@ == Seq::<ErrorRecord>::empty(),
            r.wf(),
    {
        ERing { records: Vec::new() }
    }

    /// Whether any record is pending.
    pub fn has_error(&self) -> (r: bool)
        ensures
            r == (self@.len() > 0),
    {
        self.records.len() > 0
    }

    /// Append a record; on a full ring the oldest record falls out.
    pub fn push(&mut self, kind: ErrorKind, detail: String)
        requires
            old(self).wf(),
        ensures
            final(self).wf(),
            final(self)@.len() > 0,
            final(self)@ == if old(self)@.len() < MAX_ERROR_RECORDS {
                old(self)@.push(ErrorRecord { kind, detail })
            } else {
                old(self)@.drop_first().push(ErrorRecord { kind, detail })
            },
    {
        if self.records.len() >= MAX_ERROR_RECORDS {
            self.records.remove(0);
            assert(self.records@ =~= old(self)@.drop_first());
        }
        self.records.push(ErrorRecord { kind, detail });
    }

    /// Take the oldest record out, if any.
    pub fn pop(&mut self) -> (r: Option<ErrorRecord>)
        ensures
            old(self).wf() ==> final(self).wf(),
            old(self)@.len() == 0 ==> r is None && final(self)@ == old(self)@,
            old(self)@.len() > 0 ==> r == Some(old(self)@[0]) && final(self)@ == old(
                self,
            )@.drop_first(),
    {
        if self.records.len() == 0 {
            None
        } else {
            let r = self.records.remove(0);
            assert(self.records@ =~= old(self)@.drop_first());
            Some(r)
        }
    }
}

impl Default for ERing {
    /// An empty ring.
    fn default() -> (r: ERing)
        ensures
            r@ == Seq::<ErrorRecord>::empty(),
            r.wf(),
    {
        ERing::new()
    }
}

/// A source of pending error records: implemented by the master context,
/// polled and drained through `ErrorIterator`.
pub trait ErrorGenerator {
    /// The records not yet read, oldest first.
    spec fn pending(&self) -> Seq<ErrorRecord>;

    /// Whether any record is pending; the pending records are untouched.
    fn iserror(&mut self) -> (r: bool)
        ensures
            final(self).pending() == old(self).pending(),
            r == (old(self).pending().len() > 0),
    ;

    /// Take the oldest pending record's text out, or `None` when nothing
    /// is pending.
    fn next(&mut self) -> (r: Option<String>)
        ensures
            old(self).pending().len() == 0 ==> r is None && final(self).pending() == old(
                self,
            ).pending(),
            old(self).pending().len() > 0 ==> final(self).pending() == old(
                self,
            ).pending().drop_first() && (r matches Some(s) && s@ == record_text(
                old(self).pending()[0],
            )),
    ;
}

/// The texts of a sequence of records, oldest first.
pub open spec fn texts_of(records: Seq<ErrorRecord>) -> Seq<Seq<char>> {
    records.map_values(|r: ErrorRecord| record_text(r))
}

/// The texts joined into one block, one line per record.
pub open spec fn joined_lines(texts: Seq<Seq<char>>) -> Seq<char>
    decreases texts.len(),
{
    if texts.len() == 0 {
        Seq::empty()
    } else {
        texts[0] + "\n"@ + joined_lines(texts.drop_first())
    }
}

/// A single-pass reader over the error log. Creating it takes every
/// pending record out of the generator at once, so the log is guaranteed
/// empty before the next operation whether or not the reader is read to
/// its end; records not read are simply dropped with the reader.
pub struct ErrorIterator {
    items: Vec<String>,
}

impl View for ErrorIterator {
    type V = Seq<Seq<char>>;

    closed spec fn view(&self) -> Seq<Seq<char>> {
        self.items@.map_values(|s: String| s@)
    }
}

impl ErrorIterator {
    /// Drain `generator` into a fresh reader: afterwards the generator has
    /// nothing pending, and the reader holds the text of every record that
    /// was, oldest first.
    pub fn new<G: ErrorGenerator>(generator: &mut G) -> (it: ErrorIterator)
        ensures
            final(generator).pending().len() == 0,
            it@ == texts_of(old(generator).pending()),
    {
        let mut items: Vec<String> = Vec::new();
        loop
            invariant
                texts_of(old(generator).pending()) == items@.map_values(|s: String| s@)
                    + texts_of(generator.pending()),
            ensures
                generator.pending().len() == 0,
                texts_of(old(generator).pending()) == items@.map_values(|s: String| s@)
                    + texts_of(generator.pending()),
            decreases generator.pending().len(),
        {
            let ghost prev = generator.pending();
            match generator.next() {
                Some(s) => {
                    items.push(s);
                    proof {
                        assert(texts_of(prev) =~= seq![record_text(prev[0])] + texts_of(
                            prev.drop_first(),
                        ));
                        assert(texts_of(old(generator).pending()) =~= items@.map_values(
                            |s: String| s@,
                        ) + texts_of(generator.pending()));
                    }
                },
                None => {
                    break ;
                },
            }
        }
        let it = ErrorIterator { items };
        assert(it@ =~= texts_of(old(generator).pending()));
        it
    }

    /// How many record texts are still unread.
    pub fn remaining(&self) -> (r: usize)
        ensures
            r == self@.len(),
    {
        self.items.len()
    }

    /// The next unread record text, oldest first; `None` once the reader
    /// is exhausted.
    pub fn next(&mut self) -> (r: Option<String>)
        ensures
            old(self)@.len() == 0 ==> r is None && final(self)@ == old(self)@,
            old(self)@.len() > 0 ==> final(self)@ == old(self)@.drop_first() && (r matches Some(s)
                && s@ == old(self)@[0]),
    {
        if self.items.len() == 0 {
            None
        } else {
            let s = self.items.remove(0);
            assert(self.items@.map_values(|s: String| s@) =~= old(self)@.drop_first());
            Some(s)
        }
    }

    /// Render every remaining record, one line each, consuming the reader's
    /// contents as reading them one by one would.
    pub fn fmt(&mut self) -> (r: String)
        ensures
            final(self)@.len() == 0,
            r@ == joined_lines(old(self)@),
    {
        let mut out = String::new();
        loop
            invariant
                joined_lines(old(self)@) == out@ + joined_lines(self@),
            ensures
                self@.len() == 0,
                joined_lines(old(self)@) == out@ + joined_lines(self@),
            decreases self@.len(),
        {
            let ghost prev = self@;
            match self.next() {
                Some(s) => {
                    proof {
                        assert(prev =~= seq![s@] + self@);
                        lemma_joined_lines_step(old(self)@, out@, self@, s@);
                    }
                    out.append(s.as_str());
                    out.append("\n");
                },
                None => {
                    break ;
                },
            }
        }
        assert(out@ =~= out@ + joined_lines(self@));
        out
    }
}

/// Appending one line keeps the running concatenation aligned with
/// `joined_lines` of the whole.
proof fn lemma_joined_lines_step(
    whole: Seq<Seq<char>>,
    done: Seq<char>,
    rest: Seq<Seq<char>>,
    line: Seq<char>,
)
    requires
        joined_lines(whole) == done + joined_lines(seq![line] + rest),
    ensures
        joined_lines(whole) == (done + line + "\n"@) + joined_lines(rest),
{
    assert((seq![line] + rest).drop_first() =~= rest);
    assert((seq![line] + rest)[0] == line);
    assert(joined_lines(seq![line] + rest) == line + "\n"@ + joined_lines(rest));
    assert(done + joined_lines(seq![line] + rest) =~= (done + line + "\n"@) + joined_lines(rest));
}

} // verus!
