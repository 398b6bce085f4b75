//! How a call of a native program is carried out.

use vstd::prelude::*;
use crate::account::Pubkey;
use crate::program_error::InstructionError;
use crate::programs::ProgramTable;

verus! {

/// Why a call failed. An error of the runtime is a value of type `E`.
#[derive(Debug)]
pub enum HandlerError<E> {
    /// The runtime has no such program.
    IncorrectProgramId,
    /// The program ended with this error.
    Program(InstructionError),
    /// The program changed the size of an account that may not have that size.
    InvalidRealloc,
    /// The data of the account may be changed.
    ReadonlyDataModified,
    /// The runtime refused something.
    Runtime(E),
}

/// The entry point of the program that is called.
pub fn find_entrypoint<P: Copy, E>(programs: &ProgramTable<P>, program_id: &Pubkey) -> (entrypoint:
    Result<P, HandlerError<E>>)
    ensures
        entrypoint == if programs@.contains_key(program_id@) {
            Ok::<P, HandlerError<E>>(programs@[program_id@])
        } else {
            Err::<P, HandlerError<E>>(HandlerError::IncorrectProgramId)
        },
{
    match programs.get(program_id) {
        Some(entrypoint) => Ok(entrypoint),
        None => Err(HandlerError::IncorrectProgramId),
    }
}

/// Whether a program ended well: it did if its code is zero.
pub fn check_exit_code<E>(code: u64) -> (outcome: Result<(), HandlerError<E>>)
    ensures
        outcome == if code == 0 {
            Ok::<(), HandlerError<E>>(())
        } else {
            Err::<(), HandlerError<E>>(HandlerError::Program(InstructionError::from_exit(code)))
        },
{
    if code == 0 {
        Ok(())
    } else {
        Err(HandlerError::Program(InstructionError::from_exit_code(code)))
    }
}

/// What a program left of an account.
#[derive(Debug)]
pub struct AccountInfo {
    /// The address of the account.
    pub key: Pubkey,
    /// The balance.
    pub lamports: u64,
    /// The stored bytes.
    pub data: Vec<u8>,
}

/// What a program left of an account, as a mathematical value.
pub struct AccountInfoView {
    pub key: Seq<u8>,
    pub lamports: u64,
    pub data: Seq<u8>,
}

impl View for AccountInfo {
    type V = AccountInfoView;

    open spec fn view(&self) -> AccountInfoView {
        AccountInfoView { key: self.key@, lamports: self.lamports, data: self.data@ }
    }
}

/// What a program left of a list of accounts.
pub open spec fn info_views(infos: Seq<AccountInfo>) -> Seq<AccountInfoView> {
    Seq::new(infos.len(), |i: int| infos[i]@)
}

/// The place of what a program left of an account: the last one, if there are several.
pub open spec fn last_info(infos: Seq<AccountInfoView>, key: Seq<u8>) -> Option<int>
    decreases infos.len(),
{
    if infos.len() == 0 {
        None
    } else if infos.last().key == key {
        Some(infos.len() - 1)
    } else {
        last_info(infos.drop_last(), key)
    }
}

/// What a program left of an account is found wherever it is in the list, whatever it is, and of
/// several the last one.
pub proof fn law_what_is_left_is_found(infos: Seq<AccountInfoView>, key: Seq<u8>)
    ensures
        match last_info(infos, key) {
            Some(i) => 0 <= i < infos.len() && infos[i].key == key && forall|j: int|
                i < j < infos.len() ==> (#[trigger] infos[j]).key != key,
            None => forall|j: int| 0 <= j < infos.len() ==> (#[trigger] infos[j]).key != key,
        },
        forall|i: int|
            0 <= i < infos.len() && (#[trigger] infos[i]).key == key && (forall|j: int|
                i < j < infos.len() ==> (#[trigger] infos[j]).key != key) ==> last_info(infos, key)
                == Some(i),
    decreases infos.len(),
{
    if infos.len() > 0 {
        let shorter = infos.drop_last();
        law_what_is_left_is_found(shorter, key);
        assert(infos[infos.len() - 1] == infos.last());
        if infos.last().key != key {
            let after = match last_info(shorter, key) {
                Some(i) => i,
                None => -1,
            };
            assert forall|j: int| after < j < infos.len() implies (#[trigger] infos[j]).key
                != key by {
                if j < shorter.len() {
                    assert(shorter[j].key != key);
                }
            }
        }
    }
    assert forall|i: int|
        0 <= i < infos.len() && (#[trigger] infos[i]).key == key && (forall|j: int|
            i < j < infos.len() ==> (#[trigger] infos[j]).key != key) implies last_info(infos, key)
        == Some(i) by {
        let found = last_info(infos, key)->0;
        if found < i {
            assert(infos[i].key == key);
        } else if i < found {
            assert(infos[found].key == key);
        }
    }
}

/// The place that is found is in the list, and holds what was left of the account.
proof fn lemma_last_info(infos: Seq<AccountInfoView>, key: Seq<u8>)
    ensures
        last_info(infos, key) matches Some(i) ==> 0 <= i < infos.len() && infos[i].key == key,
{
    law_what_is_left_is_found(infos, key);
}

/// What the runtime is asked for next. An entry point is a value of type `P`.
#[derive(Debug)]
pub enum Request<P, E> {
    /// To call the program with this entry point.
    Call(P),
    /// To tell what the program left of the accounts.
    ReadBack,
    /// To borrow the account with this index in the instruction, and to tell its address and
    /// whether the instruction may change it.
    Borrow(usize),
    /// Whether the data of the account may have so many bytes.
    MayResize(usize),
    /// Whether the data of the account may be changed.
    MayChange,
    /// To set the balance of the account.
    SetLamports(u64),
    /// To set the data of the account to what the program left at this place of its list.
    SetData(usize),
    /// Nothing: the call is over, and ended like this.
    Finish(Result<(), HandlerError<E>>),
}

/// A line of the log of a call.
#[derive(Clone, Copy, Debug, PartialEq, Eq, Structural)]
pub enum LogLine {
    /// The program is called.
    Invoke,
    /// The program ended well.
    Success,
    /// The program ended with this error.
    Failure(InstructionError),
    /// The program changed the size of an account that may not have that size.
    ResizeBeyondLimits,
    /// The data of the account may be changed.
    ReadOnlyData,
}

impl LogLine {
    /// The text of the line, where it does not depend on the program.
    pub open spec fn text(self) -> Option<Seq<char>> {
        match self {
            LogLine::ResizeBeyondLimits => Some(
                "Instruction attempting to resize account beyond limits"@,
            ),
            LogLine::ReadOnlyData => Some("Instruction attempting to modify read-only data"@),
            _ => None,
        }
    }

    /// The text of the line, where it does not depend on the program.
    pub fn message(&self) -> (text: Option<&'static str>)
        ensures
            match text {
                Some(text) => self.text() == Some(text@),
                None => self.text() is None,
            },
    {
        match self {
            LogLine::ResizeBeyondLimits => Some(
                "Instruction attempting to resize account beyond limits",
            ),
            LogLine::ReadOnlyData => Some("Instruction attempting to modify read-only data"),
            _ => None,
        }
    }
}

impl<P, E> Request<P, E> {
    /// The line that is logged before a request is met.
    pub open spec fn line(self) -> Option<LogLine> {
        match self {
            Request::Call(_) => Some(LogLine::Invoke),
            Request::ReadBack => Some(LogLine::Success),
            Request::Finish(Err(error)) => error.line(),
            _ => None,
        }
    }

    /// The line that is to be logged before the request is met.
    pub fn log_line(&self) -> (line: Option<LogLine>)
        ensures
            line == self.line(),
    {
        match self {
            Request::Call(_) => Some(LogLine::Invoke),
            Request::ReadBack => Some(LogLine::Success),
            Request::Finish(Err(error)) => error.log_line(),
            _ => None,
        }
    }
}

impl<E> HandlerError<E> {
    /// The line that is logged where a call ends like this.
    pub open spec fn line(self) -> Option<LogLine> {
        match self {
            HandlerError::Program(error) => Some(LogLine::Failure(error)),
            HandlerError::InvalidRealloc => Some(LogLine::ResizeBeyondLimits),
            HandlerError::ReadonlyDataModified => Some(LogLine::ReadOnlyData),
            _ => None,
        }
    }

    /// The line that is logged where a call ends like this.
    pub fn log_line(&self) -> (line: Option<LogLine>)
        ensures
            line == self.line(),
    {
        match self {
            HandlerError::Program(error) => Some(LogLine::Failure(*error)),
            HandlerError::InvalidRealloc => Some(LogLine::ResizeBeyondLimits),
            HandlerError::ReadonlyDataModified => Some(LogLine::ReadOnlyData),
            _ => None,
        }
    }
}

/// A list of at most one line.
pub open spec fn lines(line: Option<LogLine>) -> Seq<LogLine> {
    match line {
        Some(line) => seq![line],
        None => Seq::empty(),
    }
}

/// The lines that are logged where a call ends like this.
pub open spec fn last_lines<E>(outcome: Result<(), HandlerError<E>>) -> Seq<LogLine> {
    match outcome {
        Ok(_) => Seq::empty(),
        Err(error) => lines(error.line()),
    }
}

/// What the runtime replies.
#[derive(Debug)]
pub enum Reply<E> {
    /// The program ended with this code.
    Exited(u64),
    /// The program left this of the accounts.
    Left(Vec<AccountInfo>),
    /// The account is borrowed.
    Borrowed {
        /// Whether the instruction may change it.
        writable: bool,
        /// Its address.
        key: Pubkey,
    },
    /// The answer to a question.
    Answer(bool),
    /// It is done.
    Done,
    /// It is refused.
    Refused(E),
}

/// What the runtime replies, as a mathematical value.
pub enum ReplyView<E> {
    Exited(u64),
    Left(Seq<AccountInfoView>),
    Borrowed { writable: bool, key: Seq<u8> },
    Answer(bool),
    Done,
    Refused(E),
}

impl<E> View for Reply<E> {
    type V = ReplyView<E>;

    open spec fn view(&self) -> ReplyView<E> {
        match self {
            Reply::Exited(code) => ReplyView::Exited(*code),
            Reply::Left(infos) => ReplyView::Left(info_views(infos@)),
            Reply::Borrowed { writable, key } => ReplyView::Borrowed {
                writable: *writable,
                key: key@,
            },
            Reply::Answer(yes) => ReplyView::Answer(*yes),
            Reply::Done => ReplyView::Done,
            Reply::Refused(error) => ReplyView::Refused(*error),
        }
    }
}

/// What the last request was. The numbers are places in the list of what the program left.
#[derive(Clone, Copy, Debug, PartialEq, Eq, Structural)]
pub enum Phase {
    /// To call the program.
    Calling,
    /// What the program left of the accounts.
    Reading,
    /// To borrow the account.
    Borrowing,
    /// Whether it may have its new size.
    Resizing(usize),
    /// Whether it may be changed.
    Changing(usize),
    /// To set its balance.
    Crediting(usize),
    /// To set its data.
    Writing(usize),
    /// None: the call is over.
    Over,
}

/// A call of a native program: the program is looked up and called, and what it left of the
/// accounts of the instruction is taken over, one account after the other.
pub struct Invocation {
    infos: Vec<AccountInfo>,
    count: usize,
    index: usize,
    phase: Phase,
}

/// How far a call has come, as a mathematical value.
#[verifier::ext_equal]
pub struct InvocationView {
    pub infos: Seq<AccountInfoView>,
    pub count: usize,
    pub index: usize,
    pub phase: Phase,
}

impl View for Invocation {
    type V = InvocationView;

    closed spec fn view(&self) -> InvocationView {
        InvocationView {
            infos: info_views(self.infos@),
            count: self.count,
            index: self.index,
            phase: self.phase,
        }
    }
}

impl InvocationView {
    /// Whether accounts are being taken over.
    pub open spec fn commits(self) -> bool {
        !(self.phase is Calling) && !(self.phase is Reading) && !(self.phase is Over)
    }

    /// Whether the place that the last request was about is in the list.
    pub open spec fn well_formed(self) -> bool {
        &&& self.infos.len() <= usize::MAX
        &&& self.index <= self.count
        &&& self.commits() ==> self.index < self.count
        &&& match self.phase {
            Phase::Resizing(i) => i < self.infos.len(),
            Phase::Changing(i) => i < self.infos.len(),
            Phase::Crediting(i) => i < self.infos.len(),
            Phase::Writing(i) => i < self.infos.len(),
            _ => true,
        }
    }

    /// Whether the last request is replied to like this.
    pub open spec fn awaits<E>(self, reply: ReplyView<E>) -> bool {
        match self.phase {
            Phase::Calling => reply is Exited,
            Phase::Reading => reply is Left,
            Phase::Borrowing => reply is Borrowed || reply is Refused,
            Phase::Resizing(_) => reply is Answer,
            Phase::Changing(_) => reply is Answer,
            Phase::Crediting(_) => reply is Done || reply is Refused,
            Phase::Writing(_) => reply is Done || reply is Refused,
            Phase::Over => false,
        }
    }

    /// The call is over.
    pub open spec fn over<P, E>(
        self,
        outcome: Result<(), HandlerError<E>>,
    ) -> (InvocationView, Request<P, E>) {
        (InvocationView { phase: Phase::Over, ..self }, Request::Finish(outcome))
    }

    /// Goes on with the account at the given index, if there is one.
    pub open spec fn turn_to<P, E>(self, index: int) -> (InvocationView, Request<P, E>) {
        let turned = InvocationView { index: index as usize, ..self };
        if index < self.count {
            (InvocationView { phase: Phase::Borrowing, ..turned }, Request::Borrow(index as usize))
        } else {
            turned.over(Ok(()))
        }
    }

    /// How a call of a program with `count` accounts begins. A program that there is no entry point
    /// for is not called.
    pub open spec fn start<P, E>(
        programs: Map<Seq<u8>, P>,
        program_id: Seq<u8>,
        count: usize,
    ) -> (InvocationView, Request<P, E>) {
        let begun = InvocationView { infos: Seq::empty(), count, index: 0, phase: Phase::Calling };
        if programs.contains_key(program_id) {
            (begun, Request::Call(programs[program_id]))
        } else {
            begun.over(Err(HandlerError::IncorrectProgramId))
        }
    }

    /// What follows a reply. A program that did not end well ends the call. Accounts that may not
    /// be changed, and those that the program left nothing of, are passed over. The first refusal
    /// ends the call, and so does a size that an account may not have, and an account whose data
    /// may be changed. A reply that is not awaited counts as the end.
    pub open spec fn follow<P, E>(self, reply: ReplyView<E>) -> (InvocationView, Request<P, E>) {
        match (self.phase, reply) {
            (_, ReplyView::Refused(error)) => self.over(Err(HandlerError::Runtime(error))),
            (Phase::Calling, ReplyView::Exited(code)) => if code == 0 {
                (InvocationView { phase: Phase::Reading, ..self }, Request::ReadBack)
            } else {
                self.over(Err(HandlerError::Program(InstructionError::from_exit(code))))
            },
            (Phase::Reading, ReplyView::Left(infos)) => (InvocationView { infos, ..self }).turn_to(
                self.index as int,
            ),
            (Phase::Borrowing, ReplyView::Borrowed { writable, key }) => match last_info(
                self.infos,
                key,
            ) {
                Some(i) if writable => (
                    InvocationView { phase: Phase::Resizing(i as usize), ..self },
                    Request::MayResize(self.infos[i].data.len() as usize),
                ),
                _ => self.turn_to(self.index + 1),
            },
            (Phase::Resizing(i), ReplyView::Answer(yes)) => if yes {
                (InvocationView { phase: Phase::Changing(i), ..self }, Request::MayChange)
            } else {
                self.over(Err(HandlerError::InvalidRealloc))
            },
            (Phase::Changing(i), ReplyView::Answer(yes)) => if yes {
                self.over(Err(HandlerError::ReadonlyDataModified))
            } else {
                (
                    InvocationView { phase: Phase::Crediting(i), ..self },
                    Request::SetLamports(self.infos[i as int].lamports),
                )
            },
            (Phase::Crediting(i), ReplyView::Done) => (
                InvocationView { phase: Phase::Writing(i), ..self },
                Request::SetData(i),
            ),
            (Phase::Writing(_), ReplyView::Done) => self.turn_to(self.index + 1),
            _ => self.over(Ok(())),
        }
    }
}

impl Invocation {
    /// Begins a call of a program, with an instruction that has `count` accounts. The first request
    /// comes with it.
    pub fn new<P: Copy, E>(
        programs: &ProgramTable<P>,
        program_id: &Pubkey,
        count: usize,
    ) -> (begun: (Invocation, Request<P, E>))
        ensures
            begun.0@.well_formed(),
            (begun.0@, begun.1) == InvocationView::start::<P, E>(programs@, program_id@, count),
    {
        let infos: Vec<AccountInfo> = Vec::new();
        let mut invocation = Invocation { infos, count, index: 0, phase: Phase::Calling };
        assert(invocation@.infos =~= Seq::empty());
        let request = match find_entrypoint(programs, program_id) {
            Ok(entrypoint) => Request::Call(entrypoint),
            Err(error) => invocation.over(Err(error)),
        };
        (invocation, request)
    }

    fn turn_to<P, E>(&mut self, index: usize) -> (request: Request<P, E>)
        requires
            old(self)@.infos.len() <= usize::MAX,
            index <= old(self)@.count,
        ensures
            (final(self)@, request) == old(self)@.turn_to::<P, E>(index as int),
            final(self)@.well_formed(),
    {
        self.index = index;
        if index < self.count {
            self.phase = Phase::Borrowing;
            Request::Borrow(index)
        } else {
            self.phase = Phase::Over;
            Request::Finish(Ok(()))
        }
    }

    fn over<P, E>(&mut self, outcome: Result<(), HandlerError<E>>) -> (request: Request<P, E>)
        requires
            old(self)@.well_formed(),
        ensures
            (final(self)@, request) == old(self)@.over::<P, E>(outcome),
            final(self)@.well_formed(),
    {
        self.phase = Phase::Over;
        Request::Finish(outcome)
    }

    /// The place of what the program left of an account.
    fn find(&self, key: &Pubkey) -> (place: Option<usize>)
        ensures
            match place {
                Some(i) => last_info(self@.infos, key@) == Some(i as int) && i < self@.infos.len(),
                None => last_info(self@.infos, key@) is None,
            },
    {
        let ghost infos = self@.infos;
        let mut i: usize = self.infos.len();
        assert(infos.take(i as int) =~= infos);
        while i > 0
            invariant
                i <= self.infos@.len(),
                infos == info_views(self.infos@),
                last_info(infos, key@) == last_info(infos.take(i as int), key@),
            decreases i,
        {
            i = i - 1;
            assert(infos.take(i + 1).drop_last() =~= infos.take(i as int));
            assert(infos.take(i + 1).last() == self.infos@[i as int]@);
            if self.infos[i].key == *key {
                return Some(i);
            }
        }
        None
    }

    /// What the program left at the given place of its list.
    pub fn info(&self, place: usize) -> (info: &AccountInfo)
        requires
            place < self@.infos.len(),
        ensures
            info@ == self@.infos[place as int],
    {
        &self.infos[place]
    }

    /// Whether the call is over.
    pub fn is_over(&self) -> (over: bool)
        ensures
            over == (self@.phase is Over),
    {
        match self.phase {
            Phase::Over => true,
            _ => false,
        }
    }

    /// Goes on after the runtime's reply to the last request.
    pub fn step<P, E>(&mut self, reply: Reply<E>) -> (request: Request<P, E>)
        requires
            old(self)@.well_formed(),
            old(self)@.awaits(reply@),
        ensures
            (final(self)@, request) == old(self)@.follow::<P, E>(reply@),
            final(self)@.well_formed(),
    {
        match reply {
            Reply::Refused(error) => self.over(Err(HandlerError::Runtime(error))),
            Reply::Exited(code) => match check_exit_code(code) {
                Ok(_) => {
                    self.phase = Phase::Reading;
                    Request::ReadBack
                },
                Err(error) => self.over(Err(error)),
            },
            Reply::Left(infos) => {
                self.infos = infos;
                assert(self@.infos.len() == self.infos.len());
                self.turn_to(self.index)
            },
            Reply::Borrowed { writable, key } => {
                if !writable {
                    return self.turn_to(self.index + 1);
                }
                match self.find(&key) {
                    None => self.turn_to(self.index + 1),
                    Some(i) => {
                        self.phase = Phase::Resizing(i);
                        Request::MayResize(self.infos[i].data.len())
                    },
                }
            },
            Reply::Answer(yes) => match self.phase {
                Phase::Resizing(i) => if yes {
                    self.phase = Phase::Changing(i);
                    Request::MayChange
                } else {
                    self.over(Err(HandlerError::InvalidRealloc))
                },
                Phase::Changing(i) => if yes {
                    self.over(Err(HandlerError::ReadonlyDataModified))
                } else {
                    self.phase = Phase::Crediting(i);
                    Request::SetLamports(self.infos[i].lamports)
                },
                _ => self.over(Ok(())),
            },
            Reply::Done => match self.phase {
                Phase::Crediting(i) => {
                    self.phase = Phase::Writing(i);
                    Request::SetData(i)
                },
                Phase::Writing(_) => self.turn_to(self.index + 1),
                _ => self.over(Ok(())),
            },
        }
    }
}

/// How a runtime replies to the requests about one account.
pub struct Answers<E> {
    /// Whether the instruction may change the account, and its address.
    pub borrow: Result<(bool, Seq<u8>), E>,
    /// Whether its data may have so many bytes.
    pub resizable: spec_fn(usize) -> bool,
    /// Whether its data may be changed.
    pub changeable: bool,
    /// Whether its balance can be set.
    pub lamports: Result<(), E>,
    /// Whether its data can be set.
    pub data: Result<(), E>,
}

impl<E> Answers<E> {
    /// The reply to a request.
    pub open spec fn reply<P>(self, request: Request<P, E>) -> ReplyView<E> {
        match request {
            Request::Borrow(_) => match self.borrow {
                Ok((writable, key)) => ReplyView::Borrowed { writable, key },
                Err(error) => ReplyView::Refused(error),
            },
            Request::MayResize(length) => ReplyView::Answer((self.resizable)(length)),
            Request::MayChange => ReplyView::Answer(self.changeable),
            Request::SetLamports(_) => match self.lamports {
                Ok(_) => ReplyView::Done,
                Err(error) => ReplyView::Refused(error),
            },
            Request::SetData(_) => match self.data {
                Ok(_) => ReplyView::Done,
                Err(error) => ReplyView::Refused(error),
            },
            _ => ReplyView::Done,
        }
    }
}

/// A change of an account that the runtime has made.
pub enum Change {
    /// Its balance is now this.
    Lamports(int, u64),
    /// Its data is now this.
    Data(int, Seq<u8>),
}

/// The account that a change is about.
pub open spec fn changed_account(change: Change) -> int {
    match change {
        Change::Lamports(account, _) => account,
        Change::Data(account, _) => account,
    }
}

/// How a runtime replies in the course of a call.
#[verifier::reject_recursive_types(P)]
pub struct World<P, E> {
    /// The code that a program ends with.
    pub exit: spec_fn(P) -> u64,
    /// What the program leaves of the accounts.
    pub left: Seq<AccountInfoView>,
    /// The replies about each account of the instruction.
    pub answers: Seq<Answers<E>>,
}

impl<P, E> World<P, E> {
    /// The reply to a request that comes while the given account is borrowed.
    pub open spec fn reply(self, borrowed: int, request: Request<P, E>) -> ReplyView<E> {
        match request {
            Request::Call(entrypoint) => ReplyView::Exited((self.exit)(entrypoint)),
            Request::ReadBack => ReplyView::Left(self.left),
            _ => self.answers[borrowed].reply(request),
        }
    }
}

/// What comes of a call.
#[verifier::ext_equal]
pub struct Effects<P, E> {
    /// The programs that are called.
    pub calls: Seq<P>,
    /// The lines that are logged.
    pub lines: Seq<LogLine>,
    /// The changes that are made.
    pub changes: Seq<Change>,
    /// How the call ends.
    pub outcome: Result<(), HandlerError<E>>,
}

impl InvocationView {
    /// How many requests about the account can still come.
    pub open spec fn requests_left(self) -> nat {
        match self.phase {
            Phase::Calling => 7,
            Phase::Reading => 6,
            Phase::Borrowing => 5,
            Phase::Resizing(_) => 4,
            Phase::Changing(_) => 3,
            Phase::Crediting(_) => 2,
            Phase::Writing(_) => 1,
            Phase::Over => 0,
        }
    }

    /// The call of a program that a request amounts to.
    pub open spec fn call<P, E>(self, request: Request<P, E>) -> Seq<P> {
        match request {
            Request::Call(entrypoint) => seq![entrypoint],
            _ => Seq::empty(),
        }
    }

    /// The change of the borrowed account that a request and its reply amount to.
    pub open spec fn change<P, E>(
        self,
        borrowed: int,
        request: Request<P, E>,
        reply: ReplyView<E>,
    ) -> Seq<Change> {
        match (request, reply) {
            (Request::SetLamports(lamports), ReplyView::Done) => seq![
                Change::Lamports(borrowed, lamports),
            ],
            (Request::SetData(i), ReplyView::Done) => seq![
                Change::Data(borrowed, self.infos[i as int].data),
            ],
            _ => Seq::empty(),
        }
    }
}

/// The account that is borrowed once a request is met.
pub open spec fn borrowed_after<P, E>(borrowed: int, request: Request<P, E>) -> int {
    match request {
        Request::Borrow(index) => index as int,
        _ => borrowed,
    }
}

/// What comes of a request and of all that follow it, where the given account is borrowed.
pub open spec fn run<P, E>(
    invocation: InvocationView,
    request: Request<P, E>,
    world: World<P, E>,
    borrowed: int,
) -> Effects<P, E>
    decreases invocation.count - invocation.index, invocation.requests_left(),
{
    match request {
        Request::Finish(outcome) => Effects {
            calls: Seq::empty(),
            lines: lines(request.line()),
            changes: Seq::empty(),
            outcome,
        },
        _ => if invocation.phase is Over || invocation.index > invocation.count || (
        invocation.commits() && invocation.index == invocation.count) {
            Effects {
                calls: Seq::empty(),
                lines: Seq::empty(),
                changes: Seq::empty(),
                outcome: Ok(()),
            }
        } else {
            let account = borrowed_after(borrowed, request);
            let reply = world.reply(account, request);
            let (next, following) = invocation.follow(reply);
            let rest = run(next, following, world, account);
            Effects {
                calls: invocation.call(request) + rest.calls,
                lines: lines(request.line()) + rest.lines,
                changes: invocation.change(account, request, reply) + rest.changes,
                outcome: rest.outcome,
            }
        },
    }
}

/// What becomes of the accounts from the given index on: the changes that are made, and how the
/// call ends.
pub open spec fn committed<E>(
    infos: Seq<AccountInfoView>,
    count: int,
    answers: Seq<Answers<E>>,
    index: int,
) -> (Seq<Change>, Result<(), HandlerError<E>>)
    decreases count - index,
{
    if index >= count {
        (Seq::empty(), Ok(()))
    } else {
        let (changes, outcome) = committed(infos, count, answers, index + 1);
        let account = answers[index];
        match account.borrow {
            Err(error) => (Seq::empty(), Err(HandlerError::Runtime(error))),
            Ok((writable, key)) => match last_info(infos, key) {
                Some(i) if writable => {
                    let lamports = Change::Lamports(index, infos[i].lamports);
                    let data = Change::Data(index, infos[i].data);
                    if !(account.resizable)(infos[i].data.len() as usize) {
                        (Seq::empty(), Err(HandlerError::InvalidRealloc))
                    } else if account.changeable {
                        (Seq::empty(), Err(HandlerError::ReadonlyDataModified))
                    } else if account.lamports is Err {
                        (Seq::empty(), Err(HandlerError::Runtime(account.lamports->Err_0)))
                    } else if account.data is Err {
                        (seq![lamports], Err(HandlerError::Runtime(account.data->Err_0)))
                    } else {
                        (seq![lamports, data] + changes, outcome)
                    }
                },
                _ => (changes, outcome),
            },
        }
    }
}

/// What becomes of a call: a program without an entry point is not called, and what a program
/// leaves is taken over only if it ends well.
pub open spec fn carried_out<P, E>(
    programs: Map<Seq<u8>, P>,
    program_id: Seq<u8>,
    count: usize,
    world: World<P, E>,
) -> Effects<P, E> {
    if !programs.contains_key(program_id) {
        Effects {
            calls: Seq::empty(),
            lines: Seq::empty(),
            changes: Seq::empty(),
            outcome: Err(HandlerError::IncorrectProgramId),
        }
    } else {
        let entrypoint = programs[program_id];
        let code = (world.exit)(entrypoint);
        if code != 0 {
            let error = InstructionError::from_exit(code);
            Effects {
                calls: seq![entrypoint],
                lines: seq![LogLine::Invoke, LogLine::Failure(error)],
                changes: Seq::empty(),
                outcome: Err(HandlerError::Program(error)),
            }
        } else {
            let (changes, outcome) = committed(world.left, count as int, world.answers, 0);
            Effects {
                calls: seq![entrypoint],
                lines: seq![LogLine::Invoke, LogLine::Success] + last_lines(outcome),
                changes,
                outcome,
            }
        }
    }
}

/// Request by request, the accounts are taken over as they should be: from any account on, the
/// changes and the end of the call are those of `committed`, and nothing is called.
pub proof fn law_requests_commit<P, E>(
    invocation: InvocationView,
    world: World<P, E>,
    borrowed: int,
    index: int,
)
    requires
        invocation.infos.len() <= usize::MAX,
        0 <= index <= invocation.count,
    ensures
        ({
            let (turned, request) = invocation.turn_to::<P, E>(index);
            let (changes, outcome) = committed(
                invocation.infos,
                invocation.count as int,
                world.answers,
                index,
            );
            run(turned, request, world, borrowed) == (Effects {
                calls: Seq::<P>::empty(),
                lines: last_lines(outcome),
                changes,
                outcome,
            })
        }),
    decreases invocation.count - index,
{
    let (turned, request) = invocation.turn_to::<P, E>(index);
    let expected = committed(invocation.infos, invocation.count as int, world.answers, index);
    let actual = run(turned, request, world, borrowed);
    if index < invocation.count {
        law_requests_commit(turned, world, index, index + 1);
        reveal_with_fuel(run, 6);
        let account = world.answers[index];
        if account.borrow is Ok {
            let (writable, key) = account.borrow->Ok_0;
            lemma_last_info(invocation.infos, key);
            if writable && last_info(invocation.infos, key) is Some {
                let i = last_info(invocation.infos, key)->0;
                let resizing = InvocationView { phase: Phase::Resizing(i as usize), ..turned };
                let changing = InvocationView { phase: Phase::Changing(i as usize), ..turned };
                let crediting = InvocationView { phase: Phase::Crediting(i as usize), ..turned };
                let writing = InvocationView { phase: Phase::Writing(i as usize), ..turned };
                let lamports = Request::<P, E>::SetLamports(invocation.infos[i].lamports);
                let data = Request::<P, E>::SetData(i as usize);
                let length = invocation.infos[i].data.len() as usize;
                assert(actual =~= run(resizing, Request::MayResize(length), world, index));
                if (account.resizable)(length) {
                    assert(run(resizing, Request::MayResize(length), world, index) =~= run(
                        changing,
                        Request::MayChange,
                        world,
                        index,
                    ));
                    if !account.changeable {
                        assert(run(changing, Request::MayChange, world, index) =~= run(
                            crediting,
                            lamports,
                            world,
                            index,
                        ));
                        if account.lamports is Ok {
                            assert(crediting.follow::<P, E>(account.reply(lamports)) == (
                                writing,
                                data,
                            ));
                            if account.data is Ok {
                                assert(writing.turn_to::<P, E>(index + 1) == turned.turn_to::<
                                    P,
                                    E,
                                >(index + 1));
                            }
                        }
                    }
                }
            }
        }
    }
    assert(actual.calls =~= Seq::empty());
    assert(actual.lines =~= last_lines(expected.1));
    assert(actual.changes =~= expected.0);
}

/// Request by request, a call is carried out as it should be: from the lookup of the program on,
/// what comes of it is what `carried_out` says.
pub proof fn law_requests_carry_out<P, E>(
    programs: Map<Seq<u8>, P>,
    program_id: Seq<u8>,
    count: usize,
    world: World<P, E>,
    borrowed: int,
)
    requires
        world.left.len() <= usize::MAX,
    ensures
        ({
            let (begun, request) = InvocationView::start::<P, E>(programs, program_id, count);
            run(begun, request, world, borrowed) == carried_out(programs, program_id, count, world)
        }),
{
    let (begun, request) = InvocationView::start::<P, E>(programs, program_id, count);
    reveal_with_fuel(run, 3);
    let read = InvocationView { infos: world.left, phase: Phase::Reading, ..begun };
    law_requests_commit(read, world, borrowed, 0);
    assert(run(begun, request, world, borrowed) =~= carried_out(
        programs,
        program_id,
        count,
        world,
    ));
}

/// How taking over accounts can end.
proof fn lemma_committed_outcomes<E>(
    infos: Seq<AccountInfoView>,
    count: int,
    answers: Seq<Answers<E>>,
    index: int,
)
    ensures
        ({
            let outcome = committed(infos, count, answers, index).1;
            outcome is Ok || outcome->Err_0 is Runtime || outcome->Err_0 is InvalidRealloc
                || outcome->Err_0 is ReadonlyDataModified
        }),
    decreases count - index,
{
    if index < count {
        lemma_committed_outcomes(infos, count, answers, index + 1);
    }
}

/// A program that the runtime does not have is never called, and a program that does not end well
/// changes no account. Those are exactly the calls that end with an incorrect program or with an
/// error of the program.
pub proof fn law_failed_calls_change_nothing<P, E>(
    programs: Map<Seq<u8>, P>,
    program_id: Seq<u8>,
    count: usize,
    world: World<P, E>,
    borrowed: int,
)
    requires
        world.left.len() <= usize::MAX,
    ensures
        ({
            let (begun, request) = InvocationView::start::<P, E>(programs, program_id, count);
            let made = run(begun, request, world, borrowed);
            let unknown = made.outcome is Err && made.outcome->Err_0 is IncorrectProgramId;
            let failed = made.outcome is Err && made.outcome->Err_0 is Program;
            &&& unknown <==> !programs.contains_key(program_id)
            &&& failed <==> programs.contains_key(program_id) && (world.exit)(
                programs[program_id],
            ) != 0
            &&& unknown ==> made.calls.len() == 0
            &&& !unknown ==> made.calls == seq![programs[program_id]]
            &&& unknown || failed ==> made.changes.len() == 0
        }),
{
    law_requests_carry_out(programs, program_id, count, world, borrowed);
    lemma_committed_outcomes(world.left, count as int, world.answers, 0);
}

/// The log tells how the program ended. It has a line for the call exactly if there was one, a line
/// for success exactly if the program ended with code zero, and a line for failure exactly if it
/// ended with any other code, with the error that the code stands for.
pub proof fn law_log_tells_how_programs_end<P, E>(
    programs: Map<Seq<u8>, P>,
    program_id: Seq<u8>,
    count: usize,
    world: World<P, E>,
    borrowed: int,
    error: InstructionError,
)
    requires
        world.left.len() <= usize::MAX,
    ensures
        ({
            let (begun, request) = InvocationView::start::<P, E>(programs, program_id, count);
            let log = run(begun, request, world, borrowed).lines;
            let known = programs.contains_key(program_id);
            let code = (world.exit)(programs[program_id]);
            &&& log.contains(LogLine::Invoke) <==> known
            &&& log.contains(LogLine::Success) <==> known && code == 0
            &&& log.contains(LogLine::Failure(error)) <==> known && code != 0 && error
                == InstructionError::from_exit(code)
        }),
{
    let (begun, request) = InvocationView::start::<P, E>(programs, program_id, count);
    let made = run(begun, request, world, borrowed);
    law_requests_carry_out(programs, program_id, count, world, borrowed);
    lemma_committed_outcomes(world.left, count as int, world.answers, 0);
    if programs.contains_key(program_id) {
        assert(made.lines[0] == LogLine::Invoke);
        let code = (world.exit)(programs[program_id]);
        if code == 0 {
            assert(made.lines[1] == LogLine::Success);
        } else {
            assert(made.lines[1] == LogLine::Failure(InstructionError::from_exit(code)));
        }
    }
}

/// Only accounts that the instruction may change, that the program left something of and whose
/// data may not be changed are taken over.
pub proof fn law_only_writable_accounts_change<E>(
    infos: Seq<AccountInfoView>,
    count: int,
    answers: Seq<Answers<E>>,
    index: int,
    n: int,
)
    requires
        0 <= n < committed(infos, count, answers, index).0.len(),
    ensures
        ({
            let account = changed_account(committed(infos, count, answers, index).0[n]);
            let answer = answers[account];
            &&& index <= account < count
            &&& answer.borrow is Ok
            &&& answer.borrow->Ok_0.0
            &&& last_info(infos, answer.borrow->Ok_0.1) is Some
            &&& !answer.changeable
        }),
    decreases count - index,
{
    if index < count {
        let rest = committed(infos, count, answers, index + 1).0;
        let all = committed(infos, count, answers, index).0;
        if all == rest {
            law_only_writable_accounts_change(infos, count, answers, index + 1, n);
        } else if n >= 2 {
            assert(all[n] == rest[n - 2]);
            law_only_writable_accounts_change(infos, count, answers, index + 1, n - 2);
        }
    }
}

/// If the call ends well, every account that the instruction may change and that the program left
/// something of has the balance and the data that the program left.
pub proof fn law_success_takes_everything_over<E>(
    infos: Seq<AccountInfoView>,
    count: int,
    answers: Seq<Answers<E>>,
    index: int,
    account: int,
)
    requires
        committed(infos, count, answers, index).1 is Ok,
        index <= account < count,
    ensures
        ({
            let changes = committed(infos, count, answers, index).0;
            let (writable, key) = answers[account].borrow->Ok_0;
            &&& answers[account].borrow is Ok
            &&& writable && last_info(infos, key) is Some ==> {
                let info = infos[last_info(infos, key)->0];
                &&& changes.contains(Change::Lamports(account, info.lamports))
                &&& changes.contains(Change::Data(account, info.data))
            }
        }),
    decreases count - index,
{
    let changes = committed(infos, count, answers, index).0;
    if account == index {
        let (writable, key) = answers[account].borrow->Ok_0;
        if writable && last_info(infos, key) is Some {
            let info = infos[last_info(infos, key)->0];
            assert(changes[0] == Change::Lamports(account, info.lamports));
            assert(changes[1] == Change::Data(account, info.data));
        }
    } else {
        law_success_takes_everything_over(infos, count, answers, index + 1, account);
        let rest = committed(infos, count, answers, index + 1).0;
        assert forall|change: Change| rest.contains(change) implies #[trigger] changes.contains(
            change,
        ) by {
            let i = choose|i: int| 0 <= i < rest.len() && rest[i] == change;
            if changes != rest {
                assert(changes[i + 2] == change);
            }
        }
    }
}

/// Whether an account gives no reason to end the call.
spec fn settles<E>(infos: Seq<AccountInfoView>, answer: Answers<E>) -> bool {
    &&& answer.borrow is Ok
    &&& answer.borrow->Ok_0.0 && last_info(infos, answer.borrow->Ok_0.1) is Some ==> {
        &&& (answer.resizable)(
            infos[last_info(infos, answer.borrow->Ok_0.1)->0].data.len() as usize,
        )
        &&& !answer.changeable
        &&& answer.lamports is Ok
        &&& answer.data is Ok
    }
}

/// The accounts before the first one that ends the call are taken over, and so is the balance of
/// that one if only its data is refused. If there is none, the call ends well.
proof fn lemma_committed_up_to<E>(
    infos: Seq<AccountInfoView>,
    count: int,
    answers: Seq<Answers<E>>,
    index: int,
    end: int,
)
    requires
        index <= end <= count,
        forall|a: int| index <= a < end ==> settles(infos, #[trigger] answers[a]),
    ensures
        ({
            let (changes, outcome) = committed(infos, count, answers, index);
            &&& outcome == committed(infos, count, answers, end).1
            &&& forall|change: Change| #[trigger]
                committed(infos, count, answers, end).0.contains(change) ==> changes.contains(
                    change,
                )
            &&& forall|a: int|
                index <= a < end && (#[trigger] answers[a]).borrow->Ok_0.0 && last_info(
                    infos,
                    answers[a].borrow->Ok_0.1,
                ) is Some ==> {
                    let info = infos[last_info(infos, answers[a].borrow->Ok_0.1)->0];
                    &&& changes.contains(Change::Lamports(a, info.lamports))
                    &&& changes.contains(Change::Data(a, info.data))
                }
        }),
    decreases end - index,
{
    if index < end {
        lemma_committed_up_to(infos, count, answers, index + 1, end);
        let (changes, outcome) = committed(infos, count, answers, index);
        let rest = committed(infos, count, answers, index + 1).0;
        let answer = answers[index];
        assert(settles(infos, answer));
        assert forall|change: Change| #[trigger] rest.contains(change) implies changes.contains(
            change,
        ) by {
            let i = choose|i: int| 0 <= i < rest.len() && rest[i] == change;
            if changes != rest {
                assert(changes[i + 2] == change);
            }
        }
        assert forall|a: int|
            index <= a < end && (#[trigger] answers[a]).borrow->Ok_0.0 && last_info(
                infos,
                answers[a].borrow->Ok_0.1,
            ) is Some implies {
            let info = infos[last_info(infos, answers[a].borrow->Ok_0.1)->0];
            &&& changes.contains(Change::Lamports(a, info.lamports))
            &&& changes.contains(Change::Data(a, info.data))
        } by {
            let info = infos[last_info(infos, answers[a].borrow->Ok_0.1)->0];
            if a == index {
                assert(changes[0] == Change::Lamports(a, info.lamports));
                assert(changes[1] == Change::Data(a, info.data));
            } else {
                assert(rest.contains(Change::Lamports(a, info.lamports)));
                assert(rest.contains(Change::Data(a, info.data)));
            }
        }
    }
}

/// Where a call ends well, every account has settled.
proof fn lemma_ok_settles<E>(
    infos: Seq<AccountInfoView>,
    count: int,
    answers: Seq<Answers<E>>,
    index: int,
)
    requires
        committed(infos, count, answers, index).1 is Ok,
    ensures
        forall|a: int| index <= a < count ==> settles(infos, #[trigger] answers[a]),
    decreases count - index,
{
    if index < count {
        lemma_ok_settles(infos, count, answers, index + 1);
        assert(settles(infos, answers[index]));
    }
}

/// No account after the first one that ends the call is changed.
proof fn lemma_changes_up_to<E>(
    infos: Seq<AccountInfoView>,
    count: int,
    answers: Seq<Answers<E>>,
    index: int,
    end: int,
    n: int,
)
    requires
        index <= end < count,
        forall|a: int| index <= a < end ==> settles(infos, #[trigger] answers[a]),
        !settles(infos, answers[end]),
        0 <= n < committed(infos, count, answers, index).0.len(),
    ensures
        changed_account(committed(infos, count, answers, index).0[n]) <= end,
    decreases end - index,
{
    if index < end {
        let rest = committed(infos, count, answers, index + 1).0;
        let all = committed(infos, count, answers, index).0;
        assert(settles(infos, answers[index]));
        if all == rest {
            lemma_changes_up_to(infos, count, answers, index + 1, end, n);
        } else if n >= 2 {
            assert(all[n] == rest[n - 2]);
            lemma_changes_up_to(infos, count, answers, index + 1, end, n - 2);
        }
    }
}

/// A call of a known program that ends with code zero ends well exactly if every account of the
/// instruction can be borrowed, and every one that the instruction may change and that the program
/// left something of may have its new size, may not have its data changed, and can be given its new
/// balance and data.
pub proof fn law_when_calls_end_well<P, E>(
    programs: Map<Seq<u8>, P>,
    program_id: Seq<u8>,
    count: usize,
    world: World<P, E>,
    borrowed: int,
)
    requires
        world.left.len() <= usize::MAX,
    ensures
        ({
            let (begun, request) = InvocationView::start::<P, E>(programs, program_id, count);
            run(begun, request, world, borrowed).outcome is Ok <==> {
                &&& programs.contains_key(program_id)
                &&& (world.exit)(programs[program_id]) == 0
                &&& forall|a: int| 0 <= a < count ==> (#[trigger] world.answers[a]).borrow is Ok
                &&& forall|a: int, i: int|
                    #![trigger world.answers[a], world.left[i]]
                    0 <= a < count && 0 <= i < world.left.len() && world.answers[a].borrow
                        == Ok::<(bool, Seq<u8>), E>((true, world.left[i].key)) && (forall|j: int|
                        i < j < world.left.len() ==> (#[trigger] world.left[j]).key
                            != world.left[i].key) ==> {
                        &&& (world.answers[a].resizable)(world.left[i].data.len() as usize)
                        &&& !world.answers[a].changeable
                        &&& world.answers[a].lamports is Ok
                        &&& world.answers[a].data is Ok
                    }
            }
        }),
{
    let (begun, request) = InvocationView::start::<P, E>(programs, program_id, count);
    law_requests_carry_out(programs, program_id, count, world, borrowed);
    let infos = world.left;
    let answers = world.answers;
    assert forall|key: Seq<u8>|
        (#[trigger] last_info(infos, key)) is Some implies infos[last_info(infos, key)->0].key
        == key by {
        law_what_is_left_is_found(infos, key);
    }
    if run(begun, request, world, borrowed).outcome is Ok {
        lemma_ok_settles(infos, count as int, answers, 0);
        assert forall|a: int, i: int|
            #![trigger answers[a], infos[i]]
            0 <= a < count && 0 <= i < infos.len() && answers[a].borrow == Ok::<
                (bool, Seq<u8>),
                E,
            >((true, infos[i].key)) && (forall|j: int|
                i < j < infos.len() ==> (#[trigger] infos[j]).key != infos[i].key) implies {
            &&& (answers[a].resizable)(infos[i].data.len() as usize)
            &&& !answers[a].changeable
            &&& answers[a].lamports is Ok
            &&& answers[a].data is Ok
        } by {
            law_what_is_left_is_found(infos, infos[i].key);
            assert(last_info(infos, infos[i].key) == Some(i));
            assert(settles(infos, answers[a]));
        }
    }
    if programs.contains_key(program_id) && (world.exit)(programs[program_id]) == 0 && (forall|
        a: int,
    |
        0 <= a < count ==> (#[trigger] answers[a]).borrow is Ok) && (forall|a: int, i: int|
        #![trigger answers[a], infos[i]]
        0 <= a < count && 0 <= i < infos.len() && answers[a].borrow == Ok::<(bool, Seq<u8>), E>(
            (true, infos[i].key),
        ) && (forall|j: int| i < j < infos.len() ==> (#[trigger] infos[j]).key != infos[i].key)
            ==> {
            &&& (answers[a].resizable)(infos[i].data.len() as usize)
            &&& !answers[a].changeable
            &&& answers[a].lamports is Ok
            &&& answers[a].data is Ok
        }) {
        assert forall|a: int| 0 <= a < count implies settles(infos, #[trigger] answers[a]) by {
            let key = answers[a].borrow->Ok_0.1;
            law_what_is_left_is_found(infos, key);
            if answers[a].borrow->Ok_0.0 && last_info(infos, key) is Some {
                let i = last_info(infos, key)->0;
                assert(infos[i].key == key);
                assert(answers[a].borrow == Ok::<(bool, Seq<u8>), E>((true, infos[i].key)));
            }
        }
        lemma_committed_up_to(infos, count as int, answers, 0, count as int);
    }
}

/// The first account that stands in the way ends the call, and says how: one that cannot be
/// borrowed, one that may not have its new size, one whose data may be changed, and one whose
/// balance or data cannot be set, in that order. All accounts before it are taken over as the
/// program left them, its own balance is if only its data cannot be set, and no account after it is
/// changed.
pub proof fn law_first_problem_ends_the_call<P, E>(
    programs: Map<Seq<u8>, P>,
    program_id: Seq<u8>,
    count: usize,
    world: World<P, E>,
    borrowed: int,
    account: int,
    i: int,
)
    requires
        world.left.len() <= usize::MAX,
        programs.contains_key(program_id),
        (world.exit)(programs[program_id]) == 0,
        0 <= account < count,
        forall|a: int| 0 <= a < account ==> (#[trigger] world.answers[a]).borrow is Ok,
        forall|a: int, k: int|
            #![trigger world.answers[a], world.left[k]]
            0 <= a < account && 0 <= k < world.left.len() && world.answers[a].borrow == Ok::<
                (bool, Seq<u8>),
                E,
            >((true, world.left[k].key)) && (forall|j: int|
                k < j < world.left.len() ==> (#[trigger] world.left[j]).key != world.left[k].key)
                ==> {
                &&& (world.answers[a].resizable)(world.left[k].data.len() as usize)
                &&& !world.answers[a].changeable
                &&& world.answers[a].lamports is Ok
                &&& world.answers[a].data is Ok
            },
        world.answers[account].borrow is Err || {
            &&& 0 <= i < world.left.len()
            &&& world.answers[account].borrow == Ok::<(bool, Seq<u8>), E>(
                (true, world.left[i].key),
            )
            &&& forall|j: int|
                i < j < world.left.len() ==> (#[trigger] world.left[j]).key != world.left[i].key
        },
    ensures
        ({
            let (begun, request) = InvocationView::start::<P, E>(programs, program_id, count);
            let made = run(begun, request, world, borrowed);
            let answer = world.answers[account];
            let fits = (answer.resizable)(world.left[i].data.len() as usize);
            &&& answer.borrow is Err ==> made.outcome == Err::<(), HandlerError<E>>(
                HandlerError::Runtime(answer.borrow->Err_0),
            )
            &&& answer.borrow is Ok && !fits ==> made.outcome == Err::<(), HandlerError<E>>(
                HandlerError::InvalidRealloc,
            )
            &&& answer.borrow is Ok && fits && answer.changeable ==> made.outcome == Err::<
                (),
                HandlerError<E>,
            >(HandlerError::ReadonlyDataModified)
            &&& answer.borrow is Ok && fits && !answer.changeable && answer.lamports is Err
                ==> made.outcome == Err::<(), HandlerError<E>>(
                HandlerError::Runtime(answer.lamports->Err_0),
            )
            &&& answer.borrow is Ok && fits && !answer.changeable && answer.lamports is Ok
                ==> made.changes.contains(Change::Lamports(account, world.left[i].lamports))
            &&& answer.borrow is Ok && fits && !answer.changeable && answer.lamports is Ok
                && answer.data is Err ==> made.outcome == Err::<(), HandlerError<E>>(
                HandlerError::Runtime(answer.data->Err_0),
            )
            &&& answer.borrow is Err || !fits || answer.changeable || answer.lamports is Err
                || answer.data is Err ==> forall|n: int|
                0 <= n < made.changes.len() ==> match #[trigger] made.changes[n] {
                    Change::Lamports(a, _) => a <= account,
                    Change::Data(a, _) => a < account,
                }
            &&& forall|a: int, k: int|
                #![trigger world.answers[a], world.left[k]]
                0 <= a < account && 0 <= k < world.left.len() && world.answers[a].borrow == Ok::<
                    (bool, Seq<u8>),
                    E,
                >((true, world.left[k].key)) && (forall|j: int|
                    k < j < world.left.len() ==> (#[trigger] world.left[j]).key
                        != world.left[k].key) ==> {
                    &&& made.changes.contains(Change::Lamports(a, world.left[k].lamports))
                    &&& made.changes.contains(Change::Data(a, world.left[k].data))
                }
        }),
{
    let (begun, request) = InvocationView::start::<P, E>(programs, program_id, count);
    let made = run(begun, request, world, borrowed);
    law_requests_carry_out(programs, program_id, count, world, borrowed);
    let infos = world.left;
    let answers = world.answers;
    assert forall|a: int| 0 <= a < account implies settles(infos, #[trigger] answers[a]) by {
        let key = answers[a].borrow->Ok_0.1;
        law_what_is_left_is_found(infos, key);
        if answers[a].borrow->Ok_0.0 && last_info(infos, key) is Some {
            let k = last_info(infos, key)->0;
            assert(infos[k].key == key);
            assert(answers[a].borrow == Ok::<(bool, Seq<u8>), E>((true, infos[k].key)));
        }
    }
    lemma_committed_up_to(infos, count as int, answers, 0, account);
    let own = committed(infos, count as int, answers, account).0;
    if answers[account].borrow is Ok {
        law_what_is_left_is_found(infos, infos[i].key);
        assert(last_info(infos, infos[i].key) == Some(i));
        let lamports = Change::Lamports(account, infos[i].lamports);
        if (answers[account].resizable)(infos[i].data.len() as usize)
            && !answers[account].changeable && answers[account].lamports is Ok {
            assert(own[0] == lamports);
            assert(own.contains(lamports));
        }
    }
    if !settles(infos, answers[account]) {
        assert forall|n: int| 0 <= n < made.changes.len() implies match #[trigger] made.changes[n] {
            Change::Lamports(a, _) => a <= account,
            Change::Data(a, _) => a < account,
        } by {
            lemma_changes_up_to(infos, count as int, answers, 0, account, n);
            law_only_writable_accounts_change(infos, count as int, answers, 0, n);
            lemma_change_is_left(infos, count as int, answers, 0, n);
        }
    }
    assert forall|a: int, k: int|
        #![trigger answers[a], infos[k]]
        0 <= a < account && 0 <= k < infos.len() && answers[a].borrow == Ok::<
            (bool, Seq<u8>),
            E,
        >((true, infos[k].key)) && (forall|j: int|
            k < j < infos.len() ==> (#[trigger] infos[j]).key != infos[k].key) implies {
        &&& made.changes.contains(Change::Lamports(a, infos[k].lamports))
        &&& made.changes.contains(Change::Data(a, infos[k].data))
    } by {
        law_what_is_left_is_found(infos, infos[k].key);
        assert(last_info(infos, infos[k].key) == Some(k));
    }
}

/// If the call ends well, every account that the instruction may change and that occurs in the list
/// of what the program left has the balance and the data of its last entry there, also if the
/// balance is zero or the data is empty.
pub proof fn law_everything_left_is_taken_over<P, E>(
    programs: Map<Seq<u8>, P>,
    program_id: Seq<u8>,
    count: usize,
    world: World<P, E>,
    borrowed: int,
    account: int,
    i: int,
)
    requires
        world.left.len() <= usize::MAX,
        0 <= account < count,
        0 <= i < world.left.len(),
        world.answers[account].borrow == Ok::<(bool, Seq<u8>), E>((true, world.left[i].key)),
        forall|j: int|
            i < j < world.left.len() ==> (#[trigger] world.left[j]).key != world.left[i].key,
        ({
            let (begun, request) = InvocationView::start::<P, E>(programs, program_id, count);
            run(begun, request, world, borrowed).outcome is Ok
        }),
    ensures
        ({
            let (begun, request) = InvocationView::start::<P, E>(programs, program_id, count);
            let changes = run(begun, request, world, borrowed).changes;
            &&& changes.contains(Change::Lamports(account, world.left[i].lamports))
            &&& changes.contains(Change::Data(account, world.left[i].data))
        }),
{
    law_requests_carry_out(programs, program_id, count, world, borrowed);
    law_what_is_left_is_found(world.left, world.left[i].key);
    assert(last_info(world.left, world.left[i].key) == Some(i));
    law_success_takes_everything_over(world.left, count as int, world.answers, 0, account);
}

/// What each change of the accounts from the given index on is.
proof fn lemma_change_is_left<E>(
    infos: Seq<AccountInfoView>,
    count: int,
    answers: Seq<Answers<E>>,
    index: int,
    n: int,
)
    requires
        0 <= n < committed(infos, count, answers, index).0.len(),
    ensures
        ({
            let change = committed(infos, count, answers, index).0[n];
            let answer = answers[changed_account(change)];
            let info = infos[last_info(infos, answer.borrow->Ok_0.1)->0];
            &&& (answer.resizable)(info.data.len() as usize)
            &&& answer.lamports is Ok
            &&& change matches Change::Lamports(_, lamports) ==> lamports == info.lamports
            &&& change matches Change::Data(_, data) ==> data == info.data && answer.data is Ok
        }),
    decreases count - index,
{
    if index < count {
        let rest = committed(infos, count, answers, index + 1).0;
        let all = committed(infos, count, answers, index).0;
        if all == rest {
            lemma_change_is_left(infos, count, answers, index + 1, n);
        } else if n >= 2 {
            assert(all[n] == rest[n - 2]);
            lemma_change_is_left(infos, count, answers, index + 1, n - 2);
        }
    }
}

/// Nothing is changed but what the program left: a change is of an account that the instruction may
/// change, and sets its balance or its data to that of the last entry for it in the list of what
/// the program left. The runtime has agreed to each of them.
pub proof fn law_nothing_else_is_changed<P, E>(
    programs: Map<Seq<u8>, P>,
    program_id: Seq<u8>,
    count: usize,
    world: World<P, E>,
    borrowed: int,
    n: int,
)
    requires
        world.left.len() <= usize::MAX,
        ({
            let (begun, request) = InvocationView::start::<P, E>(programs, program_id, count);
            0 <= n < run(begun, request, world, borrowed).changes.len()
        }),
    ensures
        ({
            let (begun, request) = InvocationView::start::<P, E>(programs, program_id, count);
            let change = run(begun, request, world, borrowed).changes[n];
            let account = match change {
                Change::Lamports(account, _) => account,
                Change::Data(account, _) => account,
            };
            let answer = world.answers[account];
            &&& programs.contains_key(program_id)
            &&& (world.exit)(programs[program_id]) == 0
            &&& 0 <= account < count
            &&& answer.borrow is Ok
            &&& answer.borrow->Ok_0.0
            &&& !answer.changeable
            &&& answer.lamports is Ok
            &&& exists|i: int|
                #![trigger world.left[i]]
                0 <= i < world.left.len() && world.left[i].key == answer.borrow->Ok_0.1 && (forall|
                    j: int,
                |
                    i < j < world.left.len() ==> (#[trigger] world.left[j]).key
                        != world.left[i].key) && (answer.resizable)(
                    world.left[i].data.len() as usize,
                ) && match change {
                    Change::Lamports(_, lamports) => lamports == world.left[i].lamports,
                    Change::Data(_, data) => data == world.left[i].data && answer.data is Ok,
                }
        }),
{
    law_requests_carry_out(programs, program_id, count, world, borrowed);
    law_only_writable_accounts_change(world.left, count as int, world.answers, 0, n);
    lemma_change_is_left(world.left, count as int, world.answers, 0, n);
    let change = committed(world.left, count as int, world.answers, 0).0[n];
    let key = world.answers[changed_account(change)].borrow->Ok_0.1;
    law_what_is_left_is_found(world.left, key);
    let i = last_info(world.left, key)->0;
    assert(last_info(world.left, key) == Some(i));
    assert(world.left[i].key == key);
}

/// The changes of the accounts from the given index on are in order.
proof fn lemma_changes_in_order<E>(
    infos: Seq<AccountInfoView>,
    count: int,
    answers: Seq<Answers<E>>,
    index: int,
    m: int,
    n: int,
)
    requires
        0 <= m < n < committed(infos, count, answers, index).0.len(),
    ensures
        ({
            let one = committed(infos, count, answers, index).0[m];
            let other = committed(infos, count, answers, index).0[n];
            changed_account(one) < changed_account(other) || (changed_account(one)
                == changed_account(other) && one is Lamports && other is Data)
        }),
    decreases count - index,
{
    if index < count {
        let rest = committed(infos, count, answers, index + 1).0;
        let all = committed(infos, count, answers, index).0;
        if all == rest {
            lemma_changes_in_order(infos, count, answers, index + 1, m, n);
        } else if n >= 2 {
            assert(all[n] == rest[n - 2]);
            law_only_writable_accounts_change(infos, count, answers, index + 1, n - 2);
            if m >= 2 {
                assert(all[m] == rest[m - 2]);
                lemma_changes_in_order(infos, count, answers, index + 1, m - 2, n - 2);
            }
        }
    }
}

/// The accounts are changed in their order in the instruction, each at most once, and its balance
/// before its data.
pub proof fn law_changes_come_in_order<P, E>(
    programs: Map<Seq<u8>, P>,
    program_id: Seq<u8>,
    count: usize,
    world: World<P, E>,
    borrowed: int,
    m: int,
    n: int,
)
    requires
        world.left.len() <= usize::MAX,
        ({
            let (begun, request) = InvocationView::start::<P, E>(programs, program_id, count);
            0 <= m < n < run(begun, request, world, borrowed).changes.len()
        }),
    ensures
        ({
            let (begun, request) = InvocationView::start::<P, E>(programs, program_id, count);
            let changes = run(begun, request, world, borrowed).changes;
            match (changes[m], changes[n]) {
                (Change::Lamports(a, _), Change::Lamports(b, _)) => a < b,
                (Change::Lamports(a, _), Change::Data(b, _)) => a <= b,
                (Change::Data(a, _), Change::Lamports(b, _)) => a < b,
                (Change::Data(a, _), Change::Data(b, _)) => a < b,
            }
        }),
{
    law_requests_carry_out(programs, program_id, count, world, borrowed);
    lemma_changes_in_order(world.left, count as int, world.answers, 0, m, n);
}

/// A program that does not end well ends the call with the error that its code stands for.
pub proof fn law_codes_end_calls<P, E>(
    programs: Map<Seq<u8>, P>,
    program_id: Seq<u8>,
    count: usize,
    world: World<P, E>,
    borrowed: int,
)
    requires
        world.left.len() <= usize::MAX,
        programs.contains_key(program_id),
        (world.exit)(programs[program_id]) != 0,
    ensures
        ({
            let (begun, request) = InvocationView::start::<P, E>(programs, program_id, count);
            run(begun, request, world, borrowed).outcome == Err::<(), HandlerError<E>>(
                HandlerError::Program(
                    InstructionError::from_exit((world.exit)(programs[program_id])),
                ),
            )
        }),
{
    law_requests_carry_out(programs, program_id, count, world, borrowed);
}

/// The values of what a program left, and of replies, are those that they hold.
pub proof fn law_views_hold_everything<E>(infos: Seq<AccountInfo>, reply: Reply<E>, i: int)
    requires
        0 <= i < infos.len(),
    ensures
        info_views(infos).len() == infos.len(),
        info_views(infos)[i].key == infos[i].key.0@,
        info_views(infos)[i].lamports == infos[i].lamports,
        info_views(infos)[i].data == infos[i].data@,
        match (reply, reply@) {
            (Reply::Exited(code), ReplyView::Exited(seen)) => code == seen,
            (Reply::Left(list), ReplyView::Left(seen)) => seen == info_views(list@),
            (Reply::Borrowed { writable, key }, ReplyView::Borrowed { writable: w, key: k }) => w
                == writable && k == key.0@,
            (Reply::Answer(yes), ReplyView::Answer(seen)) => yes == seen,
            (Reply::Done, ReplyView::Done) => true,
            (Reply::Refused(error), ReplyView::Refused(seen)) => error == seen,
            _ => false,
        },
{
}

/// The log says so where a call ends because of a size or because of data that may be changed, and
/// only there. Besides that it has the line for the call first, then the one for how the program
/// ended, and nothing else.
pub proof fn law_log_tells_why_calls_end<P, E>(
    programs: Map<Seq<u8>, P>,
    program_id: Seq<u8>,
    count: usize,
    world: World<P, E>,
    borrowed: int,
)
    requires
        world.left.len() <= usize::MAX,
    ensures
        ({
            let (begun, request) = InvocationView::start::<P, E>(programs, program_id, count);
            let made = run(begun, request, world, borrowed);
            &&& made.lines.contains(LogLine::ResizeBeyondLimits) <==> made.outcome == Err::<
                (),
                HandlerError<E>,
            >(HandlerError::InvalidRealloc)
            &&& made.lines.contains(LogLine::ReadOnlyData) <==> made.outcome == Err::<
                (),
                HandlerError<E>,
            >(HandlerError::ReadonlyDataModified)
            &&& !programs.contains_key(program_id) ==> made.lines.len() == 0
            &&& programs.contains_key(program_id) && (world.exit)(programs[program_id]) != 0
                ==> made.lines.len() == 2
            &&& programs.contains_key(program_id) && (world.exit)(programs[program_id]) == 0
                ==> made.lines.len() == if made.lines.contains(LogLine::ResizeBeyondLimits)
                || made.lines.contains(LogLine::ReadOnlyData) {
                3int
            } else {
                2int
            }
            &&& programs.contains_key(program_id) ==> made.lines[0] == LogLine::Invoke
        }),
{
    let (begun, request) = InvocationView::start::<P, E>(programs, program_id, count);
    let made = run(begun, request, world, borrowed);
    law_requests_carry_out(programs, program_id, count, world, borrowed);
    lemma_committed_outcomes(world.left, count as int, world.answers, 0);
    if programs.contains_key(program_id) && (world.exit)(programs[program_id]) == 0 {
        if made.outcome is Err && !(made.outcome->Err_0 is Runtime) {
            assert(made.lines[2] == made.outcome->Err_0.line()->0);
        }
    }
}

} // verus!
